use chime::cli::{config_path, parse_command, Command};

fn args(args: &[&str]) -> Vec<String> {
    args.iter().map(|a| a.to_string()).collect()
}

#[test]
fn no_argument_runs_the_daemon() {
    assert_eq!(parse_command(&args(&[])), Ok(Command::Daemon));
    assert_eq!(parse_command(&args(&["chime"])), Ok(Command::Daemon));
}

#[test]
fn health_takes_no_arguments() {
    assert_eq!(
        parse_command(&args(&["chime", "health"])),
        Ok(Command::Health)
    );
    assert_eq!(
        parse_command(&args(&["chime", "health", "now"])),
        Err("`health` takes no arguments".to_string())
    );
}

#[test]
fn other_arguments_are_unknown() {
    assert_eq!(
        parse_command(&args(&["chime", "--help"])),
        Err("unknown argument: --help".to_string())
    );
    assert_eq!(
        parse_command(&args(&["chime", "Health", "x"])),
        Err("unknown argument: Health".to_string())
    );
}

#[test]
fn config_path_default_and_override() {
    assert_eq!(config_path(None), "/etc/chime/config.toml");
    assert_eq!(config_path(Some("./c.toml".to_string())), "./c.toml");
}
