use chime::clock::{Span, TimeZone, Weekday};
use chime::config::{
    Config, ConfigDoc, ConfigError, DayOfMonthError, DayOfMonthSet, FieldError, Impact,
    IntervalError, LogLevel, Message, PageName, PollInterval, PollIntervalError, ReminderDoc,
    Reminder, ReminderName, Schedule, ScheduleError, StatusPage, StatusPageDoc, System, SystemDoc,
    TickInterval, TimeError, TimeOfDay, WebhookRef, WeekdayError, WeekdaySet,
};
use chime::links::{HttpsUrl, ParsedUrl, UrlError};

fn text(table: &toml::Table, key: &str) -> String {
    table[key].as_str().unwrap().to_string()
}

fn optional_text(table: &toml::Table, key: &str) -> Option<String> {
    table.get(key).map(|v| v.as_str().unwrap().to_string())
}

fn tables(table: &toml::Table, key: &str) -> Vec<toml::Table> {
    match table.get(key) {
        Some(list) => list
            .as_array()
            .unwrap()
            .iter()
            .map(|v| v.as_table().unwrap().clone())
            .collect(),
        None => Vec::new(),
    }
}

fn reminder_doc(table: &toml::Table) -> ReminderDoc {
    ReminderDoc {
        name: text(table, "name"),
        time: text(table, "time"),
        days: table.get("days").map(|days| {
            days.as_array()
                .unwrap()
                .iter()
                .map(|d| d.as_str().unwrap().to_string())
                .collect()
        }),
        day_of_month: table.get("day_of_month").map(|days| {
            days.as_array()
                .unwrap()
                .iter()
                .map(|d| d.as_integer().unwrap())
                .collect()
        }),
        message: text(table, "message"),
        webhook: text(table, "webhook"),
    }
}

fn page_doc(table: &toml::Table) -> StatusPageDoc {
    StatusPageDoc {
        name: text(table, "name"),
        url: text(table, "url"),
        webhook: text(table, "webhook"),
        display_name: optional_text(table, "display_name"),
        avatar_url: optional_text(table, "avatar_url"),
        poll_interval_sec: table.get("poll_interval_sec").map(|n| n.as_integer().unwrap()),
        min_impact: optional_text(table, "min_impact"),
    }
}

/// The tables of a configuration file.
fn doc(toml: &str) -> ConfigDoc {
    let table: toml::Table = toml.parse().unwrap();
    let system = table["system"].as_table().unwrap();
    ConfigDoc {
        system: SystemDoc {
            log_level: optional_text(system, "log_level"),
            tick_interval_sec: system["tick_interval_sec"].as_integer().unwrap(),
            timezone: text(system, "timezone"),
        },
        reminders: tables(&table, "reminders").iter().map(reminder_doc).collect(),
        status_pages: tables(&table, "status_pages").iter().map(page_doc).collect(),
    }
}

#[test]
fn time_of_day_valid() {
    assert_eq!(
        "09:30".parse::<TimeOfDay>().unwrap(),
        TimeOfDay {
            hour: 9,
            minute: 30
        }
    );
    assert_eq!(
        "00:00".parse::<TimeOfDay>().unwrap(),
        TimeOfDay { hour: 0, minute: 0 }
    );
    assert_eq!(
        "23:59".parse::<TimeOfDay>().unwrap(),
        TimeOfDay {
            hour: 23,
            minute: 59
        }
    );
}

#[test]
fn time_of_day_invalid_hour() {
    assert!(matches!(
        "24:00".parse::<TimeOfDay>(),
        Err(TimeError::Hour(24))
    ));
}

#[test]
fn time_of_day_invalid_minute() {
    assert!(matches!(
        "12:60".parse::<TimeOfDay>(),
        Err(TimeError::Minute(60))
    ));
}

#[test]
fn time_of_day_invalid_format() {
    assert!(matches!(
        "9-30".parse::<TimeOfDay>(),
        Err(TimeError::Format(_))
    ));
    assert!(matches!(
        "ab:cd".parse::<TimeOfDay>(),
        Err(TimeError::Format(_))
    ));
}

#[test]
fn time_of_day_is_two_digits_a_colon_and_two_digits() {
    for bad in [
        "", ":", "9:30", "9:5", "09:5", "+9:30", "+9:030", "009:30", "09:300", "100:00", "9:",
        ":30", "09:30:00", " 9:30", "09:30 ", "-1:30", "09:3x", "0930", "09.30", "09：30",
        "０9:30", "99:9+",
    ] {
        match TimeOfDay::try_from(bad.to_string()) {
            Err(TimeError::Format(text)) => assert_eq!(text, bad),
            other => panic!("{bad}: {other:?}"),
        }
    }
    // The hour is looked at first.
    assert!(matches!(
        "99:99".parse::<TimeOfDay>(),
        Err(TimeError::Hour(99))
    ));
    for hour in 0..24u32 {
        for minute in 0..60u32 {
            assert_eq!(
                format!("{hour:02}:{minute:02}").parse::<TimeOfDay>().unwrap(),
                TimeOfDay { hour, minute }
            );
        }
    }
}

#[test]
fn weekday_set_every_expands_all() {
    let ws = WeekdaySet::try_from(vec!["every".to_string()]).unwrap();
    for d in [
        Weekday::Mon,
        Weekday::Tue,
        Weekday::Wed,
        Weekday::Thu,
        Weekday::Fri,
        Weekday::Sat,
        Weekday::Sun,
    ] {
        assert!(ws.contains(d), "every should contain {:?}", d);
    }
}

#[test]
fn weekday_set_specific_days() {
    let ws = WeekdaySet::try_from(vec!["mon".to_string(), "fri".to_string()]).unwrap();
    assert!(ws.contains(Weekday::Mon));
    assert!(ws.contains(Weekday::Fri));
    assert!(!ws.contains(Weekday::Tue));
    assert!(!ws.contains(Weekday::Sun));
}

#[test]
fn weekday_set_empty_errors() {
    assert!(matches!(
        WeekdaySet::try_from(vec![]),
        Err(WeekdayError::Empty)
    ));
}

#[test]
fn weekday_set_unknown_errors() {
    assert!(matches!(
        WeekdaySet::try_from(vec!["funday".to_string()]),
        Err(WeekdayError::Unknown(_))
    ));
}

#[test]
fn weekday_set_ignores_case_and_reports_words_as_written() {
    let ws = WeekdaySet::try_from(vec!["MoN".to_string(), "EVERY".to_string()]).unwrap();
    assert!(ws.contains(Weekday::Sun));
    let ws = WeekdaySet::try_from(vec!["Wed".to_string(), "wed".to_string()]).unwrap();
    assert!(ws.contains(Weekday::Wed));
    assert!(!ws.contains(Weekday::Thu));
    match WeekdaySet::try_from(vec![
        "tue".to_string(),
        "FunDay".to_string(),
        "noday".to_string(),
    ]) {
        Err(WeekdayError::Unknown(word)) => assert_eq!(word, "FunDay"),
        other => panic!("{other:?}"),
    }
    // A bad word is refused even where `every` has been seen.
    assert!(matches!(
        WeekdaySet::try_from(vec!["every".to_string(), "".to_string()]),
        Err(WeekdayError::Unknown(_))
    ));
}

#[test]
fn day_of_month_set_single_and_multiple() {
    let single = DayOfMonthSet::try_from(vec![18]).unwrap();
    assert!(single.contains(18));
    assert!(!single.contains(17));

    let multi = DayOfMonthSet::try_from(vec![1, 15, 31]).unwrap();
    assert!(multi.contains(1));
    assert!(multi.contains(15));
    assert!(multi.contains(31));
    assert!(!multi.contains(2));
    // Days outside 1..=31 are never contained.
    assert!(!multi.contains(0));
    assert!(!multi.contains(32));
}

#[test]
fn day_of_month_set_empty_errors() {
    assert!(matches!(
        DayOfMonthSet::try_from(vec![]),
        Err(DayOfMonthError::Empty)
    ));
}

#[test]
fn day_of_month_set_out_of_range_errors() {
    assert!(matches!(
        DayOfMonthSet::try_from(vec![0]),
        Err(DayOfMonthError::OutOfRange(0))
    ));
    assert!(matches!(
        DayOfMonthSet::try_from(vec![32]),
        Err(DayOfMonthError::OutOfRange(32))
    ));
}

#[test]
fn day_of_month_set_reports_the_first_bad_day() {
    assert!(matches!(
        DayOfMonthSet::try_from(vec![1, -7, 40]),
        Err(DayOfMonthError::OutOfRange(-7))
    ));
}

#[test]
fn non_empty_newtypes_reject_empty_and_whitespace() {
    assert!(ReminderName::try_from(String::new()).is_err());
    assert!(ReminderName::try_from("   ".to_string()).is_err());
    assert!(Message::try_from("\t\n".to_string()).is_err());
    assert!(WebhookRef::try_from("".to_string()).is_err());
    assert_eq!(
        ReminderName::try_from(" foo ".to_string())
            .unwrap()
            .as_str(),
        "foo"
    );
}

#[test]
fn empty_fields_are_named() {
    assert_eq!(ReminderName::new(" ").unwrap_err().0, "name");
    assert_eq!(Message::new("").unwrap_err().0, "message");
    assert_eq!(WebhookRef::new("\u{3000}").unwrap_err().0, "webhook");
    assert_eq!(PageName::new("\n").unwrap_err().0, "name");
    // White space within a text is kept.
    assert_eq!(Message::new("\u{a0}a \t b\r\n").unwrap().as_str(), "a \t b");
}

#[test]
fn texts_are_copied_and_compared() {
    let name = ReminderName::new(" a ").unwrap();
    assert_eq!(name.clone(), name);
    assert_eq!(name.clone().as_str(), "a");
    assert_ne!(name, ReminderName::new("b").unwrap());
    let names: std::collections::HashSet<ReminderName> =
        vec![name.clone(), name].into_iter().collect();
    assert_eq!(names.len(), 1);
    assert_eq!(Message::new("m").unwrap().clone().as_str(), "m");
    assert_eq!(WebhookRef::new("w").unwrap().clone().as_str(), "w");
    assert_eq!(PageName::new("p").unwrap().clone().as_str(), "p");
    let cfg = Config::from_toml(&doc(good_toml())).unwrap();
    assert_eq!(cfg.clone().reminders[0].name, cfg.reminders[0].name);
}

#[test]
fn webhook_ref_env_key_normalizes() {
    let w = WebhookRef::try_from("team".to_string()).unwrap();
    assert_eq!(w.env_key(), "CHIME_WEBHOOK_TEAM");
    let w = WebhookRef::try_from("on-call".to_string()).unwrap();
    assert_eq!(w.env_key(), "CHIME_WEBHOOK_ON_CALL");
    let w = WebhookRef::try_from("team.alpha".to_string()).unwrap();
    assert_eq!(w.env_key(), "CHIME_WEBHOOK_TEAM_ALPHA");
}

#[test]
fn env_keys_are_portable() {
    let w = WebhookRef::new("Öps 2").unwrap();
    assert_eq!(w.env_key(), "CHIME_WEBHOOK__PS_2");
    assert_eq!(w.file_key(), "CHIME_WEBHOOK__PS_2_FILE");
    assert_eq!(
        WebhookRef::new("TEAM").unwrap().env_key(),
        WebhookRef::new("team").unwrap().env_key()
    );
}

#[test]
fn tick_interval_bounds() {
    assert!(TickInterval::try_from(0).is_err());
    assert!(TickInterval::try_from(61).is_err());
    assert_eq!(
        TickInterval::try_from(1).unwrap().as_duration(),
        Span::from_secs(1)
    );
    assert_eq!(
        TickInterval::try_from(60).unwrap().as_duration(),
        Span::from_secs(60)
    );
}

#[test]
fn poll_interval_bounds() {
    assert_eq!(
        PollInterval::new(Some(59)),
        Err(PollIntervalError::OutOfRange(59))
    );
    assert_eq!(
        PollInterval::new(Some(3601)),
        Err(PollIntervalError::OutOfRange(3601))
    );
    assert_eq!(
        PollInterval::new(Some(60)).unwrap().as_duration(),
        Span::from_secs(60)
    );
    assert_eq!(
        PollInterval::new(Some(3600)).unwrap().as_duration(),
        Span::from_secs(3600)
    );
    assert_eq!(
        PollInterval::new(None).unwrap().as_duration(),
        Span::from_secs(300)
    );
}

#[test]
fn severities_are_ordered_and_labelled() {
    let words = ["none", "maintenance", "minor", "major", "critical"];
    let labels = ["None", "Maintenance", "Minor", "Major", "Critical"];
    for i in 0..words.len() {
        let lower = Impact::from_wire(words[i]).unwrap();
        assert_eq!(lower.label(), labels[i]);
        for j in 0..words.len() {
            let other = Impact::from_wire(words[j]).unwrap();
            assert_eq!(lower.below(other), i < j);
        }
    }
    assert_eq!(Impact::from_wire("Minor"), None);
    assert_eq!(Impact::from_wire("catastrophic"), None);
}

#[test]
fn log_levels_are_named_in_lower_case() {
    for (word, level) in [
        ("debug", LogLevel::Debug),
        ("info", LogLevel::Info),
        ("warn", LogLevel::Warn),
        ("error", LogLevel::Error),
    ] {
        assert_eq!(LogLevel::from_name(word), Some(level));
        assert_eq!(level.directive(), word);
    }
    assert_eq!(LogLevel::from_name("INFO"), None);
    assert_eq!(LogLevel::default(), LogLevel::Info);
}

fn good_toml() -> &'static str {
    r#"
[system]
tick_interval_sec = 30
timezone = "Asia/Tokyo"

[[reminders]]
name = "daily-standup"
time = "09:30"
days = ["mon", "tue", "wed", "thu", "fri"]
message = "Standup!"
webhook = "team"
"#
}

#[test]
fn config_from_toml_ok() {
    let cfg = Config::from_toml(&doc(good_toml())).unwrap();
    assert_eq!(cfg.reminders.len(), 1);
    assert_eq!(cfg.system.log_level, LogLevel::Info);
    assert_eq!(
        cfg.system.tick_interval_sec.as_duration(),
        Span::from_secs(30)
    );
}

#[test]
fn config_rejects_duplicate_names() {
    let t = r#"
[system]
tick_interval_sec = 30
timezone = "Asia/Tokyo"

[[reminders]]
name = "x"
time = "09:30"
days = ["mon"]
message = "a"
webhook = "team"

[[reminders]]
name = "x"
time = "10:30"
days = ["tue"]
message = "b"
webhook = "team"
"#;
    assert!(matches!(
        Config::from_toml(&doc(t)),
        Err(ConfigError::DuplicateName(_))
    ));
}

#[test]
fn config_rejects_empty_reminders() {
    let t = r#"
[system]
tick_interval_sec = 30
timezone = "Asia/Tokyo"
"#;
    assert!(matches!(
        Config::from_toml(&doc(t)),
        Err(ConfigError::NoReminders)
    ));
}

#[test]
fn config_rejects_unknown_weekday() {
    let t = r#"
[system]
tick_interval_sec = 30
timezone = "Asia/Tokyo"

[[reminders]]
name = "x"
time = "09:30"
days = ["funday"]
message = "a"
webhook = "team"
"#;
    assert!(matches!(
        Config::from_toml(&doc(t)),
        Err(ConfigError::Toml(_))
    ));
}

#[test]
fn config_rejects_invalid_time() {
    let t = r#"
[system]
tick_interval_sec = 30
timezone = "Asia/Tokyo"

[[reminders]]
name = "x"
time = "24:00"
days = ["mon"]
message = "a"
webhook = "team"
"#;
    assert!(matches!(
        Config::from_toml(&doc(t)),
        Err(ConfigError::Toml(_))
    ));
}

#[test]
fn config_rejects_unknown_timezone() {
    let t = r#"
[system]
tick_interval_sec = 30
timezone = "Mars/Olympus"

[[reminders]]
name = "x"
time = "09:30"
days = ["mon"]
message = "a"
webhook = "team"
"#;
    assert!(matches!(
        Config::from_toml(&doc(t)),
        Err(ConfigError::Toml(_))
    ));
}

#[test]
fn config_accepts_day_of_month() {
    let t = r#"
[system]
tick_interval_sec = 30
timezone = "Asia/Tokyo"

[[reminders]]
name = "salary-day"
time = "15:00"
day_of_month = [18]
message = "Payday!"
webhook = "team"
"#;
    let cfg = Config::from_toml(&doc(t)).unwrap();
    assert!(matches!(
        cfg.reminders[0].schedule(),
        Ok(Schedule::Monthly(_))
    ));
}

#[test]
fn config_rejects_reminder_without_schedule() {
    let t = r#"
[system]
tick_interval_sec = 30
timezone = "Asia/Tokyo"

[[reminders]]
name = "x"
time = "09:30"
message = "a"
webhook = "team"
"#;
    assert!(matches!(
        Config::from_toml(&doc(t)),
        Err(ConfigError::Schedule {
            source: ScheduleError::Missing,
            ..
        })
    ));
}

#[test]
fn config_rejects_reminder_with_both_schedules() {
    let t = r#"
[system]
tick_interval_sec = 30
timezone = "Asia/Tokyo"

[[reminders]]
name = "x"
time = "09:30"
days = ["mon"]
day_of_month = [1]
message = "a"
webhook = "team"
"#;
    assert!(matches!(
        Config::from_toml(&doc(t)),
        Err(ConfigError::Schedule {
            source: ScheduleError::Conflict,
            ..
        })
    ));
}

fn pages_toml() -> &'static str {
    r#"
[system]
log_level = "debug"
tick_interval_sec = 30
timezone = "Asia/Tokyo"

[[status_pages]]
name = "proton"
url = "https://status.proton.com"
webhook = "team"
display_name = "Proton Status"
avatar_url = "https://example.com/proton.png"
poll_interval_sec = 120
min_impact = "minor"

[[status_pages]]
name = "github"
url = "HTTPS://Status.GitHub.COM/"
webhook = "team"
"#
}

#[test]
fn status_pages_alone_are_enough() {
    let cfg = Config::from_toml(&doc(pages_toml())).unwrap();
    assert_eq!(cfg.system.log_level, LogLevel::Debug);
    assert_eq!(cfg.system.timezone.name(), "Asia/Tokyo");
    assert!(cfg.reminders.is_empty());
    let proton = &cfg.status_pages[0];
    assert_eq!(proton.name.as_str(), "proton");
    assert_eq!(proton.url.as_str(), "https://status.proton.com/");
    assert_eq!(proton.url.host(), "status.proton.com");
    assert_eq!(proton.display_name.as_deref(), Some("Proton Status"));
    assert_eq!(
        proton.avatar_url.as_ref().unwrap().as_str(),
        "https://example.com/proton.png"
    );
    assert_eq!(proton.poll_interval_sec.as_duration(), Span::from_secs(120));
    assert_eq!(proton.min_impact, Impact::Minor);
    let github = &cfg.status_pages[1];
    assert_eq!(github.url.as_str(), "https://status.github.com/");
    assert!(github.display_name.is_none());
    assert!(github.avatar_url.is_none());
    assert_eq!(github.poll_interval_sec.as_duration(), Span::from_secs(300));
    assert_eq!(github.min_impact, Impact::NoImpact);
}

fn field_error(doc: &ConfigDoc) -> FieldError {
    match Config::from_toml(doc) {
        Err(ConfigError::Toml(e)) => e,
        other => panic!("{other:?}"),
    }
}

#[test]
fn every_bad_field_is_told() {
    let good = doc(good_toml());
    let mut d = good.clone();
    d.system.log_level = Some("loud".to_string());
    assert!(matches!(field_error(&d), FieldError::LogLevel(name) if name == "loud"));
    let mut d = good.clone();
    d.system.tick_interval_sec = 61;
    assert!(matches!(
        field_error(&d),
        FieldError::Interval(IntervalError::OutOfRange(61))
    ));
    let mut d = good.clone();
    d.system.timezone = "Mars/Olympus".to_string();
    assert!(matches!(field_error(&d), FieldError::Timezone(name) if name == "Mars/Olympus"));
    let mut d = good.clone();
    d.reminders[0].name = " ".to_string();
    assert!(matches!(field_error(&d), FieldError::Empty(e) if e.0 == "name"));
    let mut d = good.clone();
    d.reminders[0].time = "24:00".to_string();
    assert!(matches!(
        field_error(&d),
        FieldError::Time(TimeError::Hour(24))
    ));
    let mut d = good.clone();
    d.reminders[0].days = Some(vec![]);
    assert!(matches!(
        field_error(&d),
        FieldError::Weekday(WeekdayError::Empty)
    ));
    let mut d = good.clone();
    d.reminders[0].day_of_month = Some(vec![0]);
    assert!(matches!(
        field_error(&d),
        FieldError::DayOfMonth(DayOfMonthError::OutOfRange(0))
    ));
    let mut d = good.clone();
    d.reminders[0].message = "".to_string();
    assert!(matches!(field_error(&d), FieldError::Empty(e) if e.0 == "message"));
    let mut d = good.clone();
    d.reminders[0].webhook = "\t".to_string();
    assert!(matches!(field_error(&d), FieldError::Empty(e) if e.0 == "webhook"));

    let good = doc(pages_toml());
    let mut d = good.clone();
    d.status_pages[0].name = "".to_string();
    assert!(matches!(field_error(&d), FieldError::Empty(e) if e.0 == "name"));
    let mut d = good.clone();
    d.status_pages[1].url = "http://status.github.com".to_string();
    assert!(
        matches!(field_error(&d), FieldError::Url(UrlError::NotHttps(scheme)) if scheme == "http")
    );
    let mut d = good.clone();
    d.status_pages[0].avatar_url = Some("no url".to_string());
    assert!(matches!(
        field_error(&d),
        FieldError::Url(UrlError::Parse(_))
    ));
    let mut d = good.clone();
    d.status_pages[0].webhook = "".to_string();
    assert!(matches!(field_error(&d), FieldError::Empty(e) if e.0 == "webhook"));
    let mut d = good.clone();
    d.status_pages[0].poll_interval_sec = Some(59);
    assert!(matches!(
        field_error(&d),
        FieldError::PollInterval(PollIntervalError::OutOfRange(59))
    ));
    let mut d = good.clone();
    d.status_pages[0].min_impact = Some("severe".to_string());
    assert!(matches!(field_error(&d), FieldError::Impact(name) if name == "severe"));
}

#[test]
fn rules_are_checked_after_the_fields() {
    let mut d = doc(pages_toml());
    d.status_pages[1].name = " proton ".to_string();
    assert!(matches!(
        Config::from_toml(&d),
        Err(ConfigError::DuplicateStatusPage(name)) if name == "proton"
    ));
    // A reminder and a status page may share a name.
    d.status_pages[1].name = "github".to_string();
    d.reminders = doc(good_toml()).reminders;
    d.reminders[0].name = "proton".to_string();
    assert!(Config::from_toml(&d).is_ok());
    // A duplicate that has no schedule either is a duplicate.
    let mut twin = d.reminders[0].clone();
    twin.days = None;
    d.reminders.push(twin);
    assert!(matches!(
        Config::from_toml(&d),
        Err(ConfigError::DuplicateName(name)) if name == "proton"
    ));
    // A bad field anywhere comes before either.
    d.status_pages[1].min_impact = Some("severe".to_string());
    assert!(matches!(
        Config::from_toml(&d),
        Err(ConfigError::Toml(FieldError::Impact(_)))
    ));
}

#[test]
fn schedule_errors_name_the_reminder() {
    let mut d = doc(good_toml());
    d.reminders[0].days = None;
    assert!(matches!(
        Config::from_toml(&d),
        Err(ConfigError::Schedule { name, source: ScheduleError::Missing })
            if name == "daily-standup"
    ));
}

#[test]
fn tables_are_read_one_by_one() {
    let d = doc(pages_toml());
    let zone = TimeZone::new("UTC");
    assert_eq!(
        System::with_zone(&d.system, zone).unwrap().timezone.name(),
        "UTC"
    );
    assert!(matches!(
        System::with_zone(&d.system, None),
        Err(FieldError::Timezone(name)) if name == "Asia/Tokyo"
    ));
    let link = || {
        HttpsUrl::from_parsed(Ok(ParsedUrl {
            text: "t".to_string(),
            scheme: "https".to_string(),
            host: Some("h".to_string()),
        }))
    };
    let page = StatusPage::with_links(&d.status_pages[1], link(), Ok(None)).unwrap();
    assert_eq!(page.url.host(), "h");
    assert!(matches!(
        StatusPage::with_links(&d.status_pages[1], link(), Err(UrlError::NoHost)),
        Err(FieldError::Url(UrlError::NoHost))
    ));
    assert!(matches!(
        StatusPage::with_links(&d.status_pages[1], Err(UrlError::NoHost), Ok(None)),
        Err(FieldError::Url(UrlError::NoHost))
    ));
    let reminder = Reminder::from_doc(&doc(good_toml()).reminders[0]).unwrap();
    assert_eq!(reminder.time, TimeOfDay { hour: 9, minute: 30 });
    assert!(reminder.days.unwrap().contains(Weekday::Fri));
}

#[test]
fn the_rules_hold_of_any_parts() {
    let d = doc(good_toml());
    let system = || System::from_doc(&d.system).unwrap();
    let reminder = || Reminder::from_doc(&d.reminders[0]).unwrap();
    let page = || StatusPage::from_doc(&doc(pages_toml()).status_pages[0]).unwrap();
    assert!(matches!(
        Config::new(system(), vec![], vec![]),
        Err(ConfigError::NoReminders)
    ));
    assert!(Config::new(system(), vec![reminder()], vec![page()]).is_ok());
    assert!(matches!(
        Config::new(system(), vec![reminder(), reminder()], vec![]),
        Err(ConfigError::DuplicateName(name)) if name == "daily-standup"
    ));
    assert!(matches!(
        Config::new(system(), vec![], vec![page(), page()]),
        Err(ConfigError::DuplicateStatusPage(name)) if name == "proton"
    ));
}
