use chime::clock::{LocalTime, Moment, Span, TimeZone};
use chime::config::{
    Config, ConfigDoc, DayOfMonthSet, Impact, LogLevel, ReminderDoc, Schedule, ScheduleError,
    StatusPageDoc, SystemDoc, TimeOfDay, WebhookRef, WeekdaySet,
};
use chime::links::ParsedUrl;
use chime::names::NameMap;
use chime::runtime::{
    api_url, resolve, resolve_webhook, run_reminder, run_status_page, webhook_url, webhook_value,
    ResolveError, RunReminder, Secret, SecretFile, WebhookError,
};
use chrono::TimeZone as ChronoZone;
use chrono_tz::Asia::Tokyo;

fn mk_reminder(name: &str, hour: u32, minute: u32, days: Vec<&str>) -> RunReminder {
    let days_set =
        WeekdaySet::try_from(days.iter().map(|s| s.to_string()).collect::<Vec<_>>()).unwrap();
    mk_reminder_with_schedule(name, hour, minute, Schedule::Weekly(days_set))
}

fn mk_reminder_monthly(name: &str, hour: u32, minute: u32, days: Vec<i64>) -> RunReminder {
    let days_set = DayOfMonthSet::try_from(days).unwrap();
    mk_reminder_with_schedule(name, hour, minute, Schedule::Monthly(days_set))
}

fn mk_reminder_with_schedule(
    name: &str,
    hour: u32,
    minute: u32,
    schedule: Schedule,
) -> RunReminder {
    RunReminder {
        name: name.to_string(),
        time: TimeOfDay { hour, minute },
        schedule,
        message: format!("{name} message"),
        webhook_url: "https://discord.example/webhook".to_string(),
    }
}

fn dt(year: i32, month: u32, day: u32, hour: u32, minute: u32) -> LocalTime {
    dt_seconds(year, month, day, hour, minute, 0)
}

fn dt_seconds(year: i32, month: u32, day: u32, hour: u32, minute: u32, second: u32) -> LocalTime {
    let t = Tokyo
        .with_ymd_and_hms(year, month, day, hour, minute, second)
        .single()
        .unwrap();
    LocalTime::in_zone(
        Moment::new(t.timestamp(), 0).unwrap(),
        &TimeZone::new("Asia/Tokyo").unwrap(),
    )
}

#[test]
fn fires_at_matches_minute_and_weekday() {
    // 2026-06-05 is a Friday.
    let r = mk_reminder("daily", 9, 30, vec!["fri"]);
    assert!(r.fires_at(&dt(2026, 6, 5, 9, 30)));
    // Different minute.
    assert!(!r.fires_at(&dt(2026, 6, 5, 9, 31)));
    // Different hour.
    assert!(!r.fires_at(&dt(2026, 6, 5, 10, 30)));
    // Wrong weekday (Saturday).
    assert!(!r.fires_at(&dt(2026, 6, 6, 9, 30)));
}

#[test]
fn fires_at_ignores_seconds() {
    let r = mk_reminder("daily", 9, 30, vec!["fri"]);
    let with_seconds = dt_seconds(2026, 6, 5, 9, 30, 45);
    assert!(r.fires_at(&with_seconds));
}

#[test]
fn fires_at_matches_day_of_month() {
    let r = mk_reminder_monthly("salary", 15, 0, vec![18]);
    assert!(r.fires_at(&dt(2026, 6, 18, 15, 0)));
    // Same day, different month still fires.
    assert!(r.fires_at(&dt(2026, 7, 18, 15, 0)));
    // Different day of month.
    assert!(!r.fires_at(&dt(2026, 6, 17, 15, 0)));
    // Different minute.
    assert!(!r.fires_at(&dt(2026, 6, 18, 15, 1)));
}

#[test]
fn fires_at_matches_multiple_days_of_month() {
    let r = mk_reminder_monthly("payday", 9, 0, vec![1, 15, 25]);
    assert!(r.fires_at(&dt(2026, 6, 1, 9, 0)));
    assert!(r.fires_at(&dt(2026, 6, 15, 9, 0)));
    assert!(r.fires_at(&dt(2026, 6, 25, 9, 0)));
    assert!(!r.fires_at(&dt(2026, 6, 10, 9, 0)));
}

#[test]
fn fires_at_skips_nonexistent_day_of_month() {
    // The 31st never occurs in June (30 days) or February, so it never fires there.
    let r = mk_reminder_monthly("month-end", 9, 0, vec![31]);
    assert!(!r.fires_at(&dt(2026, 6, 30, 9, 0)));
    assert!(!r.fires_at(&dt(2026, 2, 28, 9, 0)));
    // It still fires in a 31-day month.
    assert!(r.fires_at(&dt(2026, 7, 31, 9, 0)));
}

fn system() -> SystemDoc {
    SystemDoc {
        log_level: None,
        tick_interval_sec: 30,
        timezone: "Asia/Tokyo".to_string(),
    }
}

fn reminder(name: &str, time: &str, message: &str, webhook: &str) -> ReminderDoc {
    ReminderDoc {
        name: name.to_string(),
        time: time.to_string(),
        days: None,
        day_of_month: None,
        message: message.to_string(),
        webhook: webhook.to_string(),
    }
}

fn config(reminders: Vec<ReminderDoc>, status_pages: Vec<StatusPageDoc>) -> Config {
    Config::from_toml(&ConfigDoc {
        system: system(),
        reminders,
        status_pages,
    })
    .unwrap()
}

fn value(value: &str) -> Secret {
    Secret {
        file: None,
        value: Some(value.to_string()),
    }
}

fn secrets(entries: Vec<(&str, Secret)>) -> NameMap<Secret> {
    let mut map = NameMap::new();
    for (key, secret) in entries {
        map.insert(key.to_string(), secret);
    }
    map
}

#[test]
fn resolve_builds_monthly_schedule() {
    let mut r = reminder("salary-day", "15:00", "Payday!", "resolve-monthly");
    r.day_of_month = Some(vec![18]);
    let cfg = config(vec![r], vec![]);
    let env = secrets(vec![(
        "CHIME_WEBHOOK_RESOLVE_MONTHLY",
        value("https://example.com/hook"),
    )]);
    let run = resolve(cfg, &env, None).unwrap();
    assert!(matches!(run.reminders[0].schedule, Schedule::Monthly(_)));
}

#[test]
fn resolve_reports_missing_webhook_with_reminder_name() {
    let mut r = reminder("orphan", "09:30", "hi", "resolve-nohook");
    r.days = Some(vec!["mon".to_string()]);
    let cfg = config(vec![r], vec![]);
    assert!(matches!(
        resolve(cfg, &NameMap::new(), None),
        Err(ResolveError::Webhook { name, source: WebhookError::Missing(key) })
            if name == "orphan" && key == "CHIME_WEBHOOK_RESOLVE_NOHOOK"
    ));
}

#[test]
fn resolve_reports_schedule_error_with_reminder_name() {
    // `from_toml` normally rejects a reminder with no schedule; clearing the
    // fields afterwards exercises `resolve`'s own defensive check.
    let mut r = reminder("orphan", "09:30", "hi", "team");
    r.days = Some(vec!["mon".to_string()]);
    let mut cfg = config(vec![r], vec![]);
    cfg.reminders[0].days = None;
    cfg.reminders[0].day_of_month = None;
    assert!(matches!(
        resolve(cfg, &NameMap::new(), None),
        Err(ResolveError::Schedule { name, source: ScheduleError::Missing }) if name == "orphan"
    ));
}

fn page(name: &str, url: &str) -> StatusPageDoc {
    StatusPageDoc {
        name: name.to_string(),
        url: url.to_string(),
        webhook: "team".to_string(),
        display_name: None,
        avatar_url: None,
        poll_interval_sec: None,
        min_impact: None,
    }
}

#[test]
fn resolve_settles_everything() {
    let mut r = reminder(" standup ", "09:30", " Standup! ", "team");
    r.days = Some(vec!["fri".to_string()]);
    let mut named = page("proton", "https://status.proton.com");
    named.display_name = Some("Proton Status".to_string());
    named.avatar_url = Some("https://example.com/a.png".to_string());
    named.poll_interval_sec = Some(60);
    named.min_impact = Some("major".to_string());
    let cfg = config(vec![r], vec![named, page("github", "https://status.github.com/p")]);
    let env = secrets(vec![(
        "CHIME_WEBHOOK_TEAM",
        value(" https://Discord.example/hook\n"),
    )]);
    let run = resolve(cfg, &env, Some("/hb".to_string())).unwrap();
    assert_eq!(run.log_level, LogLevel::Info);
    assert_eq!(run.interval, Span::from_secs(30));
    assert_eq!(run.timezone.name(), "Asia/Tokyo");
    assert_eq!(run.heartbeat_path, "/hb");
    let reminder = &run.reminders[0];
    assert_eq!(reminder.name, "standup");
    assert_eq!(reminder.message, "Standup!");
    assert_eq!(reminder.webhook_url, "https://discord.example/hook");
    assert!(reminder.fires_at(&dt(2026, 6, 5, 9, 30)));
    let proton = &run.status_pages[0];
    assert_eq!(proton.api_url, "https://status.proton.com/api/v2/incidents.json");
    assert_eq!(proton.webhook_url, "https://discord.example/hook");
    assert_eq!(proton.host, "status.proton.com");
    assert_eq!(proton.display_name, "Proton Status");
    assert_eq!(
        proton.avatar_url.as_deref(),
        Some("https://example.com/a.png")
    );
    assert_eq!(proton.poll_interval, Span::from_secs(60));
    assert_eq!(proton.min_impact, Impact::Major);
    let github = &run.status_pages[1];
    assert_eq!(github.display_name, "github");
    assert_eq!(
        github.api_url,
        "https://status.github.com/p/api/v2/incidents.json"
    );
    assert!(github.avatar_url.is_none());
    assert_eq!(github.poll_interval, Span::from_secs(300));
    assert_eq!(github.min_impact, Impact::NoImpact);
}

#[test]
fn resolve_reports_a_status_page_without_webhook() {
    let cfg = config(vec![], vec![page("proton", "https://status.proton.com")]);
    assert!(matches!(
        resolve(cfg, &NameMap::new(), None),
        Err(ResolveError::StatusPage { name, source: WebhookError::Missing(_) }) if name == "proton"
    ));
}

#[test]
fn the_feed_is_appended_to_the_path() {
    assert_eq!(
        api_url("https://h/"),
        "https://h/api/v2/incidents.json"
    );
    assert_eq!(
        api_url("https://h/a?q=/#f"),
        "https://h/a/api/v2/incidents.json"
    );
    assert_eq!(
        api_url("https://h/a/#f"),
        "https://h/a/api/v2/incidents.json"
    );
}

#[test]
fn resolve_webhook_reads_env() {
    let r = WebhookRef::try_from("test-direct".to_string()).unwrap();
    let url = resolve_webhook(&r, &value("https://example.com/hook")).unwrap();
    assert_eq!(url, "https://example.com/hook");
}

#[test]
fn resolve_webhook_prefers_file() {
    let r = WebhookRef::try_from("test-file".to_string()).unwrap();
    let secret = Secret {
        file: Some(SecretFile {
            path: "/run/secrets/hook".to_string(),
            contents: Ok("https://example.com/from-file\n".to_string()),
        }),
        value: Some("https://example.com/direct".to_string()),
    };
    let url = resolve_webhook(&r, &secret).unwrap();
    assert_eq!(url, "https://example.com/from-file");
}

#[test]
fn an_unreadable_file_is_not_passed_over() {
    let r = WebhookRef::try_from("test-file".to_string()).unwrap();
    let secret = Secret {
        file: Some(SecretFile {
            path: "/run/secrets/hook".to_string(),
            contents: Err("gone".to_string()),
        }),
        value: Some("https://example.com/direct".to_string()),
    };
    assert!(matches!(
        resolve_webhook(&r, &secret),
        Err(WebhookError::File { path, source }) if path == "/run/secrets/hook" && source == "gone"
    ));
}

#[test]
fn resolve_webhook_missing_errors() {
    let r = WebhookRef::try_from("unset-name".to_string()).unwrap();
    let unset = Secret {
        file: None,
        value: None,
    };
    assert!(matches!(
        resolve_webhook(&r, &unset),
        Err(WebhookError::Missing(key)) if key == "CHIME_WEBHOOK_UNSET_NAME"
    ));
}

#[test]
fn resolve_webhook_empty_errors() {
    let r = WebhookRef::try_from("test-empty".to_string()).unwrap();
    assert!(matches!(
        resolve_webhook(&r, &value("   ")),
        Err(WebhookError::Empty)
    ));
}

#[test]
fn resolve_webhook_bad_url_errors() {
    let r = WebhookRef::try_from("test-badurl".to_string()).unwrap();
    assert!(matches!(
        resolve_webhook(&r, &value("not a url")),
        Err(WebhookError::Url(_))
    ));
}

#[test]
fn webhook_urls_need_not_be_https() {
    let url = ParsedUrl {
        text: "http://h/".to_string(),
        scheme: "http".to_string(),
        host: None,
    };
    assert_eq!(webhook_url(Ok(url)).unwrap(), "http://h/");
    assert!(matches!(
        webhook_url(Err("why".to_string())),
        Err(WebhookError::Url(s)) if s == "why"
    ));
}

#[test]
fn webhook_values_are_trimmed_texts() {
    let r = WebhookRef::new("team").unwrap();
    assert_eq!(webhook_value(&r, &value(" not a url ")).unwrap(), "not a url");
    assert!(matches!(
        webhook_value(&r, &value("\n")),
        Err(WebhookError::Empty)
    ));
}

#[test]
fn the_schedule_is_settled_before_the_webhook() {
    let mut r = reminder("x", "09:30", "hi", "team");
    r.days = Some(vec!["mon".to_string()]);
    let mut cfg = config(vec![r], vec![page("p", "https://h")]);
    assert_eq!(
        run_reminder(&cfg.reminders[0], Ok("url".to_string()))
            .unwrap()
            .webhook_url,
        "url"
    );
    assert!(matches!(
        run_reminder(&cfg.reminders[0], Err(WebhookError::Empty)),
        Err(ResolveError::Webhook { name, source: WebhookError::Empty }) if name == "x"
    ));
    cfg.reminders[0].days = None;
    assert!(matches!(
        run_reminder(&cfg.reminders[0], Err(WebhookError::Empty)),
        Err(ResolveError::Schedule { .. })
    ));
    assert_eq!(
        run_status_page(&cfg.status_pages[0], Ok("url".to_string()))
            .unwrap()
            .webhook_url,
        "url"
    );
    assert!(matches!(
        run_status_page(&cfg.status_pages[0], Err(WebhookError::Empty)),
        Err(ResolveError::StatusPage { name, source: WebhookError::Empty }) if name == "p"
    ));
}
