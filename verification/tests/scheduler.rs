use chime::clock::{LocalTime, Moment, Span, TimeZone, Timestamp};
use chime::config::{Impact, LogLevel, Schedule, TimeOfDay, WeekdaySet};
use chime::notifier::DiscordMessage;
use chime::runtime::{RunConfig, RunReminder, RunStatusPage};
use chime::scheduler::{
    is_due, overdue_secs, Action, PollOutcome, PollStats, Purpose, Scheduler, Signal, Summary,
};
use chime::status::{Fetched, Incident, IncidentState, IncidentUpdate, StatusError};
use chrono::TimeZone as ChronoZone;
use chrono_tz::Asia::Tokyo;
use std::collections::VecDeque;

/// What there is outside the scheduler. Fetches answer with the queued incident
/// lists in order, repeating the last one once the queue drains; `fail` makes every
/// fetch an error instead, and `not_modified` makes every fetch answer that nothing
/// has changed.
struct Outside {
    log: Vec<&'static str>,
    heartbeats: Vec<(String, String)>,
    disk_full: bool,
    sent: Vec<DiscordMessage>,
    purposes: Vec<Purpose>,
    unreachable: bool,
    calls: usize,
    etags: Vec<Option<String>>,
    queue: VecDeque<Vec<Incident>>,
    fail: bool,
    not_modified: bool,
    summaries: Vec<Summary>,
}

impl Outside {
    fn empty() -> Self {
        Outside {
            log: Vec::new(),
            heartbeats: Vec::new(),
            disk_full: false,
            sent: Vec::new(),
            purposes: Vec::new(),
            unreachable: false,
            calls: 0,
            etags: Vec::new(),
            queue: VecDeque::new(),
            fail: false,
            not_modified: false,
            summaries: Vec::new(),
        }
    }

    fn with(responses: Vec<Vec<Incident>>) -> Self {
        Outside {
            queue: responses.into(),
            ..Outside::empty()
        }
    }

    fn failing() -> Self {
        Outside {
            fail: true,
            ..Outside::empty()
        }
    }

    fn unchanged() -> Self {
        Outside {
            not_modified: true,
            ..Outside::empty()
        }
    }

    fn sent(&self) -> usize {
        self.sent.len()
    }

    fn fetch(&mut self) -> Result<Fetched, StatusError> {
        self.calls += 1;
        if self.fail {
            return Err(StatusError::Status {
                status: 503,
                body: "unavailable".to_string(),
            });
        }
        if self.not_modified {
            return Ok(Fetched::NotModified);
        }
        let incidents = if self.queue.len() > 1 {
            self.queue.pop_front().unwrap()
        } else {
            self.queue.front().cloned().unwrap_or_default()
        };
        Ok(Fetched::Modified {
            incidents,
            etag: Some(format!("tag {}", self.calls)),
        })
    }

    /// Everything that a tick asks for.
    fn tick(&mut self, scheduler: Scheduler, now: LocalTime) -> Scheduler {
        let (mut scheduler, mut action) = scheduler.step(tick_signal(now));
        loop {
            assert!(scheduler.can_count());
            let signal = match action {
                Action::WriteHeartbeat { path, contents } => {
                    self.log.push("heartbeat");
                    self.heartbeats.push((path, contents));
                    Signal::HeartbeatWritten(!self.disk_full)
                }
                Action::Deliver(delivery) => {
                    self.log.push("deliver");
                    self.sent.push(delivery.message);
                    self.purposes.push(delivery.purpose);
                    Signal::Delivered(!self.unreachable)
                }
                Action::Fetch { request, .. } => {
                    self.log.push("fetch");
                    self.etags.push(request.if_none_match);
                    Signal::Fetched(self.fetch())
                }
                Action::Rest { summary } => {
                    self.log.push("rest");
                    self.summaries.extend(summary);
                    return scheduler;
                }
                Action::Ignored => panic!("nothing was awaited"),
            };
            let next = scheduler.step(signal);
            scheduler = next.0;
            action = next.1;
        }
    }
}

fn mk_update(id: &str, state: &str, at: &str) -> IncidentUpdate {
    IncidentUpdate {
        id: id.to_string(),
        state: IncidentState::from_wire(state),
        body: format!("body of {id}"),
        created_at: Timestamp::parse_rfc3339(at).unwrap(),
    }
}

fn mk_incident(id: &str, impact: Impact, updates: Vec<IncidentUpdate>) -> Incident {
    Incident {
        id: id.to_string(),
        name: format!("incident {id}"),
        impact: Some(impact),
        link: Some(format!("https://stspg.io/{id}")),
        components: vec!["api".to_string()],
        updates,
    }
}

fn mk_run_reminder(name: &str, hour: u32, minute: u32) -> RunReminder {
    RunReminder {
        name: name.to_string(),
        time: TimeOfDay { hour, minute },
        schedule: Schedule::Weekly(WeekdaySet::try_from(vec!["every".to_string()]).unwrap()),
        message: "ping".to_string(),
        webhook_url: "https://example.com/hook".to_string(),
    }
}

fn mk_run_status_page(name: &str, poll_interval: Span) -> RunStatusPage {
    RunStatusPage {
        name: name.to_string(),
        api_url: format!("https://status.{name}.example/api/v2/incidents.json"),
        webhook_url: "https://discord.example/webhook".to_string(),
        host: format!("status.{name}.example"),
        display_name: format!("{name} Status"),
        avatar_url: None,
        poll_interval,
        min_impact: Impact::NoImpact,
    }
}

fn moment(hour: u32, minute: u32, second: u32) -> Moment {
    let t = Tokyo
        .with_ymd_and_hms(2026, 6, 5, hour, minute, second)
        .single()
        .unwrap();
    Moment::new(t.timestamp(), 0).unwrap()
}

fn tokyo() -> TimeZone {
    TimeZone::new("Asia/Tokyo").unwrap()
}

fn at(hour: u32, minute: u32, second: u32) -> LocalTime {
    LocalTime::in_zone(moment(hour, minute, second), &tokyo())
}

/// A tick whose heartbeat is written when the clock reads a time of its own.
fn tick_signal(now: LocalTime) -> Signal {
    Signal::Tick {
        now,
        reading: Moment::new(1_788_282_311, 575_000_000).unwrap(),
    }
}

fn cfg_with(
    tag: &str,
    reminders: Vec<RunReminder>,
    status_pages: Vec<RunStatusPage>,
) -> RunConfig {
    RunConfig {
        log_level: LogLevel::Info,
        interval: Span::from_secs(30),
        timezone: tokyo(),
        reminders,
        status_pages,
        heartbeat_path: format!("/tmp/chime-test-sched-hb-{tag}"),
    }
}

#[test]
fn fires_once_within_same_minute() {
    let mut outside = Outside::empty();
    let cfg = cfg_with("fires_once", vec![mk_run_reminder("daily", 9, 30)], vec![]);
    let mut scheduler = Scheduler::new(cfg);

    scheduler = outside.tick(scheduler, at(9, 30, 0));
    scheduler = outside.tick(scheduler, at(9, 30, 30));
    outside.tick(scheduler, at(9, 30, 59));

    assert_eq!(outside.sent(), 1);
}

#[test]
fn a_failed_reminder_is_not_repeated() {
    let mut outside = Outside::empty();
    outside.unreachable = true;
    let cfg = cfg_with("failed", vec![mk_run_reminder("daily", 9, 30)], vec![]);
    let mut scheduler = Scheduler::new(cfg);

    scheduler = outside.tick(scheduler, at(9, 30, 0));
    outside.tick(scheduler, at(9, 30, 30));

    assert_eq!(outside.sent(), 1);
}

#[test]
fn reminder_payload_is_plain_content() {
    let mut outside = Outside::empty();
    let cfg = cfg_with("payload", vec![mk_run_reminder("daily", 9, 30)], vec![]);
    let scheduler = Scheduler::new(cfg);

    outside.tick(scheduler, at(9, 30, 0));

    assert_eq!(outside.sent[0].content.as_deref(), Some("ping"));
    assert!(outside.sent[0].username.is_none());
}

#[test]
fn reminders_fire_in_order_to_their_webhooks() {
    let mut second = mk_run_reminder("second", 9, 30);
    second.webhook_url = "https://example.com/other".to_string();
    let cfg = cfg_with(
        "order",
        vec![
            mk_run_reminder("first", 9, 30),
            mk_run_reminder("never", 9, 31),
            second,
        ],
        vec![],
    );
    let (scheduler, action) = Scheduler::new(cfg).step(tick_signal(at(9, 30, 0)));
    assert!(matches!(
        action,
        Action::WriteHeartbeat { path, .. } if path == "/tmp/chime-test-sched-hb-order"
    ));
    let (scheduler, action) = scheduler.step(Signal::HeartbeatWritten(true));
    match action {
        Action::Deliver(delivery) => {
            assert_eq!(delivery.url, "https://example.com/hook");
            assert!(matches!(delivery.purpose, Purpose::Reminder { name } if name == "first"));
        }
        other => panic!("{other:?}"),
    }
    let (scheduler, action) = scheduler.step(Signal::Delivered(false));
    match action {
        Action::Deliver(delivery) => {
            assert_eq!(delivery.url, "https://example.com/other");
            assert!(matches!(delivery.purpose, Purpose::Reminder { name } if name == "second"));
        }
        other => panic!("{other:?}"),
    }
    let (_, action) = scheduler.step(Signal::Delivered(true));
    assert!(matches!(action, Action::Rest { summary: None }));
}

#[test]
fn fires_again_in_next_matching_minute() {
    let mut outside = Outside::empty();
    let cfg = cfg_with(
        "fires_again",
        vec![mk_run_reminder("hourly", 9, 30)],
        vec![],
    );
    let mut scheduler = Scheduler::new(cfg);

    scheduler = outside.tick(scheduler, at(9, 30, 0));
    scheduler = outside.tick(scheduler, at(9, 31, 0));
    // The schedule only fires at 9:30, so 9:31 does not count.
    assert_eq!(outside.sent(), 1);

    // The same minute of the next day does.
    let tomorrow = Moment::new(moment(9, 30, 0).secs() + 86_400, 0).unwrap();
    outside.tick(scheduler, LocalTime::in_zone(tomorrow, &tokyo()));
    assert_eq!(outside.sent(), 2);
}

#[test]
fn does_not_fire_off_schedule() {
    let mut outside = Outside::empty();
    let cfg = cfg_with(
        "does_not_fire",
        vec![mk_run_reminder("daily", 9, 30)],
        vec![],
    );
    let mut scheduler = Scheduler::new(cfg);

    scheduler = outside.tick(scheduler, at(9, 29, 30));
    outside.tick(scheduler, at(9, 31, 0));
    assert_eq!(outside.sent(), 0);
}

#[test]
fn tick_writes_heartbeat() {
    let mut outside = Outside::empty();
    let cfg = cfg_with("writes", vec![mk_run_reminder("daily", 9, 30)], vec![]);
    let scheduler = Scheduler::new(cfg);

    // Off-schedule time: no reminder fires, but the heartbeat must still be written.
    outside.tick(scheduler, at(0, 0, 0));

    let (path, contents) = &outside.heartbeats[0];
    assert_eq!(path, "/tmp/chime-test-sched-hb-writes");
    assert!(!contents.is_empty());
    // It is what the clock read at the write, not the time of the tick.
    assert_eq!(contents, "2026-09-01T17:05:11.575+00:00");
    assert_eq!(outside.heartbeats.len(), 1);
}

#[test]
fn a_lost_heartbeat_does_not_stop_the_tick() {
    let mut outside = Outside::empty();
    outside.disk_full = true;
    let cfg = cfg_with(
        "lost",
        vec![mk_run_reminder("daily", 9, 30)],
        vec![mk_run_status_page("proton", Span::from_secs(300))],
    );
    outside.tick(Scheduler::new(cfg), at(9, 30, 0));
    assert_eq!(outside.log, vec!["heartbeat", "deliver", "fetch", "rest"]);
}

#[test]
fn the_heartbeat_comes_before_the_network() {
    let mut outside = Outside::empty();
    let cfg = cfg_with(
        "first",
        vec![mk_run_reminder("daily", 9, 30)],
        vec![mk_run_status_page("proton", Span::from_secs(300))],
    );
    outside.tick(Scheduler::new(cfg), at(9, 30, 0));
    assert_eq!(outside.log, vec!["heartbeat", "deliver", "fetch", "rest"]);
}

#[test]
fn status_page_is_polled_once_per_interval() {
    let mut outside = Outside::empty();
    let page = mk_run_status_page("proton", Span::from_secs(300));
    let cfg = cfg_with("poll_interval", vec![], vec![page]);
    let mut scheduler = Scheduler::new(cfg);

    scheduler = outside.tick(scheduler, at(9, 0, 0));
    assert_eq!(outside.calls, 1);
    // Well inside the interval: no second request.
    scheduler = outside.tick(scheduler, at(9, 2, 0));
    scheduler = outside.tick(scheduler, at(9, 4, 59));
    assert_eq!(outside.calls, 1);
    // Interval elapsed.
    outside.tick(scheduler, at(9, 5, 0));
    assert_eq!(outside.calls, 2);
    // The second request is conditional on the answer to the first.
    assert_eq!(outside.etags, vec![None, Some("tag 1".to_string())]);
}

#[test]
fn first_poll_does_not_forward_existing_incidents() {
    let backlog = vec![mk_incident(
        "old",
        Impact::Critical,
        vec![mk_update("old1", "resolved", "2026-06-04T10:00:00Z")],
    )];
    let mut outside = Outside::with(vec![backlog]);
    let page = mk_run_status_page("proton", Span::from_secs(300));
    let cfg = cfg_with("cold_start", vec![], vec![page]);
    let scheduler = Scheduler::new(cfg);

    outside.tick(scheduler, at(9, 0, 0));
    assert_eq!(outside.sent(), 0);
}

fn backlog_and_update() -> Vec<Vec<Incident>> {
    let backlog = vec![mk_incident(
        "old",
        Impact::Minor,
        vec![mk_update("old1", "resolved", "2026-06-04T10:00:00Z")],
    )];
    let mut updated = backlog.clone();
    updated.push(mk_incident(
        "new",
        Impact::Major,
        vec![mk_update("new1", "investigating", "2026-06-05T09:01:00Z")],
    ));
    vec![backlog, updated]
}

#[test]
fn new_incident_is_forwarded_as_an_embed() {
    let mut outside = Outside::with(backlog_and_update());
    let page = mk_run_status_page("proton", Span::from_secs(300));
    let cfg = cfg_with("forward", vec![], vec![page]);
    let mut scheduler = Scheduler::new(cfg);

    scheduler = outside.tick(scheduler, at(9, 0, 0));
    outside.tick(scheduler, at(9, 5, 0));

    assert_eq!(outside.sent(), 1);
    assert_eq!(outside.sent[0].username.as_deref(), Some("proton Status"));
    assert!(outside.sent[0].content.is_none());
    assert!(matches!(
        &outside.purposes[0],
        Purpose::StatusUpdate { page, incident, state: IncidentState::Investigating }
            if page == "proton" && incident == "new"
    ));
}

#[test]
fn a_failed_forward_is_not_repeated_and_not_counted() {
    let mut outside = Outside::with(backlog_and_update());
    outside.unreachable = true;
    let page = mk_run_status_page("proton", Span::from_secs(300));
    let cfg = cfg_with("forward_fail", vec![], vec![page]);
    let mut scheduler = Scheduler::new(cfg);

    scheduler = outside.tick(scheduler, at(9, 0, 0));
    scheduler = outside.tick(scheduler, at(9, 5, 0));
    scheduler = outside.tick(scheduler, at(9, 10, 0));

    assert_eq!(outside.sent(), 1);
    assert_eq!(scheduler.stats().updated, 3);
    assert_eq!(scheduler.stats().forwarded, 0);
}

#[test]
fn the_threshold_of_the_page_counts() {
    let mut outside = Outside::with(backlog_and_update());
    let mut page = mk_run_status_page("proton", Span::from_secs(300));
    page.min_impact = Impact::Critical;
    let cfg = cfg_with("threshold", vec![], vec![page]);
    let mut scheduler = Scheduler::new(cfg);
    scheduler = outside.tick(scheduler, at(9, 0, 0));
    outside.tick(scheduler, at(9, 5, 0));
    assert_eq!(outside.sent(), 0);
}

#[test]
fn poll_failure_does_not_stop_the_loop() {
    let mut outside = Outside::failing();
    let page = mk_run_status_page("proton", Span::from_secs(60));
    let cfg = cfg_with(
        "poll_fail",
        vec![mk_run_reminder("daily", 9, 30)],
        vec![page],
    );
    let mut scheduler = Scheduler::new(cfg);

    scheduler = outside.tick(scheduler, at(9, 30, 0));
    outside.tick(scheduler, at(9, 31, 0));

    assert_eq!(outside.calls, 2);
    // The reminder still fired; the failing status page notified nothing.
    assert_eq!(outside.sent(), 1);
}

#[test]
fn only_one_status_page_is_polled_per_tick() {
    let mut outside = Outside::empty();
    let cfg = cfg_with(
        "one_per_tick",
        vec![],
        vec![
            mk_run_status_page("a", Span::from_secs(60)),
            mk_run_status_page("b", Span::from_secs(60)),
            mk_run_status_page("c", Span::from_secs(60)),
        ],
    );
    let mut scheduler = Scheduler::new(cfg);

    // All three are due on the first tick, but they are spread over three ticks.
    scheduler = outside.tick(scheduler, at(9, 0, 0));
    assert_eq!(outside.calls, 1);
    scheduler = outside.tick(scheduler, at(9, 0, 1));
    assert_eq!(outside.calls, 2);
    scheduler = outside.tick(scheduler, at(9, 0, 2));
    assert_eq!(outside.calls, 3);
    assert_eq!(scheduler.last_polled().len(), 3);

    // None is due again until its interval elapses.
    outside.tick(scheduler, at(9, 0, 3));
    assert_eq!(outside.calls, 3);
}

#[test]
fn pages_that_waited_equally_long_are_polled_in_order() {
    let mut outside = Outside::empty();
    let cfg = cfg_with(
        "tie",
        vec![],
        vec![
            mk_run_status_page("z", Span::from_secs(60)),
            mk_run_status_page("a", Span::from_secs(60)),
        ],
    );
    let scheduler = outside.tick(Scheduler::new(cfg), at(9, 0, 0));
    assert!(scheduler.last_polled().get("z").is_some());
    assert!(scheduler.last_polled().get("a").is_none());
}

#[test]
fn the_most_overdue_page_is_polled_first() {
    let mut outside = Outside::empty();
    let cfg = cfg_with(
        "overdue",
        vec![],
        vec![
            mk_run_status_page("a", Span::from_secs(60)),
            mk_run_status_page("b", Span::from_secs(60)),
        ],
    );
    let mut scheduler = Scheduler::new(cfg);
    scheduler.mark_polled("a".to_string(), moment(9, 0, 0));
    scheduler.mark_polled("b".to_string(), moment(8, 0, 0));

    // Both are due, but `b` has waited an hour longer.
    scheduler = outside.tick(scheduler, at(9, 5, 0));

    assert_eq!(scheduler.last_polled().get("b"), Some(&moment(9, 5, 0)));
    assert_eq!(
        scheduler.last_polled().get("a"),
        Some(&moment(9, 0, 0)),
        "a waits its turn"
    );
}

#[test]
fn status_summary_stays_closed_until_the_window_elapses() {
    let mut outside = Outside::unchanged();
    let page = mk_run_status_page("proton", Span::from_secs(300));
    let cfg = cfg_with("summary_open", vec![], vec![page]);
    let mut scheduler = Scheduler::new(cfg);

    // The window is anchored to the first tick, so that tick reports nothing.
    scheduler = outside.tick(scheduler, at(9, 0, 0));
    assert_eq!(scheduler.take_due_summary(moment(9, 0, 0)), None);
    assert_eq!(scheduler.take_due_summary(moment(9, 59, 59)), None);
    assert!(scheduler.take_due_summary(moment(10, 0, 0)).is_some());
}

#[test]
fn status_summary_counts_every_poll_outcome() {
    let mut outside = Outside::unchanged();
    let page = mk_run_status_page("proton", Span::from_secs(300));
    let cfg = cfg_with("summary_304", vec![], vec![page]);
    let mut scheduler = Scheduler::new(cfg);

    scheduler = outside.tick(scheduler, at(9, 0, 0));
    scheduler = outside.tick(scheduler, at(9, 5, 0));
    scheduler = outside.tick(scheduler, at(9, 10, 0));

    let (window_sec, stats) = scheduler.take_due_summary(moment(10, 0, 0)).unwrap();
    assert_eq!(window_sec, 3600);
    assert_eq!(
        stats,
        PollStats {
            polls: 3,
            not_modified: 3,
            updated: 0,
            failed: 0,
            forwarded: 0,
        }
    );
}

#[test]
fn status_summary_counts_failures_and_forwarded_updates() {
    let mut outside = Outside::with(backlog_and_update());
    let page = mk_run_status_page("proton", Span::from_secs(300));
    let cfg = cfg_with("summary_mixed", vec![], vec![page]);
    let mut scheduler = Scheduler::new(cfg);

    // Cold-start baseline, then one incident that produces a single forward.
    scheduler = outside.tick(scheduler, at(9, 0, 0));
    scheduler = outside.tick(scheduler, at(9, 5, 0));

    let (_, stats) = scheduler.take_due_summary(moment(10, 0, 0)).unwrap();
    assert_eq!(stats.polls, 2);
    assert_eq!(stats.updated, 2);
    assert_eq!(stats.forwarded, 1);

    let failing = cfg_with(
        "summary_failed",
        vec![],
        vec![mk_run_status_page("proton", Span::from_secs(300))],
    );
    let mut outside = Outside::failing();
    let mut scheduler = outside.tick(Scheduler::new(failing), at(9, 0, 0));

    let (_, stats) = scheduler.take_due_summary(moment(10, 0, 0)).unwrap();
    assert_eq!(stats.failed, 1);
    assert_eq!(stats.forwarded, 0);
}

#[test]
fn status_summary_resets_between_windows() {
    let mut outside = Outside::unchanged();
    let page = mk_run_status_page("proton", Span::from_secs(300));
    let cfg = cfg_with("summary_reset", vec![], vec![page]);
    let mut scheduler = Scheduler::new(cfg);

    scheduler = outside.tick(scheduler, at(9, 0, 0));
    // Closes the first window; the second must start from zero.
    scheduler = outside.tick(scheduler, at(10, 0, 0));
    assert_eq!(
        outside.summaries,
        vec![Summary {
            window_sec: 3600,
            pages: 1,
            stats: PollStats {
                polls: 2,
                not_modified: 2,
                updated: 0,
                failed: 0,
                forwarded: 0,
            }
        }]
    );
    let (_, stats) = scheduler.take_due_summary(moment(11, 0, 0)).unwrap();
    assert_eq!(stats, PollStats::default());
}

#[test]
fn status_summary_is_silent_without_status_pages() {
    let mut outside = Outside::empty();
    let cfg = cfg_with(
        "summary_no_pages",
        vec![mk_run_reminder("daily", 9, 30)],
        vec![],
    );
    let mut scheduler = Scheduler::new(cfg);

    scheduler = outside.tick(scheduler, at(9, 30, 0));
    assert_eq!(scheduler.take_due_summary(moment(23, 0, 0)), None);
}

#[test]
fn status_summary_recovers_from_a_backwards_clock() {
    let mut outside = Outside::unchanged();
    let page = mk_run_status_page("proton", Span::from_secs(300));
    let cfg = cfg_with("summary_backwards", vec![], vec![page]);
    let mut scheduler = Scheduler::new(cfg);

    scheduler = outside.tick(scheduler, at(9, 0, 0));
    // Stepping backwards closes the window rather than parking it until the
    // clock catches up, which would suppress the liveness signal for an hour.
    let (window_sec, _) = scheduler.take_due_summary(moment(8, 0, 0)).unwrap();
    assert_eq!(window_sec, 0);
}

#[test]
fn is_due_handles_first_run_and_backwards_clock() {
    let interval = Span::from_secs(300);
    assert!(is_due(None, interval, moment(9, 0, 0)));
    assert!(!is_due(Some(&moment(9, 0, 0)), interval, moment(9, 4, 59)));
    assert!(is_due(Some(&moment(9, 0, 0)), interval, moment(9, 5, 0)));
    // Clock stepped backwards: poll rather than wait it out.
    assert!(is_due(Some(&moment(9, 0, 0)), interval, moment(8, 0, 0)));
}

#[test]
fn pages_never_polled_outrank_all_others() {
    assert_eq!(overdue_secs(None, moment(9, 0, 0)), i64::MAX);
    assert_eq!(overdue_secs(Some(&moment(9, 0, 0)), moment(9, 5, 0)), 300);
    assert_eq!(overdue_secs(Some(&moment(9, 5, 0)), moment(9, 0, 0)), -300);
}

#[test]
fn signals_that_are_not_awaited_are_ignored() {
    let cfg = cfg_with("ignored", vec![mk_run_reminder("daily", 9, 30)], vec![]);
    let (scheduler, action) = Scheduler::new(cfg).step(Signal::Delivered(true));
    assert!(matches!(action, Action::Ignored));
    let (scheduler, action) = scheduler.step(Signal::Fetched(Ok(Fetched::NotModified)));
    assert!(matches!(action, Action::Ignored));
    let (scheduler, _) = scheduler.step(tick_signal(at(9, 30, 0)));
    let (scheduler, action) = scheduler.step(tick_signal(at(9, 30, 30)));
    assert!(matches!(action, Action::Ignored));
    let (_, action) = scheduler.step(Signal::HeartbeatWritten(true));
    assert!(matches!(action, Action::Deliver(_)));
}

#[test]
fn outcomes_add_up() {
    let mut stats = PollStats::default();
    stats.record(PollOutcome::NotModified);
    stats.record(PollOutcome::Updated { forwarded: 4 });
    stats.record(PollOutcome::Failed);
    stats.record(PollOutcome::Updated { forwarded: 0 });
    assert_eq!(
        stats,
        PollStats {
            polls: 4,
            not_modified: 1,
            updated: 2,
            failed: 1,
            forwarded: 4,
        }
    );
}

#[test]
fn counters_need_not_add_up_to_be_counted_on() {
    let mut stats = PollStats {
        polls: 0,
        not_modified: u64::MAX,
        updated: 7,
        failed: 2,
        forwarded: u64::MAX - 1,
    };
    stats.record(PollOutcome::Updated { forwarded: 1 });
    stats.record(PollOutcome::Failed);
    assert_eq!(
        stats,
        PollStats {
            polls: 2,
            not_modified: u64::MAX,
            updated: 8,
            failed: 3,
            forwarded: u64::MAX,
        }
    );
}

#[test]
fn ticks_take_place_in_the_configured_zone() {
    let scheduler = Scheduler::new(cfg_with("zone", vec![], vec![]));
    let now = scheduler.local_time(moment(9, 30, 15));
    assert_eq!((now.hour(), now.minute(), now.second()), (9, 30, 15));
    assert_eq!(scheduler.config().timezone.name(), "Asia/Tokyo");
}

#[test]
fn pages_within_capacity_keep_their_interval() {
    let names = ["a", "b", "c"];
    // Three pages every 100 seconds, with a tick every 30: four ticks to a round.
    let pages = names
        .iter()
        .map(|name| mk_run_status_page(name, Span::from_secs(100)))
        .collect();
    let mut scheduler = Scheduler::new(cfg_with("capacity", vec![], pages));
    let mut outside = Outside::unchanged();
    let start = moment(9, 0, 0).secs();
    for k in 0..20i64 {
        let now = Moment::new(start + 30 * k, 0).unwrap();
        let calls = outside.calls;
        scheduler = outside.tick(scheduler, LocalTime::in_zone(now, &tokyo()));
        let turn = (k % 4) as usize;
        if turn < names.len() {
            assert_eq!(outside.calls, calls + 1);
            assert_eq!(scheduler.last_polled().get(names[turn]), Some(&now));
        } else {
            assert_eq!(outside.calls, calls);
        }
    }
}
