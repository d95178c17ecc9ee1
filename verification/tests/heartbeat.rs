use chime::clock::{Moment, Span, Timestamp, MAX_SECS};
use chime::heartbeat::{
    check_liveness, heartbeat_path, heartbeat_text, HealthError, HeartbeatFile, WallClock,
    DEFAULT_HEARTBEAT_PATH, HEARTBEAT_PATH_ENV,
};

const PATH: &str = "/tmp/chime-test-hb";

/// The file was written at this second, with some nanoseconds to it.
const MTIME: i64 = 1_780_000_000;

fn at(secs: i64) -> WallClock {
    WallClock::new(secs, 250_000_000).unwrap()
}

fn written() -> HeartbeatFile {
    HeartbeatFile::Modified(at(MTIME))
}

#[test]
fn fresh_is_ok() {
    let interval = Span::from_secs(30);
    assert!(check_liveness(PATH, &written(), interval, at(MTIME + 1)).is_ok());
}

#[test]
fn boundary_is_ok() {
    // age == 2 * interval is still considered alive (<= comparison).
    let interval = Span::from_secs(30);
    assert!(check_liveness(PATH, &written(), interval, at(MTIME + 60)).is_ok());
    let later = WallClock::new(MTIME + 60, 250_000_001).unwrap();
    assert!(matches!(
        check_liveness(PATH, &written(), interval, later),
        Err(HealthError::Stale {
            age_secs: 60,
            threshold_secs: 60
        })
    ));
}

#[test]
fn stale_errors() {
    let interval = Span::from_secs(30);
    assert!(matches!(
        check_liveness(PATH, &written(), interval, at(MTIME + 61)),
        Err(HealthError::Stale {
            age_secs: 61,
            threshold_secs: 60
        })
    ));
}

#[test]
fn missing_errors() {
    match check_liveness(
        PATH,
        &HeartbeatFile::Missing,
        Span::from_secs(30),
        at(MTIME),
    ) {
        Err(HealthError::Missing { path }) => assert_eq!(path, PATH),
        other => panic!("{other:?}"),
    }
}

#[test]
fn unreadable_errors() {
    let file = HeartbeatFile::Unreadable("permission denied".to_string());
    match check_liveness(PATH, &file, Span::from_secs(30), at(MTIME)) {
        Err(HealthError::Stat { path, source }) => {
            assert_eq!(path, PATH);
            assert_eq!(source, "permission denied");
        }
        other => panic!("{other:?}"),
    }
}

#[test]
fn future_mtime_errors() {
    // `now` earlier than the mtime: clock skew, treated as not-alive.
    assert!(matches!(
        check_liveness(PATH, &written(), Span::from_secs(30), at(MTIME - 10)),
        Err(HealthError::FutureMtime)
    ));
}

#[test]
fn the_threshold_saturates() {
    let file = HeartbeatFile::Modified(WallClock::new(i64::MIN, 0).unwrap());
    let now = WallClock::new(i64::MAX, 999_999_999).unwrap();
    let longest = Span {
        secs: u64::MAX,
        nanos: 999_999_999,
    };
    assert!(check_liveness(PATH, &file, longest, now).is_ok());
    assert!(matches!(
        check_liveness(PATH, &file, Span::from_secs(1), now),
        Err(HealthError::Stale {
            age_secs: u64::MAX,
            threshold_secs: 2
        })
    ));
}

#[test]
fn wall_clocks_have_less_than_a_second_of_nanoseconds() {
    assert!(WallClock::new(0, 999_999_999).is_some());
    assert!(WallClock::new(0, 1_000_000_000).is_none());
}

#[test]
fn heartbeat_path_default_and_override() {
    assert_eq!(heartbeat_path(None), DEFAULT_HEARTBEAT_PATH);
    assert_eq!(DEFAULT_HEARTBEAT_PATH, "/tmp/chime.heartbeat");
    assert_eq!(HEARTBEAT_PATH_ENV, "CHIME_HEARTBEAT_PATH");
    assert_eq!(
        heartbeat_path(Some("/custom/chime.hb".to_string())),
        "/custom/chime.hb"
    );
}

#[test]
fn wall_clocks_count_from_the_epoch() {
    let half = |secs| Span {
        secs,
        nanos: 500_000_000,
    };
    assert_eq!(
        WallClock::after_epoch(half(5)),
        WallClock::new(5, 500_000_000)
    );
    assert_eq!(
        WallClock::before_epoch(half(5)),
        WallClock::new(-6, 500_000_000)
    );
    assert_eq!(
        WallClock::before_epoch(Span::from_secs(5)),
        WallClock::new(-5, 0)
    );
    assert_eq!(WallClock::after_epoch(Span::from_secs(u64::MAX)), None);
    assert_eq!(
        WallClock::before_epoch(Span::from_secs(1 << 63)),
        WallClock::new(i64::MIN, 0)
    );
    assert_eq!(WallClock::before_epoch(half(1 << 63)), None);
}

#[test]
fn the_heartbeat_is_the_time() {
    let at = Moment::new(1_788_282_311, 575_000_000).unwrap();
    assert_eq!(heartbeat_text(&at), "2026-09-01T17:05:11.575+00:00");
    let read = Timestamp::parse_rfc3339(&heartbeat_text(&at)).unwrap();
    assert_eq!((read.secs(), read.nanos()), (at.secs(), at.nanos()));
    let far = Moment::new(MAX_SECS, 0).unwrap();
    assert_eq!(heartbeat_text(&far), "+262142-12-31T23:59:59+00:00");
}
