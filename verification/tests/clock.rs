use chime::clock::{
    truncate_to_minute, LocalTime, Moment, Span, TimeZone, Timestamp, Weekday, MAX_SECS, MIN_SECS,
};
use chrono::TimeZone as ChronoZone;

fn moment(secs: i64, nanos: u32) -> Moment {
    Moment::new(secs, nanos).unwrap()
}

fn local(zone: &str, secs: i64) -> LocalTime {
    LocalTime::in_zone(moment(secs, 0), &TimeZone::new(zone).unwrap())
}

#[test]
fn timestamps_are_read_in_utc() {
    let t = Timestamp::parse_rfc3339("2026-09-01T17:05:11.575Z").unwrap();
    assert_eq!(t.secs(), 1_788_282_311);
    assert_eq!(t.nanos(), 575_000_000);
    assert_eq!(
        Timestamp::parse_rfc3339("2026-09-02T02:05:11.575+09:00"),
        Some(t)
    );
    assert_eq!(t.to_rfc3339(), "2026-09-01T17:05:11.575+00:00");
    assert_eq!(Timestamp::parse_rfc3339("yesterday"), None);
    assert_eq!(Timestamp::parse_rfc3339("2026-09-01"), None);
}

#[test]
fn written_timestamps_read_back() {
    for (secs, nanos) in [
        (0, 0),
        (-1, 999_999_999),
        (1_788_282_311, 1),
        // 2016-12-31T23:59:60Z
        (1_483_228_799, 1_000_000_000),
        (1_483_228_799, 1_999_999_999),
        (-62_167_219_200, 0),
        (253_402_300_799, 999_999_999),
    ] {
        let t = Timestamp::new(secs, nanos).unwrap();
        assert_eq!(Timestamp::parse_rfc3339(&t.to_rfc3339()), Some(t));
    }
}

#[test]
fn timestamps_are_bounded() {
    assert!(Timestamp::new(MIN_SECS, 0).is_some());
    assert!(Timestamp::new(MIN_SECS - 1, 0).is_none());
    assert!(Timestamp::new(MAX_SECS, 1_999_999_999).is_some());
    assert!(Timestamp::new(MAX_SECS + 1, 0).is_none());
    assert!(Timestamp::new(59, 1_000_000_000).is_some());
    assert!(Timestamp::new(-1, 1_000_000_000).is_some());
    assert!(Timestamp::new(58, 1_000_000_000).is_none());
    assert!(Timestamp::new(59, 2_000_000_000).is_none());
    assert_eq!(
        chrono::DateTime::<chrono::Utc>::MIN_UTC.timestamp(),
        MIN_SECS
    );
    assert_eq!(
        chrono::DateTime::<chrono::Utc>::MAX_UTC.timestamp(),
        MAX_SECS
    );
    assert_eq!(
        Timestamp::new(MAX_SECS, 0).unwrap().to_rfc3339(),
        "+262142-12-31T23:59:59+00:00"
    );
}

#[test]
fn timestamps_are_ordered() {
    let t = Timestamp::new(59, 5).unwrap();
    assert!(t.precedes(&Timestamp::new(60, 0).unwrap()));
    assert!(t.precedes(&Timestamp::new(59, 6).unwrap()));
    assert!(!t.precedes(&t));
    assert!(!t.precedes(&Timestamp::new(-1, 1_000_000_000).unwrap()));
}

#[test]
fn elapsed_seconds_are_cut_towards_zero() {
    let t = moment(100, 500_000_000);
    assert_eq!(t.elapsed_since(&moment(97, 500_000_000)), 3);
    assert_eq!(t.elapsed_since(&moment(97, 500_000_001)), 2);
    assert_eq!(t.elapsed_since(&moment(101, 0)), 0);
    assert_eq!(t.elapsed_since(&moment(101, 500_000_000)), -1);
    assert_eq!(t.elapsed_since(&moment(103, 0)), -2);
    assert_eq!(
        moment(MAX_SECS, 0).elapsed_since(&moment(MIN_SECS, 0)),
        MAX_SECS - MIN_SECS
    );
    assert!(t.same(&moment(100, 500_000_000)));
    assert!(!t.same(&moment(100, 0)));
    assert_eq!((t.secs(), t.nanos()), (100, 500_000_000));
    assert!(Moment::new(0, 1_000_000_000).is_none());
    assert!(Moment::new(MAX_SECS + 1, 0).is_none());
}

#[test]
fn zones_are_known_by_name() {
    assert_eq!(TimeZone::new("Asia/Tokyo").unwrap().name(), "Asia/Tokyo");
    assert!(TimeZone::new("UTC").is_some());
    assert!(TimeZone::new("Mars/Olympus").is_none());
    assert!(TimeZone::new("").is_none());
    assert_eq!(
        TimeZone::new("Europe/Berlin").unwrap().clone().name(),
        "Europe/Berlin"
    );
}

#[test]
fn local_time_is_that_of_the_zone() {
    // 2026-06-05 is a Friday.
    let t = chrono_tz::Asia::Tokyo
        .with_ymd_and_hms(2026, 6, 5, 0, 30, 45)
        .single()
        .unwrap();
    let now = local("Asia/Tokyo", t.timestamp());
    assert_eq!(now.day(), 5);
    assert_eq!(now.weekday(), Weekday::Fri);
    assert_eq!((now.hour(), now.minute(), now.second()), (0, 30, 45));
    assert_eq!(now.at(), moment(t.timestamp(), 0));
    let utc = local("UTC", t.timestamp());
    assert_eq!(utc.day(), 4);
    assert_eq!(utc.weekday(), Weekday::Thu);
    assert_eq!((utc.hour(), utc.minute(), utc.second()), (15, 30, 45));
}

#[test]
fn minutes_start_at_their_first_second() {
    let zone = TimeZone::new("Asia/Tokyo").unwrap();
    let now = LocalTime::in_zone(moment(1_780_000_045, 7), &zone);
    let second = i64::from(now.second());
    assert_eq!(
        truncate_to_minute(&now),
        moment(1_780_000_045 - second, 0)
    );
    // Before 1888 the clocks of Tokyo were not whole minutes ahead of UTC.
    let old = LocalTime::in_zone(moment(-2_600_000_000, 1), &zone);
    let start = truncate_to_minute(&old);
    let at_start = LocalTime::in_zone(start, &zone);
    assert_eq!(at_start.second(), 0);
    assert_eq!(at_start.minute(), old.minute());
    assert_eq!(start.nanos(), 0);
    assert_ne!(start.secs() % 60, 0);
}

#[test]
fn both_passes_of_a_repeated_minute_are_told_apart() {
    // On 2026-10-25 the clocks of Berlin show 02:30 twice.
    let zone = chrono_tz::Europe::Berlin;
    let twice = zone.with_ymd_and_hms(2026, 10, 25, 2, 30, 15);
    let (first, second) = (twice.earliest().unwrap(), twice.latest().unwrap());
    let first = local("Europe/Berlin", first.timestamp());
    let second = local("Europe/Berlin", second.timestamp());
    assert_eq!((first.hour(), first.minute()), (2, 30));
    assert_eq!((second.hour(), second.minute()), (2, 30));
    let (first, second) = (truncate_to_minute(&first), truncate_to_minute(&second));
    assert_eq!(second.elapsed_since(&first), 3600);
}

#[test]
fn the_first_instant_is_its_own_minute() {
    let zone = TimeZone::new("Asia/Tokyo").unwrap();
    let now = LocalTime::in_zone(moment(MIN_SECS, 3), &zone);
    assert_ne!(now.second(), 0);
    assert_eq!(truncate_to_minute(&now), moment(MIN_SECS, 3));
}

#[test]
fn weekdays_count_from_monday() {
    let days = [
        Weekday::Mon,
        Weekday::Tue,
        Weekday::Wed,
        Weekday::Thu,
        Weekday::Fri,
        Weekday::Sat,
        Weekday::Sun,
    ];
    for i in 0..7u8 {
        assert_eq!(days[usize::from(i)].num_days_from_monday(), i);
        assert_eq!(Weekday::from_monday(u32::from(i)), days[usize::from(i)]);
    }
}

#[test]
fn spans_are_seconds() {
    assert_eq!(Span::from_secs(5), Span { secs: 5, nanos: 0 });
    assert_eq!(Span::from_secs(5).as_secs(), 5);
}

#[test]
fn local_time_follows_the_offset() {
    // 2026-06-05T00:30:45Z
    let at = moment(1_780_619_445, 0);
    let east = LocalTime::at_offset(at, 9 * 3600);
    assert_eq!((east.day(), east.hour(), east.minute()), (5, 9, 30));
    let west = LocalTime::at_offset(at, -3600);
    assert_eq!((west.day(), west.hour(), west.second()), (4, 23, 45));
    assert_eq!(west.weekday(), Weekday::Thu);
}
