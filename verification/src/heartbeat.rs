//! The heartbeat file, and what its age says of the scheduler.

use vstd::prelude::*;

use crate::clock::{
    rfc3339_instant, rfc3339_text, Moment, Span, NANOS_PER_SEC, RFC3339_MAX_SECS, RFC3339_MIN_SECS,
};
use crate::text::{opt_view, result_view};

verus! {

pub const DEFAULT_HEARTBEAT_PATH: &'static str = "/tmp/chime.heartbeat";

pub const HEARTBEAT_PATH_ENV: &'static str = "CHIME_HEARTBEAT_PATH";

/// The path of the heartbeat file that a setting of `CHIME_HEARTBEAT_PATH`, or
/// none, stands for.
pub open spec fn heartbeat_path_of(setting: Option<Seq<char>>) -> Seq<char> {
    match setting {
        Some(path) => path,
        None => DEFAULT_HEARTBEAT_PATH@,
    }
}

/// The path of the heartbeat file, by the setting of `CHIME_HEARTBEAT_PATH`. The
/// daemon, which writes the file, and the health check, which reads it, share it.
pub fn heartbeat_path(setting: Option<String>) -> (path: String)
    ensures
        path@ == heartbeat_path_of(opt_view(setting)),
{
    match setting {
        Some(path) => path,
        None => DEFAULT_HEARTBEAT_PATH.to_owned(),
    }
}

/// What is written to the heartbeat file when the clock reads `at`.
pub open spec fn heartbeat_text_of(at: (int, int)) -> Seq<char> {
    rfc3339_text(at.0, at.1)
}

/// What is written to the heartbeat file when the clock reads `at`: that time, in RFC
/// 3339.
pub fn heartbeat_text(at: &Moment) -> (text: String)
    ensures
        text@ == heartbeat_text_of(at@),
        text@.len() > 0,
        RFC3339_MIN_SECS <= at@.0 <= RFC3339_MAX_SECS ==> rfc3339_instant(text@) == Some(at@),
{
    at.to_rfc3339()
}

/// A reading of the system's wall clock: seconds since the start of 1970, and
/// nanoseconds.
#[derive(Debug, Clone, Copy, PartialEq, Eq, Structural)]
pub struct WallClock {
    secs: i64,
    nanos: u32,
}

impl View for WallClock {
    type V = int;

    /// Nanoseconds since the start of 1970.
    closed spec fn view(&self) -> int {
        self.secs * NANOS_PER_SEC + self.nanos
    }
}

impl WallClock {
    #[verifier::type_invariant]
    spec fn wf(&self) -> bool {
        self.nanos < NANOS_PER_SEC
    }

    pub fn new(secs: i64, nanos: u32) -> (r: Option<WallClock>)
        ensures
            r is Some <==> nanos < NANOS_PER_SEC,
            r matches Some(t) ==> t@ == secs * NANOS_PER_SEC + nanos,
    {
        if nanos < NANOS_PER_SEC {
            Some(WallClock { secs, nanos })
        } else {
            None
        }
    }

    /// The time that is this long after the start of 1970; `None` where a clock
    /// cannot read it.
    pub fn after_epoch(span: Span) -> (r: Option<WallClock>)
        ensures
            r is Some <==> span.secs <= i64::MAX && span.nanos < NANOS_PER_SEC,
            r matches Some(t) ==> t@ == span.total(),
    {
        if span.secs <= i64::MAX as u64 {
            WallClock::new(span.secs as i64, span.nanos)
        } else {
            None
        }
    }

    /// The time that is this long before the start of 1970; `None` where a clock
    /// cannot read it.
    pub fn before_epoch(span: Span) -> (r: Option<WallClock>)
        ensures
            r is Some <==> span.nanos < NANOS_PER_SEC && span.total() <= -(i64::MIN
                * NANOS_PER_SEC),
            r matches Some(t) ==> t@ == -span.total(),
    {
        if span.nanos >= NANOS_PER_SEC {
            return None;
        }
        let secs: i128 = -(span.secs as i128) - if span.nanos > 0 { 1i128 } else { 0i128 };
        if secs < i64::MIN as i128 {
            return None;
        }
        let nanos: u32 = if span.nanos > 0 { NANOS_PER_SEC - span.nanos } else { 0 };
        Some(WallClock { secs: secs as i64, nanos })
    }

    /// Nanoseconds since `previous`, negative where `previous` is yet to come.
    fn nanos_since(&self, previous: &WallClock) -> (nanos: i128)
        ensures
            nanos == self@ - previous@,
            nanos < 0x1_0000_0000_0000_0000 * NANOS_PER_SEC,
    {
        proof {
            use_type_invariant(self);
            use_type_invariant(previous);
        }
        (self.secs as i128 - previous.secs as i128) * 1_000_000_000 + (self.nanos as i128
            - previous.nanos as i128)
    }
}

/// What a look at the heartbeat file found.
#[derive(Debug)]
pub enum HeartbeatFile<T = WallClock, S = String> {
    Missing,
    /// It could not be examined; the reason.
    Unreadable(S),
    /// It was last written at this time.
    Modified(T),
}

impl View for HeartbeatFile {
    type V = HeartbeatFile<int, Seq<char>>;

    open spec fn view(&self) -> HeartbeatFile<int, Seq<char>> {
        match self {
            HeartbeatFile::Missing => HeartbeatFile::Missing,
            HeartbeatFile::Unreadable(reason) => HeartbeatFile::Unreadable(reason@),
            HeartbeatFile::Modified(mtime) => HeartbeatFile::Modified(mtime@),
        }
    }
}

/// Why the scheduler is not held to be alive.
#[derive(Debug)]
pub enum HealthError<S = String> {
    Missing { path: S },
    Stat { path: S, source: S },
    Stale { age_secs: u64, threshold_secs: u64 },
    /// The file was written in the future: a clock is wrong.
    FutureMtime,
}

impl View for HealthError {
    type V = HealthError<Seq<char>>;

    open spec fn view(&self) -> HealthError<Seq<char>> {
        match self {
            HealthError::Missing { path } => HealthError::Missing { path: path@ },
            HealthError::Stat { path, source } => HealthError::Stat {
                path: path@,
                source: source@,
            },
            HealthError::Stale { age_secs, threshold_secs } => HealthError::Stale {
                age_secs: *age_secs,
                threshold_secs: *threshold_secs,
            },
            HealthError::FutureMtime => HealthError::FutureMtime,
        }
    }
}

/// The longest length of time that there is, in nanoseconds.
pub open spec fn longest_span() -> int {
    u64::MAX * NANOS_PER_SEC + 999_999_999
}

/// The age in nanoseconds up to which a heartbeat is fresh: two intervals.
pub open spec fn freshness(interval: Span) -> int {
    if 2 * interval.total() > longest_span() {
        longest_span()
    } else {
        2 * interval.total()
    }
}

/// The verdict on a heartbeat file at the time `now`.
pub open spec fn liveness(
    path: Seq<char>,
    file: HeartbeatFile<int, Seq<char>>,
    interval: Span,
    now: int,
) -> Result<(), HealthError<Seq<char>>> {
    match file {
        HeartbeatFile::Missing => Err(HealthError::Missing { path }),
        HeartbeatFile::Unreadable(source) => Err(HealthError::Stat { path, source }),
        HeartbeatFile::Modified(mtime) => {
            if now < mtime {
                Err(HealthError::FutureMtime)
            } else if now - mtime <= freshness(interval) {
                Ok(())
            } else {
                Err(
                    HealthError::Stale {
                        age_secs: ((now - mtime) / NANOS_PER_SEC as int) as u64,
                        threshold_secs: (freshness(interval) / NANOS_PER_SEC as int) as u64,
                    },
                )
            }
        },
    }
}

/// The heartbeat is alive when it is no older than two intervals.
pub fn check_liveness(
    path: &str,
    file: &HeartbeatFile,
    interval: Span,
    now: WallClock,
) -> (r: Result<(), HealthError>)
    requires
        interval.nanos < NANOS_PER_SEC,
    ensures
        result_view(r) == liveness(path@, file@, interval, now@),
{
    match file {
        HeartbeatFile::Missing => Err(HealthError::Missing { path: path.to_owned() }),
        HeartbeatFile::Unreadable(reason) => Err(
            HealthError::Stat { path: path.to_owned(), source: reason.clone() },
        ),
        HeartbeatFile::Modified(mtime) => {
            let age = now.nanos_since(mtime);
            if age < 0 {
                return Err(HealthError::FutureMtime);
            }
            let nanos: u128 = interval.secs as u128 * 1_000_000_000 + interval.nanos as u128;
            let doubled: u128 = nanos * 2;
            let longest: u128 = u64::MAX as u128 * 1_000_000_000 + 999_999_999;
            let threshold: u128 = if doubled > longest { longest } else { doubled };
            if age as u128 <= threshold {
                Ok(())
            } else {
                Err(
                    HealthError::Stale {
                        age_secs: (age as u128 / 1_000_000_000) as u64,
                        threshold_secs: (threshold / 1_000_000_000) as u64,
                    },
                )
            }
        },
    }
}

/// With a whole number of seconds between ticks, the heartbeat is alive exactly
/// when the file was written, not in the future, and no more than twice that many
/// seconds ago.
pub proof fn law_fresh_within_two_intervals(
    path: Seq<char>,
    file: HeartbeatFile<int, Seq<char>>,
    secs: u64,
    now: int,
)
    requires
        secs <= 60,
    ensures
        liveness(path, file, Span { secs, nanos: 0 }, now) is Ok <==> (file matches
            HeartbeatFile::Modified(mtime) && 0 <= now - mtime <= 2 * secs * NANOS_PER_SEC),
{
}

/// The heartbeat is where the setting says, or at its default path, and holds the time
/// that the clock reads.
pub proof fn law_the_setting_names_the_heartbeat(path: Seq<char>, at: (int, int))
    ensures
        heartbeat_path_of(Some(path)) == path,
        heartbeat_path_of(None) == "/tmp/chime.heartbeat"@,
        heartbeat_text_of(at) == rfc3339_text(at.0, at.1),
{
}

/// A heartbeat is alive from the moment it was written until two intervals later, that
/// moment included. Before that a clock is wrong; after that it is stale, by its age and
/// by that limit, both in whole seconds; and a file that is missing or cannot be examined
/// is told by its path. The limit is two intervals, or the longest time there is.
pub proof fn law_heartbeats_live_for_two_intervals(
    path: Seq<char>,
    reason: Seq<char>,
    mtime: int,
    interval: Span,
    now: int,
)
    requires
        interval.nanos < 1_000_000_000,
        now - mtime < 18_446_744_073_709_551_616 * 1_000_000_000,
    ensures
        liveness(path, HeartbeatFile::Missing, interval, now) == Err::<(), _>(
            HealthError::Missing { path },
        ),
        liveness(path, HeartbeatFile::Unreadable(reason), interval, now) == Err::<(), _>(
            HealthError::Stat { path, source: reason },
        ),
        ({
            let verdict = liveness(path, HeartbeatFile::Modified(mtime), interval, now);
            let longest = 18_446_744_073_709_551_615int * 1_000_000_000 + 999_999_999;
            let doubled = 2 * (interval.secs * 1_000_000_000 + interval.nanos);
            let limit = if doubled <= longest {
                doubled
            } else {
                longest
            };
            &&& verdict is Ok <==> 0 <= now - mtime <= limit
            &&& verdict == Err::<(), HealthError<Seq<char>>>(HealthError::FutureMtime) <==> now
                < mtime
            &&& now - mtime > limit ==> (verdict matches Err(
                HealthError::Stale { age_secs, threshold_secs },
            ) && age_secs == (now - mtime) / 1_000_000_000 && threshold_secs == limit
                / 1_000_000_000)
        }),
{
}

} // verus!
