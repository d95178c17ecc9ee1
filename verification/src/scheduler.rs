//! The scheduler: what each tick sends, polls and reports.

use vstd::prelude::*;

use crate::clock::{
    elapsed, rfc3339_instant, rfc3339_text, total_nanos, truncate_to_minute, Clock, LocalTime,
    Moment, Span, MAX_SECS, MIN_SECS, NANOS_PER_SEC, RFC3339_MAX_SECS, RFC3339_MIN_SECS,
};
use crate::heartbeat::{heartbeat_text, heartbeat_text_of};
use crate::names::NameMap;
use crate::notifier::{
    abridges, law_constructors_hold_what_they_are_given, text_message, DiscordMessage, MessageView,
};
use crate::runtime::{
    RunConfig, RunConfigView, RunReminder, RunReminderView, RunStatusPage, RunStatusPageView,
};
use crate::status::{
    announces, blank_page, build_message, diff, fetch_of, fetch_request,
    law_messages_announce_their_event, message_of, EventView, FetchRequest, FetchView, Fetched,
    IncidentState, IncidentView, PageState, PageStateView, StatusError, StatusEvent,
};
use crate::text::{opt_view, result_view, seq_view};

verus! {

/// How often the status poller reports that it is alive, in seconds.
///
/// A healthy page answers that nothing has changed, which is not worth a line in the
/// log, so without this a working poller could not be told from a dead one for as
/// long as no incident moves.
pub const STATUS_SUMMARY_INTERVAL_SEC: i64 = 3600;

// ---------------------------------------------------------------------------
// Counting polls
// ---------------------------------------------------------------------------
/// What one poll did.
#[derive(Debug, Clone, Copy, PartialEq, Eq, Structural)]
pub enum PollOutcome {
    NotModified,
    Updated { forwarded: u64 },
    Failed,
}

/// Counters for one summary window.
#[derive(Debug, Clone, Copy, PartialEq, Eq, Structural)]
pub struct PollStats {
    pub polls: u64,
    pub not_modified: u64,
    pub updated: u64,
    pub failed: u64,
    pub forwarded: u64,
}

impl PollStats {
    pub open spec fn zero() -> PollStats {
        PollStats { polls: 0, not_modified: 0, updated: 0, failed: 0, forwarded: 0 }
    }

    /// Every poll had exactly one outcome.
    pub open spec fn balanced(self) -> bool {
        self.polls == self.not_modified + self.updated + self.failed
    }

    /// The counters after one more poll.
    pub open spec fn with(self, outcome: PollOutcome) -> PollStats {
        let more = PollStats { polls: (self.polls + 1) as u64, ..self };
        match outcome {
            PollOutcome::NotModified => PollStats {
                not_modified: (self.not_modified + 1) as u64,
                ..more
            },
            PollOutcome::Updated { forwarded } => PollStats {
                updated: (self.updated + 1) as u64,
                forwarded: (self.forwarded + forwarded) as u64,
                ..more
            },
            PollOutcome::Failed => PollStats { failed: (self.failed + 1) as u64, ..more },
        }
    }

    /// Is there room for one more poll that forwarded this much? Where the counters
    /// add up, no outcome has been counted more often than polls have.
    pub open spec fn has_room(self, forwarded: int) -> bool {
        self.polls < u64::MAX && self.forwarded + forwarded <= u64::MAX
    }

    /// Have the counters that an outcome adds to room for it?
    pub open spec fn has_room_for(self, outcome: PollOutcome) -> bool {
        &&& self.polls < u64::MAX
        &&& match outcome {
            PollOutcome::NotModified => self.not_modified < u64::MAX,
            PollOutcome::Updated { forwarded } => {
                &&& self.updated < u64::MAX
                &&& self.forwarded + forwarded <= u64::MAX
            },
            PollOutcome::Failed => self.failed < u64::MAX,
        }
    }

    pub fn record(&mut self, outcome: PollOutcome)
        requires
            old(self).has_room_for(outcome),
        ensures
            *final(self) == old(self).with(outcome),
            old(self).balanced() ==> final(self).balanced(),
    {
        self.polls = self.polls + 1;
        match outcome {
            PollOutcome::NotModified => {
                self.not_modified = self.not_modified + 1;
            },
            PollOutcome::Updated { forwarded } => {
                self.updated = self.updated + 1;
                self.forwarded = self.forwarded + forwarded;
            },
            PollOutcome::Failed => {
                self.failed = self.failed + 1;
            },
        }
    }
}

impl Default for PollStats {
    fn default() -> (stats: Self)
        ensures
            stats == PollStats::zero(),
    {
        PollStats { polls: 0, not_modified: 0, updated: 0, failed: 0, forwarded: 0 }
    }
}

/// A closed summary window: its length, and what happened in it.
#[derive(Debug, Clone, Copy, PartialEq, Eq, Structural)]
pub struct Summary {
    pub window_sec: i64,
    /// How many status pages are watched.
    pub pages: usize,
    pub stats: PollStats,
}

pub struct SummaryView {
    pub window_sec: int,
    pub pages: int,
    pub stats: PollStats,
}

impl View for Summary {
    type V = SummaryView;

    open spec fn view(&self) -> SummaryView {
        SummaryView {
            window_sec: self.window_sec as int,
            pages: self.pages as int,
            stats: self.stats,
        }
    }
}

// ---------------------------------------------------------------------------
// Deliveries
// ---------------------------------------------------------------------------
/// What a message is sent for.
#[derive(Debug)]
pub enum Purpose<S = String> {
    Reminder { name: S },
    StatusUpdate { page: S, incident: S, state: IncidentState },
}

impl View for Purpose {
    type V = Purpose<Seq<char>>;

    open spec fn view(&self) -> Purpose<Seq<char>> {
        match self {
            Purpose::Reminder { name } => Purpose::Reminder { name: name@ },
            Purpose::StatusUpdate { page, incident, state } => Purpose::StatusUpdate {
                page: page@,
                incident: incident@,
                state: *state,
            },
        }
    }
}

/// A message, and the webhook that it goes to.
#[derive(Debug)]
pub struct Delivery {
    pub purpose: Purpose,
    pub url: String,
    pub message: DiscordMessage,
}

pub struct DeliveryView {
    pub purpose: Purpose<Seq<char>>,
    pub url: Seq<char>,
    pub message: MessageView,
}

impl View for Delivery {
    type V = DeliveryView;

    open spec fn view(&self) -> DeliveryView {
        DeliveryView { purpose: self.purpose@, url: self.url@, message: self.message@ }
    }
}

// ---------------------------------------------------------------------------
// Reminders
// ---------------------------------------------------------------------------
/// The reminder fires now and has not fired in this minute.
pub open spec fn reminder_is_due(
    last_fired: Map<Seq<char>, (int, int)>,
    reminder: RunReminderView,
    now: Clock,
) -> bool {
    &&& reminder.fires_at(now)
    &&& !(last_fired.dom().contains(reminder.name) && last_fired[reminder.name]
        == now.minute_start())
}

/// The message of a reminder, as plain text.
pub open spec fn reminder_delivery(reminder: RunReminderView) -> DeliveryView {
    DeliveryView {
        purpose: Purpose::Reminder { name: reminder.name },
        url: reminder.webhook_url,
        message: text_message(reminder.message),
    }
}

/// When each reminder last fired, once those that are due have.
pub open spec fn marks_after(
    reminders: Seq<RunReminderView>,
    last_fired: Map<Seq<char>, (int, int)>,
    now: Clock,
) -> Map<Seq<char>, (int, int)>
    decreases reminders.len(),
{
    if reminders.len() == 0 {
        last_fired
    } else {
        let before = marks_after(reminders.drop_last(), last_fired, now);
        if reminder_is_due(before, reminders.last(), now) {
            before.insert(reminders.last().name, now.minute_start())
        } else {
            before
        }
    }
}

/// The messages of the reminders that are due, in order.
pub open spec fn firings(
    reminders: Seq<RunReminderView>,
    last_fired: Map<Seq<char>, (int, int)>,
    now: Clock,
) -> Seq<DeliveryView>
    decreases reminders.len(),
{
    if reminders.len() == 0 {
        Seq::empty()
    } else {
        let before = firings(reminders.drop_last(), last_fired, now);
        if reminder_is_due(
            marks_after(reminders.drop_last(), last_fired, now),
            reminders.last(),
            now,
        ) {
            before.push(reminder_delivery(reminders.last()))
        } else {
            before
        }
    }
}

/// Notes that the reminders which are due have fired, and returns their messages.
/// The note is taken before anything is sent, so a failure to send does not cause a
/// second attempt within the minute.
pub fn fire_reminders(
    reminders: &Vec<RunReminder>,
    last_fired: &mut NameMap<Moment>,
    now: &LocalTime,
) -> (to_fire: Vec<Delivery>)
    ensures
        final(last_fired)@ == marks_after(seq_view(reminders@), old(last_fired)@, now@),
        seq_view(to_fire@) == firings(seq_view(reminders@), old(last_fired)@, now@),
{
    let ghost views = seq_view(reminders@);
    let ghost marks = last_fired@;
    let current_minute = truncate_to_minute(now);
    let mut to_fire: Vec<Delivery> = Vec::new();
    assert(seq_view(to_fire@) =~= Seq::<DeliveryView>::empty());
    assert(views.take(0) =~= Seq::<RunReminderView>::empty());
    for i in 0..reminders.len()
        invariant
            views == seq_view(reminders@),
            current_minute@ == now@.minute_start(),
            last_fired@ == marks_after(views.take(i as int), marks, now@),
            seq_view(to_fire@) == firings(views.take(i as int), marks, now@),
    {
        let reminder = &reminders[i];
        let ghost before = to_fire@;
        proof {
            assert(views.take(i + 1).drop_last() =~= views.take(i as int));
            assert(views.take(i + 1).last() == reminder@);
        }
        if reminder.fires_at(now) {
            let already_fired = match last_fired.get(reminder.name.as_str()) {
                Some(fired) => fired.same(&current_minute),
                None => false,
            };
            if !already_fired {
                last_fired.insert(reminder.name.clone(), current_minute);
                let delivery = Delivery {
                    purpose: Purpose::Reminder { name: reminder.name.clone() },
                    url: reminder.webhook_url.clone(),
                    message: DiscordMessage::text(reminder.message.as_str()),
                };
                assert(delivery@ == reminder_delivery(reminder@));
                to_fire.push(delivery);
                assert(seq_view(to_fire@) =~= seq_view(before).push(delivery@));
            }
        }
    }
    assert(views.take(reminders@.len() as int) =~= views);
    to_fire
}

// ---------------------------------------------------------------------------
// Which page to poll
// ---------------------------------------------------------------------------
/// The interval has passed since the page was last polled. A clock that steps
/// backwards does not park a page until it catches up.
pub open spec fn due(last: Option<(int, int)>, poll_interval: Span, now: (int, int)) -> bool {
    match last {
        None => true,
        Some(previous) => elapsed(now, previous) < 0 || elapsed(now, previous)
            >= poll_interval.secs,
    }
}

pub fn is_due(last: Option<&Moment>, poll_interval: Span, now: Moment) -> (r: bool)
    ensures
        r == due(opt_view(last), poll_interval, now@),
{
    match last {
        None => true,
        Some(previous) => {
            let elapsed = now.elapsed_since(previous);
            elapsed < 0 || elapsed as u64 >= poll_interval.as_secs()
        },
    }
}

/// How long ago the page was last polled. A page that never was outranks every page
/// that was.
pub open spec fn overdue(last: Option<(int, int)>, now: (int, int)) -> int {
    match last {
        None => i64::MAX as int,
        Some(previous) => elapsed(now, previous),
    }
}

pub fn overdue_secs(last: Option<&Moment>, now: Moment) -> (secs: i64)
    ensures
        secs == overdue(opt_view(last), now@),
{
    match last {
        None => i64::MAX,
        Some(previous) => now.elapsed_since(previous),
    }
}

pub open spec fn poll_of(last_polled: Map<Seq<char>, (int, int)>, name: Seq<char>) -> Option<
    (int, int),
> {
    if last_polled.dom().contains(name) {
        Some(last_polled[name])
    } else {
        None
    }
}

pub open spec fn page_is_due(
    pages: Seq<RunStatusPageView>,
    last_polled: Map<Seq<char>, (int, int)>,
    now: (int, int),
    i: int,
) -> bool {
    &&& 0 <= i < pages.len()
    &&& due(poll_of(last_polled, pages[i].name), pages[i].poll_interval, now)
}

pub open spec fn page_overdue(
    pages: Seq<RunStatusPageView>,
    last_polled: Map<Seq<char>, (int, int)>,
    now: (int, int),
    i: int,
) -> int {
    overdue(poll_of(last_polled, pages[i].name), now)
}

/// The page at `i` is due, no page that is due has waited longer, and none before it
/// has waited as long.
pub open spec fn is_most_overdue(
    pages: Seq<RunStatusPageView>,
    last_polled: Map<Seq<char>, (int, int)>,
    now: (int, int),
    i: int,
) -> bool {
    &&& page_is_due(pages, last_polled, now, i)
    &&& forall|j: int| #[trigger]
        page_is_due(pages, last_polled, now, j) ==> page_overdue(pages, last_polled, now, j)
            <= page_overdue(pages, last_polled, now, i)
    &&& forall|j: int|
        j < i && #[trigger] page_is_due(pages, last_polled, now, j) ==> page_overdue(
            pages,
            last_polled,
            now,
            j,
        ) < page_overdue(pages, last_polled, now, i)
}

/// The page to poll, if any is due.
pub open spec fn next_page(
    pages: Seq<RunStatusPageView>,
    last_polled: Map<Seq<char>, (int, int)>,
    now: (int, int),
) -> Option<int> {
    if exists|i: int| page_is_due(pages, last_polled, now, i) {
        Some(choose|i: int| is_most_overdue(pages, last_polled, now, i))
    } else {
        None
    }
}

proof fn lemma_most_overdue_is_unique(
    pages: Seq<RunStatusPageView>,
    last_polled: Map<Seq<char>, (int, int)>,
    now: (int, int),
    i: int,
    j: int,
)
    requires
        is_most_overdue(pages, last_polled, now, i),
        is_most_overdue(pages, last_polled, now, j),
    ensures
        i == j,
{
}

/// The page that has waited longest among those that are due. Of pages that have
/// waited equally long it is the first, so the choice is deterministic.
pub fn most_overdue(
    pages: &Vec<RunStatusPage>,
    last_polled: &NameMap<Moment>,
    now: Moment,
) -> (r: Option<usize>)
    ensures
        match r {
            Some(i) => i < pages@.len() && next_page(seq_view(pages@), last_polled@, now@) == Some(
                i as int,
            ),
            None => next_page(seq_view(pages@), last_polled@, now@) is None,
        },
{
    let ghost views = seq_view(pages@);
    let mut best: Option<usize> = None;
    let mut longest: i64 = 0;
    for i in 0..pages.len()
        invariant
            views == seq_view(pages@),
            match best {
                None => forall|j: int|
                    j < i ==> !#[trigger] page_is_due(views, last_polled@, now@, j),
                Some(b) => {
                    &&& b < i
                    &&& page_is_due(views, last_polled@, now@, b as int)
                    &&& longest == page_overdue(views, last_polled@, now@, b as int)
                    &&& forall|j: int|
                        j < i && #[trigger] page_is_due(views, last_polled@, now@, j)
                            ==> page_overdue(views, last_polled@, now@, j) <= longest
                    &&& forall|j: int|
                        j < b && #[trigger] page_is_due(views, last_polled@, now@, j)
                            ==> page_overdue(views, last_polled@, now@, j) < longest
                },
            },
    {
        let page = &pages[i];
        assert(views[i as int] == page@);
        let last = last_polled.get(page.name.as_str());
        assert(opt_view(last) == poll_of(last_polled@, views[i as int].name));
        if is_due(last, page.poll_interval, now) {
            let waited = overdue_secs(last, now);
            if best.is_none() || waited > longest {
                best = Some(i);
                longest = waited;
            }
        }
    }
    proof {
        if let Some(b) = best {
            assert(is_most_overdue(views, last_polled@, now@, b as int));
            lemma_most_overdue_is_unique(
                views,
                last_polled@,
                now@,
                b as int,
                choose|i: int| is_most_overdue(views, last_polled@, now@, i),
            );
        }
    }
    best
}

// ---------------------------------------------------------------------------
// What a poll brings
// ---------------------------------------------------------------------------
/// What came of reading a page.
pub type PollResult = Result<
    Fetched<Seq<IncidentView>, Seq<char>>,
    StatusError<Seq<char>>,
>;

/// The state of a page after a poll: untouched unless there was a feed.
pub open spec fn state_after_poll(state: PageStateView, fetched: PollResult) -> PageStateView {
    match fetched {
        Ok(Fetched::Modified { incidents, etag }) => PageStateView {
            etag,
            ..state.after(incidents)
        },
        _ => state,
    }
}

/// The message that tells of an event on a page.
pub open spec fn update_delivery(page: RunStatusPageView, event: EventView) -> DeliveryView {
    DeliveryView {
        purpose: Purpose::StatusUpdate {
            page: page.name,
            incident: event.incident_id,
            state: event.state,
        },
        url: page.webhook_url,
        message: message_of(page, event),
    }
}

/// The messages to forward after a poll. A page that cannot be read is not worth
/// one.
pub open spec fn forwards(
    page: RunStatusPageView,
    state: PageStateView,
    fetched: PollResult,
) -> Seq<DeliveryView> {
    match fetched {
        Ok(Fetched::Modified { incidents, .. }) => state.events(
            incidents,
            page.min_impact,
        ).map_values(|event: EventView| update_delivery(page, event)),
        _ => Seq::empty(),
    }
}

fn update(page: &RunStatusPage, event: &StatusEvent) -> (delivery: Delivery)
    ensures
        delivery@ == update_delivery(page@, event@),
{
    Delivery {
        purpose: Purpose::StatusUpdate {
            page: page.name.clone(),
            incident: event.incident_id.clone(),
            state: event.state,
        },
        url: page.webhook_url.clone(),
        message: build_message(page, event),
    }
}

/// Takes a feed in: what is new becomes messages to forward, and all of it is
/// remembered as seen before the first of them is sent.
pub fn take_feed(
    page: &RunStatusPage,
    state: &mut PageState,
    fetched: Result<Fetched, StatusError>,
) -> (r: (Option<PollOutcome>, Vec<Delivery>))
    ensures
        final(state)@ == state_after_poll(old(state)@, result_view(fetched)),
        seq_view(r.1@) == forwards(page@, old(state)@, result_view(fetched)),
        r.0 == outcome_of(result_view(fetched)),
{
    let mut queue: Vec<Delivery> = Vec::new();
    match fetched {
        Err(_) => {
            assert(seq_view(queue@) =~= Seq::<DeliveryView>::empty());
            (Some(PollOutcome::Failed), queue)
        },
        Ok(Fetched::NotModified) => {
            assert(seq_view(queue@) =~= Seq::<DeliveryView>::empty());
            (Some(PollOutcome::NotModified), queue)
        },
        Ok(Fetched::Modified { incidents, etag }) => {
            state.set_etag(etag);
            let events = diff(state, incidents.as_slice(), page.min_impact);
            for i in 0..events.len()
                invariant
                    queue@.len() == i,
                    forall|j: int|
                        0 <= j < i ==> (#[trigger] queue@[j])@ == update_delivery(
                            page@,
                            events@[j]@,
                        ),
            {
                queue.push(update(page, &events[i]));
            }
            assert(seq_view(queue@) =~= seq_view(events@).map_values(
                |event: EventView| update_delivery(page@, event),
            ));
            (None, queue)
        },
    }
}

/// The outcome of a poll, as far as it is settled before anything is forwarded.
pub open spec fn outcome_of(fetched: PollResult) -> Option<PollOutcome> {
    match fetched {
        Err(_) => Some(PollOutcome::Failed),
        Ok(Fetched::NotModified) => Some(PollOutcome::NotModified),
        Ok(Fetched::Modified { .. }) => None,
    }
}

// ---------------------------------------------------------------------------
// The scheduler
// ---------------------------------------------------------------------------
/// What has happened outside.
#[derive(Debug)]
pub enum Signal {
    /// It is time for a tick: the local time at which it takes place, and what the
    /// system clock reads when its heartbeat is about to be written.
    Tick { now: LocalTime, reading: Moment },
    /// The heartbeat was written, with success or without.
    HeartbeatWritten(bool),
    /// A message was sent, with success or without.
    Delivered(bool),
    /// A status page was read, or could not be.
    Fetched(Result<Fetched, StatusError>),
}

pub enum SignalView {
    Tick { now: Clock, reading: (int, int) },
    HeartbeatWritten(bool),
    Delivered(bool),
    Fetched(PollResult),
}

impl View for Signal {
    type V = SignalView;

    open spec fn view(&self) -> SignalView {
        match self {
            Signal::Tick { now, reading } => SignalView::Tick { now: now@, reading: reading@ },
            Signal::HeartbeatWritten(ok) => SignalView::HeartbeatWritten(*ok),
            Signal::Delivered(ok) => SignalView::Delivered(*ok),
            Signal::Fetched(fetched) => SignalView::Fetched(result_view(*fetched)),
        }
    }
}

/// What is to be done outside, and reported back by a signal.
#[derive(Debug)]
pub enum Action {
    /// Write the heartbeat file: at `path`, with the current time for contents.
    WriteHeartbeat { path: String, contents: String },
    /// Send a message.
    Deliver(Delivery),
    /// Read a status page.
    Fetch { page: String, request: FetchRequest },
    /// The tick is over. Wait for the next, and log the summary if there is one.
    Rest { summary: Option<Summary> },
    /// The signal was not awaited, and nothing has changed.
    Ignored,
}

pub enum ActionView {
    WriteHeartbeat { path: Seq<char>, contents: Seq<char> },
    Deliver(DeliveryView),
    Fetch { page: Seq<char>, request: FetchView },
    Rest { summary: Option<SummaryView> },
    Ignored,
}

impl View for Action {
    type V = ActionView;

    open spec fn view(&self) -> ActionView {
        match self {
            Action::WriteHeartbeat { path, contents } => ActionView::WriteHeartbeat {
                path: path@,
                contents: contents@,
            },
            Action::Deliver(delivery) => ActionView::Deliver(delivery@),
            Action::Fetch { page, request } => ActionView::Fetch {
                page: page@,
                request: request@,
            },
            Action::Rest { summary } => ActionView::Rest { summary: opt_view(*summary) },
            Action::Ignored => ActionView::Ignored,
        }
    }
}

/// Where in a tick the scheduler is.
#[derive(Debug)]
enum Phase {
    Resting,
    /// The heartbeat is being written.
    Beating { now: LocalTime },
    /// A reminder is being sent; the rest are in the queue.
    Firing { now: LocalTime, queue: Vec<Delivery> },
    /// The page at this index is being read.
    Fetching { now: LocalTime, page: usize },
    /// A status update is being sent; the rest are in the queue.
    Forwarding { now: LocalTime, queue: Vec<Delivery>, forwarded: u64 },
}

pub enum PhaseView {
    Resting,
    Beating { now: Clock },
    Firing { now: Clock, queue: Seq<DeliveryView> },
    Fetching { now: Clock, page: int },
    Forwarding { now: Clock, queue: Seq<DeliveryView>, forwarded: u64 },
}

impl View for Phase {
    type V = PhaseView;

    closed spec fn view(&self) -> PhaseView {
        match self {
            Phase::Resting => PhaseView::Resting,
            Phase::Beating { now } => PhaseView::Beating { now: now@ },
            Phase::Firing { now, queue } => PhaseView::Firing {
                now: now@,
                queue: seq_view(queue@),
            },
            Phase::Fetching { now, page } => PhaseView::Fetching { now: now@, page: *page as int },
            Phase::Forwarding { now, queue, forwarded } => PhaseView::Forwarding {
                now: now@,
                queue: seq_view(queue@),
                forwarded: *forwarded,
            },
        }
    }
}

#[derive(Debug)]
pub struct Scheduler {
    cfg: RunConfig,
    last_fired: NameMap<Moment>,
    last_polled: NameMap<Moment>,
    page_states: NameMap<PageState>,
    stats: PollStats,
    /// `None` until the first tick: the window is anchored to a tick rather than to
    /// construction, so a scheduler built long before it runs does not report an
    /// oversized first window.
    summary_window_start: Option<Moment>,
    phase: Phase,
}

pub struct SchedulerView {
    pub cfg: RunConfigView,
    /// The minute in which each reminder last fired.
    pub last_fired: Map<Seq<char>, (int, int)>,
    /// When each page was last polled.
    pub last_polled: Map<Seq<char>, (int, int)>,
    pub page_states: Map<Seq<char>, PageStateView>,
    pub stats: PollStats,
    pub summary_window_start: Option<(int, int)>,
    pub phase: PhaseView,
}

impl View for Scheduler {
    type V = SchedulerView;

    closed spec fn view(&self) -> SchedulerView {
        SchedulerView {
            cfg: self.cfg@,
            last_fired: self.last_fired@,
            last_polled: self.last_polled@,
            page_states: self.page_states@,
            stats: self.stats,
            summary_window_start: opt_view(self.summary_window_start),
            phase: self.phase@,
        }
    }
}

impl PhaseView {
    /// The time of the tick that is under way.
    pub open spec fn now(self) -> Option<Clock> {
        match self {
            PhaseView::Resting => None,
            PhaseView::Beating { now } => Some(now),
            PhaseView::Firing { now, .. } => Some(now),
            PhaseView::Fetching { now, .. } => Some(now),
            PhaseView::Forwarding { now, .. } => Some(now),
        }
    }
}

/// What the system clock can read.
pub open spec fn is_reading(at: (int, int)) -> bool {
    MIN_SECS <= at.0 <= MAX_SECS && 0 <= at.1 < NANOS_PER_SEC
}

/// The instant that a clock shows.
pub open spec fn instant(now: Clock) -> (int, int) {
    (now.secs, now.nanos)
}

/// What is remembered of a page.
pub open spec fn page_state(
    states: Map<Seq<char>, PageStateView>,
    name: Seq<char>,
) -> PageStateView {
    if states.dom().contains(name) {
        states[name]
    } else {
        blank_page()
    }
}

impl SchedulerView {
    /// The counters add up, a page that is being read is one that is watched, and the
    /// times of the summary window and of the tick are such as a clock can read.
    pub open spec fn wf(self) -> bool {
        &&& self.stats.balanced()
        &&& self.summary_window_start matches Some(start) ==> is_reading(start)
        &&& self.phase.now() matches Some(now) ==> is_reading(instant(now))
        &&& self.phase matches PhaseView::Fetching { page, .. } ==> 0 <= page
            < self.cfg.status_pages.len()
    }

    /// The counters have room for the poll that is under way or comes next, with
    /// every message of it that is left.
    pub open spec fn can_count(self) -> bool {
        self.stats.has_room(
            match self.phase {
                PhaseView::Forwarding { queue, forwarded, .. } => forwarded + queue.len() + 1,
                _ => 0,
            },
        )
    }

    /// The summary that is due at `now`, and the length of its window. A clock that
    /// steps backwards does not park the summary until it catches up, and without
    /// status pages there is nothing to report.
    pub open spec fn due_summary(self, now: (int, int)) -> Option<(int, PollStats)> {
        match self.summary_window_start {
            Some(start) => {
                let window = elapsed(now, start);
                if self.cfg.status_pages.len() == 0 || 0 <= window < STATUS_SUMMARY_INTERVAL_SEC {
                    None
                } else {
                    Some((if window > 0 { window } else { 0 }, self.stats))
                }
            },
            None => None,
        }
    }

    /// The summary window has been closed if it was due, and opened if there was
    /// none.
    pub open spec fn after_summary(self, now: (int, int)) -> SchedulerView {
        if self.cfg.status_pages.len() == 0 {
            self
        } else if self.summary_window_start is None {
            SchedulerView { summary_window_start: Some(now), ..self }
        } else if self.due_summary(now) is Some {
            SchedulerView {
                summary_window_start: Some(now),
                stats: PollStats::zero(),
                ..self
            }
        } else {
            self
        }
    }

    /// The end of a tick.
    pub open spec fn rest(self, now: Clock) -> (SchedulerView, ActionView) {
        (
            SchedulerView { phase: PhaseView::Resting, ..self.after_summary(instant(now)) },
            ActionView::Rest {
                summary: match self.due_summary(instant(now)) {
                    Some((window_sec, stats)) => Some(
                        SummaryView {
                            window_sec,
                            pages: self.cfg.status_pages.len() as int,
                            stats,
                        },
                    ),
                    None => None,
                },
            },
        )
    }

    /// On to the status pages: the most overdue one is read, if any is due. That it
    /// was polled is noted before the request: a slow or failing page waits out its
    /// own interval.
    pub open spec fn poll(self, now: Clock) -> (SchedulerView, ActionView) {
        match next_page(self.cfg.status_pages, self.last_polled, instant(now)) {
            None => self.rest(now),
            Some(i) => {
                let page = self.cfg.status_pages[i];
                let state = page_state(self.page_states, page.name);
                (
                    SchedulerView {
                        last_polled: self.last_polled.insert(page.name, instant(now)),
                        page_states: self.page_states.insert(page.name, state),
                        phase: PhaseView::Fetching { now, page: i },
                        ..self
                    },
                    ActionView::Fetch {
                        page: page.name,
                        request: fetch_of(page.api_url, state.etag),
                    },
                )
            },
        }
    }

    /// On with the reminders in `queue`, or with the status pages after the last.
    pub open spec fn fire(self, now: Clock, queue: Seq<DeliveryView>) -> (
        SchedulerView,
        ActionView,
    ) {
        if queue.len() == 0 {
            self.poll(now)
        } else {
            (
                SchedulerView {
                    phase: PhaseView::Firing { now, queue: queue.drop_first() },
                    ..self
                },
                ActionView::Deliver(queue[0]),
            )
        }
    }

    /// The poll had this outcome, and the tick is over.
    pub open spec fn settle(self, now: Clock, outcome: PollOutcome) -> (
        SchedulerView,
        ActionView,
    ) {
        SchedulerView { stats: self.stats.with(outcome), ..self }.rest(now)
    }

    /// On with the status updates in `queue`, or with the end of the tick after the
    /// last.
    pub open spec fn forward(self, now: Clock, queue: Seq<DeliveryView>, forwarded: u64) -> (
        SchedulerView,
        ActionView,
    ) {
        if queue.len() == 0 {
            self.settle(now, PollOutcome::Updated { forwarded })
        } else {
            (
                SchedulerView {
                    phase: PhaseView::Forwarding { now, queue: queue.drop_first(), forwarded },
                    ..self
                },
                ActionView::Deliver(queue[0]),
            )
        }
    }

    /// A page has been read, or could not be.
    pub open spec fn fetched(self, now: Clock, page: int, fetched: PollResult) -> (
        SchedulerView,
        ActionView,
    ) {
        let watched = self.cfg.status_pages[page];
        let state = page_state(self.page_states, watched.name);
        let after = SchedulerView {
            page_states: self.page_states.insert(watched.name, state_after_poll(state, fetched)),
            ..self
        };
        match outcome_of(fetched) {
            Some(outcome) => after.settle(now, outcome),
            None => after.forward(now, forwards(watched, state, fetched), 0),
        }
    }

    /// The heartbeat of a tick: what the clock reads, written to the configured path.
    pub open spec fn beat(self, reading: (int, int)) -> ActionView {
        ActionView::WriteHeartbeat {
            path: self.cfg.heartbeat_path,
            contents: heartbeat_text_of(reading),
        }
    }

    /// What a signal leads to.
    pub open spec fn next(self, signal: SignalView) -> (SchedulerView, ActionView) {
        match (self.phase, signal) {
            (PhaseView::Resting, SignalView::Tick { now, reading }) => (
                SchedulerView { phase: PhaseView::Beating { now }, ..self },
                self.beat(reading),
            ),
            (PhaseView::Beating { now }, SignalView::HeartbeatWritten(_)) => SchedulerView {
                last_fired: marks_after(self.cfg.reminders, self.last_fired, now),
                ..self
            }.fire(now, firings(self.cfg.reminders, self.last_fired, now)),
            (PhaseView::Firing { now, queue }, SignalView::Delivered(_)) => self.fire(now, queue),
            (PhaseView::Fetching { now, page }, SignalView::Fetched(fetched)) => self.fetched(
                now,
                page,
                fetched,
            ),
            (
                PhaseView::Forwarding { now, queue, forwarded },
                SignalView::Delivered(ok),
            ) => self.forward(
                now,
                queue,
                if ok {
                    (forwarded + 1) as u64
                } else {
                    forwarded
                },
            ),
            _ => (self, ActionView::Ignored),
        }
    }
}

impl Scheduler {
    #[verifier::type_invariant]
    pub open spec fn wf(&self) -> bool {
        self@.wf()
    }

    pub fn new(cfg: RunConfig) -> (scheduler: Self)
        ensures
            scheduler@ == (SchedulerView {
                cfg: cfg@,
                last_fired: Map::empty(),
                last_polled: Map::empty(),
                page_states: Map::empty(),
                stats: PollStats::zero(),
                summary_window_start: None,
                phase: PhaseView::Resting,
            }),
    {
        Scheduler {
            cfg,
            last_fired: NameMap::new(),
            last_polled: NameMap::new(),
            page_states: NameMap::new(),
            stats: PollStats::default(),
            summary_window_start: None,
            phase: Phase::Resting,
        }
    }

    pub fn config(&self) -> (cfg: &RunConfig)
        ensures
            cfg@ == self@.cfg,
    {
        &self.cfg
    }

    /// When each page was last polled.
    pub fn last_polled(&self) -> (last_polled: &NameMap<Moment>)
        ensures
            last_polled@ == self@.last_polled,
    {
        &self.last_polled
    }

    pub fn stats(&self) -> (stats: PollStats)
        ensures
            stats == self@.stats,
            stats.balanced(),
    {
        proof {
            use_type_invariant(self);
        }
        self.stats
    }

    /// Have the counters room for the poll that is under way or comes next?
    pub fn can_count(&self) -> (r: bool)
        ensures
            r == self@.can_count(),
    {
        let pending: u128 = match &self.phase {
            Phase::Forwarding { queue, forwarded, .. } => *forwarded as u128 + queue.len() as u128
                + 1,
            _ => 0,
        };
        self.stats.polls < u64::MAX && self.stats.forwarded as u128 + pending <= u64::MAX as u128
    }

    /// Notes that a page was polled.
    pub fn mark_polled(&mut self, name: String, at: Moment)
        ensures
            final(self)@ == (SchedulerView {
                last_polled: old(self)@.last_polled.insert(name@, at@),
                ..old(self)@
            }),
    {
        proof {
            use_type_invariant(&*self);
        }
        let mut last_polled: NameMap<Moment> = NameMap::new();
        std::mem::swap(&mut last_polled, &mut self.last_polled);
        last_polled.insert(name, at);
        self.last_polled = last_polled;
    }

    /// Closes the summary window and hands back its length and counters, or `None`
    /// while the window is still open.
    pub fn take_due_summary(&mut self, now: Moment) -> (r: Option<(i64, PollStats)>)
        ensures
            match r {
                Some((window_sec, stats)) => old(self)@.due_summary(now@) == Some(
                    (window_sec as int, stats),
                ),
                None => old(self)@.due_summary(now@) is None,
            },
            final(self)@ == old(self)@.after_summary(now@),
    {
        proof {
            use_type_invariant(&*self);
            use_type_invariant(&now);
        }
        // A reminder-only deployment has no poller to prove alive.
        if self.cfg.status_pages.is_empty() {
            return None;
        }
        let start = match self.summary_window_start {
            Some(start) => start,
            None => {
                self.summary_window_start = Some(now);
                return None;
            },
        };
        let elapsed = now.elapsed_since(&start);
        if 0 <= elapsed && elapsed < STATUS_SUMMARY_INTERVAL_SEC {
            return None;
        }
        let stats = self.stats;
        let cleared = PollStats::default();
        self.summary_window_start = Some(now);
        self.stats = cleared;
        Some((if elapsed > 0 { elapsed } else { 0 }, stats))
    }

    fn rest(self, now: LocalTime) -> (r: (Scheduler, Action))
        ensures
            (r.0@, r.1@) == self@.rest(now@),
    {
        let mut scheduler = self;
        let due = scheduler.take_due_summary(now.at());
        let pages = scheduler.cfg.status_pages.len();
        let summary = match due {
            Some((window_sec, stats)) => Some(Summary { window_sec, pages, stats }),
            None => None,
        };
        proof {
            use_type_invariant(&scheduler);
        }
        scheduler.phase = Phase::Resting;
        (scheduler, Action::Rest { summary })
    }

    fn poll_status_pages(self, now: LocalTime) -> (r: (Scheduler, Action))
        ensures
            (r.0@, r.1@) == self@.poll(now@),
    {
        let at = now.at();
        let index = match most_overdue(&self.cfg.status_pages, &self.last_polled, at) {
            Some(index) => index,
            None => {
                return self.rest(now);
            },
        };
        let ghost before = self@;
        let mut scheduler = self;
        let name = scheduler.cfg.status_pages[index].name.clone();
        scheduler.mark_polled(name.clone(), at);
        proof {
            use_type_invariant(&scheduler);
            use_type_invariant(&now);
        }
        let Scheduler {
            cfg,
            last_fired,
            last_polled,
            mut page_states,
            stats,
            summary_window_start,
            phase: _,
        } = scheduler;
        let page = &cfg.status_pages[index];
        assert(before.cfg.status_pages[index as int] == page@);
        let state = match page_states.remove(name.as_str()) {
            Some(state) => state,
            None => PageState::default(),
        };
        let request = fetch_request(page.api_url.as_str(), state.etag());
        page_states.insert(page.name.clone(), state);
        assert(page_states@ =~= before.page_states.insert(
            name@,
            page_state(before.page_states, name@),
        ));
        let scheduler = Scheduler {
            cfg,
            last_fired,
            last_polled,
            page_states,
            stats,
            summary_window_start,
            phase: Phase::Fetching { now, page: index },
        };
        (scheduler, Action::Fetch { page: name, request })
    }

    fn fire(self, now: LocalTime, queue: Vec<Delivery>) -> (r: (Scheduler, Action))
        ensures
            (r.0@, r.1@) == self@.fire(now@, seq_view(queue@)),
    {
        if queue.is_empty() {
            return self.poll_status_pages(now);
        }
        proof {
            use_type_invariant(&self);
            use_type_invariant(&now);
        }
        let ghost views = seq_view(queue@);
        let mut scheduler = self;
        let mut queue = queue;
        let delivery = queue.remove(0);
        assert(seq_view(queue@) =~= views.drop_first());
        scheduler.phase = Phase::Firing { now, queue };
        (scheduler, Action::Deliver(delivery))
    }

    fn settle(self, now: LocalTime, outcome: PollOutcome) -> (r: (Scheduler, Action))
        requires
            self@.stats.has_room(
                match outcome {
                    PollOutcome::Updated { forwarded } => forwarded as int,
                    _ => 0,
                },
            ),
        ensures
            (r.0@, r.1@) == self@.settle(now@, outcome),
    {
        proof {
            use_type_invariant(&self);
        }
        let mut scheduler = self;
        let mut stats = scheduler.stats;
        stats.record(outcome);
        scheduler.stats = stats;
        scheduler.rest(now)
    }

    fn forward(self, now: LocalTime, queue: Vec<Delivery>, forwarded: u64) -> (r: (
        Scheduler,
        Action,
    ))
        requires
            self@.stats.has_room(forwarded as int),
        ensures
            (r.0@, r.1@) == self@.forward(now@, seq_view(queue@), forwarded),
    {
        if queue.is_empty() {
            return self.settle(now, PollOutcome::Updated { forwarded });
        }
        proof {
            use_type_invariant(&self);
            use_type_invariant(&now);
        }
        let ghost views = seq_view(queue@);
        let mut scheduler = self;
        let mut queue = queue;
        let delivery = queue.remove(0);
        assert(seq_view(queue@) =~= views.drop_first());
        scheduler.phase = Phase::Forwarding { now, queue, forwarded };
        (scheduler, Action::Deliver(delivery))
    }

    fn fetched(
        self,
        now: LocalTime,
        page: usize,
        fetched: Result<Fetched, StatusError>,
    ) -> (r: (Scheduler, Action))
        requires
            page < self@.cfg.status_pages.len(),
            self@.stats.has_room(0),
        ensures
            (r.0@, r.1@) == self@.fetched(now@, page as int, result_view(fetched)),
    {
        proof {
            use_type_invariant(&self);
        }
        let ghost before = self@;
        let Scheduler {
            cfg,
            last_fired,
            last_polled,
            mut page_states,
            stats,
            summary_window_start,
            phase,
        } = self;
        let watched = &cfg.status_pages[page];
        assert(before.cfg.status_pages[page as int] == watched@);
        let mut state = match page_states.remove(watched.name.as_str()) {
            Some(state) => state,
            None => PageState::default(),
        };
        assert(state@ == page_state(before.page_states, watched.name@));
        let (outcome, queue) = take_feed(watched, &mut state, fetched);
        page_states.insert(watched.name.clone(), state);
        assert(page_states@ =~= before.page_states.insert(watched.name@, state@));
        let scheduler = Scheduler {
            cfg,
            last_fired,
            last_polled,
            page_states,
            stats,
            summary_window_start,
            phase,
        };
        match outcome {
            Some(outcome) => scheduler.settle(now, outcome),
            None => scheduler.forward(now, queue, 0),
        }
    }

    /// Takes a signal in, and says what is to be done next.
    ///
    /// A tick writes the heartbeat first, before anything goes over the network.
    /// Then it sends the reminders that are due, reads at most one status page,
    /// forwards what is new on it, and closes the summary window if that is due. One
    /// page per tick bounds how long a tick takes however many pages there are.
    pub fn step(self, signal: Signal) -> (r: (Scheduler, Action))
        requires
            self@.can_count(),
        ensures
            (r.0@, r.1@) == self@.next(signal@),
            r.1@ matches ActionView::WriteHeartbeat { contents, .. } ==> {
                &&& contents.len() > 0
                &&& signal@ matches SignalView::Tick { reading, .. } && (RFC3339_MIN_SECS
                    <= reading.0 <= RFC3339_MAX_SECS ==> rfc3339_instant(contents) == Some(reading))
            },
    {
        proof {
            use_type_invariant(&self);
        }
        let ghost before = self@;
        let Scheduler {
            cfg,
            mut last_fired,
            last_polled,
            page_states,
            stats,
            summary_window_start,
            phase,
        } = self;
        match (phase, signal) {
            (Phase::Resting, Signal::Tick { now, reading }) => {
                proof {
                    use_type_invariant(&now);
                }
                let path = cfg.heartbeat_path.clone();
                let scheduler = Scheduler {
                    cfg,
                    last_fired,
                    last_polled,
                    page_states,
                    stats,
                    summary_window_start,
                    phase: Phase::Beating { now },
                };
                (scheduler, Action::WriteHeartbeat { path, contents: heartbeat_text(&reading) })
            },
            (Phase::Beating { now }, Signal::HeartbeatWritten(_)) => {
                let queue = fire_reminders(&cfg.reminders, &mut last_fired, &now);
                let scheduler = Scheduler {
                    cfg,
                    last_fired,
                    last_polled,
                    page_states,
                    stats,
                    summary_window_start,
                    phase: Phase::Beating { now },
                };
                scheduler.fire(now, queue)
            },
            (Phase::Firing { now, queue }, Signal::Delivered(_)) => {
                let scheduler = Scheduler {
                    cfg,
                    last_fired,
                    last_polled,
                    page_states,
                    stats,
                    summary_window_start,
                    phase: Phase::Resting,
                };
                scheduler.fire(now, queue)
            },
            (Phase::Fetching { now, page }, Signal::Fetched(fetched)) => {
                let scheduler = Scheduler {
                    cfg,
                    last_fired,
                    last_polled,
                    page_states,
                    stats,
                    summary_window_start,
                    phase: Phase::Resting,
                };
                scheduler.fetched(now, page, fetched)
            },
            (Phase::Forwarding { now, queue, forwarded }, Signal::Delivered(ok)) => {
                let scheduler = Scheduler {
                    cfg,
                    last_fired,
                    last_polled,
                    page_states,
                    stats,
                    summary_window_start,
                    phase: Phase::Resting,
                };
                let forwarded: u64 = if ok { forwarded + 1 } else { forwarded };
                scheduler.forward(now, queue, forwarded)
            },
            (phase, _) => {
                let scheduler = Scheduler {
                    cfg,
                    last_fired,
                    last_polled,
                    page_states,
                    stats,
                    summary_window_start,
                    phase,
                };
                (scheduler, Action::Ignored)
            },
        }
    }

    /// The local time at which a tick takes place, in the configured time zone.
    pub fn local_time(&self, at: Moment) -> (now: LocalTime)
        ensures
            now@.valid(),
            instant(now@) == at@,
            now@.offset == crate::clock::zone_offset(self@.cfg.timezone, at@.0),
    {
        LocalTime::in_zone(at, &self.cfg.timezone)
    }
}

// ---------------------------------------------------------------------------
// What holds of the reminders
// ---------------------------------------------------------------------------
/// The reminder of this name is noted as having fired in this minute.
pub open spec fn marked(
    last_fired: Map<Seq<char>, (int, int)>,
    name: Seq<char>,
    minute: (int, int),
) -> bool {
    last_fired.dom().contains(name) && last_fired[name] == minute
}

/// When each reminder last fired, after a number of ticks.
pub open spec fn marks_over(
    reminders: Seq<RunReminderView>,
    last_fired: Map<Seq<char>, (int, int)>,
    ticks: Seq<Clock>,
) -> Map<Seq<char>, (int, int)>
    decreases ticks.len(),
{
    if ticks.len() == 0 {
        last_fired
    } else {
        marks_after(reminders, marks_over(reminders, last_fired, ticks.drop_last()), ticks.last())
    }
}

/// All that the reminders send over a number of ticks.
pub open spec fn firings_over(
    reminders: Seq<RunReminderView>,
    last_fired: Map<Seq<char>, (int, int)>,
    ticks: Seq<Clock>,
) -> Seq<DeliveryView>
    decreases ticks.len(),
{
    if ticks.len() == 0 {
        Seq::empty()
    } else {
        firings_over(reminders, last_fired, ticks.drop_last()) + firings(
            reminders,
            marks_over(reminders, last_fired, ticks.drop_last()),
            ticks.last(),
        )
    }
}

proof fn lemma_firings(
    reminders: Seq<RunReminderView>,
    last_fired: Map<Seq<char>, (int, int)>,
    now: Clock,
)
    ensures
        forall|name: Seq<char>| #[trigger]
            marked(last_fired, name, now.minute_start()) ==> marked(
                marks_after(reminders, last_fired, now),
                name,
                now.minute_start(),
            ),
        forall|i: int|
            0 <= i < firings(reminders, last_fired, now).len() ==> {
                let purpose = (#[trigger] firings(reminders, last_fired, now)[i]).purpose;
                &&& purpose is Reminder
                &&& !marked(last_fired, purpose->name, now.minute_start())
                &&& marked(
                    marks_after(reminders, last_fired, now),
                    purpose->name,
                    now.minute_start(),
                )
            },
        forall|i: int, j: int|
            0 <= i < j < firings(reminders, last_fired, now).len() ==> (#[trigger] firings(
                reminders,
                last_fired,
                now,
            )[i]).purpose != (#[trigger] firings(reminders, last_fired, now)[j]).purpose,
        forall|i: int|
            0 <= i < reminders.len() && (#[trigger] reminders[i]).fires_at(now) ==> marked(
                marks_after(reminders, last_fired, now),
                reminders[i].name,
                now.minute_start(),
            ),
    decreases reminders.len(),
{
    if reminders.len() > 0 {
        let before = reminders.drop_last();
        lemma_firings(before, last_fired, now);
        let minute = now.minute_start();
        let sent = firings(before, last_fired, now);
        let all = firings(reminders, last_fired, now);
        let marks = marks_after(before, last_fired, now);
        let after = marks_after(reminders, last_fired, now);
        let last = reminders.last();
        assert forall|name: Seq<char>| marked(marks, name, minute) implies marked(
            after,
            name,
            minute,
        ) by {}
        assert forall|i: int| 0 <= i < all.len() implies {
            let purpose = (#[trigger] all[i]).purpose;
            &&& purpose is Reminder
            &&& !marked(last_fired, purpose->name, minute)
            &&& marked(after, purpose->name, minute)
        } by {
            if i < sent.len() {
                assert(all[i] == sent[i]);
            } else if marked(last_fired, last.name, minute) {
                assert(marked(marks, last.name, minute));
            }
        }
        assert forall|i: int, j: int| 0 <= i < j < all.len() implies (#[trigger] all[i]).purpose
            != (#[trigger] all[j]).purpose by {
            assert(all[i] == sent[i]);
            if j < sent.len() {
                assert(all[j] == sent[j]);
            } else {
                assert(marked(marks, sent[i].purpose->name, minute));
            }
        }
        assert forall|i: int|
            0 <= i < reminders.len() && (#[trigger] reminders[i]).fires_at(now) implies marked(
            after,
            reminders[i].name,
            minute,
        ) by {
            if i < before.len() {
                assert(before[i] == reminders[i]);
            }
        }
    }
}

proof fn lemma_firings_over(
    reminders: Seq<RunReminderView>,
    last_fired: Map<Seq<char>, (int, int)>,
    ticks: Seq<Clock>,
    minute: (int, int),
)
    requires
        forall|i: int| 0 <= i < ticks.len() ==> (#[trigger] ticks[i]).minute_start() == minute,
    ensures
        forall|i: int|
            0 <= i < firings_over(reminders, last_fired, ticks).len() ==> {
                let purpose = (#[trigger] firings_over(reminders, last_fired, ticks)[i]).purpose;
                &&& purpose is Reminder
                &&& !marked(last_fired, purpose->name, minute)
                &&& marked(marks_over(reminders, last_fired, ticks), purpose->name, minute)
            },
        forall|name: Seq<char>| #[trigger]
            marked(last_fired, name, minute) ==> marked(
                marks_over(reminders, last_fired, ticks),
                name,
                minute,
            ),
        forall|i: int, j: int|
            0 <= i < j < firings_over(reminders, last_fired, ticks).len() ==> (
            #[trigger] firings_over(reminders, last_fired, ticks)[i]).purpose != (
            #[trigger] firings_over(reminders, last_fired, ticks)[j]).purpose,
    decreases ticks.len(),
{
    if ticks.len() > 0 {
        let before = ticks.drop_last();
        assert forall|i: int| 0 <= i < before.len() implies (#[trigger] before[i]).minute_start()
            == minute by {
            assert(before[i] == ticks[i]);
        }
        assert(ticks.last() == ticks[ticks.len() - 1]);
        lemma_firings_over(reminders, last_fired, before, minute);
        let marks = marks_over(reminders, last_fired, before);
        let after = marks_over(reminders, last_fired, ticks);
        lemma_firings(reminders, marks, ticks.last());
        let sent = firings_over(reminders, last_fired, before);
        let new = firings(reminders, marks, ticks.last());
        let all = firings_over(reminders, last_fired, ticks);
        assert forall|i: int| 0 <= i < all.len() implies {
            let purpose = (#[trigger] all[i]).purpose;
            &&& purpose is Reminder
            &&& !marked(last_fired, purpose->name, minute)
            &&& marked(after, purpose->name, minute)
        } by {
            if i < sent.len() {
                assert(all[i] == sent[i]);
                assert(marked(marks, sent[i].purpose->name, minute));
            } else {
                assert(all[i] == new[i - sent.len()]);
                if marked(last_fired, all[i].purpose->name, minute) {
                    assert(marked(marks, all[i].purpose->name, minute));
                }
            }
        }
        assert forall|name: Seq<char>| #[trigger]
            marked(last_fired, name, minute) implies marked(after, name, minute) by {
            assert(marked(marks, name, minute));
        }
        assert forall|i: int, j: int| 0 <= i < j < all.len() implies (#[trigger] all[i]).purpose
            != (#[trigger] all[j]).purpose by {
            if j < sent.len() {
                assert(all[i] == sent[i] && all[j] == sent[j]);
            } else if i < sent.len() {
                assert(all[i] == sent[i] && all[j] == new[j - sent.len()]);
                assert(marked(marks, sent[i].purpose->name, minute));
            } else {
                assert(all[i] == new[i - sent.len()] && all[j] == new[j - sent.len()]);
            }
        }
    }
}

/// Over however many ticks within one minute, no reminder fires twice.
pub proof fn law_reminders_fire_once_a_minute(
    reminders: Seq<RunReminderView>,
    last_fired: Map<Seq<char>, (int, int)>,
    ticks: Seq<Clock>,
    minute: (int, int),
)
    requires
        forall|i: int| 0 <= i < ticks.len() ==> (#[trigger] ticks[i]).minute_start() == minute,
    ensures
        forall|i: int, j: int|
            0 <= i < j < firings_over(reminders, last_fired, ticks).len() ==> (
            #[trigger] firings_over(reminders, last_fired, ticks)[i]).purpose != (
            #[trigger] firings_over(reminders, last_fired, ticks)[j]).purpose,
{
    lemma_firings_over(reminders, last_fired, ticks, minute);
}

/// At the same offset from UTC, two times have the same minute start exactly when
/// they lie in the same minute of local time. So a reminder fires again in the next
/// minute that it is set to.
pub proof fn law_minutes_are_told_apart(now: Clock, later: Clock)
    requires
        now.valid(),
        later.valid(),
        now.offset == later.offset,
        now.secs - now.second >= MIN_SECS,
        later.secs - later.second >= MIN_SECS,
    ensures
        now.minute_start() == later.minute_start() <==> now.local_secs() / 60
            == later.local_secs() / 60,
{
}

/// A reminder that fires at a tick is noted for that minute, whether or not it can
/// be sent; one that had not been noted is sent, as long as no other has its name;
/// and what is sent is the message of a reminder that fires.
pub proof fn law_due_reminders_fire(
    reminders: Seq<RunReminderView>,
    last_fired: Map<Seq<char>, (int, int)>,
    now: Clock,
)
    ensures
        forall|i: int|
            0 <= i < reminders.len() && (#[trigger] reminders[i]).fires_at(now) ==> marked(
                marks_after(reminders, last_fired, now),
                reminders[i].name,
                now.minute_start(),
            ),
        forall|i: int|
            0 <= i < reminders.len() && reminder_is_due(last_fired, #[trigger] reminders[i], now)
                && (forall|j: int|
                0 <= j < reminders.len() && j != i ==> (#[trigger] reminders[j]).name
                    != reminders[i].name) ==> firings(reminders, last_fired, now).contains(
                reminder_delivery(reminders[i]),
            ),
        forall|d: DeliveryView| #[trigger]
            firings(reminders, last_fired, now).contains(d) ==> exists|i: int|
                0 <= i < reminders.len() && (#[trigger] reminders[i]).fires_at(now) && d
                    == reminder_delivery(reminders[i]),
    decreases reminders.len(),
{
    lemma_firings(reminders, last_fired, now);
    if reminders.len() > 0 {
        let before = reminders.drop_last();
        let last = reminders[reminders.len() - 1];
        let sent = firings(before, last_fired, now);
        let all = firings(reminders, last_fired, now);
        assert(reminders.last() == last);
        law_due_reminders_fire(before, last_fired, now);
        assert forall|i: int|
            0 <= i < reminders.len() && reminder_is_due(last_fired, #[trigger] reminders[i], now)
                && (forall|j: int|
                0 <= j < reminders.len() && j != i ==> (#[trigger] reminders[j]).name
                    != reminders[i].name) implies all.contains(reminder_delivery(reminders[i])) by {
            if i < before.len() {
                assert(before[i] == reminders[i]);
                assert forall|j: int| 0 <= j < before.len() && j != i implies (
                #[trigger] before[j]).name != before[i].name by {
                    assert(before[j] == reminders[j]);
                }
                let delivery = reminder_delivery(before[i]);
                let k = choose|k: int| 0 <= k < sent.len() && sent[k] == delivery;
                assert(all[k] == sent[k]);
            } else {
                assert forall|j: int| 0 <= j < before.len() implies (#[trigger] before[j]).name
                    != last.name by {
                    assert(before[j] == reminders[j]);
                }
                lemma_other_marks_stay(before, last_fired, now, last.name);
                assert(all[all.len() - 1] == reminder_delivery(last));
            }
        }
        assert forall|d: DeliveryView| #[trigger] all.contains(d) implies exists|i: int|
            0 <= i < reminders.len() && (#[trigger] reminders[i]).fires_at(now) && d
                == reminder_delivery(reminders[i]) by {
            let k = choose|k: int| 0 <= k < all.len() && all[k] == d;
            if k < sent.len() {
                assert(sent[k] == d);
                assert(sent.contains(d));
                let i = choose|i: int|
                    0 <= i < before.len() && (#[trigger] before[i]).fires_at(now) && d
                        == reminder_delivery(before[i]);
                assert(reminders[i] == before[i]);
            } else {
                assert(last.fires_at(now));
            }
        }
    }
}

proof fn lemma_other_marks_stay(
    reminders: Seq<RunReminderView>,
    last_fired: Map<Seq<char>, (int, int)>,
    now: Clock,
    name: Seq<char>,
)
    requires
        forall|i: int| 0 <= i < reminders.len() ==> (#[trigger] reminders[i]).name != name,
    ensures
        marked(marks_after(reminders, last_fired, now), name, now.minute_start()) == marked(
            last_fired,
            name,
            now.minute_start(),
        ),
    decreases reminders.len(),
{
    if reminders.len() > 0 {
        let before = reminders.drop_last();
        assert forall|i: int| 0 <= i < before.len() implies (#[trigger] before[i]).name
            != name by {
            assert(before[i] == reminders[i]);
        }
        assert(reminders.last() == reminders[reminders.len() - 1]);
        lemma_other_marks_stay(before, last_fired, now, name);
    }
}

// ---------------------------------------------------------------------------
// What holds of every tick
// ---------------------------------------------------------------------------
/// The state after a number of signals.
pub open spec fn after_signals(scheduler: SchedulerView, signals: Seq<SignalView>) -> SchedulerView
    decreases signals.len(),
{
    if signals.len() == 0 {
        scheduler
    } else {
        after_signals(scheduler, signals.drop_last()).next(signals.last()).0
    }
}

/// What the signal at `i` led to.
pub open spec fn action_at(
    scheduler: SchedulerView,
    signals: Seq<SignalView>,
    i: int,
) -> ActionView {
    after_signals(scheduler, signals.take(i)).next(signals[i]).1
}

/// From one tick to the next.
pub open spec fn one_tick(scheduler: SchedulerView, signals: Seq<SignalView>) -> bool {
    &&& scheduler.phase is Resting
    &&& forall|i: int| 0 < i < signals.len() ==> (#[trigger] signals[i]) !is Tick
}

/// A page is read, or has been, in this tick.
spec fn past_polling(scheduler: SchedulerView) -> bool {
    scheduler.phase is Fetching || scheduler.phase is Forwarding || scheduler.phase is Resting
}

proof fn lemma_signals_so_far(scheduler: SchedulerView, signals: Seq<SignalView>, n: int)
    requires
        one_tick(scheduler, signals),
        0 < n <= signals.len(),
    ensures
        signals[0] is Tick <==> action_at(scheduler, signals, 0) is WriteHeartbeat,
        signals[0] matches SignalView::Tick { reading, .. } ==> action_at(scheduler, signals, 0)
            == scheduler.beat(reading),
        signals[0] !is Tick ==> after_signals(scheduler, signals.take(n)) == scheduler,
        signals[0] !is Tick ==> forall|i: int|
            0 <= i < n ==> (#[trigger] action_at(scheduler, signals, i)) is Ignored,
        forall|i: int|
            0 <= i < n && (#[trigger] action_at(scheduler, signals, i)) is Fetch ==> past_polling(
                after_signals(scheduler, signals.take(n)),
            ),
        after_signals(scheduler, signals.take(n)).phase is Resting ==> n > 1 || signals[0] !is Tick,
    decreases n,
{
    assert(signals.take(0) =~= Seq::<SignalView>::empty());
    assert(after_signals(scheduler, signals.take(0)) == scheduler);
    let before = signals.take(n - 1);
    assert(signals.take(n).drop_last() =~= before);
    assert(signals.take(n).last() == signals[n - 1]);
    if n > 1 {
        lemma_signals_so_far(scheduler, signals, n - 1);
    }
}

/// Every tick starts with the heartbeat, the current time written to the configured path.
/// Within one tick it is written before anything is sent or read, and at most one
/// status page is read, however many are due.
pub proof fn law_one_page_per_tick(scheduler: SchedulerView, signals: Seq<SignalView>)
    requires
        one_tick(scheduler, signals),
    ensures
        signals.len() > 0 ==> (signals[0] matches SignalView::Tick { reading, .. } ==> action_at(
            scheduler,
            signals,
            0,
        ) == scheduler.beat(reading)),
        forall|i: int, j: int|
            0 <= i < j < signals.len() && (#[trigger] action_at(scheduler, signals, i)) is Fetch
                ==> (#[trigger] action_at(scheduler, signals, j)) !is Fetch,
        forall|i: int|
            0 <= i < signals.len() && ((#[trigger] action_at(scheduler, signals, i)) is Fetch
                || action_at(scheduler, signals, i) is Deliver) ==> i > 0 && action_at(
                scheduler,
                signals,
                0,
            ) is WriteHeartbeat,
{
    if signals.len() > 0 {
        lemma_signals_so_far(scheduler, signals, 1);
    }
    assert forall|i: int, j: int|
        0 <= i < j < signals.len() && (#[trigger] action_at(
            scheduler,
            signals,
            i,
        )) is Fetch implies (#[trigger] action_at(scheduler, signals, j)) !is Fetch by {
        lemma_signals_so_far(scheduler, signals, j);
    }
    assert forall|i: int|
        0 <= i < signals.len() && ((#[trigger] action_at(scheduler, signals, i)) is Fetch
            || action_at(scheduler, signals, i) is Deliver) implies i > 0 && action_at(
        scheduler,
        signals,
        0,
    ) is WriteHeartbeat by {
        lemma_signals_so_far(scheduler, signals, i + 1);
    }
}

/// A tick starts with the heartbeat and with nothing else; a signal that is not
/// awaited changes nothing; the invariant holds after every signal; and only the
/// step that follows the heartbeat notes reminders as fired.
pub proof fn law_signals_keep_order(
    scheduler: SchedulerView,
    now: Clock,
    reading: (int, int),
    signal: SignalView,
)
    requires
        scheduler.wf(),
        scheduler.can_count(),
        signal matches SignalView::Tick { now, .. } ==> now.valid(),
    ensures
        scheduler.phase is Resting ==> scheduler.next(SignalView::Tick { now, reading }) == (
            SchedulerView { phase: PhaseView::Beating { now }, ..scheduler },
            scheduler.beat(reading),
        ),
        scheduler.next(signal).1 is Ignored ==> scheduler.next(signal).0 == scheduler,
        scheduler.next(signal).0.wf(),
        scheduler.next(signal).0.cfg == scheduler.cfg,
        !(scheduler.phase is Beating && signal is HeartbeatWritten) ==> scheduler.next(
            signal,
        ).0.last_fired == scheduler.last_fired,
{
    let pages = scheduler.cfg.status_pages;
    match scheduler.phase {
        PhaseView::Beating { now } => {
            lemma_next_page_is_most_overdue(pages, scheduler.last_polled, instant(now));
        },
        PhaseView::Firing { now, .. } => {
            lemma_next_page_is_most_overdue(pages, scheduler.last_polled, instant(now));
        },
        _ => {},
    }
}

spec fn waits_less(
    pages: Seq<RunStatusPageView>,
    last_polled: Map<Seq<char>, (int, int)>,
    now: (int, int),
    i: int,
    n: int,
) -> bool {
    &&& page_is_due(pages, last_polled, now, i)
    &&& i < n
    &&& forall|j: int|
        j < n && #[trigger] page_is_due(pages, last_polled, now, j) ==> page_overdue(
            pages,
            last_polled,
            now,
            j,
        ) <= page_overdue(pages, last_polled, now, i)
    &&& forall|j: int|
        j < i && #[trigger] page_is_due(pages, last_polled, now, j) ==> page_overdue(
            pages,
            last_polled,
            now,
            j,
        ) < page_overdue(pages, last_polled, now, i)
}

proof fn lemma_some_page_waits_longest(
    pages: Seq<RunStatusPageView>,
    last_polled: Map<Seq<char>, (int, int)>,
    now: (int, int),
    n: int,
) -> (best: int)
    requires
        0 <= n <= pages.len(),
        exists|i: int| i < n && page_is_due(pages, last_polled, now, i),
    ensures
        waits_less(pages, last_polled, now, best, n),
    decreases n,
{
    let last = n - 1;
    if exists|i: int| i < last && page_is_due(pages, last_polled, now, i) {
        let best = lemma_some_page_waits_longest(pages, last_polled, now, last);
        if page_is_due(pages, last_polled, now, last) && page_overdue(pages, last_polled, now, last)
            > page_overdue(pages, last_polled, now, best) {
            last
        } else {
            best
        }
    } else {
        let i = choose|i: int| i < n && page_is_due(pages, last_polled, now, i);
        assert(i == last);
        last
    }
}

proof fn lemma_next_page_is_most_overdue(
    pages: Seq<RunStatusPageView>,
    last_polled: Map<Seq<char>, (int, int)>,
    now: (int, int),
)
    ensures
        next_page(pages, last_polled, now) matches Some(i) ==> is_most_overdue(
            pages,
            last_polled,
            now,
            i,
        ),
{
    if exists|i: int| page_is_due(pages, last_polled, now, i) {
        let i = choose|i: int| page_is_due(pages, last_polled, now, i);
        assert(i < pages.len() && page_is_due(pages, last_polled, now, i));
        let best = lemma_some_page_waits_longest(pages, last_polled, now, pages.len() as int);
        assert(is_most_overdue(pages, last_polled, now, best));
    }
}

/// Whenever a page is due one is polled, and it is one that no page which is due has
/// waited longer than; where none is due none is polled.
pub proof fn law_the_most_overdue_page_is_polled(
    pages: Seq<RunStatusPageView>,
    last_polled: Map<Seq<char>, (int, int)>,
    now: (int, int),
)
    ensures
        next_page(pages, last_polled, now) is Some <==> exists|i: int|
            page_is_due(pages, last_polled, now, i),
        next_page(pages, last_polled, now) matches Some(i) ==> is_most_overdue(
            pages,
            last_polled,
            now,
            i,
        ),
{
    lemma_next_page_is_most_overdue(pages, last_polled, now);
}

/// Of two pages the one that was polled first ranks no lower, and a page that was
/// never polled ranks no lower than any.
pub proof fn law_longer_waits_rank_higher(
    first: (int, int),
    second: (int, int),
    now: (int, int),
)
    requires
        total_nanos(first) <= total_nanos(second),
        is_reading(first),
        is_reading(now),
    ensures
        overdue(Some(second), now) <= overdue(Some(first), now) <= overdue(None, now),
{
}

/// A page that is being polled is noted as polled at this tick, whatever comes back,
/// and is not due again until its interval has passed or the clock has stepped
/// backwards.
pub proof fn law_polled_pages_wait_out_their_interval(
    scheduler: SchedulerView,
    now: Clock,
    later: (int, int),
)
    requires
        scheduler.poll(now).1 is Fetch,
    ensures
        scheduler.poll(now).0.phase matches PhaseView::Fetching { page, .. } && {
            let after = scheduler.poll(now).0;
            let polled = after.cfg.status_pages[page];
            &&& poll_of(after.last_polled, polled.name) == Some(instant(now))
            &&& 0 <= elapsed(later, instant(now)) < polled.poll_interval.secs ==> !page_is_due(
                after.cfg.status_pages,
                after.last_polled,
                later,
                page,
            )
        },
{
}

/// A page that cannot be read, or has not changed, is never worth a message, and
/// what is remembered of it stays.
pub proof fn law_failed_polls_are_silent(
    scheduler: SchedulerView,
    now: Clock,
    page: int,
    fetched: PollResult,
)
    requires
        scheduler.phase == (PhaseView::Fetching { now, page }),
        outcome_of(fetched) is Some,
    ensures
        scheduler.next(SignalView::Fetched(fetched)).1 is Rest,
        page_state(
            scheduler.next(SignalView::Fetched(fetched)).0.page_states,
            scheduler.cfg.status_pages[page].name,
        ) == page_state(scheduler.page_states, scheduler.cfg.status_pages[page].name),
{
}

/// The first feed of a page is taken in without a message.
pub proof fn law_first_feed_is_silent(
    scheduler: SchedulerView,
    now: Clock,
    page: int,
    fetched: PollResult,
)
    requires
        scheduler.phase == (PhaseView::Fetching { now, page }),
        !page_state(scheduler.page_states, scheduler.cfg.status_pages[page].name).initialized,
    ensures
        scheduler.next(SignalView::Fetched(fetched)).1 is Rest,
{
    let watched = scheduler.cfg.status_pages[page];
    let state = page_state(scheduler.page_states, watched.name);
    assert(forwards(watched, state, fetched) =~= Seq::<DeliveryView>::empty());
}

/// A feed is remembered as seen, with its entity tag, before the first of its
/// messages is sent.
pub proof fn law_feeds_are_seen_before_they_are_sent(
    scheduler: SchedulerView,
    now: Clock,
    page: int,
    incidents: Seq<IncidentView>,
    etag: Option<Seq<char>>,
)
    requires
        scheduler.phase == (PhaseView::Fetching { now, page }),
    ensures
        ({
            let name = scheduler.cfg.status_pages[page].name;
            let fetched: PollResult = Ok(Fetched::Modified { incidents, etag });
            let after = scheduler.next(SignalView::Fetched(fetched)).0;
            page_state(after.page_states, name) == (PageStateView {
                etag,
                ..page_state(scheduler.page_states, name).after(incidents)
            })
        }),
{
}

/// Whether a message could be sent makes no difference to what is remembered, nor to
/// what is sent or read next. So nothing that failed is sent again.
pub proof fn law_failed_sends_are_not_repeated(scheduler: SchedulerView)
    ensures
        ({
            let (sent, sent_action) = scheduler.next(SignalView::Delivered(true));
            let (lost, lost_action) = scheduler.next(SignalView::Delivered(false));
            &&& sent.last_fired == scheduler.last_fired
            &&& lost.last_fired == scheduler.last_fired
            &&& sent.last_polled == lost.last_polled
            &&& sent.page_states == lost.page_states
            &&& sent_action is Rest <==> lost_action is Rest
            &&& sent_action !is Rest ==> sent_action == lost_action
            &&& scheduler.phase is Forwarding ==> sent.last_polled == scheduler.last_polled
                && sent.page_states == scheduler.page_states
        }),
{
}

/// A heartbeat that could not be written changes nothing: the tick goes on with its
/// reminders and its poll as if it had been.
pub proof fn law_lost_heartbeats_do_not_stop_the_tick(scheduler: SchedulerView, now: Clock)
    requires
        scheduler.phase == (PhaseView::Beating { now }),
    ensures
        scheduler.next(SignalView::HeartbeatWritten(false)) == scheduler.next(
            SignalView::HeartbeatWritten(true),
        ),
        scheduler.next(SignalView::HeartbeatWritten(false)) == (SchedulerView {
            last_fired: marks_after(scheduler.cfg.reminders, scheduler.last_fired, now),
            ..scheduler
        }).fire(now, firings(scheduler.cfg.reminders, scheduler.last_fired, now)),
{
}

/// A summary window that closes starts the counters anew; one that stays open keeps
/// them; and a window closes when it has lasted its time or the clock has stepped
/// backwards, but only where pages are watched. Its length is the time that has passed,
/// or nothing where the clock has stepped backwards.
pub proof fn law_summary_windows(scheduler: SchedulerView, now: (int, int))
    ensures
        match scheduler.due_summary(now) {
            Some((window_sec, stats)) => {
                &&& scheduler.summary_window_start matches Some(start) && window_sec == (
                if elapsed(now, start) > 0 {
                    elapsed(now, start)
                } else {
                    0
                })
                &&& stats == scheduler.stats
                &&& scheduler.after_summary(now).stats == PollStats::zero()
                &&& scheduler.after_summary(now).summary_window_start == Some(now)
            },
            None => scheduler.after_summary(now).stats == scheduler.stats,
        },
        scheduler.due_summary(now) is Some <==> scheduler.cfg.status_pages.len() > 0 && (
        scheduler.summary_window_start matches Some(start) && !(0 <= elapsed(now, start)
            < STATUS_SUMMARY_INTERVAL_SEC)),
{
}

// ---------------------------------------------------------------------------
// What each step does
// ---------------------------------------------------------------------------
/// A poll is counted once, by what came of it, and so is every message that was forwarded
/// for it; the counters start at zero.
pub proof fn law_every_poll_is_counted_once(stats: PollStats, outcome: PollOutcome)
    requires
        stats.has_room_for(outcome),
    ensures
        ({
            let more = stats.with(outcome);
            &&& more.polls == stats.polls + 1
            &&& more.not_modified == stats.not_modified + if outcome is NotModified {
                1int
            } else {
                0
            }
            &&& more.updated == stats.updated + if outcome is Updated {
                1int
            } else {
                0
            }
            &&& more.failed == stats.failed + if outcome is Failed {
                1int
            } else {
                0
            }
            &&& more.forwarded == stats.forwarded + if outcome is Updated {
                outcome->forwarded as int
            } else {
                0
            }
        }),
        PollStats::zero().polls == 0,
        PollStats::zero().not_modified == 0,
        PollStats::zero().updated == 0,
        PollStats::zero().failed == 0,
        PollStats::zero().forwarded == 0,
{
}

/// No two reminders have the same name.
pub open spec fn distinct_names(reminders: Seq<RunReminderView>) -> bool {
    forall|i: int, j: int|
        0 <= i < j < reminders.len() ==> (#[trigger] reminders[i]).name != (
        #[trigger] reminders[j]).name
}

/// How many of the first `n` reminders fire now and have not fired in this minute.
pub open spec fn due_among(
    reminders: Seq<RunReminderView>,
    last_fired: Map<Seq<char>, (int, int)>,
    now: Clock,
    n: int,
) -> int
    decreases n,
{
    if n <= 0 {
        0
    } else {
        due_among(reminders, last_fired, now, n - 1) + if reminders[n - 1].fires_at(now) && !marked(
            last_fired,
            reminders[n - 1].name,
            now.minute_start(),
        ) {
            1int
        } else {
            0
        }
    }
}

/// The message goes to the webhook of the reminder, in its name, and holds its text, up to
/// 2000 characters, and nothing else.
pub open spec fn delivers(delivery: DeliveryView, reminder: RunReminderView) -> bool {
    &&& delivery.purpose == Purpose::Reminder { name: reminder.name }
    &&& delivery.url == reminder.webhook_url
    &&& delivery.message.content matches Some(content) && abridges(content, reminder.message, 2000)
    &&& delivery.message.username is None
    &&& delivery.message.avatar_url is None
    &&& delivery.message.embeds.len() == 0
}

proof fn lemma_due_reminders(
    reminders: Seq<RunReminderView>,
    last_fired: Map<Seq<char>, (int, int)>,
    now: Clock,
    n: int,
)
    requires
        distinct_names(reminders),
        0 <= n <= reminders.len(),
    ensures
        ({
            let sent = firings(reminders.take(n), last_fired, now);
            &&& sent.len() == due_among(reminders, last_fired, now, n)
            &&& forall|i: int|
                0 <= i < n && (#[trigger] reminders[i]).fires_at(now) && !marked(
                    last_fired,
                    reminders[i].name,
                    now.minute_start(),
                ) ==> {
                    let at = due_among(reminders, last_fired, now, i);
                    0 <= at < sent.len() && delivers(sent[at], reminders[i])
                }
        }),
    decreases n,
{
    if n > 0 {
        lemma_due_reminders(reminders, last_fired, now, n - 1);
        let before = reminders.take(n - 1);
        let last = reminders[n - 1];
        assert(reminders.take(n).drop_last() =~= before);
        assert(reminders.take(n).last() == last);
        assert forall|i: int| 0 <= i < before.len() implies (#[trigger] before[i]).name
            != last.name by {
            assert(before[i] == reminders[i]);
        }
        lemma_other_marks_stay(before, last_fired, now, last.name);
        let earlier = firings(before, last_fired, now);
        let sent = firings(reminders.take(n), last_fired, now);
        law_constructors_hold_what_they_are_given(last.message, arbitrary(), 0);
        assert(delivers(reminder_delivery(last), last));
        assert forall|i: int|
            0 <= i < n && (#[trigger] reminders[i]).fires_at(now) && !marked(
                last_fired,
                reminders[i].name,
                now.minute_start(),
            ) implies {
            let at = due_among(reminders, last_fired, now, i);
            0 <= at < sent.len() && delivers(sent[at], reminders[i])
        } by {
            let at = due_among(reminders, last_fired, now, i);
            if i < n - 1 {
                assert(sent[at] == earlier[at]);
            }
        }
    }
}

/// With names that are distinct, the reminders that fire at a tick and have not fired in
/// its minute are sent, all of them, once each and in order, and no other is.
pub proof fn law_due_reminders_are_sent_in_order(
    reminders: Seq<RunReminderView>,
    last_fired: Map<Seq<char>, (int, int)>,
    now: Clock,
)
    requires
        distinct_names(reminders),
    ensures
        firings(reminders, last_fired, now).len() == due_among(
            reminders,
            last_fired,
            now,
            reminders.len() as int,
        ),
        forall|i: int|
            0 <= i < reminders.len() && (#[trigger] reminders[i]).fires_at(now) && !marked(
                last_fired,
                reminders[i].name,
                now.minute_start(),
            ) ==> {
                let sent = firings(reminders, last_fired, now);
                let at = due_among(reminders, last_fired, now, i);
                0 <= at < sent.len() && delivers(sent[at], reminders[i])
            },
{
    assert(reminders.take(reminders.len() as int) =~= reminders);
    lemma_due_reminders(reminders, last_fired, now, reminders.len() as int);
}

/// Does a reminder of this name fire now?
pub open spec fn name_fires(reminders: Seq<RunReminderView>, name: Seq<char>, now: Clock) -> bool {
    exists|i: int|
        0 <= i < reminders.len() && (#[trigger] reminders[i]).name == name && reminders[i].fires_at(
            now,
        )
}

/// A tick notes its minute for the names that fire at it, and leaves what is noted for
/// every other name.
pub proof fn law_only_firing_names_are_noted(
    reminders: Seq<RunReminderView>,
    last_fired: Map<Seq<char>, (int, int)>,
    now: Clock,
    name: Seq<char>,
)
    ensures
        name_fires(reminders, name, now) ==> marked(
            marks_after(reminders, last_fired, now),
            name,
            now.minute_start(),
        ),
        !name_fires(reminders, name, now) ==> {
            &&& marks_after(reminders, last_fired, now).dom().contains(name)
                == last_fired.dom().contains(name)
            &&& marks_after(reminders, last_fired, now)[name] == last_fired[name]
        },
    decreases reminders.len(),
{
    lemma_firings(reminders, last_fired, now);
    if reminders.len() > 0 {
        let before = reminders.drop_last();
        law_only_firing_names_are_noted(before, last_fired, now, name);
        let last = reminders[reminders.len() - 1];
        assert(reminders.last() == last);
        if name_fires(before, name, now) {
            let i = choose|i: int|
                0 <= i < before.len() && (#[trigger] before[i]).name == name && before[i].fires_at(
                    now,
                );
            assert(reminders[i] == before[i]);
        }
    }
}

/// A page that was never polled is due. One that was is due when its interval has passed,
/// to the nanosecond, or the clock has stepped back by a second or more.
pub proof fn law_pages_are_due_after_their_interval(
    previous: (int, int),
    interval: Span,
    now: (int, int),
)
    ensures
        due(None, interval, now),
        interval.secs == 0 ==> due(Some(previous), interval, now),
        interval.secs > 0 ==> {
            let nanos = (now.0 - previous.0) * 1_000_000_000 + (now.1 - previous.1);
            due(Some(previous), interval, now) <==> nanos >= interval.secs * 1_000_000_000 || nanos
                <= -1_000_000_000
        },
        overdue(None, now) == i64::MAX,
        overdue(Some(previous), now) == elapsed(now, previous),
{
}

/// The page that is polled is due. Of the others that are due none has waited longer, and
/// none that is listed before it as long; none is polled exactly when none is due.
pub proof fn law_the_longest_wait_comes_first(
    pages: Seq<RunStatusPageView>,
    last_polled: Map<Seq<char>, (int, int)>,
    now: (int, int),
)
    ensures
        ({
            let last = |i: int|
                if last_polled.dom().contains(pages[i].name) {
                    Some(last_polled[pages[i].name])
                } else {
                    None
                };
            match next_page(pages, last_polled, now) {
                Some(i) => {
                    &&& 0 <= i < pages.len()
                    &&& due(last(i), pages[i].poll_interval, now)
                    &&& forall|j: int|
                        0 <= j < pages.len() && due(
                            last(j),
                            (#[trigger] pages[j]).poll_interval,
                            now,
                        ) ==> {
                            ||| overdue(last(j), now) < overdue(last(i), now)
                            ||| overdue(last(j), now) == overdue(last(i), now) && i <= j
                        }
                },
                None => forall|j: int|
                    0 <= j < pages.len() ==> !due(
                        last(j),
                        (#[trigger] pages[j]).poll_interval,
                        now,
                    ),
            }
        }),
{
    lemma_next_page_is_most_overdue(pages, last_polled, now);
    match next_page(pages, last_polled, now) {
        Some(i) => {
            assert(is_most_overdue(pages, last_polled, now, i));
            assert forall|j: int|
                0 <= j < pages.len() && due(
                    poll_of(last_polled, (#[trigger] pages[j]).name),
                    pages[j].poll_interval,
                    now,
                ) implies page_is_due(pages, last_polled, now, j) by {}
        },
        None => {
            assert forall|j: int| 0 <= j < pages.len() implies !due(
                poll_of(last_polled, (#[trigger] pages[j]).name),
                pages[j].poll_interval,
                now,
            ) by {
                assert(!page_is_due(pages, last_polled, now, j));
            }
        },
    }
}

/// A feed is taken in with its tag: what is new on it goes to the webhook of the page, an
/// event at a time and in order, each as the message that announces it. Where there is no
/// feed nothing changes and nothing is sent, and it is known at once what came of the poll.
pub proof fn law_feeds_are_forwarded_event_by_event(
    page: RunStatusPageView,
    state: PageStateView,
    incidents: Seq<IncidentView>,
    etag: Option<Seq<char>>,
    error: StatusError<Seq<char>>,
)
    ensures
        ({
            let feed: PollResult = Ok(Fetched::Modified { incidents, etag });
            let after = state_after_poll(state, feed);
            let events = state.events(incidents, page.min_impact);
            let sent = forwards(page, state, feed);
            &&& after.seen == state.after(incidents).seen
            &&& after.initialized
            &&& after.etag == etag
            &&& outcome_of(feed) is None
            &&& sent.len() == events.len()
            &&& forall|k: int|
                0 <= k < sent.len() ==> {
                    let event = events[k];
                    &&& (#[trigger] sent[k]).url == page.webhook_url
                    &&& sent[k].purpose == (Purpose::StatusUpdate {
                        page: page.name,
                        incident: event.incident_id,
                        state: event.state,
                    })
                    &&& announces(
                        sent[k].message,
                        page,
                        event,
                        rfc3339_text(event.occurred_at.0, event.occurred_at.1),
                    )
                }
        }),
        ({
            let same: PollResult = Ok(Fetched::NotModified);
            &&& state_after_poll(state, same) == state
            &&& forwards(page, state, same).len() == 0
            &&& outcome_of(same) == Some(PollOutcome::NotModified)
        }),
        ({
            let failed: PollResult = Err(error);
            &&& state_after_poll(state, failed) == state
            &&& forwards(page, state, failed).len() == 0
            &&& outcome_of(failed) == Some(PollOutcome::Failed)
        }),
{
    let feed: PollResult = Ok(Fetched::Modified { incidents, etag });
    let events = state.events(incidents, page.min_impact);
    let sent = forwards(page, state, feed);
    assert forall|k: int| 0 <= k < sent.len() implies {
        let event = events[k];
        &&& (#[trigger] sent[k]).url == page.webhook_url
        &&& sent[k].purpose == (Purpose::StatusUpdate {
            page: page.name,
            incident: event.incident_id,
            state: event.state,
        })
        &&& announces(
            sent[k].message,
            page,
            event,
            rfc3339_text(event.occurred_at.0, event.occurred_at.1),
        )
    } by {
        law_messages_announce_their_event(page, events[k], Seq::empty());
    }
}

/// A tick at rest writes what the clock reads to the heartbeat's path, and nothing else
/// changes but that the heartbeat is awaited.
pub proof fn law_a_tick_writes_the_heartbeat(
    scheduler: SchedulerView,
    now: Clock,
    reading: (int, int),
)
    requires
        scheduler.phase is Resting,
    ensures
        scheduler.next(SignalView::Tick { now, reading }) == (
            SchedulerView { phase: PhaseView::Beating { now }, ..scheduler },
            ActionView::WriteHeartbeat {
                path: scheduler.cfg.heartbeat_path,
                contents: rfc3339_text(reading.0, reading.1),
            },
        ),
{
}

/// After the heartbeat, written or not, the reminders that are due are noted, and the
/// first of them is sent; where none is due the tick goes on to the status pages.
pub proof fn law_after_the_heartbeat_come_the_reminders(
    scheduler: SchedulerView,
    now: Clock,
    ok: bool,
)
    requires
        scheduler.phase == (PhaseView::Beating { now }),
    ensures
        ({
            let queue = firings(scheduler.cfg.reminders, scheduler.last_fired, now);
            let marks = marks_after(scheduler.cfg.reminders, scheduler.last_fired, now);
            let (after, action) = scheduler.next(SignalView::HeartbeatWritten(ok));
            &&& after.last_fired == marks
            &&& after.cfg == scheduler.cfg
            &&& queue.len() > 0 ==> {
                &&& action == ActionView::Deliver(queue[0])
                &&& after == (SchedulerView {
                    last_fired: marks,
                    phase: PhaseView::Firing { now, queue: queue.skip(1) },
                    ..scheduler
                })
            }
            &&& queue.len() == 0 ==> (after, action) == (SchedulerView {
                last_fired: marks,
                ..scheduler
            }).poll(now)
        }),
{
    let queue = firings(scheduler.cfg.reminders, scheduler.last_fired, now);
    if queue.len() > 0 {
        assert(queue.drop_first() =~= queue.skip(1));
    }
}

/// The signals that report deliveries, with success or without.
pub open spec fn delivered(oks: Seq<bool>) -> Seq<SignalView> {
    oks.map_values(|ok: bool| SignalView::Delivered(ok))
}

/// How many deliveries succeeded.
pub open spec fn successes(oks: Seq<bool>) -> int
    decreases oks.len(),
{
    if oks.len() == 0 {
        0
    } else {
        successes(oks.drop_last()) + if oks.last() {
            1int
        } else {
            0
        }
    }
}

proof fn lemma_queue_of_reminders(
    scheduler: SchedulerView,
    now: Clock,
    queue: Seq<DeliveryView>,
    oks: Seq<bool>,
    n: int,
)
    requires
        scheduler.phase == (PhaseView::Firing { now, queue }),
        0 <= n <= oks.len() <= queue.len(),
    ensures
        after_signals(scheduler, delivered(oks).take(n)) == (SchedulerView {
            phase: PhaseView::Firing { now, queue: queue.skip(n) },
            ..scheduler
        }),
    decreases n,
{
    let signals = delivered(oks);
    if n == 0 {
        assert(signals.take(0) =~= Seq::<SignalView>::empty());
        assert(queue.skip(0) =~= queue);
    } else {
        lemma_queue_of_reminders(scheduler, now, queue, oks, n - 1);
        assert(signals.take(n).drop_last() =~= signals.take(n - 1));
        assert(signals.take(n).last() == SignalView::Delivered(oks[n - 1]));
        assert(queue.skip(n - 1).drop_first() =~= queue.skip(n));
    }
}

/// All reminders that are queued are sent, one after the other and in order, whether or
/// not those before them could be, and meanwhile nothing else changes. Then the tick goes
/// on to the status pages.
pub proof fn law_queued_reminders_are_all_sent(
    scheduler: SchedulerView,
    now: Clock,
    queue: Seq<DeliveryView>,
    oks: Seq<bool>,
    ok: bool,
)
    requires
        scheduler.phase == (PhaseView::Firing { now, queue }),
        oks.len() == queue.len(),
    ensures
        forall|i: int|
            0 <= i < queue.len() ==> #[trigger] action_at(scheduler, delivered(oks), i)
                == ActionView::Deliver(queue[i]),
        after_signals(scheduler, delivered(oks)) == (SchedulerView {
            phase: PhaseView::Firing { now, queue: Seq::empty() },
            ..scheduler
        }),
        after_signals(scheduler, delivered(oks)).next(SignalView::Delivered(ok)) == after_signals(
            scheduler,
            delivered(oks),
        ).poll(now),
{
    let signals = delivered(oks);
    let n = oks.len() as int;
    assert forall|i: int| 0 <= i < queue.len() implies #[trigger] action_at(scheduler, signals, i)
        == ActionView::Deliver(queue[i]) by {
        lemma_queue_of_reminders(scheduler, now, queue, oks, i);
        assert(queue.skip(i)[0] == queue[i]);
    }
    lemma_queue_of_reminders(scheduler, now, queue, oks, n);
    assert(signals.take(n) =~= signals);
    assert(queue.skip(n) =~= Seq::<DeliveryView>::empty());
}

/// Where a page is due it is read: its feed is asked for under the tag that was last seen
/// of it, and that it was polled now is noted. Where none is due the tick is over. No
/// reminder, no counter and no other page is touched by it.
pub proof fn law_a_due_page_is_read(scheduler: SchedulerView, now: Clock)
    ensures
        match next_page(scheduler.cfg.status_pages, scheduler.last_polled, (now.secs, now.nanos)) {
            Some(i) => {
                let page = scheduler.cfg.status_pages[i];
                let (after, action) = scheduler.poll(now);
                let known = scheduler.page_states.dom().contains(page.name);
                &&& action matches ActionView::Fetch { page: name, request } && {
                    &&& name == page.name
                    &&& request.url == page.api_url
                    &&& request.accept == "application/json"@
                    &&& request.if_none_match == if known {
                        scheduler.page_states[page.name].etag
                    } else {
                        None
                    }
                }
                &&& after.phase == (PhaseView::Fetching { now, page: i })
                &&& after.last_polled == scheduler.last_polled.insert(
                    page.name,
                    (now.secs, now.nanos),
                )
                &&& known ==> after.page_states == scheduler.page_states
                &&& !known ==> after.page_states == scheduler.page_states.insert(
                    page.name,
                    blank_page(),
                )
                &&& after.cfg == scheduler.cfg
                &&& after.last_fired == scheduler.last_fired
                &&& after.stats == scheduler.stats
                &&& after.summary_window_start == scheduler.summary_window_start
            },
            None => scheduler.poll(now) == scheduler.rest(now),
        },
        blank_page().seen == Map::<Seq<char>, Seq<char>>::empty(),
        !blank_page().initialized,
        blank_page().etag is None,
{
    match next_page(scheduler.cfg.status_pages, scheduler.last_polled, (now.secs, now.nanos)) {
        Some(i) => {
            let name = scheduler.cfg.status_pages[i].name;
            if scheduler.page_states.dom().contains(name) {
                assert(scheduler.page_states.insert(name, scheduler.page_states[name])
                    =~= scheduler.page_states);
            }
        },
        None => {},
    }
}

/// At the end of a tick a summary is due where pages are watched and an hour has passed
/// since the last one, or the clock has stepped back. It tells the seconds that have
/// passed, or none, how many pages are watched, and what was counted, and the counting
/// starts anew. The first tick opens the window. Nothing else is touched by it.
pub proof fn law_ticks_end_with_the_summary(scheduler: SchedulerView, now: Clock)
    ensures
        ({
            let at = (now.secs, now.nanos);
            let pages = scheduler.cfg.status_pages.len() as int;
            let start = scheduler.summary_window_start;
            let passed = elapsed(at, start->Some_0);
            let is_due = pages > 0 && start is Some && !(0 <= passed < 3600);
            let (after, action) = scheduler.rest(now);
            &&& action == (ActionView::Rest {
                summary: if is_due {
                    Some(
                        SummaryView {
                            window_sec: if passed > 0 {
                                passed
                            } else {
                                0
                            },
                            pages,
                            stats: scheduler.stats,
                        },
                    )
                } else {
                    None
                },
            })
            &&& after.phase is Resting
            &&& is_due ==> after.stats == PollStats::zero() && after.summary_window_start == Some(
                at,
            )
            &&& !is_due ==> after.stats == scheduler.stats
            &&& !is_due && pages > 0 && start is None ==> after.summary_window_start == Some(at)
            &&& !is_due && !(pages > 0 && start is None) ==> after.summary_window_start == start
            &&& after.cfg == scheduler.cfg
            &&& after.last_fired == scheduler.last_fired
            &&& after.last_polled == scheduler.last_polled
            &&& after.page_states == scheduler.page_states
        }),
{
}

/// What comes back from a page is taken in for that page and for no other. A failure and a
/// page that has not changed are counted, and the tick is over; a feed without news is
/// counted as an update that forwarded nothing; of a feed with news the first message is
/// sent.
pub proof fn law_replies_are_taken_in(
    scheduler: SchedulerView,
    now: Clock,
    page: int,
    fetched: PollResult,
)
    requires
        scheduler.phase == (PhaseView::Fetching { now, page }),
    ensures
        ({
            let watched = scheduler.cfg.status_pages[page];
            let state = if scheduler.page_states.dom().contains(watched.name) {
                scheduler.page_states[watched.name]
            } else {
                blank_page()
            };
            let queue = forwards(watched, state, fetched);
            let taken = SchedulerView {
                page_states: scheduler.page_states.insert(
                    watched.name,
                    state_after_poll(state, fetched),
                ),
                ..scheduler
            };
            let next = scheduler.next(SignalView::Fetched(fetched));
            &&& fetched is Err ==> next == (SchedulerView {
                stats: scheduler.stats.with(PollOutcome::Failed),
                ..taken
            }).rest(now)
            &&& fetched matches Ok(Fetched::NotModified) ==> next == (SchedulerView {
                stats: scheduler.stats.with(PollOutcome::NotModified),
                ..taken
            }).rest(now)
            &&& (fetched matches Ok(Fetched::Modified { .. })) && queue.len() == 0 ==> next == (
            SchedulerView {
                stats: scheduler.stats.with(PollOutcome::Updated { forwarded: 0 }),
                ..taken
            }).rest(now)
            &&& (fetched matches Ok(Fetched::Modified { .. })) && queue.len() > 0 ==> next == (
                SchedulerView {
                    phase: PhaseView::Forwarding { now, queue: queue.skip(1), forwarded: 0 },
                    ..taken
                },
                ActionView::Deliver(queue[0]),
            )
        }),
{
    let watched = scheduler.cfg.status_pages[page];
    let state = page_state(scheduler.page_states, watched.name);
    let queue = forwards(watched, state, fetched);
    if queue.len() > 0 {
        assert(queue.drop_first() =~= queue.skip(1));
    }
}

proof fn lemma_queue_of_updates(
    scheduler: SchedulerView,
    now: Clock,
    queue: Seq<DeliveryView>,
    forwarded: u64,
    oks: Seq<bool>,
    n: int,
)
    requires
        scheduler.phase == (PhaseView::Forwarding { now, queue, forwarded }),
        0 <= n <= oks.len() <= queue.len(),
        forwarded + queue.len() <= u64::MAX,
    ensures
        0 <= successes(oks.take(n)) <= n,
        after_signals(scheduler, delivered(oks).take(n)) == (SchedulerView {
            phase: PhaseView::Forwarding {
                now,
                queue: queue.skip(n),
                forwarded: (forwarded + successes(oks.take(n))) as u64,
            },
            ..scheduler
        }),
    decreases n,
{
    let signals = delivered(oks);
    if n == 0 {
        assert(signals.take(0) =~= Seq::<SignalView>::empty());
        assert(queue.skip(0) =~= queue);
    } else {
        lemma_queue_of_updates(scheduler, now, queue, forwarded, oks, n - 1);
        assert(signals.take(n).drop_last() =~= signals.take(n - 1));
        assert(signals.take(n).last() == SignalView::Delivered(oks[n - 1]));
        assert(oks.take(n).drop_last() =~= oks.take(n - 1));
        assert(queue.skip(n - 1).drop_first() =~= queue.skip(n));
    }
}

/// All updates that are queued are sent, one after the other and in order, whether or not
/// those before them could be. Then the poll is counted as an update that forwarded as
/// many as could be sent, and the tick is over.
pub proof fn law_queued_updates_are_all_sent(
    scheduler: SchedulerView,
    now: Clock,
    queue: Seq<DeliveryView>,
    forwarded: u64,
    oks: Seq<bool>,
    ok: bool,
)
    requires
        scheduler.phase == (PhaseView::Forwarding { now, queue, forwarded }),
        oks.len() == queue.len(),
        forwarded + queue.len() + 1 <= u64::MAX,
    ensures
        forall|i: int|
            0 <= i < queue.len() ==> #[trigger] action_at(scheduler, delivered(oks), i)
                == ActionView::Deliver(queue[i]),
        ({
            let sent = forwarded + successes(oks) + if ok {
                1int
            } else {
                0
            };
            after_signals(scheduler, delivered(oks)).next(SignalView::Delivered(ok)) == (
            SchedulerView {
                phase: after_signals(scheduler, delivered(oks)).phase,
                stats: scheduler.stats.with(PollOutcome::Updated { forwarded: sent as u64 }),
                ..scheduler
            }).rest(now)
        }),
{
    let signals = delivered(oks);
    let n = oks.len() as int;
    assert forall|i: int| 0 <= i < queue.len() implies #[trigger] action_at(scheduler, signals, i)
        == ActionView::Deliver(queue[i]) by {
        lemma_queue_of_updates(scheduler, now, queue, forwarded, oks, i);
        assert(queue.skip(i)[0] == queue[i]);
    }
    lemma_queue_of_updates(scheduler, now, queue, forwarded, oks, n);
    assert(signals.take(n) =~= signals);
    assert(oks.take(n) =~= oks);
    assert(queue.skip(n) =~= Seq::<DeliveryView>::empty());
}

/// In each phase one kind of signal is awaited: the tick at rest, the heartbeat in its
/// turn, a delivery while messages go out, and a reply while a page is read. Every other
/// is ignored, and nothing changes.
pub proof fn law_only_the_awaited_signal_counts(scheduler: SchedulerView, signal: SignalView)
    ensures
        ({
            let awaited = match scheduler.phase {
                PhaseView::Resting => signal is Tick,
                PhaseView::Beating { .. } => signal is HeartbeatWritten,
                PhaseView::Firing { .. } => signal is Delivered,
                PhaseView::Fetching { .. } => signal is Fetched,
                PhaseView::Forwarding { .. } => signal is Delivered,
            };
            &&& awaited <==> scheduler.next(signal).1 !is Ignored
            &&& !awaited ==> scheduler.next(signal).0 == scheduler
        }),
{
}

/// The counters are full only when no poll, or not all the messages that are left, could
/// be counted any more.
pub proof fn law_counters_hold_all_that_fits(scheduler: SchedulerView)
    ensures
        ({
            let left: int = match scheduler.phase {
                PhaseView::Forwarding { queue, forwarded, .. } => forwarded + queue.len() + 1,
                _ => 0,
            };
            scheduler.can_count() <==> scheduler.stats.polls < u64::MAX
                && scheduler.stats.forwarded + left <= u64::MAX
        }),
{
}

/// What a delivery, a signal and an action show of themselves are their own parts, each in
/// its place.
pub proof fn law_actions_show_their_parts(
    delivery: Delivery,
    summary: Summary,
    signal: Signal,
    action: Action,
)
    ensures
        delivery@.url == delivery.url@,
        delivery@.message == delivery.message@,
        delivery.purpose matches Purpose::Reminder { name } ==> delivery@.purpose
            == (Purpose::Reminder { name: name@ }),
        delivery.purpose matches Purpose::StatusUpdate { page, incident, state }
            ==> delivery@.purpose == (Purpose::StatusUpdate {
            page: page@,
            incident: incident@,
            state,
        }),
        summary@.window_sec == summary.window_sec,
        summary@.pages == summary.pages,
        summary@.stats == summary.stats,
        match signal {
            Signal::Tick { now, reading } => signal@ == (SignalView::Tick {
                now: now@,
                reading: reading@,
            }),
            Signal::HeartbeatWritten(ok) => signal@ == SignalView::HeartbeatWritten(ok),
            Signal::Delivered(ok) => signal@ == SignalView::Delivered(ok),
            Signal::Fetched(Ok(fetched)) => signal@ == SignalView::Fetched(Ok(fetched@)),
            Signal::Fetched(Err(e)) => signal@ == SignalView::Fetched(Err(e@)),
        },
        match action {
            Action::WriteHeartbeat { path, contents } => action@ == (ActionView::WriteHeartbeat {
                path: path@,
                contents: contents@,
            }),
            Action::Deliver(message) => action@ == ActionView::Deliver(message@),
            Action::Fetch { page, request } => action@ == (ActionView::Fetch {
                page: page@,
                request: request@,
            }),
            Action::Rest { summary: None } => action@ == (ActionView::Rest { summary: None }),
            Action::Rest { summary: Some(closed) } => action@ == (ActionView::Rest {
                summary: Some(closed@),
            }),
            Action::Ignored => action@ == ActionView::Ignored,
        },
{
}

} // verus!
