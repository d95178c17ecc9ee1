//! Incidents of Atlassian Statuspage instances, and what is worth telling of them.

use vstd::prelude::*;
use vstd::string::StringExecFns;

use crate::clock::{
    earlier, rfc3339_instant, rfc3339_text, Span, Timestamp, RFC3339_MAX_SECS, RFC3339_MIN_SECS,
};
use crate::config::Impact;
use crate::names::NameMap;
use crate::notifier::{
    abridges, body_start, embed_message, error_body, is_success, law_builders_keep_limits,
    law_constructors_stay_within_limits, lossy_text, success, titled, DiscordMessage, Embed,
    EmbedView, MessageView,
};
use crate::runtime::{RunStatusPage, RunStatusPageView};
use crate::text::{
    is_blank, join, joined, law_joined_parts_are_separated, lowered, opt_view, result_view, same,
    seq_view,
};
use crate::values::impact_named;

verus! {

/// Path appended to a status page base URL. `incidents.json` is used rather than
/// `summary.json` because the summary omits resolved incidents, and "resolved" is
/// the single most useful update to forward.
pub const INCIDENTS_PATH: &'static str = "api/v2/incidents.json";

pub const COLOR_RESOLVED: u32 = 0x57F287;

pub const COLOR_CRITICAL: u32 = 0xED4245;

pub const COLOR_MAJOR: u32 = 0xE67E22;

pub const COLOR_MINOR: u32 = 0xFEE75C;

pub const COLOR_NEUTRAL: u32 = 0x99AAB5;

// ---------------------------------------------------------------------------
// Incidents
// ---------------------------------------------------------------------------
#[derive(Debug, Clone, Copy, PartialEq, Eq, Structural)]
pub enum IncidentState {
    Investigating,
    Identified,
    Monitoring,
    Resolved,
    Postmortem,
    Unknown,
}

/// The state that a word of the feed names.
pub open spec fn state_named(word: Seq<char>) -> IncidentState {
    if word == "investigating"@ {
        IncidentState::Investigating
    } else if word == "identified"@ {
        IncidentState::Identified
    } else if word == "monitoring"@ {
        IncidentState::Monitoring
    } else if word == "resolved"@ {
        IncidentState::Resolved
    } else if word == "postmortem"@ {
        IncidentState::Postmortem
    } else {
        IncidentState::Unknown
    }
}

impl IncidentState {
    pub fn from_wire(s: &str) -> (state: IncidentState)
        ensures
            state == state_named(s@),
    {
        if same(s, "investigating") {
            IncidentState::Investigating
        } else if same(s, "identified") {
            IncidentState::Identified
        } else if same(s, "monitoring") {
            IncidentState::Monitoring
        } else if same(s, "resolved") {
            IncidentState::Resolved
        } else if same(s, "postmortem") {
            IncidentState::Postmortem
        } else {
            IncidentState::Unknown
        }
    }

    pub open spec fn over(self) -> bool {
        self is Resolved || self is Postmortem
    }

    pub fn is_resolved(self) -> (r: bool)
        ensures
            r == self.over(),
    {
        matches!(self, IncidentState::Resolved | IncidentState::Postmortem)
    }

    pub open spec fn label_text(self) -> Seq<char> {
        match self {
            IncidentState::Investigating => "Investigating"@,
            IncidentState::Identified => "Identified"@,
            IncidentState::Monitoring => "Monitoring"@,
            IncidentState::Resolved => "Resolved"@,
            IncidentState::Postmortem => "Postmortem"@,
            IncidentState::Unknown => "Update"@,
        }
    }

    pub fn label(self) -> (label: &'static str)
        ensures
            label@ == self.label_text(),
    {
        match self {
            IncidentState::Investigating => "Investigating",
            IncidentState::Identified => "Identified",
            IncidentState::Monitoring => "Monitoring",
            IncidentState::Resolved => "Resolved",
            IncidentState::Postmortem => "Postmortem",
            IncidentState::Unknown => "Update",
        }
    }

    pub open spec fn emoji_text(self) -> Seq<char> {
        match self {
            IncidentState::Investigating => "🔍"@,
            IncidentState::Identified => "🎯"@,
            IncidentState::Monitoring => "👀"@,
            IncidentState::Resolved => "✅"@,
            IncidentState::Postmortem => "📄"@,
            IncidentState::Unknown => "ℹ️"@,
        }
    }

    pub fn emoji(self) -> (emoji: &'static str)
        ensures
            emoji@ == self.emoji_text(),
    {
        match self {
            IncidentState::Investigating => "🔍",
            IncidentState::Identified => "🎯",
            IncidentState::Monitoring => "👀",
            IncidentState::Resolved => "✅",
            IncidentState::Postmortem => "📄",
            IncidentState::Unknown => "ℹ️",
        }
    }
}

/// An incident: timestamps parsed, severities typed.
#[derive(Debug, Clone, PartialEq)]
pub struct Incident {
    pub id: String,
    pub name: String,
    /// `None` for a severity that is not known.
    pub impact: Option<Impact>,
    pub link: Option<String>,
    pub components: Vec<String>,
    pub updates: Vec<IncidentUpdate>,
}

#[derive(Debug, Clone, PartialEq)]
pub struct IncidentUpdate {
    pub id: String,
    pub state: IncidentState,
    pub body: String,
    pub created_at: Timestamp,
}

/// One notification: the latest update of one incident, at the moment it was first
/// observed.
#[derive(Debug, Clone, PartialEq)]
pub struct StatusEvent {
    pub incident_id: String,
    pub title: String,
    pub body: String,
    pub state: IncidentState,
    pub impact: Option<Impact>,
    pub link: Option<String>,
    pub components: Vec<String>,
    pub occurred_at: Timestamp,
}

pub struct UpdateView {
    pub id: Seq<char>,
    pub state: IncidentState,
    pub body: Seq<char>,
    pub created_at: (int, int),
}

pub struct IncidentView {
    pub id: Seq<char>,
    pub name: Seq<char>,
    pub impact: Option<Impact>,
    pub link: Option<Seq<char>>,
    pub components: Seq<Seq<char>>,
    pub updates: Seq<UpdateView>,
}

pub struct EventView {
    pub incident_id: Seq<char>,
    pub title: Seq<char>,
    pub body: Seq<char>,
    pub state: IncidentState,
    pub impact: Option<Impact>,
    pub link: Option<Seq<char>>,
    pub components: Seq<Seq<char>>,
    pub occurred_at: (int, int),
}

impl View for IncidentUpdate {
    type V = UpdateView;

    open spec fn view(&self) -> UpdateView {
        UpdateView {
            id: self.id@,
            state: self.state,
            body: self.body@,
            created_at: self.created_at@,
        }
    }
}

impl View for Incident {
    type V = IncidentView;

    open spec fn view(&self) -> IncidentView {
        IncidentView {
            id: self.id@,
            name: self.name@,
            impact: self.impact,
            link: opt_view(self.link),
            components: seq_view(self.components@),
            updates: seq_view(self.updates@),
        }
    }
}

impl View for StatusEvent {
    type V = EventView;

    open spec fn view(&self) -> EventView {
        EventView {
            incident_id: self.incident_id@,
            title: self.title@,
            body: self.body@,
            state: self.state,
            impact: self.impact,
            link: opt_view(self.link),
            components: seq_view(self.components@),
            occurred_at: self.occurred_at@,
        }
    }
}

// ---------------------------------------------------------------------------
// What is new
// ---------------------------------------------------------------------------
/// What one page has reported so far. It lives in memory only: a restart starts
/// from a new baseline rather than replaying history.
#[derive(Debug)]
pub struct PageState {
    seen: NameMap<String>,
    initialized: bool,
    etag: Option<String>,
}

pub struct PageStateView {
    /// For each incident that is known, the update that was last seen.
    pub seen: Map<Seq<char>, Seq<char>>,
    /// Has the page been read before?
    pub initialized: bool,
    pub etag: Option<Seq<char>>,
}

impl View for PageState {
    type V = PageStateView;

    closed spec fn view(&self) -> PageStateView {
        PageStateView {
            seen: self.seen@,
            initialized: self.initialized,
            etag: opt_view(self.etag),
        }
    }
}

/// The state of a page that was never read.
pub open spec fn blank_page() -> PageStateView {
    PageStateView { seen: Map::empty(), initialized: false, etag: None }
}

/// No update is later than the one at `i`, and of those that are as late it is the
/// last.
pub open spec fn is_latest(updates: Seq<UpdateView>, i: int) -> bool {
    &&& 0 <= i < updates.len()
    &&& forall|j: int|
        0 <= j < i ==> !earlier(updates[i].created_at, (#[trigger] updates[j]).created_at)
    &&& forall|j: int|
        i < j < updates.len() ==> earlier((#[trigger] updates[j]).created_at, updates[i].created_at)
}

/// The latest of an incident's updates, wherever it stands among them.
pub open spec fn latest(updates: Seq<UpdateView>) -> Option<UpdateView> {
    if updates.len() == 0 {
        None
    } else {
        Some(updates[choose|i: int| is_latest(updates, i)])
    }
}

/// Is an incident of this id among `incidents`?
pub open spec fn listed(incidents: Seq<IncidentView>, id: Seq<char>) -> bool {
    exists|i: int| 0 <= i < incidents.len() && (#[trigger] incidents[i]).id == id
}

/// What is remembered of the incidents that are still listed.
pub open spec fn retained(
    seen: Map<Seq<char>, Seq<char>>,
    incidents: Seq<IncidentView>,
) -> Map<Seq<char>, Seq<char>> {
    seen.restrict(Set::new(|id: Seq<char>| listed(incidents, id)))
}

/// What is remembered once the latest update of each incident has been noted.
pub open spec fn recorded(
    seen: Map<Seq<char>, Seq<char>>,
    incidents: Seq<IncidentView>,
) -> Map<Seq<char>, Seq<char>>
    decreases incidents.len(),
{
    if incidents.len() == 0 {
        seen
    } else {
        let before = recorded(seen, incidents.drop_last());
        match latest(incidents.last().updates) {
            Some(update) => before.insert(incidents.last().id, update.id),
            None => before,
        }
    }
}

/// Is this severity known to be less than `min_impact`?
pub open spec fn too_minor(impact: Option<Impact>, min_impact: Impact) -> bool {
    impact matches Some(impact) && impact.rank() < min_impact.rank()
}

/// The incident has an update that `seen` does not hold as its last, and is severe
/// enough.
pub open spec fn newsworthy(
    seen: Map<Seq<char>, Seq<char>>,
    incident: IncidentView,
    min_impact: Impact,
) -> bool {
    &&& latest(incident.updates) is Some
    &&& !(seen.dom().contains(incident.id) && seen[incident.id] == latest(
        incident.updates,
    )->Some_0.id)
    &&& !too_minor(incident.impact, min_impact)
}

/// The notification of an incident's update.
pub open spec fn event_of(incident: IncidentView, update: UpdateView) -> EventView {
    EventView {
        incident_id: incident.id,
        title: incident.name,
        body: update.body,
        state: update.state,
        impact: incident.impact,
        link: incident.link,
        components: incident.components,
        occurred_at: update.created_at,
    }
}

/// The notification of an incident's latest update.
pub open spec fn latest_event(incident: IncidentView) -> EventView {
    event_of(incident, latest(incident.updates)->Some_0)
}

/// The notifications of what is new, incident by incident.
pub open spec fn news(
    seen: Map<Seq<char>, Seq<char>>,
    incidents: Seq<IncidentView>,
    min_impact: Impact,
) -> Seq<EventView>
    decreases incidents.len(),
{
    if incidents.len() == 0 {
        Seq::empty()
    } else {
        let before = news(seen, incidents.drop_last(), min_impact);
        let incident = incidents.last();
        if newsworthy(recorded(seen, incidents.drop_last()), incident, min_impact) {
            before.push(latest_event(incident))
        } else {
            before
        }
    }
}

/// `events` with `event` behind all that are not later.
pub open spec fn inserted(events: Seq<EventView>, event: EventView) -> Seq<EventView>
    decreases events.len(),
{
    if events.len() == 0 {
        seq![event]
    } else if earlier(event.occurred_at, events.last().occurred_at) {
        inserted(events.drop_last(), event).push(events.last())
    } else {
        events.push(event)
    }
}

/// `events` from the oldest to the latest, those of one instant in the order they
/// had.
pub open spec fn by_time(events: Seq<EventView>) -> Seq<EventView>
    decreases events.len(),
{
    if events.len() == 0 {
        Seq::empty()
    } else {
        inserted(by_time(events.drop_last()), events.last())
    }
}

impl PageStateView {
    /// The state after `incidents` have been read.
    pub open spec fn after(self, incidents: Seq<IncidentView>) -> PageStateView {
        PageStateView {
            seen: recorded(retained(self.seen, incidents), incidents),
            initialized: true,
            ..self
        }
    }

    /// What is to be sent when `incidents` have been read: nothing the first time.
    pub open spec fn events(self, incidents: Seq<IncidentView>, min_impact: Impact) -> Seq<
        EventView,
    > {
        if !self.initialized {
            Seq::empty()
        } else {
            by_time(news(retained(self.seen, incidents), incidents, min_impact))
        }
    }
}

proof fn lemma_latest_is_unique(updates: Seq<UpdateView>, i: int, j: int)
    requires
        is_latest(updates, i),
        is_latest(updates, j),
    ensures
        i == j,
{
    if i < j {
        assert(earlier(updates[j].created_at, updates[i].created_at));
    }
    if j < i {
        assert(earlier(updates[i].created_at, updates[j].created_at));
    }
}

proof fn lemma_inserted(events: Seq<EventView>, event: EventView, at: int)
    requires
        0 <= at <= events.len(),
        at > 0 ==> !earlier(event.occurred_at, events[at - 1].occurred_at),
        forall|i: int|
            at <= i < events.len() ==> earlier(
                event.occurred_at,
                (#[trigger] events[i]).occurred_at,
            ),
    ensures
        inserted(events, event) == events.insert(at, event),
    decreases events.len(),
{
    if events.len() == 0 {
        assert(events.insert(at, event) =~= seq![event]);
    } else if at < events.len() {
        assert(earlier(event.occurred_at, events.last().occurred_at));
        lemma_inserted(events.drop_last(), event, at);
        assert(events.insert(at, event) =~= events.drop_last().insert(at, event).push(
            events.last(),
        ));
    } else {
        assert(events.insert(at, event) =~= events.push(event));
    }
}

/// The position of the latest update.
fn latest_index(updates: &Vec<IncidentUpdate>) -> (r: Option<usize>)
    ensures
        match r {
            Some(i) => {
                &&& i < updates@.len()
                &&& latest(seq_view(updates@)) == Some(updates@[i as int]@)
            },
            None => latest(seq_view(updates@)) is None,
        },
{
    if updates.is_empty() {
        return None;
    }
    let ghost views = seq_view(updates@);
    let mut best: usize = 0;
    for i in 1..updates.len()
        invariant
            best < i <= updates@.len(),
            views == seq_view(updates@),
            forall|j: int|
                0 <= j < best ==> !earlier(
                    views[best as int].created_at,
                    (#[trigger] views[j]).created_at,
                ),
            forall|j: int|
                best < j < i ==> earlier(
                    (#[trigger] views[j]).created_at,
                    views[best as int].created_at,
                ),
    {
        assert(views[i as int] == updates@[i as int]@);
        assert(views[best as int] == updates@[best as int]@);
        if !updates[i].created_at.precedes(&updates[best].created_at) {
            best = i;
        }
    }
    proof {
        assert(is_latest(views, best as int));
        lemma_latest_is_unique(views, best as int, choose|i: int| is_latest(views, i));
    }
    Some(best)
}

fn clone_text(text: &Option<String>) -> (r: Option<String>)
    ensures
        opt_view(r) == opt_view(*text),
{
    match text {
        Some(text) => Some(text.clone()),
        None => None,
    }
}

fn clone_texts(texts: &Vec<String>) -> (r: Vec<String>)
    ensures
        seq_view(r@) == seq_view(texts@),
{
    let mut copies: Vec<String> = Vec::new();
    for i in 0..texts.len()
        invariant
            copies@.len() == i,
            forall|j: int| 0 <= j < i ==> (#[trigger] copies@[j])@ == texts@[j]@,
    {
        copies.push(texts[i].clone());
    }
    assert(seq_view(copies@) =~= seq_view(texts@));
    copies
}

fn event(incident: &Incident, update: &IncidentUpdate) -> (event: StatusEvent)
    ensures
        event@ == event_of(incident@, update@),
{
    StatusEvent {
        incident_id: incident.id.clone(),
        title: incident.name.clone(),
        body: update.body.clone(),
        state: update.state,
        impact: incident.impact,
        link: clone_text(&incident.link),
        components: clone_texts(&incident.components),
        occurred_at: update.created_at,
    }
}

fn insert_by_time(events: &mut Vec<StatusEvent>, event: StatusEvent)
    ensures
        seq_view(final(events)@) == inserted(seq_view(old(events)@), event@),
{
    let ghost views = seq_view(events@);
    let mut at: usize = events.len();
    while at > 0 && event.occurred_at.precedes(&events[at - 1].occurred_at)
        invariant
            at <= events@.len(),
            views == seq_view(events@),
            forall|i: int|
                at <= i < views.len() ==> earlier(
                    event@.occurred_at,
                    (#[trigger] views[i]).occurred_at,
                ),
        decreases at,
    {
        at = at - 1;
        assert(views[at as int] == events@[at as int]@);
    }
    proof {
        if at > 0 {
            assert(views[at - 1] == events@[at - 1]@);
        }
        lemma_inserted(views, event@, at as int);
    }
    let ghost model = event@;
    events.insert(at, event);
    assert(seq_view(events@) =~= views.insert(at as int, model));
}

/// Forgets the incidents that are listed no longer.
fn retain_listed(seen: NameMap<String>, incidents: &[Incident]) -> (kept: NameMap<String>)
    ensures
        kept@ == retained(seen@, seq_view(incidents@)),
{
    let ghost before = seen@;
    let ghost views = seq_view(incidents@);
    let mut seen = seen;
    let mut kept: NameMap<String> = NameMap::new();
    assert(kept@ =~= retained(before, views.take(0)));
    for i in 0..incidents.len()
        invariant
            views == seq_view(incidents@),
            kept@ =~= retained(before, views.take(i as int)),
            seen@ =~= before.restrict(
                Set::new(|id: Seq<char>| !listed(views.take(i as int), id)),
            ),
    {
        let ghost prefix = views.take(i as int);
        let ghost longer = views.take(i + 1);
        let id = &incidents[i].id;
        proof {
            assert(longer[i as int].id == id@);
            assert forall|other: Seq<char>| listed(longer, other) == (listed(prefix, other) || other
                == id@) by {
                if listed(prefix, other) {
                    let k = choose|k: int|
                        0 <= k < prefix.len() && (#[trigger] prefix[k]).id == other;
                    assert(longer[k].id == other);
                }
                if listed(longer, other) && other != id@ {
                    let k = choose|k: int|
                        0 <= k < longer.len() && (#[trigger] longer[k]).id == other;
                    assert(prefix[k].id == other);
                }
            }
        }
        match seen.remove(id.as_str()) {
            Some(update) => {
                kept.insert(id.clone(), update);
            },
            None => {},
        }
    }
    assert(views.take(incidents@.len() as int) =~= views);
    kept
}

/// Compare a freshly fetched incident list against what this page has already
/// reported, and return the updates worth sending.
///
/// The record of what was seen is written before anything is sent, so a failure to
/// send never causes the same update to be sent again on the next poll.
pub fn diff(state: &mut PageState, incidents: &[Incident], min_impact: Impact) -> (events: Vec<
    StatusEvent,
>)
    ensures
        final(state)@ == old(state)@.after(seq_view(incidents@)),
        seq_view(events@) == old(state)@.events(seq_view(incidents@), min_impact),
        !old(state)@.initialized ==> events@.len() == 0,
{
    let ghost views = seq_view(incidents@);
    let mut seen: NameMap<String> = NameMap::new();
    std::mem::swap(&mut seen, &mut state.seen);
    seen = retain_listed(seen, incidents);
    let ghost known = seen@;
    let first_poll = !state.initialized;
    state.initialized = true;

    let mut events: Vec<StatusEvent> = Vec::new();
    assert(seq_view(events@) =~= Seq::<EventView>::empty());
    assert(views.take(0) =~= Seq::<IncidentView>::empty());
    for i in 0..incidents.len()
        invariant
            views == seq_view(incidents@),
            seen@ == recorded(known, views.take(i as int)),
            first_poll ==> seq_view(events@) == Seq::<EventView>::empty(),
            !first_poll ==> seq_view(events@) == by_time(
                news(known, views.take(i as int), min_impact),
            ),
    {
        let incident = &incidents[i];
        let ghost before = seen@;
        proof {
            assert(views.take(i + 1).drop_last() =~= views.take(i as int));
            assert(views.take(i + 1).last() == incident@);
        }
        match latest_index(&incident.updates) {
            None => {},
            Some(k) => {
                let update = &incident.updates[k];
                let unchanged = match seen.get(incident.id.as_str()) {
                    Some(previous) => same(previous.as_str(), update.id.as_str()),
                    None => false,
                };
                seen.insert(incident.id.clone(), update.id.clone());
                let filtered = match incident.impact {
                    Some(impact) => impact.below(min_impact),
                    None => false,
                };
                let ghost earlier_news = news(known, views.take(i as int), min_impact);
                if !first_poll && !unchanged && !filtered {
                    insert_by_time(&mut events, event(incident, update));
                    proof {
                        let now = news(known, views.take(i + 1), min_impact);
                        assert(now == earlier_news.push(latest_event(incident@)));
                        assert(now.drop_last() =~= earlier_news);
                    }
                }
            },
        }
    }
    assert(views.take(incidents@.len() as int) =~= views);
    state.seen = seen;
    events
}

impl Default for PageState {
    fn default() -> (state: Self)
        ensures
            state@ == blank_page(),
    {
        PageState { seen: NameMap::new(), initialized: false, etag: None }
    }
}

impl PageState {
    /// The update that was last seen of each incident that is known.
    pub fn seen(&self) -> (seen: &NameMap<String>)
        ensures
            seen@ == self@.seen,
    {
        &self.seen
    }

    /// The entity tag under which the page was last read.
    pub fn etag(&self) -> (etag: &Option<String>)
        ensures
            opt_view(*etag) == self@.etag,
    {
        &self.etag
    }

    pub fn set_etag(&mut self, etag: Option<String>)
        ensures
            final(self)@ == (PageStateView { etag: opt_view(etag), ..old(self)@ }),
    {
        self.etag = etag;
    }
}

// ---------------------------------------------------------------------------
// The message
// ---------------------------------------------------------------------------
/// The colour of the bar. A resolved incident is green however severe it was:
/// a red bar on "this is fixed" is the one misread worth designing against.
pub open spec fn color_of(state: IncidentState, impact: Option<Impact>) -> u32 {
    if state.over() {
        COLOR_RESOLVED
    } else {
        match impact {
            Some(Impact::Critical) => COLOR_CRITICAL,
            Some(Impact::Major) => COLOR_MAJOR,
            Some(Impact::Minor) => COLOR_MINOR,
            _ => COLOR_NEUTRAL,
        }
    }
}

pub open spec fn impact_text(impact: Option<Impact>) -> Seq<char> {
    match impact {
        Some(impact) => impact.label_text(),
        None => "Unknown"@,
    }
}

/// Title, text, state and severity of an event.
pub open spec fn embed_head(event: EventView) -> EmbedView {
    titled(event.title, color_of(event.state, event.impact)).with_description(
        event.body,
    ).with_field(
        "Status"@,
        event.state.emoji_text() + " "@ + event.state.label_text(),
        true,
    ).with_field("Impact"@, impact_text(event.impact), true)
}

/// The link of an event, where it has one, and its components, where it has any.
pub open spec fn embed_details(embed: EmbedView, event: EventView) -> EmbedView {
    let linked = match event.link {
        Some(link) => embed.with_url(link),
        None => embed,
    };
    if event.components.len() > 0 {
        linked.with_field("Components"@, joined(event.components, ", "@), false)
    } else {
        linked
    }
}

/// The message that tells of an event on a page, with `timestamp` for its time.
pub open spec fn message_dated(
    page: RunStatusPageView,
    event: EventView,
    timestamp: Seq<char>,
) -> MessageView {
    embed_message(
        embed_details(embed_head(event), event).with_footer(page.host).with_timestamp(timestamp),
    ).with_identity(page.display_name, page.avatar_url)
}

/// The message that tells of an event on a page.
pub open spec fn message_of(page: RunStatusPageView, event: EventView) -> MessageView {
    message_dated(page, event, rfc3339_text(event.occurred_at.0, event.occurred_at.1))
}

fn color(state: IncidentState, impact: Option<Impact>) -> (color: u32)
    ensures
        color == color_of(state, impact),
{
    if state.is_resolved() {
        COLOR_RESOLVED
    } else {
        match impact {
            Some(Impact::Critical) => COLOR_CRITICAL,
            Some(Impact::Major) => COLOR_MAJOR,
            Some(Impact::Minor) => COLOR_MINOR,
            _ => COLOR_NEUTRAL,
        }
    }
}

/// The message that tells of an event on a page. Its timestamp is when the update
/// was published.
pub fn build_message(page: &RunStatusPage, event: &StatusEvent) -> (message: DiscordMessage)
    ensures
        message@ == message_of(page@, event@),
        announces(
            message@,
            page@,
            event@,
            rfc3339_text(event@.occurred_at.0, event@.occurred_at.1),
        ),
        message@.within_limits(),
        RFC3339_MIN_SECS <= event@.occurred_at.0 <= RFC3339_MAX_SECS ==> {
            &&& message@.embeds[0].timestamp is Some
            &&& rfc3339_instant(message@.embeds[0].timestamp->Some_0) == Some(event@.occurred_at)
        },
{
    let timestamp = event.occurred_at.to_rfc3339();
    message_at(page, event, timestamp.as_str())
}

/// The message that tells of an event on a page, with `timestamp` for its time.
pub fn message_at(page: &RunStatusPage, event: &StatusEvent, timestamp: &str) -> (message:
    DiscordMessage)
    ensures
        message@ == message_dated(page@, event@, timestamp@),
        announces(message@, page@, event@, timestamp@),
        message@.within_limits(),
{
    let impact_label = match event.impact {
        Some(impact) => impact.label(),
        None => "Unknown",
    };
    let mut status = event.state.emoji().to_owned();
    status.append(" ");
    status.append(event.state.label());

    let mut embed = Embed::new(event.title.as_str(), color(event.state, event.impact))
        .with_description(event.body.as_str())
        .with_field("Status", status.as_str(), true)
        .with_field("Impact", impact_label, true);
    if let Some(link) = &event.link {
        embed = embed.with_url(link.as_str());
    }
    if !event.components.is_empty() {
        let components = join(&event.components, ", ");
        embed = embed.with_field("Components", components.as_str(), false);
    }
    embed = embed.with_footer(page.host.as_str()).with_timestamp(timestamp);
    let avatar_url = match &page.avatar_url {
        Some(url) => Some(url.as_str()),
        None => None,
    };
    proof {
        law_messages_stay_within_limits(page@, event@, timestamp@);
        law_messages_announce_their_event(page@, event@, timestamp@);
    }
    DiscordMessage::embed(embed).with_identity(page.display_name.as_str(), avatar_url)
}

/// Whatever the feed and the configuration hold, the message is within Discord's
/// limits.
pub proof fn law_messages_stay_within_limits(
    page: RunStatusPageView,
    event: EventView,
    timestamp: Seq<char>,
)
    ensures
        message_dated(page, event, timestamp).within_limits(),
{
    let color = color_of(event.state, event.impact);
    let none: Option<Seq<char>> = None;
    law_constructors_stay_within_limits(event.title, color);
    let e0 = titled(event.title, color);
    law_builders_keep_limits(e0, no_message(), event.body, event.body, true, none);
    let e1 = e0.with_description(event.body);
    let state_text = event.state.emoji_text() + " "@ + event.state.label_text();
    law_builders_keep_limits(e1, no_message(), "Status"@, state_text, true, none);
    let e2 = e1.with_field("Status"@, state_text, true);
    law_builders_keep_limits(e2, no_message(), "Impact"@, impact_text(event.impact), true, none);
    let e3 = e2.with_field("Impact"@, impact_text(event.impact), true);
    assert(e3 == embed_head(event));
    let e4 = match event.link {
        Some(link) => e3.with_url(link),
        None => e3,
    };
    if event.link is Some {
        law_builders_keep_limits(
            e3,
            no_message(),
            event.link->Some_0,
            event.body,
            true,
            none,
        );
    }
    let components = joined(event.components, ", "@);
    law_builders_keep_limits(e4, no_message(), "Components"@, components, false, none);
    let e5 = embed_details(e3, event);
    law_builders_keep_limits(e5, no_message(), page.host, event.body, true, none);
    let e6 = e5.with_footer(page.host);
    law_builders_keep_limits(e6, no_message(), timestamp, event.body, true, none);
    let e7 = e6.with_timestamp(timestamp);
    law_builders_keep_limits(e7, no_message(), event.body, event.body, true, none);
    law_builders_keep_limits(
        e7,
        embed_message(e7),
        page.display_name,
        event.body,
        true,
        page.avatar_url,
    );
}

/// The message that says nothing.
spec fn no_message() -> MessageView {
    MessageView { content: None, username: None, avatar_url: None, embeds: Seq::empty() }
}

/// A resolved incident is green whatever its severity, and nothing else is; a
/// severity that is not known is never dressed up as one that is.
pub proof fn law_only_resolved_is_green(state: IncidentState, impact: Option<Impact>)
    ensures
        color_of(state, impact) == COLOR_RESOLVED <==> state.over(),
        !state.over() && impact is None ==> color_of(state, impact) == COLOR_NEUTRAL,
{
}

// ---------------------------------------------------------------------------
// The feed
// ---------------------------------------------------------------------------
/// An incidents feed as it is sent.
#[derive(Debug)]
pub struct WireResponse {
    pub incidents: Vec<WireIncident>,
}

#[derive(Debug)]
pub struct WireIncident {
    pub id: String,
    pub name: String,
    pub impact: String,
    pub shortlink: Option<String>,
    pub incident_updates: Vec<WireUpdate>,
    pub components: Vec<WireComponent>,
}

#[derive(Debug)]
pub struct WireUpdate {
    pub id: String,
    pub status: String,
    pub body: String,
    pub created_at: String,
}

#[derive(Debug)]
pub struct WireComponent {
    pub name: String,
}

pub struct WireUpdateView {
    pub id: Seq<char>,
    pub status: Seq<char>,
    pub body: Seq<char>,
    pub created_at: Seq<char>,
}

pub struct WireIncidentView {
    pub id: Seq<char>,
    pub name: Seq<char>,
    pub impact: Seq<char>,
    pub shortlink: Option<Seq<char>>,
    pub incident_updates: Seq<WireUpdateView>,
    pub components: Seq<Seq<char>>,
}

impl View for WireUpdate {
    type V = WireUpdateView;

    open spec fn view(&self) -> WireUpdateView {
        WireUpdateView {
            id: self.id@,
            status: self.status@,
            body: self.body@,
            created_at: self.created_at@,
        }
    }
}

impl View for WireComponent {
    type V = Seq<char>;

    open spec fn view(&self) -> Seq<char> {
        self.name@
    }
}

impl View for WireIncident {
    type V = WireIncidentView;

    open spec fn view(&self) -> WireIncidentView {
        WireIncidentView {
            id: self.id@,
            name: self.name@,
            impact: self.impact@,
            shortlink: opt_view(self.shortlink),
            incident_updates: seq_view(self.incident_updates@),
            components: seq_view(self.components@),
        }
    }
}

impl View for WireResponse {
    type V = Seq<WireIncidentView>;

    open spec fn view(&self) -> Seq<WireIncidentView> {
        seq_view(self.incidents@)
    }
}

/// The update that was published at `created_at`.
pub open spec fn dated(update: WireUpdateView, created_at: Option<(int, int)>) -> Option<
    UpdateView,
> {
    match created_at {
        Some(created_at) => Some(
            UpdateView {
                id: update.id,
                state: state_named(update.status),
                body: update.body,
                created_at,
            },
        ),
        None => None,
    }
}

/// The updates that have a time of publication, in order.
pub open spec fn dated_updates(
    updates: Seq<WireUpdateView>,
    times: Seq<Option<(int, int)>>,
) -> Seq<UpdateView> {
    Seq::new(updates.len(), |i: int| dated(updates[i], times[i])).filter_map(
        |update: Option<UpdateView>| update,
    )
}

/// The incident whose updates were published at `times`.
pub open spec fn incident_at(
    wire: WireIncidentView,
    times: Seq<Option<(int, int)>>,
) -> IncidentView {
    IncidentView {
        id: wire.id,
        name: wire.name,
        impact: impact_named(wire.impact),
        link: wire.shortlink,
        components: wire.components,
        updates: dated_updates(wire.incident_updates, times),
    }
}

/// When the updates of an incident were published, as far as that can be read.
pub open spec fn update_times(wire: WireIncidentView) -> Seq<Option<(int, int)>> {
    wire.incident_updates.map_values(
        |update: WireUpdateView| rfc3339_instant(update.created_at),
    )
}

pub open spec fn incident_of(wire: WireIncidentView) -> IncidentView {
    incident_at(wire, update_times(wire))
}

impl WireUpdate {
    /// The update, given its time of publication; `None` without one.
    pub fn dated(&self, created_at: Option<Timestamp>) -> (r: Option<IncidentUpdate>)
        ensures
            opt_view(r) == dated(self@, opt_view(created_at)),
            r is Some <==> created_at is Some,
            r matches Some(update) ==> {
                &&& update.id@ == self.id@
                &&& update.state == state_named(self.status@)
                &&& update.body@ == self.body@
                &&& created_at == Some(update.created_at)
            },
    {
        match created_at {
            Some(created_at) => Some(
                IncidentUpdate {
                    id: self.id.clone(),
                    state: IncidentState::from_wire(self.status.as_str()),
                    body: self.body.clone(),
                    created_at,
                },
            ),
            None => None,
        }
    }
}

impl WireIncident {
    /// The incident that this stands for. An update whose time of publication
    /// cannot be read is left out, and only that one.
    pub fn normalize(&self) -> (incident: Incident)
        ensures
            incident@ == incident_of(self@),
            keeps_what_was_sent(incident@, self@, update_times(self@)),
            incident.id@ == self.id@,
            incident.name@ == self.name@,
            incident.impact == impact_named(self.impact@),
            opt_view(incident.link) == opt_view(self.shortlink),
            incident.components@.len() == self.components@.len(),
            forall|i: int|
                0 <= i < self.components@.len() ==> (#[trigger] incident.components@[i])@
                    == self.components@[i].name@,
    {
        let mut times: Vec<Option<Timestamp>> = Vec::new();
        for i in 0..self.incident_updates.len()
            invariant
                times@.len() == i,
                forall|j: int|
                    0 <= j < i ==> opt_view(#[trigger] times@[j]) == rfc3339_instant(
                        self.incident_updates@[j].created_at@,
                    ),
        {
            let update = &self.incident_updates[i];
            times.push(Timestamp::parse_rfc3339(update.created_at.as_str()));
        }
        assert(times@.map_values(|t: Option<Timestamp>| opt_view(t)) =~= update_times(self@));
        self.normalize_at(&times)
    }

    /// The incident whose updates were published at `times`. An update without a
    /// time is left out.
    pub fn normalize_at(&self, times: &Vec<Option<Timestamp>>) -> (incident: Incident)
        requires
            times@.len() == self.incident_updates@.len(),
        ensures
            incident@ == incident_at(
                self@,
                times@.map_values(|t: Option<Timestamp>| opt_view(t)),
            ),
            keeps_what_was_sent(
                incident@,
                self@,
                times@.map_values(|t: Option<Timestamp>| opt_view(t)),
            ),
            incident.id@ == self.id@,
            incident.name@ == self.name@,
            incident.impact == impact_named(self.impact@),
            opt_view(incident.link) == opt_view(self.shortlink),
            incident.components@.len() == self.components@.len(),
            forall|i: int|
                0 <= i < self.components@.len() ==> (#[trigger] incident.components@[i])@
                    == self.components@[i].name@,
    {
        let ghost model = Seq::new(
            times@.len(),
            |i: int| dated(self.incident_updates@[i]@, opt_view(times@[i])),
        );
        let ghost keep = |update: Option<UpdateView>| update;
        let mut updates: Vec<IncidentUpdate> = Vec::new();
        assert(seq_view(updates@) =~= Seq::<UpdateView>::empty());
        for i in 0..self.incident_updates.len()
            invariant
                times@.len() == self.incident_updates@.len(),
                keep == (|update: Option<UpdateView>| update),
                model == Seq::new(
                    times@.len(),
                    |i: int| dated(self.incident_updates@[i]@, opt_view(times@[i])),
                ),
                seq_view(updates@) == model.take(i as int).filter_map(keep),
        {
            let ghost before = updates@;
            proof {
                assert(model.take(i + 1).drop_last() =~= model.take(i as int));
                assert(model.take(i + 1).last() == model[i as int]);
            }
            match self.incident_updates[i].dated(times[i]) {
                Some(update) => {
                    updates.push(update);
                    assert(seq_view(updates@) =~= seq_view(before) + seq![update@]);
                },
                None => {},
            }
        }
        assert(model.take(times@.len() as int) =~= model);
        assert(model =~= Seq::new(
            self@.incident_updates.len(),
            |i: int|
                dated(
                    self@.incident_updates[i],
                    times@.map_values(|t: Option<Timestamp>| opt_view(t))[i],
                ),
        ));
        let mut components: Vec<String> = Vec::new();
        for i in 0..self.components.len()
            invariant
                components@.len() == i,
                forall|j: int| 0 <= j < i ==> (#[trigger] components@[j])@ == self.components@[j]@,
        {
            components.push(self.components[i].name.clone());
        }
        assert(seq_view(components@) =~= seq_view(self.components@));
        proof {
            law_incidents_keep_what_was_sent(
                self@,
                times@.map_values(|t: Option<Timestamp>| opt_view(t)),
            );
        }
        Incident {
            id: self.id.clone(),
            name: self.name.clone(),
            impact: Impact::from_wire(self.impact.as_str()),
            link: clone_text(&self.shortlink),
            components,
            updates,
        }
    }
}

/// Why a status page could not be read.
#[derive(Debug)]
pub enum StatusError<S = String> {
    /// The request itself failed.
    Request(S),
    /// The page answered with something other than success.
    Status { status: u16, body: S },
    /// The answer is not an incidents feed.
    Decode(S),
}

impl View for StatusError {
    type V = StatusError<Seq<char>>;

    open spec fn view(&self) -> StatusError<Seq<char>> {
        match self {
            StatusError::Request(reason) => StatusError::Request(reason@),
            StatusError::Status { status, body } => StatusError::Status {
                status: *status,
                body: body@,
            },
            StatusError::Decode(reason) => StatusError::Decode(reason@),
        }
    }
}

/// What reading a status page brought.
#[derive(Debug)]
pub enum Fetched<I = Vec<Incident>, S = String> {
    NotModified,
    Modified { incidents: I, etag: Option<S> },
}

impl View for Fetched {
    type V = Fetched<Seq<IncidentView>, Seq<char>>;

    open spec fn view(&self) -> Fetched<Seq<IncidentView>, Seq<char>> {
        match self {
            Fetched::NotModified => Fetched::NotModified,
            Fetched::Modified { incidents, etag } => Fetched::Modified {
                incidents: seq_view(incidents@),
                etag: opt_view(*etag),
            },
        }
    }
}

/// A conditional request for an incidents feed.
///
/// `accept` is required, not merely polite. The content delivery network in front
/// of status pages varies its answers by `Accept`, and a request without it lands
/// on a variant that answers 200 to every `If-None-Match`.
#[derive(Debug)]
pub struct FetchRequest {
    pub url: String,
    pub accept: String,
    pub if_none_match: Option<String>,
    pub timeout: Span,
}

pub struct FetchView {
    pub url: Seq<char>,
    pub accept: Seq<char>,
    pub if_none_match: Option<Seq<char>>,
    pub timeout: Span,
}

impl View for FetchRequest {
    type V = FetchView;

    open spec fn view(&self) -> FetchView {
        FetchView {
            url: self.url@,
            accept: self.accept@,
            if_none_match: opt_view(self.if_none_match),
            timeout: self.timeout,
        }
    }
}

/// Deliberately shorter than the timeout for Discord: the request runs inside the
/// scheduler's tick, so a slow status page must not delay a reminder past its
/// minute.
pub const FETCH_TIMEOUT_SEC: u64 = 5;

/// The request for the feed at `url`, which was last seen under `etag`.
pub open spec fn fetch_of(url: Seq<char>, etag: Option<Seq<char>>) -> FetchView {
    FetchView {
        url,
        accept: "application/json"@,
        if_none_match: etag,
        timeout: Span { secs: FETCH_TIMEOUT_SEC, nanos: 0 },
    }
}

pub fn fetch_request(url: &str, etag: &Option<String>) -> (request: FetchRequest)
    ensures
        request@ == fetch_of(url@, opt_view(*etag)),
{
    FetchRequest {
        url: url.to_owned(),
        accept: "application/json".to_owned(),
        if_none_match: clone_text(etag),
        timeout: Span::from_secs(FETCH_TIMEOUT_SEC),
    }
}

/// What the status code of an answer says of it.
#[derive(Debug, Clone, Copy, PartialEq, Eq, Structural)]
pub enum Reply {
    /// The page is as it was; there is no body.
    NotModified,
    /// The body says what went wrong.
    Refused,
    /// The body is the feed.
    Feed,
}

pub open spec fn reply_of(status: u16) -> Reply {
    if status == 304 {
        Reply::NotModified
    } else if is_success(status) {
        Reply::Feed
    } else {
        Reply::Refused
    }
}

pub fn reply(status: u16) -> (r: Reply)
    ensures
        r == reply_of(status),
{
    if status == 304 {
        Reply::NotModified
    } else if success(status) {
        Reply::Feed
    } else {
        Reply::Refused
    }
}

/// The error that an answer without success is, with the start of its body.
pub fn refused(status: u16, body: &[u8]) -> (e: StatusError)
    ensures
        e@ == (StatusError::Status::<Seq<char>> {
            status,
            body: lossy_text(body_start(body@)),
        }),
        e matches StatusError::Status { status: code, body: text } && code == status && text@
            == lossy_text(body_start(body@)),
{
    StatusError::Status { status, body: error_body(body) }
}

/// What a feed, decoded or not, and its entity tag come to.
pub open spec fn feed_of(
    decoded: Result<Seq<WireIncidentView>, Seq<char>>,
    etag: Option<Seq<char>>,
) -> Result<Fetched<Seq<IncidentView>, Seq<char>>, StatusError<Seq<char>>> {
    match decoded {
        Ok(wire) => Ok(
            Fetched::Modified {
                incidents: wire.map_values(|incident: WireIncidentView| incident_of(incident)),
                etag,
            },
        ),
        Err(reason) => Err(StatusError::Decode(reason)),
    }
}

/// What a feed, decoded or not, and its entity tag come to.
pub fn feed(decoded: Result<WireResponse, String>, etag: Option<String>) -> (r: Result<
    Fetched,
    StatusError,
>)
    ensures
        result_view(r) == feed_of(result_view(decoded), opt_view(etag)),
        decoded matches Err(reason) ==> r == Err::<Fetched, StatusError>(
            StatusError::Decode(reason),
        ),
        decoded matches Ok(wire) ==> (r matches Ok(Fetched::Modified { incidents, etag: tag }) && {
            &&& tag == etag
            &&& incidents@.len() == wire.incidents@.len()
            &&& forall|i: int|
                0 <= i < incidents@.len() ==> {
                    let (incident, sent) = (#[trigger] incidents@[i], wire.incidents@[i]);
                    &&& incident.id@ == sent.id@
                    &&& incident.name@ == sent.name@
                    &&& opt_view(incident.link) == opt_view(sent.shortlink)
                    &&& seq_view(incident.components@) == seq_view(sent.components@)
                    &&& keeps_what_was_sent(incident@, sent@, update_times(sent@))
                }
        }),
{
    match decoded {
        Err(reason) => Err(StatusError::Decode(reason)),
        Ok(wire) => {
            let ghost model = wire@.map_values(|incident: WireIncidentView| incident_of(incident));
            let mut incidents: Vec<Incident> = Vec::new();
            for i in 0..wire.incidents.len()
                invariant
                    incidents@.len() == i,
                    forall|j: int|
                        0 <= j < i ==> {
                            let (incident, sent) = (#[trigger] incidents@[j], wire.incidents@[j]);
                            &&& incident@ == incident_of(sent@)
                            &&& incident.id@ == sent.id@
                            &&& incident.name@ == sent.name@
                            &&& opt_view(incident.link) == opt_view(sent.shortlink)
                            &&& seq_view(incident.components@) == seq_view(sent.components@)
                            &&& keeps_what_was_sent(incident@, sent@, update_times(sent@))
                        },
            {
                let incident = wire.incidents[i].normalize();
                assert(seq_view(incident.components@) =~= seq_view(
                    wire.incidents@[i as int].components@,
                ));
                incidents.push(incident);
            }
            assert(seq_view(incidents@) =~= model);
            Ok(Fetched::Modified { incidents, etag })
        },
    }
}

// ---------------------------------------------------------------------------
// What holds of every poll
// ---------------------------------------------------------------------------
/// No two incidents have the same id.
pub open spec fn distinct_ids(incidents: Seq<IncidentView>) -> bool {
    forall|i: int, j: int|
        0 <= i < j < incidents.len() ==> (#[trigger] incidents[i]).id != (
        #[trigger] incidents[j]).id
}

/// Incidents of one id agree on which update is the latest.
pub open spec fn consistent(incidents: Seq<IncidentView>) -> bool {
    forall|i: int, j: int|
        0 <= i < incidents.len() && 0 <= j < incidents.len() && (#[trigger] incidents[i]).id == (
        #[trigger] incidents[j]).id && latest(incidents[i].updates) is Some && latest(
            incidents[j].updates,
        ) is Some ==> latest(incidents[i].updates)->Some_0.id == latest(
            incidents[j].updates,
        )->Some_0.id
}

/// From the oldest to the latest.
pub open spec fn oldest_first(events: Seq<EventView>) -> bool {
    forall|i: int, j: int|
        0 <= i < j < events.len() ==> !earlier(
            (#[trigger] events[j]).occurred_at,
            (#[trigger] events[i]).occurred_at,
        )
}

/// Does one of the incidents have this id and an update?
spec fn updated(incidents: Seq<IncidentView>, id: Seq<char>) -> bool {
    exists|i: int|
        0 <= i < incidents.len() && (#[trigger] incidents[i]).id == id && latest(
            incidents[i].updates,
        ) is Some
}

proof fn lemma_updated_step(incidents: Seq<IncidentView>, id: Seq<char>)
    requires
        incidents.len() > 0,
    ensures
        updated(incidents, id) == (updated(incidents.drop_last(), id) || (incidents.last().id == id
            && latest(incidents.last().updates) is Some)),
{
    let before = incidents.drop_last();
    if updated(before, id) {
        let i = choose|i: int|
            0 <= i < before.len() && (#[trigger] before[i]).id == id && latest(
                before[i].updates,
            ) is Some;
        assert(incidents[i] == before[i]);
    }
    if updated(incidents, id) && !(incidents.last().id == id && latest(
        incidents.last().updates,
    ) is Some) {
        let i = choose|i: int|
            0 <= i < incidents.len() && (#[trigger] incidents[i]).id == id && latest(
                incidents[i].updates,
            ) is Some;
        assert(incidents[i] == before[i]);
    }
}

proof fn lemma_recorded_ids(
    seen: Map<Seq<char>, Seq<char>>,
    incidents: Seq<IncidentView>,
    id: Seq<char>,
)
    ensures
        recorded(seen, incidents).dom().contains(id) == (seen.dom().contains(id) || updated(
            incidents,
            id,
        )),
        !updated(incidents, id) && seen.dom().contains(id) ==> recorded(seen, incidents)[id]
            == seen[id],
    decreases incidents.len(),
{
    if incidents.len() > 0 {
        lemma_recorded_ids(seen, incidents.drop_last(), id);
        lemma_updated_step(incidents, id);
    }
}

proof fn lemma_recorded_update(
    seen: Map<Seq<char>, Seq<char>>,
    incidents: Seq<IncidentView>,
    i: int,
)
    requires
        consistent(incidents),
        0 <= i < incidents.len(),
        latest(incidents[i].updates) is Some,
    ensures
        recorded(seen, incidents).dom().contains(incidents[i].id),
        recorded(seen, incidents)[incidents[i].id] == latest(incidents[i].updates)->Some_0.id,
    decreases incidents.len(),
{
    let before = incidents.drop_last();
    assert(incidents.last() == incidents[incidents.len() - 1]);
    if i < before.len() {
        assert(before[i] == incidents[i]);
        assert forall|k: int, j: int|
            0 <= k < before.len() && 0 <= j < before.len() && (#[trigger] before[k]).id == (
            #[trigger] before[j]).id && latest(before[k].updates) is Some && latest(
                before[j].updates,
            ) is Some implies latest(before[k].updates)->Some_0.id == latest(
            before[j].updates,
        )->Some_0.id by {
            assert(before[k] == incidents[k] && before[j] == incidents[j]);
        }
        lemma_recorded_update(seen, before, i);
    }
}

proof fn lemma_nothing_new(
    seen: Map<Seq<char>, Seq<char>>,
    incidents: Seq<IncidentView>,
    min_impact: Impact,
)
    requires
        forall|i: int|
            0 <= i < incidents.len() && latest((#[trigger] incidents[i]).updates) is Some
                ==> seen.dom().contains(incidents[i].id) && seen[incidents[i].id] == latest(
                incidents[i].updates,
            )->Some_0.id,
    ensures
        recorded(seen, incidents) == seen,
        news(seen, incidents, min_impact) == Seq::<EventView>::empty(),
    decreases incidents.len(),
{
    if incidents.len() > 0 {
        let before = incidents.drop_last();
        assert forall|i: int|
            0 <= i < before.len() && latest((#[trigger] before[i]).updates) is Some implies seen
            .dom().contains(before[i].id) && seen[before[i].id] == latest(
            before[i].updates,
        )->Some_0.id by {
            assert(before[i] == incidents[i]);
        }
        lemma_nothing_new(seen, before, min_impact);
        let last = incidents[incidents.len() - 1];
        assert(incidents.last() == last);
        if latest(last.updates) is Some {
            assert(seen.insert(last.id, latest(last.updates)->Some_0.id) =~= seen);
        }
    }
}

/// Only incidents that are listed are remembered, and every listed incident with an
/// update is.
pub proof fn law_vanished_incidents_are_pruned(state: PageStateView, incidents: Seq<IncidentView>)
    ensures
        forall|id: Seq<char>|
            #[trigger] state.after(incidents).seen.dom().contains(id) ==> listed(incidents, id),
        forall|i: int|
            0 <= i < incidents.len() && latest((#[trigger] incidents[i]).updates) is Some
                ==> state.after(incidents).seen.dom().contains(incidents[i].id),
        state.after(Seq::empty()).seen == Map::<Seq<char>, Seq<char>>::empty(),
{
    let kept = retained(state.seen, incidents);
    assert forall|id: Seq<char>| #[trigger]
        state.after(incidents).seen.dom().contains(id) implies listed(incidents, id) by {
        lemma_recorded_ids(kept, incidents, id);
        if updated(incidents, id) {
            let i = choose|i: int|
                0 <= i < incidents.len() && (#[trigger] incidents[i]).id == id && latest(
                    incidents[i].updates,
                ) is Some;
            assert(incidents[i].id == id);
        }
    }
    assert forall|i: int|
        0 <= i < incidents.len() && latest((#[trigger] incidents[i]).updates) is Some implies state
        .after(incidents).seen.dom().contains(incidents[i].id) by {
        lemma_recorded_ids(kept, incidents, incidents[i].id);
        assert(updated(incidents, incidents[i].id));
    }
    assert(retained(state.seen, Seq::empty()) =~= Map::<Seq<char>, Seq<char>>::empty());
}

/// The first reading of a page sends nothing, however much it holds, and is the
/// baseline of the next.
pub proof fn law_first_poll_is_silent(
    state: PageStateView,
    incidents: Seq<IncidentView>,
    min_impact: Impact,
)
    requires
        !state.initialized,
    ensures
        state.events(incidents, min_impact) == Seq::<EventView>::empty(),
        state.after(incidents).initialized,
{
}

/// What has been read once is not sent again: another reading of the same incidents
/// sends nothing and changes nothing, whatever the thresholds of the two readings
/// are. So what a threshold once held back stays back.
pub proof fn law_nothing_is_sent_twice(
    state: PageStateView,
    incidents: Seq<IncidentView>,
    min_impact: Impact,
)
    requires
        consistent(incidents),
    ensures
        state.after(incidents).events(incidents, min_impact) == Seq::<EventView>::empty(),
        state.after(incidents).after(incidents) == state.after(incidents),
{
    let seen = state.after(incidents).seen;
    law_vanished_incidents_are_pruned(state, incidents);
    assert(retained(seen, incidents) =~= seen);
    assert forall|i: int|
        0 <= i < incidents.len() && latest((#[trigger] incidents[i]).updates) is Some implies seen
        .dom().contains(incidents[i].id) && seen[incidents[i].id] == latest(
        incidents[i].updates,
    )->Some_0.id by {
        lemma_recorded_update(retained(state.seen, incidents), incidents, i);
    }
    lemma_nothing_new(seen, incidents, min_impact);
}

proof fn lemma_inserted_is_ordered(events: Seq<EventView>, event: EventView)
    requires
        oldest_first(events),
    ensures
        oldest_first(inserted(events, event)),
        inserted(events, event).len() == events.len() + 1,
        forall|i: int|
            0 <= i < inserted(events, event).len() ==> (#[trigger] inserted(events, event)[i])
                == event || events.contains(inserted(events, event)[i]),
    decreases events.len(),
{
    let result = inserted(events, event);
    if events.len() == 0 {
    } else if earlier(event.occurred_at, events.last().occurred_at) {
        let before = events.drop_last();
        assert forall|i: int, j: int| 0 <= i < j < before.len() implies !earlier(
            (#[trigger] before[j]).occurred_at,
            (#[trigger] before[i]).occurred_at,
        ) by {
            assert(before[i] == events[i] && before[j] == events[j]);
        }
        lemma_inserted_is_ordered(before, event);
        let inner = inserted(before, event);
        assert(result == inner.push(events.last()));
        assert forall|i: int| 0 <= i < result.len() implies (#[trigger] result[i]) == event
            || events.contains(result[i]) by {
            if i < inner.len() {
                assert(result[i] == inner[i]);
                if inner[i] != event {
                    let k = choose|k: int| 0 <= k < before.len() && before[k] == inner[i];
                    assert(events[k] == inner[i]);
                }
            } else {
                assert(events[events.len() - 1] == result[i]);
            }
        }
        assert forall|i: int, j: int| 0 <= i < j < result.len() implies !earlier(
            (#[trigger] result[j]).occurred_at,
            (#[trigger] result[i]).occurred_at,
        ) by {
            assert(result[i] == inner[i]);
            if j < inner.len() {
                assert(result[j] == inner[j]);
            } else if inner[i] != event {
                let k = choose|k: int| 0 <= k < before.len() && before[k] == inner[i];
                assert(events[k] == inner[i]);
                assert(events[events.len() - 1] == result[j]);
            }
        }
    } else {
        assert forall|i: int| 0 <= i < result.len() implies (#[trigger] result[i]) == event
            || events.contains(result[i]) by {
            if i < events.len() {
                assert(events[i] == result[i]);
            }
        }
        assert forall|i: int, j: int| 0 <= i < j < result.len() implies !earlier(
            (#[trigger] result[j]).occurred_at,
            (#[trigger] result[i]).occurred_at,
        ) by {
            assert(result[i] == events[i]);
            if j < events.len() {
                assert(result[j] == events[j]);
            } else {
                let last = events.len() - 1;
                assert(i == last || !earlier(events[last].occurred_at, events[i].occurred_at));
            }
        }
    }
}

proof fn lemma_inserted_at(events: Seq<EventView>, event: EventView, at: (int, int))
    ensures
        inserted(events, event).filter(|e: EventView| e.occurred_at == at) == events.push(
            event,
        ).filter(|e: EventView| e.occurred_at == at),
    decreases events.len(),
{
    reveal(Seq::filter);
    let same_time = |e: EventView| e.occurred_at == at;
    assert(events.push(event).drop_last() =~= events);
    if events.len() == 0 {
        assert(inserted(events, event) =~= events.push(event));
    } else if earlier(event.occurred_at, events.last().occurred_at) {
        let before = events.drop_last();
        let result = inserted(events, event);
        lemma_inserted_at(before, event, at);
        assert(before.push(event).drop_last() =~= before);
        assert(result.drop_last() =~= inserted(before, event));
        assert(result.last() == events.last());
        let rest = before.filter(same_time);
        assert(events.filter(same_time) == if same_time(events.last()) {
            rest.push(events.last())
        } else {
            rest
        });
        assert(result.filter(same_time) == events.push(event).filter(same_time));
    }
}

/// Events come oldest first, and those of one instant in the order in which their
/// incidents were listed; none is lost and none is made up.
pub proof fn law_events_are_ordered_by_time(events: Seq<EventView>, at: (int, int))
    ensures
        oldest_first(by_time(events)),
        by_time(events).len() == events.len(),
        by_time(events).filter(|e: EventView| e.occurred_at == at) == events.filter(
            |e: EventView| e.occurred_at == at,
        ),
    decreases events.len(),
{
    reveal(Seq::filter);
    if events.len() > 0 {
        let before = events.drop_last();
        law_events_are_ordered_by_time(before, at);
        lemma_inserted_is_ordered(by_time(before), events.last());
        lemma_inserted_at(by_time(before), events.last(), at);
        let moved = by_time(before).push(events.last());
        assert(moved.drop_last() =~= by_time(before));
    }
}

/// Sorting keeps what is there.
proof fn lemma_by_time_contains(events: Seq<EventView>, event: EventView)
    ensures
        by_time(events).contains(event) == events.contains(event),
{
    let at = event.occurred_at;
    let same_time = |e: EventView| e.occurred_at == at;
    law_events_are_ordered_by_time(events, at);
    if events.contains(event) {
        let i = choose|i: int| 0 <= i < events.len() && events[i] == event;
        events.lemma_filter_contains(same_time, i);
        by_time(events).lemma_filter_contains_rev(same_time, event);
    }
    if by_time(events).contains(event) {
        let i = choose|i: int| 0 <= i < by_time(events).len() && by_time(events)[i] == event;
        by_time(events).lemma_filter_contains(same_time, i);
        events.lemma_filter_contains_rev(same_time, event);
    }
}

proof fn lemma_news_of_distinct(
    seen: Map<Seq<char>, Seq<char>>,
    incidents: Seq<IncidentView>,
    min_impact: Impact,
)
    requires
        distinct_ids(incidents),
    ensures
        news(seen, incidents, min_impact) == incidents.filter(
            |i: IncidentView| newsworthy(seen, i, min_impact),
        ).map_values(|i: IncidentView| latest_event(i)),
    decreases incidents.len(),
{
    reveal(Seq::filter);
    let wanted = |i: IncidentView| newsworthy(seen, i, min_impact);
    let event = |i: IncidentView| latest_event(i);
    if incidents.len() == 0 {
        assert(news(seen, incidents, min_impact) =~= incidents.filter(wanted).map_values(event));
    } else {
        let before = incidents.drop_last();
        let last = incidents[incidents.len() - 1];
        assert(incidents.last() == last);
        assert forall|i: int, j: int| 0 <= i < j < before.len() implies (#[trigger] before[i]).id
            != (#[trigger] before[j]).id by {
            assert(before[i] == incidents[i] && before[j] == incidents[j]);
        }
        lemma_news_of_distinct(seen, before, min_impact);
        lemma_recorded_ids(seen, before, last.id);
        if updated(before, last.id) {
            let i = choose|i: int|
                0 <= i < before.len() && (#[trigger] before[i]).id == last.id && latest(
                    before[i].updates,
                ) is Some;
            assert(incidents[i] == before[i]);
            assert(false);
        }
        assert(news(seen, incidents, min_impact) =~= incidents.filter(wanted).map_values(event));
    }
}

/// With ids that are distinct, each incident is judged by itself: what is sent are
/// the latest updates, oldest first, of exactly those incidents whose latest update
/// was not the last seen and whose severity is not known to be under the threshold.
pub proof fn law_each_incident_is_judged_alone(
    state: PageStateView,
    incidents: Seq<IncidentView>,
    min_impact: Impact,
)
    requires
        state.initialized,
        distinct_ids(incidents),
    ensures
        state.events(incidents, min_impact) == by_time(
            incidents.filter(
                |i: IncidentView| newsworthy(state.seen, i, min_impact),
            ).map_values(|i: IncidentView| latest_event(i)),
        ),
        forall|i: int|
            0 <= i < incidents.len() && newsworthy(
                state.seen,
                #[trigger] incidents[i],
                min_impact,
            ) ==> state.events(incidents, min_impact).contains(latest_event(incidents[i])),
        forall|event: EventView|
            state.events(incidents, min_impact).contains(event) ==> exists|i: int|
                0 <= i < incidents.len() && newsworthy(
                    state.seen,
                    #[trigger] incidents[i],
                    min_impact,
                ) && event == latest_event(incidents[i]),
{
    let kept = retained(state.seen, incidents);
    let wanted = |i: IncidentView| newsworthy(state.seen, i, min_impact);
    let wanted_of_kept = |i: IncidentView| newsworthy(kept, i, min_impact);
    let event = |i: IncidentView| latest_event(i);
    lemma_news_of_distinct(kept, incidents, min_impact);
    assert forall|i: int| 0 <= i < incidents.len() implies wanted(#[trigger] incidents[i])
        == wanted_of_kept(incidents[i]) by {
        assert(listed(incidents, incidents[i].id));
    }
    lemma_same_filter(incidents, wanted, wanted_of_kept);
    let chosen = incidents.filter(wanted);
    let found = chosen.map_values(event);
    assert forall|i: int|
        0 <= i < incidents.len() && newsworthy(
            state.seen,
            #[trigger] incidents[i],
            min_impact,
        ) implies state.events(incidents, min_impact).contains(latest_event(incidents[i])) by {
        assert(wanted(incidents[i]));
        incidents.lemma_filter_contains(wanted, i);
        let k = choose|k: int| 0 <= k < chosen.len() && chosen[k] == incidents[i];
        assert(found[k] == latest_event(incidents[i]));
        lemma_by_time_contains(found, latest_event(incidents[i]));
    }
    assert forall|e: EventView|
        state.events(incidents, min_impact).contains(e) implies exists|i: int|
        0 <= i < incidents.len() && newsworthy(state.seen, #[trigger] incidents[i], min_impact)
            && e == latest_event(incidents[i]) by {
        lemma_by_time_contains(found, e);
        let k = choose|k: int| 0 <= k < found.len() && found[k] == e;
        incidents.lemma_filter_pred(wanted, k);
        assert(chosen.contains(chosen[k]));
        incidents.lemma_filter_contains_rev(wanted, chosen[k]);
        let i = choose|i: int| 0 <= i < incidents.len() && incidents[i] == chosen[k];
        assert(newsworthy(state.seen, incidents[i], min_impact));
    }
}

proof fn lemma_same_filter<A>(items: Seq<A>, p: spec_fn(A) -> bool, q: spec_fn(A) -> bool)
    requires
        forall|i: int| 0 <= i < items.len() ==> p(#[trigger] items[i]) == q(items[i]),
    ensures
        items.filter(p) == items.filter(q),
    decreases items.len(),
{
    reveal(Seq::filter);
    if items.len() > 0 {
        let before = items.drop_last();
        assert forall|i: int| 0 <= i < before.len() implies p(#[trigger] before[i]) == q(
            before[i],
        ) by {
            assert(before[i] == items[i]);
        }
        assert(items.last() == items[items.len() - 1]);
        lemma_same_filter(before, p, q);
    }
}

/// A lower threshold holds back less, and no threshold holds back an incident whose
/// severity is not known.
pub proof fn law_thresholds_are_monotone(
    seen: Map<Seq<char>, Seq<char>>,
    incident: IncidentView,
    lower: Impact,
    higher: Impact,
)
    requires
        lower.rank() <= higher.rank(),
    ensures
        newsworthy(seen, incident, higher) ==> newsworthy(seen, incident, lower),
        incident.impact is None ==> newsworthy(seen, incident, lower) == newsworthy(
            seen,
            incident,
            higher,
        ),
        !too_minor(incident.impact, Impact::NoImpact),
{
}

// ---------------------------------------------------------------------------
// What holds of states and colours
// ---------------------------------------------------------------------------
/// Each state but the unknown has one name in the feed, and every other word stands for
/// the unknown.
pub proof fn law_states_have_one_name(word: Seq<char>)
    ensures
        state_named(word) is Investigating <==> word == "investigating"@,
        state_named(word) is Identified <==> word == "identified"@,
        state_named(word) is Monitoring <==> word == "monitoring"@,
        state_named(word) is Resolved <==> word == "resolved"@,
        state_named(word) is Postmortem <==> word == "postmortem"@,
{
    reveal_strlit("investigating");
    reveal_strlit("identified");
    reveal_strlit("monitoring");
    reveal_strlit("resolved");
    reveal_strlit("postmortem");
    assert("investigating"@.len() == 13 && "resolved"@.len() == 8);
    assert("identified"@.len() == 10 && "monitoring"@.len() == 10 && "postmortem"@.len() == 10);
    assert("identified"@[0] == 'i' && "monitoring"@[0] == 'm' && "postmortem"@[0] == 'p');
}

/// The label of a state that has a name in the feed is that name with a capital, and an
/// unknown state is labelled as an update.
pub proof fn law_state_labels_are_capitalised_names(state: IncidentState)
    ensures
        state !is Unknown ==> state_named(lowered(state.label_text())) == state,
        state is Unknown ==> state.label_text() == "Update"@,
        state.label_text().len() > 0,
        'A' <= state.label_text()[0] <= 'Z',
        forall|i: int|
            0 < i < state.label_text().len() ==> 'a' <= #[trigger] state.label_text()[i] <= 'z',
{
    reveal_strlit("Investigating");
    reveal_strlit("Identified");
    reveal_strlit("Monitoring");
    reveal_strlit("Resolved");
    reveal_strlit("Postmortem");
    reveal_strlit("Update");
    reveal_strlit("investigating");
    reveal_strlit("identified");
    reveal_strlit("monitoring");
    reveal_strlit("resolved");
    reveal_strlit("postmortem");
    law_states_have_one_name(lowered(state.label_text()));
    match state {
        IncidentState::Investigating => {
            assert(lowered("Investigating"@) =~= "investigating"@);
        },
        IncidentState::Identified => {
            assert(lowered("Identified"@) =~= "identified"@);
        },
        IncidentState::Monitoring => {
            assert(lowered("Monitoring"@) =~= "monitoring"@);
        },
        IncidentState::Resolved => {
            assert(lowered("Resolved"@) =~= "resolved"@);
        },
        IncidentState::Postmortem => {
            assert(lowered("Postmortem"@) =~= "postmortem"@);
        },
        IncidentState::Unknown => {},
    }
}

/// A magnifying glass stands for an investigation, a target for a cause that was found,
/// eyes for watching, a tick for a solution, a page for a report, and an `i` for the rest.
pub proof fn law_states_have_their_emoji(state: IncidentState)
    ensures
        state is Investigating ==> state.emoji_text() == "🔍"@,
        state is Identified ==> state.emoji_text() == "🎯"@,
        state is Monitoring ==> state.emoji_text() == "👀"@,
        state is Resolved ==> state.emoji_text() == "✅"@,
        state is Postmortem ==> state.emoji_text() == "📄"@,
        state is Unknown ==> state.emoji_text() == "ℹ️"@,
{
}

/// A resolved incident, with or without its report, has a green bar. Before that the bar
/// is red where it is critical, orange where it is major, yellow where it is minor, and
/// grey otherwise.
pub proof fn law_bars_show_the_severity(state: IncidentState, impact: Option<Impact>)
    ensures
        state is Resolved || state is Postmortem ==> color_of(state, impact) == 0x57F287,
        !(state is Resolved || state is Postmortem) ==> color_of(state, impact) == (
        if impact == Some(Impact::Critical) {
            0xED4245u32
        } else if impact == Some(Impact::Major) {
            0xE67E22u32
        } else if impact == Some(Impact::Minor) {
            0xFEE75Cu32
        } else {
            0x99AAB5u32
        }),
{
}

// ---------------------------------------------------------------------------
// What holds of every message
// ---------------------------------------------------------------------------
/// The message tells of the event on the page, under the page's name and with its avatar.
/// It is one embed: the title of the event, its link and its text where they are not
/// blank, the colour of its severity, fields for the status, the severity and, where there
/// are any, the components, the page's host below, and the time.
pub open spec fn announces(
    message: MessageView,
    page: RunStatusPageView,
    event: EventView,
    timestamp: Seq<char>,
) -> bool {
    let embed = message.embeds[0];
    &&& message.content is None
    &&& message.username matches Some(name) && abridges(name, page.display_name, 80)
    &&& message.avatar_url == page.avatar_url
    &&& message.embeds.len() == 1
    &&& abridges(embed.title, event.title, 256)
    &&& embed.url == match event.link {
        Some(link) => if is_blank(link) {
            None
        } else {
            Some(link)
        },
        None => None,
    }
    &&& is_blank(event.body) ==> embed.description is None
    &&& !is_blank(event.body) ==> (embed.description matches Some(text) && abridges(
        text,
        event.body,
        1500,
    ))
    &&& embed.color == color_of(event.state, event.impact)
    &&& embed.fields.len() == if event.components.len() > 0 {
        3int
    } else {
        2int
    }
    &&& embed.fields[0].name == "Status"@
    &&& abridges(
        embed.fields[0].value,
        event.state.emoji_text() + " "@ + event.state.label_text(),
        1024,
    )
    &&& embed.fields[0].inline
    &&& embed.fields[1].name == "Impact"@
    &&& abridges(
        embed.fields[1].value,
        match event.impact {
            Some(impact) => impact.label_text(),
            None => "Unknown"@,
        },
        1024,
    )
    &&& embed.fields[1].inline
    &&& event.components.len() > 0 ==> {
        &&& embed.fields[2].name == "Components"@
        &&& abridges(embed.fields[2].value, joined(event.components, ", "@), 1024)
        &&& !embed.fields[2].inline
    }
    &&& embed.footer matches Some(text) && abridges(text, page.host, 2048)
    &&& embed.timestamp == Some(timestamp)
}

/// The message of an event says all there is to say of it, each thing in its place.
pub proof fn law_messages_announce_their_event(
    page: RunStatusPageView,
    event: EventView,
    timestamp: Seq<char>,
)
    ensures
        announces(message_dated(page, event, timestamp), page, event, timestamp),
        announces(
            message_of(page, event),
            page,
            event,
            rfc3339_text(event.occurred_at.0, event.occurred_at.1),
        ),
{
    reveal_strlit("Status");
    reveal_strlit("Impact");
    reveal_strlit("Components");
}

/// An embed has a field for the components exactly when the event has components. A
/// single one stands there by its name; several stand in a row.
pub proof fn law_components_are_shown_when_there_are_some(
    page: RunStatusPageView,
    event: EventView,
    timestamp: Seq<char>,
)
    ensures
        ({
            let fields = message_dated(page, event, timestamp).embeds[0].fields;
            &&& event.components.len() > 0 <==> exists|i: int|
                0 <= i < fields.len() && (#[trigger] fields[i]).name == "Components"@
            &&& event.components.len() == 1 ==> abridges(
                fields.last().value,
                event.components[0],
                1024,
            )
            &&& event.components.len() == 2 ==> abridges(
                fields.last().value,
                event.components[0] + ", "@ + event.components[1],
                1024,
            )
            &&& forall|i: int|
                0 <= i < fields.len() && (#[trigger] fields[i]).name == "Components"@ ==> abridges(
                    fields[i].value,
                    joined(event.components, ", "@),
                    1024,
                )
        }),
{
    reveal_strlit("Status");
    reveal_strlit("Impact");
    reveal_strlit("Components");
    let fields = message_dated(page, event, timestamp).embeds[0].fields;
    assert("Status"@.len() == 6 && "Impact"@.len() == 6 && "Components"@.len() == 10);
    if event.components.len() > 0 {
        assert(fields[2].name == "Components"@);
        let first = seq![event.components[0]];
        if event.components.len() == 1 {
            assert(event.components =~= first);
        }
        if event.components.len() == 2 {
            let second = seq![event.components[1]];
            assert(event.components =~= first + second);
            law_joined_parts_are_separated(first, second, event.components[0], ", "@);
            law_joined_parts_are_separated(first, second, event.components[1], ", "@);
        }
    }
}

// ---------------------------------------------------------------------------
// What holds of every feed
// ---------------------------------------------------------------------------
/// How many of the first `n` times are known.
pub open spec fn known_times(times: Seq<Option<(int, int)>>, n: int) -> int
    decreases n,
{
    if n <= 0 {
        0
    } else {
        known_times(times, n - 1) + if times[n - 1] is Some {
            1int
        } else {
            0
        }
    }
}

proof fn lemma_dated_updates(
    updates: Seq<WireUpdateView>,
    times: Seq<Option<(int, int)>>,
    n: int,
)
    requires
        0 <= n <= updates.len(),
        times.len() == updates.len(),
    ensures
        ({
            let keep = |update: Option<UpdateView>| update;
            let model = Seq::new(updates.len(), |i: int| dated(updates[i], times[i]));
            let kept = model.take(n).filter_map(keep);
            &&& kept.len() == known_times(times, n)
            &&& forall|i: int|
                0 <= i < n && (#[trigger] times[i]) is Some ==> {
                    &&& 0 <= known_times(times, i) < kept.len()
                    &&& Some(kept[known_times(times, i)]) == dated(updates[i], times[i])
                }
        }),
    decreases n,
{
    let keep = |update: Option<UpdateView>| update;
    let model = Seq::new(updates.len(), |i: int| dated(updates[i], times[i]));
    if n > 0 {
        lemma_dated_updates(updates, times, n - 1);
        assert(model.take(n).drop_last() =~= model.take(n - 1));
        assert(model.take(n).last() == dated(updates[n - 1], times[n - 1]));
        let before = model.take(n - 1).filter_map(keep);
        let kept = model.take(n).filter_map(keep);
        assert forall|i: int| 0 <= i < n && (#[trigger] times[i]) is Some implies {
            &&& 0 <= known_times(times, i) < kept.len()
            &&& Some(kept[known_times(times, i)]) == dated(updates[i], times[i])
        } by {
            if i < n - 1 {
                assert(kept[known_times(times, i)] == before[known_times(times, i)]);
            }
        }
    }
}

/// The incident has the id, the name, the link and the components that were sent, the
/// severity of the name that was sent, and of the updates those whose time is known, in
/// the order they had, each with its own id, state, text and time.
pub open spec fn keeps_what_was_sent(
    incident: IncidentView,
    wire: WireIncidentView,
    times: Seq<Option<(int, int)>>,
) -> bool {
    &&& incident.id == wire.id
    &&& incident.name == wire.name
    &&& incident.impact == impact_named(wire.impact)
    &&& incident.link == wire.shortlink
    &&& incident.components == wire.components
    &&& incident.updates.len() == known_times(times, times.len() as int)
    &&& forall|i: int|
        0 <= i < times.len() && (#[trigger] times[i]) is Some ==> {
            let at = known_times(times, i);
            &&& 0 <= at < incident.updates.len()
            &&& incident.updates[at].id == wire.incident_updates[i].id
            &&& incident.updates[at].state == state_named(wire.incident_updates[i].status)
            &&& incident.updates[at].body == wire.incident_updates[i].body
            &&& Some(incident.updates[at].created_at) == times[i]
        }
}

/// An incident keeps every field that was sent, and loses no update but those whose time
/// of publication cannot be read.
pub proof fn law_incidents_keep_what_was_sent(
    wire: WireIncidentView,
    times: Seq<Option<(int, int)>>,
)
    ensures
        times.len() == wire.incident_updates.len() ==> keeps_what_was_sent(
            incident_at(wire, times),
            wire,
            times,
        ),
        keeps_what_was_sent(incident_of(wire), wire, update_times(wire)),
        update_times(wire).len() == wire.incident_updates.len(),
        forall|i: int|
            0 <= i < wire.incident_updates.len() ==> #[trigger] update_times(wire)[i]
                == rfc3339_instant(wire.incident_updates[i].created_at),
{
    let updates = wire.incident_updates;
    let n = updates.len() as int;
    if times.len() == n {
        lemma_dated_updates(updates, times, n);
        let model = Seq::new(updates.len(), |i: int| dated(updates[i], times[i]));
        assert(model.take(n) =~= model);
    }
    let read = update_times(wire);
    lemma_dated_updates(updates, read, n);
    let model = Seq::new(updates.len(), |i: int| dated(updates[i], read[i]));
    assert(model.take(n) =~= model);
}

/// A feed that was decoded brings its incidents in the order they were sent, all of them,
/// and its entity tag; one that was not is an error that says why.
pub proof fn law_feeds_bring_every_incident(
    wire: Seq<WireIncidentView>,
    reason: Seq<char>,
    etag: Option<Seq<char>>,
)
    ensures
        feed_of(Ok(wire), etag) matches Ok(Fetched::Modified { incidents, etag: tag }) && {
            &&& tag == etag
            &&& incidents.len() == wire.len()
            &&& forall|i: int|
                0 <= i < wire.len() ==> keeps_what_was_sent(
                    #[trigger] incidents[i],
                    wire[i],
                    update_times(wire[i]),
                )
        },
        feed_of(Err(reason), etag) == Err::<Fetched<Seq<IncidentView>, Seq<char>>, _>(
            StatusError::Decode(reason),
        ),
{
    let incidents = wire.map_values(|incident: WireIncidentView| incident_of(incident));
    assert forall|i: int| 0 <= i < wire.len() implies keeps_what_was_sent(
        #[trigger] incidents[i],
        wire[i],
        update_times(wire[i]),
    ) by {
        law_incidents_keep_what_was_sent(wire[i], update_times(wire[i]));
    }
}

/// A request asks for the page that it is given, as JSON, under the tag that it was last
/// seen by, and waits five seconds.
pub proof fn law_requests_are_conditional(url: Seq<char>, etag: Option<Seq<char>>)
    ensures
        fetch_of(url, etag).url == url,
        fetch_of(url, etag).accept == "application/json"@,
        fetch_of(url, etag).if_none_match == etag,
        fetch_of(url, etag).timeout.secs == 5,
        fetch_of(url, etag).timeout.nanos == 0,
{
}

/// The status 304 says that nothing has changed, one that begins with 2 brings a feed,
/// and every other is a refusal.
pub proof fn law_replies_go_by_their_status(status: u16)
    ensures
        reply_of(status) is NotModified <==> status == 304,
        reply_of(status) is Feed <==> status as int / 100 == 2,
{
}

// ---------------------------------------------------------------------------
// What holds of every update
// ---------------------------------------------------------------------------
proof fn lemma_some_update_is_latest(updates: Seq<UpdateView>, n: int) -> (best: int)
    requires
        0 < n <= updates.len(),
    ensures
        0 <= best < n,
        forall|j: int|
            0 <= j < best ==>
                !earlier(updates[best].created_at, (#[trigger] updates[j]).created_at),
        forall|j: int|
            best < j < n ==> earlier((#[trigger] updates[j]).created_at, updates[best].created_at),
    decreases n,
{
    if n == 1 {
        0
    } else {
        let best = lemma_some_update_is_latest(updates, n - 1);
        if earlier(updates[n - 1].created_at, updates[best].created_at) {
            best
        } else {
            n - 1
        }
    }
}

/// The latest of some updates is one of them. None was published after it, and none that
/// was published at the same time is listed behind it.
pub proof fn law_the_latest_update_is_the_last_published(updates: Seq<UpdateView>)
    ensures
        latest(updates) is None <==> updates.len() == 0,
        latest(updates) matches Some(update) ==> exists|i: int|
            0 <= i < updates.len() && #[trigger] updates[i] == update && forall|j: int|
                0 <= j < updates.len() ==> {
                    let (at, other) = (update.created_at, (#[trigger] updates[j]).created_at);
                    &&& other.0 <= at.0
                    &&& other.0 == at.0 ==> other.1 <= at.1
                    &&& other == at ==> j <= i
                },
{
    if updates.len() > 0 {
        let best = lemma_some_update_is_latest(updates, updates.len() as int);
        assert(is_latest(updates, best));
        let i = choose|i: int| is_latest(updates, i);
        assert(is_latest(updates, i));
        assert(updates[i] == latest(updates)->Some_0);
        assert forall|j: int| 0 <= j < updates.len() implies {
            let (at, other) = (updates[i].created_at, (#[trigger] updates[j]).created_at);
            &&& other.0 <= at.0
            &&& other.0 == at.0 ==> other.1 <= at.1
            &&& other == at ==> j <= i
        } by {
            if j < i {
                assert(!earlier(updates[i].created_at, updates[j].created_at));
            } else if j > i {
                assert(earlier(updates[j].created_at, updates[i].created_at));
            }
        }
    }
}

proof fn lemma_recorded_last(
    seen: Map<Seq<char>, Seq<char>>,
    incidents: Seq<IncidentView>,
    i: int,
)
    requires
        0 <= i < incidents.len(),
        latest(incidents[i].updates) is Some,
        forall|k: int|
            i < k < incidents.len() && (#[trigger] incidents[k]).id == incidents[i].id ==> latest(
                incidents[k].updates,
            ) is None,
    ensures
        recorded(seen, incidents).dom().contains(incidents[i].id),
        recorded(seen, incidents)[incidents[i].id] == latest(incidents[i].updates)->Some_0.id,
    decreases incidents.len(),
{
    let before = incidents.drop_last();
    let last = incidents[incidents.len() - 1];
    assert(incidents.last() == last);
    if i < before.len() {
        assert(before[i] == incidents[i]);
        assert forall|k: int|
            i < k < before.len() && (#[trigger] before[k]).id == before[i].id implies latest(
            before[k].updates,
        ) is None by {
            assert(before[k] == incidents[k]);
        }
        lemma_recorded_last(seen, before, i);
    }
}

/// After a poll the page has been read; its entity tag is as it was. Of an incident that
/// was listed the latest update is remembered, as the last listing of it has one; without
/// any update what was remembered of it stays; and what was not listed is forgotten.
pub proof fn law_what_was_listed_is_remembered(
    state: PageStateView,
    incidents: Seq<IncidentView>,
    id: Seq<char>,
)
    ensures
        ({
            let after = state.after(incidents);
            let is_listed = exists|k: int|
                0 <= k < incidents.len() && (#[trigger] incidents[k]).id == id;
            &&& after.initialized
            &&& after.etag == state.etag
            &&& forall|i: int|
                0 <= i < incidents.len() && (#[trigger] incidents[i]).id == id && latest(
                    incidents[i].updates,
                ) is Some && (forall|k: int|
                    i < k < incidents.len() && (#[trigger] incidents[k]).id == id ==> latest(
                        incidents[k].updates,
                    ) is None) ==> after.seen.dom().contains(id) && after.seen[id] == latest(
                    incidents[i].updates,
                )->Some_0.id
            &&& is_listed && (forall|k: int|
                0 <= k < incidents.len() && (#[trigger] incidents[k]).id == id ==> latest(
                    incidents[k].updates,
                ) is None) ==> {
                &&& after.seen.dom().contains(id) == state.seen.dom().contains(id)
                &&& state.seen.dom().contains(id) ==> after.seen[id] == state.seen[id]
            }
            &&& !is_listed ==> !after.seen.dom().contains(id)
        }),
{
    let kept = retained(state.seen, incidents);
    assert forall|i: int|
        0 <= i < incidents.len() && (#[trigger] incidents[i]).id == id && latest(
            incidents[i].updates,
        ) is Some && (forall|k: int|
            i < k < incidents.len() && (#[trigger] incidents[k]).id == id ==> latest(
                incidents[k].updates,
            ) is None) implies recorded(kept, incidents).dom().contains(id) && recorded(
        kept,
        incidents,
    )[id] == latest(incidents[i].updates)->Some_0.id by {
        lemma_recorded_last(kept, incidents, i);
    }
    lemma_recorded_ids(kept, incidents, id);
    law_vanished_incidents_are_pruned(state, incidents);
}

/// The event tells of the latest update of the incident: the incident's id, name,
/// severity, link and components, and the update's text, state and time.
pub open spec fn tells_of(event: EventView, incident: IncidentView) -> bool {
    &&& event.incident_id == incident.id
    &&& event.title == incident.name
    &&& event.impact == incident.impact
    &&& event.link == incident.link
    &&& event.components == incident.components
    &&& latest(incident.updates) matches Some(update) && {
        &&& event.body == update.body
        &&& event.state == update.state
        &&& event.occurred_at == update.created_at
    }
}

proof fn lemma_news_keeps_order(
    seen: Map<Seq<char>, Seq<char>>,
    incidents: Seq<IncidentView>,
    min_impact: Impact,
    n: int,
)
    requires
        distinct_ids(incidents),
        0 <= n <= incidents.len(),
    ensures
        ({
            let sent = news(seen, incidents.take(n), min_impact);
            &&& forall|k: int, i: int|
                0 <= k < sent.len() && 0 <= i < incidents.len() && (#[trigger] sent[k]).incident_id
                    == (#[trigger] incidents[i]).id ==> i < n
            &&& forall|k: int, l: int| #![trigger sent[k], sent[l]]
                0 <= k < l < sent.len() ==> listed_before(incidents, sent[k], sent[l])
        }),
    decreases n,
{
    let sent = news(seen, incidents.take(n), min_impact);
    if n > 0 {
        lemma_news_keeps_order(seen, incidents, min_impact, n - 1);
        let before = news(seen, incidents.take(n - 1), min_impact);
        assert(incidents.take(n).drop_last() =~= incidents.take(n - 1));
        assert(incidents.take(n).last() == incidents[n - 1]);
        assert forall|k: int, i: int|
            0 <= k < sent.len() && 0 <= i < incidents.len() && (#[trigger] sent[k]).incident_id == (
            #[trigger] incidents[i]).id implies i < n by {
            if k < before.len() {
                assert(sent[k] == before[k]);
            } else if i > n - 1 {
                assert(incidents[n - 1].id != incidents[i].id);
            }
        }
        assert forall|k: int, l: int| #![trigger sent[k], sent[l]]
            0 <= k < l < sent.len() implies listed_before(incidents, sent[k], sent[l]) by {
            assert(sent[k] == before[k]);
            if l < before.len() {
                assert(sent[l] == before[l]);
            } else {
                assert forall|i: int, j: int|
                    0 <= i < incidents.len() && 0 <= j < incidents.len() && (
                    #[trigger] incidents[i]).id == sent[k].incident_id && (
                    #[trigger] incidents[j]).id == sent[l].incident_id implies i < j by {
                    assert(i < n - 1);
                    if j < n - 1 {
                        assert(incidents[j].id != incidents[n - 1].id);
                    }
                }
            }
        }
    }
}

/// The incident of `first` is listed before that of `second`.
pub open spec fn listed_before(
    incidents: Seq<IncidentView>,
    first: EventView,
    second: EventView,
) -> bool {
    forall|i: int, j: int|
        0 <= i < incidents.len() && 0 <= j < incidents.len() && (#[trigger] incidents[i]).id
            == first.incident_id && (#[trigger] incidents[j]).id == second.incident_id ==> i < j
}

/// Where in a list in order of time an event is inserted.
proof fn lemma_insertion_point(events: Seq<EventView>, event: EventView) -> (at: int)
    requires
        oldest_first(events),
    ensures
        0 <= at <= events.len(),
        inserted(events, event) == events.insert(at, event),
        forall|i: int|
            0 <= i < at ==> !earlier(event.occurred_at, (#[trigger] events[i]).occurred_at),
        forall|i: int|
            at <= i < events.len() ==> earlier(
                event.occurred_at,
                (#[trigger] events[i]).occurred_at,
            ),
    decreases events.len(),
{
    if events.len() == 0 {
        assert(events.insert(0, event) =~= seq![event]);
        0
    } else if earlier(event.occurred_at, events.last().occurred_at) {
        let before = events.drop_last();
        assert forall|i: int, j: int| 0 <= i < j < before.len() implies !earlier(
            (#[trigger] before[j]).occurred_at,
            (#[trigger] before[i]).occurred_at,
        ) by {
            assert(before[i] == events[i] && before[j] == events[j]);
        }
        let at = lemma_insertion_point(before, event);
        assert(events.insert(at, event) =~= before.insert(at, event).push(events.last()));
        assert forall|i: int| 0 <= i < at implies !earlier(
            event.occurred_at,
            (#[trigger] events[i]).occurred_at,
        ) by {
            assert(before[i] == events[i]);
        }
        assert forall|i: int| at <= i < events.len() implies earlier(
            event.occurred_at,
            (#[trigger] events[i]).occurred_at,
        ) by {
            if i < before.len() {
                assert(before[i] == events[i]);
            }
        }
        at
    } else {
        let at = events.len() as int;
        assert(events.insert(at, event) =~= events.push(event));
        assert forall|i: int| 0 <= i < at implies !earlier(
            event.occurred_at,
            (#[trigger] events[i]).occurred_at,
        ) by {
            assert(i == at - 1 || !earlier(events[at - 1].occurred_at, events[i].occurred_at));
        }
        at
    }
}

/// Events that are related as they stand stay so when they are put in order of time, as
/// far as they are of one instant; where the relation holds either way round, all do.
proof fn lemma_by_time_is_stable(
    events: Seq<EventView>,
    related: spec_fn(EventView, EventView) -> bool,
)
    requires
        forall|k: int, l: int| #![trigger events[k], events[l]]
            0 <= k < l < events.len() ==> related(events[k], events[l]),
    ensures
        forall|k: int, l: int| #![trigger by_time(events)[k], by_time(events)[l]]
            0 <= k < l < by_time(events).len() && by_time(events)[k].occurred_at == by_time(
                events,
            )[l].occurred_at ==> related(by_time(events)[k], by_time(events)[l]),
        forall|k: int, l: int| #![trigger by_time(events)[k], by_time(events)[l]]
            0 <= k < l < by_time(events).len() ==> related(by_time(events)[k], by_time(events)[l])
                || related(by_time(events)[l], by_time(events)[k]),
    decreases events.len(),
{
    if events.len() > 0 {
        let before = events.drop_last();
        let event = events.last();
        assert forall|k: int, l: int| #![trigger before[k], before[l]]
            0 <= k < l < before.len() implies related(before[k], before[l]) by {
            assert(before[k] == events[k] && before[l] == events[l]);
        }
        lemma_by_time_is_stable(before, related);
        law_events_are_ordered_by_time(before, event.occurred_at);
        let sorted = by_time(before);
        let at = lemma_insertion_point(sorted, event);
        let result = by_time(events);
        assert(result == sorted.insert(at, event));
        assert forall|k: int| 0 <= k < sorted.len() implies related(#[trigger] sorted[k], event)
            by {
            lemma_by_time_contains(before, sorted[k]);
            assert(sorted.contains(sorted[k]));
            let i = choose|i: int| 0 <= i < before.len() && before[i] == sorted[k];
            assert(before[i] == events[i]);
            assert(events[events.len() - 1] == event);
        }
        assert forall|k: int, l: int| #![trigger result[k], result[l]]
            0 <= k < l < result.len() implies {
            &&& result[k].occurred_at == result[l].occurred_at ==> related(result[k], result[l])
            &&& related(result[k], result[l]) || related(result[l], result[k])
        } by {
            let from = if k < at { k } else { k - 1 };
            let to = if l < at { l } else { l - 1 };
            if k == at {
                assert(result[l] == sorted[to]);
                assert(earlier(event.occurred_at, sorted[to].occurred_at));
                assert(related(sorted[to], event));
            } else if l == at {
                assert(result[k] == sorted[from]);
                assert(related(sorted[from], event));
            } else {
                assert(result[k] == sorted[from] && result[l] == sorted[to]);
            }
        }
    }
}

/// Once a page has been read before, and with ids that are distinct, every incident whose
/// latest update has another id than the one last seen of it, and whose severity is not
/// known or not below the threshold, is told of, whatever its state is, and nothing else
/// is. Each is told of once; the oldest comes first, and of one instant the one that is
/// listed first.
pub proof fn law_new_updates_are_told_of(
    state: PageStateView,
    incidents: Seq<IncidentView>,
    min_impact: Impact,
)
    requires
        state.initialized,
        distinct_ids(incidents),
    ensures
        ({
            let events = state.events(incidents, min_impact);
            &&& forall|i: int|
                0 <= i < incidents.len() && (latest((#[trigger] incidents[i]).updates) matches Some(
                    update,
                ) && !(state.seen.dom().contains(incidents[i].id) && state.seen[incidents[i].id]
                    == update.id)) && (incidents[i].impact matches Some(impact)
                    ==> min_impact.rank() <= impact.rank()) ==> exists|k: int|
                    0 <= k < events.len() && tells_of(#[trigger] events[k], incidents[i])
            &&& forall|k: int|
                0 <= k < events.len() ==> listed(incidents, (#[trigger] events[k]).incident_id)
            &&& forall|k: int, i: int|
                0 <= k < events.len() && 0 <= i < incidents.len() && (
                #[trigger] events[k]).incident_id == (#[trigger] incidents[i]).id ==> {
                    &&& tells_of(events[k], incidents[i])
                    &&& latest(incidents[i].updates) matches Some(update) && !(
                    state.seen.dom().contains(incidents[i].id) && state.seen[incidents[i].id]
                        == update.id)
                    &&& incidents[i].impact matches Some(impact) ==> min_impact.rank()
                        <= impact.rank()
                }
            &&& forall|k: int, l: int|
                0 <= k < l < events.len() ==> {
                    let (first, second) = (#[trigger] events[k], #[trigger] events[l]);
                    &&& first.incident_id != second.incident_id
                    &&& first.occurred_at.0 <= second.occurred_at.0
                    &&& first.occurred_at.0 == second.occurred_at.0 ==> first.occurred_at.1
                        <= second.occurred_at.1
                    &&& first.occurred_at == second.occurred_at ==> listed_before(
                        incidents,
                        first,
                        second,
                    )
                }
        }),
{
    let events = state.events(incidents, min_impact);
    let kept = retained(state.seen, incidents);
    let sent = news(kept, incidents, min_impact);
    law_each_incident_is_judged_alone(state, incidents, min_impact);
    assert forall|i: int|
        0 <= i < incidents.len() && (latest((#[trigger] incidents[i]).updates) matches Some(update)
            && !(state.seen.dom().contains(incidents[i].id) && state.seen[incidents[i].id]
            == update.id)) && (incidents[i].impact matches Some(impact) ==> min_impact.rank()
            <= impact.rank()) implies exists|k: int|
        0 <= k < events.len() && tells_of(#[trigger] events[k], incidents[i]) by {
        assert(newsworthy(state.seen, incidents[i], min_impact));
        let k = choose|k: int| 0 <= k < events.len() && events[k] == latest_event(incidents[i]);
        assert(tells_of(events[k], incidents[i]));
    }
    assert forall|k: int| 0 <= k < events.len() implies listed(
        incidents,
        (#[trigger] events[k]).incident_id,
    ) by {
        assert(events.contains(events[k]));
        let i = choose|i: int|
            0 <= i < incidents.len() && newsworthy(state.seen, #[trigger] incidents[i], min_impact)
                && events[k] == latest_event(incidents[i]);
        assert(incidents[i].id == events[k].incident_id);
    }
    assert forall|k: int, i: int|
        0 <= k < events.len() && 0 <= i < incidents.len() && (#[trigger] events[k]).incident_id == (
        #[trigger] incidents[i]).id implies {
        &&& tells_of(events[k], incidents[i])
        &&& latest(incidents[i].updates) matches Some(update) && !(state.seen.dom().contains(
            incidents[i].id,
        ) && state.seen[incidents[i].id] == update.id)
        &&& incidents[i].impact matches Some(impact) ==> min_impact.rank() <= impact.rank()
    } by {
        assert(events.contains(events[k]));
        let j = choose|j: int|
            0 <= j < incidents.len() && newsworthy(state.seen, #[trigger] incidents[j], min_impact)
                && events[k] == latest_event(incidents[j]);
        assert(incidents[j].id == incidents[i].id);
        if i < j {
            assert(incidents[i].id != incidents[j].id);
        } else if j < i {
            assert(incidents[j].id != incidents[i].id);
        }
    }
    assert(incidents.take(incidents.len() as int) =~= incidents);
    lemma_news_keeps_order(kept, incidents, min_impact, incidents.len() as int);
    let before = |first: EventView, second: EventView| listed_before(incidents, first, second);
    lemma_by_time_is_stable(sent, before);
    law_events_are_ordered_by_time(sent, (0, 0));
    assert forall|k: int, l: int| 0 <= k < l < events.len() implies {
        let (first, second) = (#[trigger] events[k], #[trigger] events[l]);
        &&& first.incident_id != second.incident_id
        &&& first.occurred_at.0 <= second.occurred_at.0
        &&& first.occurred_at.0 == second.occurred_at.0 ==> first.occurred_at.1
            <= second.occurred_at.1
        &&& first.occurred_at == second.occurred_at ==> listed_before(incidents, first, second)
    } by {
        let (first, second) = (events[k], events[l]);
        assert(!earlier(second.occurred_at, first.occurred_at));
        assert(before(first, second) || before(second, first));
        if first.incident_id == second.incident_id {
            assert(events.contains(first));
            let i = choose|i: int|
                0 <= i < incidents.len() && newsworthy(
                    state.seen,
                    #[trigger] incidents[i],
                    min_impact,
                ) && first == latest_event(incidents[i]);
            assert(incidents[i].id == first.incident_id);
        }
    }
}

/// When the incident at `i` is reached, `update` is the one that was last seen of it: the
/// latest of the incident that was last listed before it under the same id, or where none
/// was, the one that was seen before the poll. An incident without updates does not count.
pub open spec fn last_seen_at(
    seen: Map<Seq<char>, Seq<char>>,
    incidents: Seq<IncidentView>,
    i: int,
    update: Seq<char>,
) -> bool {
    ||| exists|j: int|
        0 <= j < i && (#[trigger] incidents[j]).id == incidents[i].id && (latest(
            incidents[j].updates,
        ) matches Some(noted) && noted.id == update) && forall|k: int|
            j < k < i && (#[trigger] incidents[k]).id == incidents[i].id ==> latest(
                incidents[k].updates,
            ) is None
    ||| {
        &&& seen.dom().contains(incidents[i].id) && seen[incidents[i].id] == update
        &&& forall|k: int|
            0 <= k < i && (#[trigger] incidents[k]).id == incidents[i].id ==> latest(
                incidents[k].updates,
            ) is None
    }
}

proof fn lemma_last_listing(incidents: Seq<IncidentView>, id: Seq<char>, n: int) -> (last: int)
    requires
        0 <= n <= incidents.len(),
        updated(incidents.take(n), id),
    ensures
        0 <= last < n,
        incidents[last].id == id,
        latest(incidents[last].updates) is Some,
        forall|k: int|
            last < k < n && (#[trigger] incidents[k]).id == id ==> latest(
                incidents[k].updates,
            ) is None,
    decreases n,
{
    if n == 0 {
        assert(false);
        0
    } else {
        let prefix = incidents.take(n);
        lemma_updated_step(prefix, id);
        assert(prefix.drop_last() =~= incidents.take(n - 1));
        assert(prefix.last() == incidents[n - 1]);
        if incidents[n - 1].id == id && latest(incidents[n - 1].updates) is Some {
            n - 1
        } else {
            lemma_last_listing(incidents, id, n - 1)
        }
    }
}

proof fn lemma_recorded_is_last_seen(
    seen: Map<Seq<char>, Seq<char>>,
    incidents: Seq<IncidentView>,
    i: int,
    update: Seq<char>,
)
    requires
        0 <= i < incidents.len(),
    ensures
        ({
            let noted = recorded(seen, incidents.take(i));
            noted.dom().contains(incidents[i].id) && noted[incidents[i].id] == update
                <==> last_seen_at(seen, incidents, i, update)
        }),
{
    let prefix = incidents.take(i);
    let id = incidents[i].id;
    lemma_recorded_ids(seen, prefix, id);
    assert forall|k: int| 0 <= k < i implies #[trigger] prefix[k] == incidents[k] by {}
    if updated(prefix, id) {
        let last = lemma_last_listing(incidents, id, i);
        lemma_recorded_last(seen, prefix, last);
        assert(latest(incidents[last].updates) is Some);
        assert forall|j: int|
            0 <= j < i && (#[trigger] incidents[j]).id == id && latest(incidents[j].updates) is Some
                && (forall|k: int|
                j < k < i && (#[trigger] incidents[k]).id == id ==> latest(
                    incidents[k].updates,
                ) is None) implies j == last by {
            if j < last {
                assert(incidents[last].id == id);
            }
        }
    } else {
        assert forall|k: int| 0 <= k < i && (#[trigger] incidents[k]).id == id implies latest(
            incidents[k].updates,
        ) is None by {
            assert(prefix[k] == incidents[k]);
        }
    }
}

/// The incident at `i` is new by what has been noted of those before it.
#[verifier::opaque]
spec fn is_news(
    seen: Map<Seq<char>, Seq<char>>,
    incidents: Seq<IncidentView>,
    min_impact: Impact,
    i: int,
) -> bool {
    newsworthy(recorded(seen, incidents.take(i)), incidents[i], min_impact)
}

/// The event is that of one of the first `n` incidents.
spec fn told_from(
    event: EventView,
    seen: Map<Seq<char>, Seq<char>>,
    incidents: Seq<IncidentView>,
    min_impact: Impact,
    n: int,
) -> bool {
    exists|i: int|
        0 <= i < n && #[trigger] is_news(seen, incidents, min_impact, i) && event == latest_event(
            incidents[i],
        )
}

proof fn lemma_news_members(
    seen: Map<Seq<char>, Seq<char>>,
    incidents: Seq<IncidentView>,
    min_impact: Impact,
    n: int,
)
    requires
        0 <= n <= incidents.len(),
    ensures
        ({
            let sent = news(seen, incidents.take(n), min_impact);
            &&& forall|i: int|
                0 <= i < n && #[trigger] is_news(seen, incidents, min_impact, i) ==> sent.contains(
                    latest_event(incidents[i]),
                )
            &&& forall|k: int|
                0 <= k < sent.len() ==> told_from(
                    #[trigger] sent[k],
                    seen,
                    incidents,
                    min_impact,
                    n,
                )
        }),
    decreases n,
{
    let sent = news(seen, incidents.take(n), min_impact);
    if n > 0 {
        lemma_news_members(seen, incidents, min_impact, n - 1);
        let before = news(seen, incidents.take(n - 1), min_impact);
        assert(sent == if is_news(seen, incidents, min_impact, n - 1) {
            before.push(latest_event(incidents[n - 1]))
        } else {
            before
        }) by {
            reveal(is_news);
            assert(incidents.take(n).drop_last() =~= incidents.take(n - 1));
            assert(incidents.take(n).last() == incidents[n - 1]);
        }
        assert forall|i: int|
            0 <= i < n && #[trigger] is_news(
                seen,
                incidents,
                min_impact,
                i,
            ) implies sent.contains(latest_event(incidents[i])) by {
            if i < n - 1 {
                let k = choose|k: int|
                    0 <= k < before.len() && before[k] == latest_event(incidents[i]);
                assert(sent[k] == before[k]);
            } else {
                assert(sent[sent.len() - 1] == latest_event(incidents[i]));
            }
        }
        assert forall|k: int| 0 <= k < sent.len() implies told_from(
            #[trigger] sent[k],
            seen,
            incidents,
            min_impact,
            n,
        ) by {
            if k < before.len() {
                assert(sent[k] == before[k]);
                assert(told_from(before[k], seen, incidents, min_impact, n - 1));
            } else {
                assert(is_news(seen, incidents, min_impact, n - 1));
            }
        }
    }
}

/// An incident among those listed is told of by the event: its latest update is not the
/// one last seen of it, and its severity is not known or not below the threshold.
pub open spec fn tells_of_new(
    event: EventView,
    seen: Map<Seq<char>, Seq<char>>,
    incidents: Seq<IncidentView>,
    min_impact: Impact,
) -> bool {
    exists|i: int|
        0 <= i < incidents.len() && tells_of(event, #[trigger] incidents[i]) && (latest(
            incidents[i].updates,
        ) matches Some(update) && !last_seen_at(seen, incidents, i, update.id)) && (
        incidents[i].impact matches Some(impact) ==> min_impact.rank() <= impact.rank())
}

/// Even where ids are repeated, every incident that is listed is judged by what was last
/// seen under its id up to there: it is told of if its latest update is another one and
/// its severity is not known or not below the threshold, and nothing else is.
pub proof fn law_every_listing_is_judged(
    state: PageStateView,
    incidents: Seq<IncidentView>,
    min_impact: Impact,
)
    requires
        state.initialized,
    ensures
        ({
            let events = state.events(incidents, min_impact);
            &&& forall|i: int|
                0 <= i < incidents.len() && (latest((#[trigger] incidents[i]).updates) matches Some(
                    update,
                ) && !last_seen_at(state.seen, incidents, i, update.id)) && (
                incidents[i].impact matches Some(impact) ==> min_impact.rank() <= impact.rank())
                    ==> exists|k: int|
                    0 <= k < events.len() && tells_of(#[trigger] events[k], incidents[i])
            &&& forall|k: int|
                0 <= k < events.len() ==> tells_of_new(
                    #[trigger] events[k],
                    state.seen,
                    incidents,
                    min_impact,
                )
        }),
{
    let events = state.events(incidents, min_impact);
    let kept = retained(state.seen, incidents);
    let n = incidents.len() as int;
    let sent = news(kept, incidents, min_impact);
    assert(incidents.take(n) =~= incidents);
    lemma_news_members(kept, incidents, min_impact, n);
    assert forall|i: int, update: Seq<char>| #![trigger last_seen_at(kept, incidents, i, update)]
        0 <= i < n implies last_seen_at(kept, incidents, i, update) == last_seen_at(
        state.seen,
        incidents,
        i,
        update,
    ) by {
        assert(listed(incidents, incidents[i].id));
    }
    assert forall|i: int|
        0 <= i < n && (latest((#[trigger] incidents[i]).updates) matches Some(update)
            && !last_seen_at(state.seen, incidents, i, update.id)) && (
        incidents[i].impact matches Some(impact) ==> min_impact.rank()
            <= impact.rank()) implies exists|k: int|
        0 <= k < events.len() && tells_of(#[trigger] events[k], incidents[i]) by {
        let update = latest(incidents[i].updates)->Some_0;
        lemma_recorded_is_last_seen(kept, incidents, i, update.id);
        assert(!last_seen_at(kept, incidents, i, update.id));
        assert(is_news(kept, incidents, min_impact, i)) by {
            reveal(is_news);
        }
        lemma_by_time_contains(sent, latest_event(incidents[i]));
        let k = choose|k: int| 0 <= k < events.len() && events[k] == latest_event(incidents[i]);
        assert(tells_of(events[k], incidents[i]));
    }
    assert forall|k: int| 0 <= k < events.len() implies tells_of_new(
        #[trigger] events[k],
        state.seen,
        incidents,
        min_impact,
    ) by {
        assert(events.contains(events[k]));
        lemma_by_time_contains(sent, events[k]);
        let l = choose|l: int| 0 <= l < sent.len() && sent[l] == events[k];
        assert(told_from(sent[l], kept, incidents, min_impact, n));
        let i = choose|i: int|
            0 <= i < n && #[trigger] is_news(kept, incidents, min_impact, i) && events[k]
                == latest_event(incidents[i]);
        reveal(is_news);
        let update = latest(incidents[i].updates)->Some_0;
        lemma_recorded_is_last_seen(kept, incidents, i, update.id);
        assert(!last_seen_at(kept, incidents, i, update.id));
        assert(tells_of(events[k], incidents[i]));
    }
}

/// What an incident, an update and an event show of themselves are their own parts, each
/// in its place.
pub proof fn law_incidents_show_their_parts(
    incident: Incident,
    update: IncidentUpdate,
    event: StatusEvent,
)
    ensures
        incident@.id == incident.id@,
        incident@.name == incident.name@,
        incident@.impact == incident.impact,
        incident@.link is Some <==> incident.link is Some,
        incident.link matches Some(link) ==> incident@.link == Some(link@),
        incident@.components.len() == incident.components@.len(),
        forall|i: int|
            0 <= i < incident.components@.len() ==> #[trigger] incident@.components[i]
                == incident.components@[i]@,
        incident@.updates.len() == incident.updates@.len(),
        forall|i: int|
            0 <= i < incident.updates@.len() ==> #[trigger] incident@.updates[i]
                == incident.updates@[i]@,
        update@.id == update.id@,
        update@.state == update.state,
        update@.body == update.body@,
        update@.created_at == update.created_at@,
        event@.incident_id == event.incident_id@,
        event@.title == event.title@,
        event@.body == event.body@,
        event@.state == event.state,
        event@.impact == event.impact,
        event@.link is Some <==> event.link is Some,
        event.link matches Some(link) ==> event@.link == Some(link@),
        event@.components.len() == event.components@.len(),
        forall|i: int|
            0 <= i < event.components@.len() ==> #[trigger] event@.components[i]
                == event.components@[i]@,
        event@.occurred_at == event.occurred_at@,
{
}

/// From one poll to the next, an incident that is still listed is told of exactly when its
/// latest update has another id than before, so each step from the first report to the
/// last is one message; and an incident that was not listed before is told of, even if it
/// had been once. In both cases its severity is not known or not below the threshold.
pub proof fn law_every_step_of_an_incident_is_told(
    state: PageStateView,
    before: Seq<IncidentView>,
    after: Seq<IncidentView>,
    j: int,
    min_impact: Impact,
)
    requires
        distinct_ids(before),
        distinct_ids(after),
        0 <= j < after.len(),
        latest(after[j].updates) is Some,
        after[j].impact matches Some(impact) ==> min_impact.rank() <= impact.rank(),
    ensures
        ({
            let events = state.after(before).events(after, min_impact);
            let told = exists|k: int|
                0 <= k < events.len() && tells_of(#[trigger] events[k], after[j]);
            &&& forall|i: int|
                0 <= i < before.len() && (#[trigger] before[i]).id == after[j].id && latest(
                    before[i].updates,
                ) is Some ==> told == (latest(before[i].updates)->Some_0.id != latest(
                    after[j].updates,
                )->Some_0.id)
            &&& (forall|i: int| 0 <= i < before.len() ==> (#[trigger] before[i]).id != after[j].id)
                ==> told
        }),
{
    let noted = state.after(before);
    let events = noted.events(after, min_impact);
    let id = after[j].id;
    law_what_was_listed_is_remembered(state, before, id);
    law_new_updates_are_told_of(noted, after, min_impact);
    assert forall|i: int|
        0 <= i < before.len() && (#[trigger] before[i]).id == id && latest(
            before[i].updates,
        ) is Some implies noted.seen.dom().contains(id) && noted.seen[id] == latest(
        before[i].updates,
    )->Some_0.id by {
        assert forall|k: int| i < k < before.len() && (#[trigger] before[k]).id == id
            implies latest(
            before[k].updates,
        ) is None by {
            assert(before[i].id != before[k].id);
        }
    }
}

} // verus!
