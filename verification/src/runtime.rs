//! The configuration that the daemon runs on: secrets filled in, schedules settled.

use vstd::arithmetic::div_mod::lemma_fundamental_div_mod_converse;
use vstd::prelude::*;
use vstd::string::StringExecFns;

use crate::clock::{
    day_number, days_in_month, law_dates_are_unique, Clock, LocalTime, Span, TimeZone, Weekday,
};
use crate::config::{
    decoded, lemma_decoded_all, lemma_decoded_fault_stays, lemma_decoded_first_fault,
    lemma_decoded_items, lemma_decoded_step, reminder_of, valid_config, valid_reminder, Config,
    ConfigView, Impact, LogLevel, Message, Reminder, ReminderDoc, ReminderView, Schedule,
    ScheduleError, StatusPage, StatusPageView, TimeOfDay, WebhookRef,
};
use crate::heartbeat::{heartbeat_path, heartbeat_path_of};
use crate::links::{parse_url, url_of, ParsedUrl};
use crate::names::NameMap;
use crate::schedule::{
    day_name, law_month_day_lists_hold_what_they_name, law_times_are_written_in_one_way,
    law_weekday_lists_hold_what_they_name, law_written_times_read_back, month_days_of, schedule_of,
    time_of, weekdays_of, written_time,
};
use crate::status::INCIDENTS_PATH;
use crate::text::{
    from_chars, is_blank, law_blank_text_trims_to_nothing, law_trimming_is_idempotent, lowered,
    opt_view, result_view, seq_view, to_chars, trim, trimmed,
};
use crate::values::env_key_of;

verus! {

// ---------------------------------------------------------------------------
// Webhook secrets
// ---------------------------------------------------------------------------
#[derive(Debug)]
pub enum WebhookError<S = String> {
    /// The environment variable of this name is not set.
    Missing(S),
    /// The file that holds the URL cannot be read.
    File { path: S, source: S },
    Empty,
    /// The value is no URL; the reason.
    Url(S),
}

impl View for WebhookError {
    type V = WebhookError<Seq<char>>;

    open spec fn view(&self) -> WebhookError<Seq<char>> {
        match self {
            WebhookError::Missing(key) => WebhookError::Missing(key@),
            WebhookError::File { path, source } => WebhookError::File {
                path: path@,
                source: source@,
            },
            WebhookError::Empty => WebhookError::Empty,
            WebhookError::Url(reason) => WebhookError::Url(reason@),
        }
    }
}

/// A file that an environment variable points to: its path, and its contents or
/// the reason why it cannot be read.
#[derive(Debug)]
pub struct SecretFile {
    pub path: String,
    pub contents: Result<String, String>,
}

/// What the environment holds for one webhook: the file that `<KEY>_FILE` points
/// to, and the value of `<KEY>`.
#[derive(Debug)]
pub struct Secret {
    pub file: Option<SecretFile>,
    pub value: Option<String>,
}

pub struct SecretFileView {
    pub path: Seq<char>,
    pub contents: Result<Seq<char>, Seq<char>>,
}

pub struct SecretView {
    pub file: Option<SecretFileView>,
    pub value: Option<Seq<char>>,
}

impl View for SecretFile {
    type V = SecretFileView;

    open spec fn view(&self) -> SecretFileView {
        SecretFileView { path: self.path@, contents: result_view(self.contents) }
    }
}

impl View for Secret {
    type V = SecretView;

    open spec fn view(&self) -> SecretView {
        SecretView { file: opt_view(self.file), value: opt_view(self.value) }
    }
}

/// What the environment holds where it holds nothing.
pub open spec fn unset() -> SecretView {
    SecretView { file: None, value: None }
}

/// The text that stands for a webhook URL: what the file holds, or else the value.
pub open spec fn secret_text(key: Seq<char>, secret: SecretView) -> Result<
    Seq<char>,
    WebhookError<Seq<char>>,
> {
    match secret.file {
        Some(file) => match file.contents {
            Ok(text) => Ok(text),
            Err(source) => Err(WebhookError::File { path: file.path, source }),
        },
        None => match secret.value {
            Some(text) => Ok(text),
            None => Err(WebhookError::Missing(key)),
        },
    }
}

/// The webhook URL that a parsed text is, in its normal form.
pub open spec fn webhook_url_of(
    url: Result<(Seq<char>, Seq<char>, Option<Seq<char>>), Seq<char>>,
) -> Result<Seq<char>, WebhookError<Seq<char>>> {
    match url {
        Ok((text, _, _)) => Ok(text),
        Err(reason) => Err(WebhookError::Url(reason)),
    }
}

/// What is to be parsed as a webhook URL: the text without the white space around
/// it, of which something has to be left.
pub open spec fn webhook_value_of(key: Seq<char>, secret: SecretView) -> Result<
    Seq<char>,
    WebhookError<Seq<char>>,
> {
    match secret_text(key, secret) {
        Err(e) => Err(e),
        Ok(text) => if trimmed(text).len() == 0 {
            Err(WebhookError::Empty)
        } else {
            Ok(trimmed(text))
        },
    }
}

/// The URL of the webhook whose environment key is `key`.
pub open spec fn webhook_of(key: Seq<char>, secret: SecretView) -> Result<
    Seq<char>,
    WebhookError<Seq<char>>,
> {
    match webhook_value_of(key, secret) {
        Err(e) => Err(e),
        Ok(value) => webhook_url_of(url_of(value)),
    }
}

/// The webhook URL that a parse attempt comes to.
pub fn webhook_url(parsed: Result<ParsedUrl, String>) -> (r: Result<String, WebhookError>)
    ensures
        result_view(r) == webhook_url_of(result_view(parsed)),
{
    match parsed {
        Ok(url) => Ok(url.text),
        Err(reason) => Err(WebhookError::Url(reason)),
    }
}

/// What is to be parsed as the URL of a webhook, by what the environment holds for
/// it.
pub fn webhook_value(reference: &WebhookRef, secret: &Secret) -> (r: Result<String, WebhookError>)
    ensures
        result_view(r) == webhook_value_of(env_key_of(reference@), secret@),
{
    let raw = match &secret.file {
        Some(file) => match &file.contents {
            Ok(text) => text,
            Err(source) => {
                return Err(
                    WebhookError::File { path: file.path.clone(), source: source.clone() },
                );
            },
        },
        None => match &secret.value {
            Some(text) => text,
            None => {
                return Err(WebhookError::Missing(reference.env_key()));
            },
        },
    };
    let text = trim(raw.as_str());
    if text.as_str().is_empty() {
        return Err(WebhookError::Empty);
    }
    Ok(text)
}

/// The URL of a webhook, by what the environment holds for it.
pub fn resolve_webhook(reference: &WebhookRef, secret: &Secret) -> (r: Result<String, WebhookError>)
    ensures
        result_view(r) == webhook_of(env_key_of(reference@), secret@),
{
    match webhook_value(reference, secret) {
        Ok(text) => webhook_url(parse_url(text.as_str())),
        Err(e) => Err(e),
    }
}

/// Where there is a file the value does not matter, and white space around either
/// never does.
pub proof fn law_webhook_files_come_first(
    key: Seq<char>,
    file: SecretFileView,
    value: Option<Seq<char>>,
    text: Seq<char>,
)
    ensures
        webhook_of(key, SecretView { file: Some(file), value }) == webhook_of(
            key,
            SecretView { file: Some(file), value: None },
        ),
        webhook_of(key, SecretView { file: None, value: Some(text) }) == webhook_of(
            key,
            SecretView { file: None, value: Some(trimmed(text)) },
        ),
        file.contents matches Ok(contents) ==> webhook_of(
            key,
            SecretView { file: Some(file), value },
        ) == webhook_of(key, SecretView { file: None, value: Some(contents) }),
{
    law_trimming_is_idempotent(text);
}

// ---------------------------------------------------------------------------
// What the daemon runs on
// ---------------------------------------------------------------------------
#[derive(Debug)]
pub enum ResolveError<S = String> {
    /// The webhook of this reminder.
    Webhook { name: S, source: WebhookError<S> },
    Schedule { name: S, source: ScheduleError },
    /// The webhook of this status page.
    StatusPage { name: S, source: WebhookError<S> },
}

impl View for ResolveError {
    type V = ResolveError<Seq<char>>;

    open spec fn view(&self) -> ResolveError<Seq<char>> {
        match self {
            ResolveError::Webhook { name, source } => ResolveError::Webhook {
                name: name@,
                source: source@,
            },
            ResolveError::Schedule { name, source } => ResolveError::Schedule {
                name: name@,
                source: *source,
            },
            ResolveError::StatusPage { name, source } => ResolveError::StatusPage {
                name: name@,
                source: source@,
            },
        }
    }
}

#[derive(Debug, Clone)]
pub struct RunReminder {
    pub name: String,
    pub time: TimeOfDay,
    pub schedule: Schedule,
    pub message: String,
    pub webhook_url: String,
}

#[derive(Debug, Clone)]
pub struct RunStatusPage {
    pub name: String,
    /// Where the incidents are fetched from.
    pub api_url: String,
    pub webhook_url: String,
    /// The host of the status page.
    pub host: String,
    pub display_name: String,
    pub avatar_url: Option<String>,
    pub poll_interval: Span,
    pub min_impact: Impact,
}

#[derive(Debug, Clone)]
pub struct RunConfig {
    pub log_level: LogLevel,
    pub interval: Span,
    pub timezone: TimeZone,
    pub reminders: Vec<RunReminder>,
    pub status_pages: Vec<RunStatusPage>,
    pub heartbeat_path: String,
}

pub struct RunReminderView {
    pub name: Seq<char>,
    pub time: TimeOfDay,
    pub schedule: Schedule<Set<Weekday>, Set<int>>,
    pub message: Seq<char>,
    pub webhook_url: Seq<char>,
}

pub struct RunStatusPageView {
    pub name: Seq<char>,
    pub api_url: Seq<char>,
    pub webhook_url: Seq<char>,
    pub host: Seq<char>,
    pub display_name: Seq<char>,
    pub avatar_url: Option<Seq<char>>,
    pub poll_interval: Span,
    pub min_impact: Impact,
}

pub struct RunConfigView {
    pub log_level: LogLevel,
    pub interval: Span,
    pub timezone: Seq<char>,
    pub reminders: Seq<RunReminderView>,
    pub status_pages: Seq<RunStatusPageView>,
    pub heartbeat_path: Seq<char>,
}

impl View for RunReminder {
    type V = RunReminderView;

    open spec fn view(&self) -> RunReminderView {
        RunReminderView {
            name: self.name@,
            time: self.time,
            schedule: self.schedule@,
            message: self.message@,
            webhook_url: self.webhook_url@,
        }
    }
}

impl View for RunStatusPage {
    type V = RunStatusPageView;

    open spec fn view(&self) -> RunStatusPageView {
        RunStatusPageView {
            name: self.name@,
            api_url: self.api_url@,
            webhook_url: self.webhook_url@,
            host: self.host@,
            display_name: self.display_name@,
            avatar_url: opt_view(self.avatar_url),
            poll_interval: self.poll_interval,
            min_impact: self.min_impact,
        }
    }
}

impl View for RunConfig {
    type V = RunConfigView;

    open spec fn view(&self) -> RunConfigView {
        RunConfigView {
            log_level: self.log_level,
            interval: self.interval,
            timezone: self.timezone@,
            reminders: seq_view(self.reminders@),
            status_pages: seq_view(self.status_pages@),
            heartbeat_path: self.heartbeat_path@,
        }
    }
}

impl RunReminderView {
    /// The hour and the minute are those of the reminder, and the day is one of its
    /// schedule.
    pub open spec fn fires_at(self, now: Clock) -> bool {
        &&& now.hour == self.time.hour
        &&& now.minute == self.time.minute
        &&& match self.schedule {
            Schedule::Weekly(days) => days.contains(now.weekday),
            Schedule::Monthly(days) => days.contains(now.day),
        }
    }
}

impl RunReminder {
    pub fn fires_at(&self, now: &LocalTime) -> (r: bool)
        ensures
            r == self@.fires_at(now@),
    {
        if now.hour() != self.time.hour || now.minute() != self.time.minute {
            return false;
        }
        match &self.schedule {
            Schedule::Weekly(days) => days.contains(now.weekday()),
            Schedule::Monthly(days) => days.contains(now.day()),
        }
    }
}

/// A reminder on days that a month does not have is skipped all through that month.
pub proof fn law_absent_days_are_skipped(reminder: RunReminderView, days: Set<int>, now: Clock)
    requires
        reminder.schedule == Schedule::<Set<Weekday>, Set<int>>::Monthly(days),
        now.valid(),
        forall|day: int| days.contains(day) ==> day > days_in_month(now.year, now.month),
    ensures
        !reminder.fires_at(now),
{
}

/// Whether a reminder fires is a matter of the local minute: all times within one
/// are the same to it.
pub proof fn law_seconds_do_not_matter(reminder: RunReminderView, now: Clock, later: Clock)
    requires
        now.valid(),
        later.valid(),
        now.local_secs() / 60 == later.local_secs() / 60,
    ensures
        reminder.fires_at(now) == reminder.fires_at(later),
{
    lemma_minute_of_day(now.local_secs());
    lemma_minute_of_day(later.local_secs());
    assert(day_number(now.year, now.month, now.day) == day_number(
        later.year,
        later.month,
        later.day,
    ));
    law_dates_are_unique(now.year, now.month, now.day, later.year, later.month, later.day);
}

/// Day, hour and minute are those of the minute.
proof fn lemma_minute_of_day(secs: int)
    ensures
        secs / 86_400 == secs / 60 / 1440,
        secs % 86_400 / 3_600 == secs / 60 % 1440 / 60,
        secs % 3_600 / 60 == secs / 60 % 60,
{
    let (minutes, s) = (secs / 60, secs % 60);
    let (day, minute) = (minutes / 1440, minutes % 1440);
    lemma_fundamental_div_mod_converse(secs, 86_400, day, 60 * minute + s);
    let (hour, m) = (minute / 60, minute % 60);
    lemma_fundamental_div_mod_converse(60 * minute + s, 3_600, hour, 60 * m + s);
    lemma_fundamental_div_mod_converse(secs, 3_600, minutes / 60, 60 * (minutes % 60) + s);
    lemma_fundamental_div_mod_converse(60 * (minutes % 60) + s, 60, minutes % 60, s);
}

/// Where the part of a URL after its path begins.
pub open spec fn path_end(url: Seq<char>) -> int
    decreases url.len(),
{
    if url.len() == 0 || url[0] == '?' || url[0] == '#' {
        0
    } else {
        1 + path_end(url.drop_first())
    }
}

/// The URL of the incidents feed of the status page at `url`: its path is the
/// page's, with `INCIDENTS_PATH` behind it.
pub open spec fn api_url_of(url: Seq<char>) -> Seq<char> {
    let page = url.take(path_end(url));
    if page.len() > 0 && page.last() == '/' {
        page + INCIDENTS_PATH@
    } else {
        page + "/"@ + INCIDENTS_PATH@
    }
}

proof fn lemma_path_end(url: Seq<char>, n: int)
    requires
        0 <= n <= url.len(),
        forall|i: int| 0 <= i < n ==> #[trigger] url[i] != '?' && url[i] != '#',
        n < url.len() ==> url[n] == '?' || url[n] == '#',
    ensures
        path_end(url) == n,
    decreases url.len(),
{
    if n > 0 {
        assert(url[0] != '?' && url[0] != '#');
        assert forall|i: int| 0 <= i < n - 1 implies #[trigger] url.drop_first()[i] != '?'
            && url.drop_first()[i] != '#' by {
            assert(url[i + 1] != '?' && url[i + 1] != '#');
        }
        lemma_path_end(url.drop_first(), n - 1);
    }
}

pub fn api_url(url: &str) -> (api: String)
    ensures
        api@ == api_url_of(url@),
{
    let chars = to_chars(url);
    let mut end: usize = 0;
    while end < chars.len() && chars[end] != '?' && chars[end] != '#'
        invariant
            chars@ == url@,
            end <= chars@.len(),
            forall|i: int| 0 <= i < end ==> #[trigger] url@[i] != '?' && url@[i] != '#',
        decreases chars@.len() - end,
    {
        end = end + 1;
    }
    proof {
        lemma_path_end(url@, end as int);
    }
    let mut api = from_chars(&chars, 0, end);
    assert(api@ =~= url@.take(end as int));
    if end == 0 || chars[end - 1] != '/' {
        api.append("/");
    }
    api.append(INCIDENTS_PATH);
    api
}

pub open spec fn secret_of(secrets: Map<Seq<char>, SecretView>, key: Seq<char>) -> SecretView {
    if secrets.dom().contains(key) {
        secrets[key]
    } else {
        unset()
    }
}

/// The webhook URL that `secrets` hold for a logical name.
pub open spec fn looked_up(secrets: Map<Seq<char>, SecretView>, webhook: Seq<char>) -> Result<
    Seq<char>,
    WebhookError<Seq<char>>,
> {
    webhook_of(env_key_of(webhook), secret_of(secrets, env_key_of(webhook)))
}

/// The reminder to run: its schedule settled, its webhook's URL filled in.
pub open spec fn run_reminder_with(
    reminder: ReminderView,
    webhook: Result<Seq<char>, WebhookError<Seq<char>>>,
) -> Result<RunReminderView, ResolveError<Seq<char>>> {
    match schedule_of(reminder.days, reminder.day_of_month) {
        Err(source) => Err(ResolveError::Schedule { name: reminder.name, source }),
        Ok(schedule) => match webhook {
            Err(source) => Err(ResolveError::Webhook { name: reminder.name, source }),
            Ok(webhook_url) => Ok(
                RunReminderView {
                    name: reminder.name,
                    time: reminder.time,
                    schedule,
                    message: reminder.message,
                    webhook_url,
                },
            ),
        },
    }
}

pub open spec fn run_reminder_of(
    reminder: ReminderView,
    secrets: Map<Seq<char>, SecretView>,
) -> Result<RunReminderView, ResolveError<Seq<char>>> {
    run_reminder_with(reminder, looked_up(secrets, reminder.webhook))
}

/// The status page to watch: its webhook's URL filled in, its defaults settled.
pub open spec fn run_status_page_with(
    page: StatusPageView,
    webhook: Result<Seq<char>, WebhookError<Seq<char>>>,
) -> Result<RunStatusPageView, ResolveError<Seq<char>>> {
    match webhook {
        Err(source) => Err(ResolveError::StatusPage { name: page.name, source }),
        Ok(webhook_url) => Ok(
            RunStatusPageView {
                name: page.name,
                api_url: api_url_of(page.url.text),
                webhook_url,
                host: page.url.host,
                display_name: match page.display_name {
                    Some(name) => name,
                    None => page.name,
                },
                avatar_url: match page.avatar_url {
                    Some(url) => Some(url.text),
                    None => None,
                },
                poll_interval: Span { secs: page.poll_interval_sec as u64, nanos: 0 },
                min_impact: page.min_impact,
            },
        ),
    }
}

pub open spec fn run_status_page_of(
    page: StatusPageView,
    secrets: Map<Seq<char>, SecretView>,
) -> Result<RunStatusPageView, ResolveError<Seq<char>>> {
    run_status_page_with(page, looked_up(secrets, page.webhook))
}

pub open spec fn run_reminders_of(
    reminders: Seq<ReminderView>,
    secrets: Map<Seq<char>, SecretView>,
) -> Result<Seq<RunReminderView>, ResolveError<Seq<char>>> {
    decoded(reminders, |reminder: ReminderView| run_reminder_of(reminder, secrets))
}

pub open spec fn run_status_pages_of(
    pages: Seq<StatusPageView>,
    secrets: Map<Seq<char>, SecretView>,
) -> Result<Seq<RunStatusPageView>, ResolveError<Seq<char>>> {
    decoded(pages, |page: StatusPageView| run_status_page_of(page, secrets))
}

/// What the daemon runs on, or what is wrong with the first reminder or status
/// page that cannot be run.
pub open spec fn run_config_of(
    config: ConfigView,
    secrets: Map<Seq<char>, SecretView>,
    heartbeat: Option<Seq<char>>,
) -> Result<RunConfigView, ResolveError<Seq<char>>> {
    match (
        run_reminders_of(config.reminders, secrets),
        run_status_pages_of(config.status_pages, secrets),
    ) {
        (Err(e), _) => Err(e),
        (_, Err(e)) => Err(e),
        (Ok(reminders), Ok(status_pages)) => Ok(
            RunConfigView {
                log_level: config.system.log_level,
                interval: Span { secs: config.system.tick_interval_sec as u64, nanos: 0 },
                timezone: config.system.timezone,
                reminders,
                status_pages,
                heartbeat_path: heartbeat_path_of(heartbeat),
            },
        ),
    }
}

fn take_string(m: &Message) -> (text: String)
    ensures
        text@ == m@,
{
    m.as_str().to_owned()
}

/// The webhook URL, by what `secrets` hold under the environment key.
fn look_up_webhook(reference: &WebhookRef, secrets: &NameMap<Secret>) -> (r: Result<
    String,
    WebhookError,
>)
    ensures
        result_view(r) == looked_up(secrets@, reference@),
{
    let key = reference.env_key();
    match secrets.get(key.as_str()) {
        Some(secret) => resolve_webhook(reference, secret),
        None => {
            let secret = Secret { file: None, value: None };
            assert(secret@ == unset());
            resolve_webhook(reference, &secret)
        },
    }
}

/// The reminder to run, given its webhook's URL.
pub fn run_reminder(reminder: &Reminder, webhook: Result<String, WebhookError>) -> (r: Result<
    RunReminder,
    ResolveError,
>)
    ensures
        result_view(r) == run_reminder_with(reminder@, result_view(webhook)),
        r matches Ok(run) ==> {
            &&& run.name@ == reminder.name@
            &&& run.time == reminder.time
            &&& run.message@ == reminder.message@
            &&& webhook matches Ok(url) && run.webhook_url@ == url@
        },
{
    let name = reminder.name.as_str().to_owned();
    let schedule = match reminder.schedule() {
        Ok(schedule) => schedule,
        Err(source) => {
            return Err(ResolveError::Schedule { name, source });
        },
    };
    let webhook_url = match webhook {
        Ok(url) => url,
        Err(source) => {
            return Err(ResolveError::Webhook { name, source });
        },
    };
    Ok(
        RunReminder {
            name,
            time: reminder.time,
            schedule,
            message: take_string(&reminder.message),
            webhook_url,
        },
    )
}

/// The status page to watch, given its webhook's URL.
pub fn run_status_page(page: &StatusPage, webhook: Result<String, WebhookError>) -> (r: Result<
    RunStatusPage,
    ResolveError,
>)
    ensures
        result_view(r) == run_status_page_with(page@, result_view(webhook)),
        r matches Ok(run) ==> {
            &&& run.name@ == page.name@
            &&& run.host@ == page.url@.host
            &&& run.poll_interval.secs == page.poll_interval_sec@
            &&& run.poll_interval.nanos == 0
            &&& run.min_impact == page.min_impact
            &&& webhook matches Ok(url) && run.webhook_url@ == url@
        },
{
    let name = page.name.as_str().to_owned();
    let webhook_url = match webhook {
        Ok(url) => url,
        Err(source) => {
            return Err(ResolveError::StatusPage { name, source });
        },
    };
    let display_name = match &page.display_name {
        Some(name) => name.clone(),
        None => page.name.as_str().to_owned(),
    };
    let avatar_url = match &page.avatar_url {
        Some(url) => Some(url.as_str().to_owned()),
        None => None,
    };
    Ok(
        RunStatusPage {
            name,
            api_url: api_url(page.url.as_str()),
            webhook_url,
            host: page.url.host().to_owned(),
            display_name,
            avatar_url,
            poll_interval: page.poll_interval_sec.as_duration(),
            min_impact: page.min_impact,
        },
    )
}

fn run_reminders(reminders: &Vec<Reminder>, secrets: &NameMap<Secret>) -> (r: Result<
    Vec<RunReminder>,
    ResolveError,
>)
    ensures
        match r {
            Ok(runs) => run_reminders_of(seq_view(reminders@), secrets@) == Ok::<
                _,
                ResolveError<Seq<char>>,
            >(seq_view(runs@)),
            Err(e) => run_reminders_of(seq_view(reminders@), secrets@) == Err::<
                Seq<RunReminderView>,
                _,
            >(e@),
        },
{
    let ghost decode = |reminder: ReminderView| run_reminder_of(reminder, secrets@);
    let ghost views = seq_view(reminders@);
    let mut runs: Vec<RunReminder> = Vec::new();
    assert(seq_view(runs@) =~= Seq::<RunReminderView>::empty());
    assert(views.take(0) =~= Seq::<ReminderView>::empty());
    for i in 0..reminders.len()
        invariant
            views == seq_view(reminders@),
            decode == (|reminder: ReminderView| run_reminder_of(reminder, secrets@)),
            decoded(views.take(i as int), decode) == Ok::<_, ResolveError<Seq<char>>>(
                seq_view(runs@),
            ),
    {
        let ghost before = runs@;
        proof {
            lemma_decoded_step(views, decode, i as int);
        }
        let webhook = look_up_webhook(&reminders[i].webhook, secrets);
        match run_reminder(&reminders[i], webhook) {
            Ok(run) => {
                runs.push(run);
                assert(seq_view(runs@) =~= seq_view(before).push(run@));
            },
            Err(e) => {
                proof {
                    lemma_decoded_fault_stays(views, decode, i + 1);
                }
                return Err(e);
            },
        }
    }
    assert(views.take(reminders@.len() as int) =~= views);
    Ok(runs)
}

fn run_status_pages(pages: &Vec<StatusPage>, secrets: &NameMap<Secret>) -> (r: Result<
    Vec<RunStatusPage>,
    ResolveError,
>)
    ensures
        match r {
            Ok(runs) => run_status_pages_of(seq_view(pages@), secrets@) == Ok::<
                _,
                ResolveError<Seq<char>>,
            >(seq_view(runs@)),
            Err(e) => run_status_pages_of(seq_view(pages@), secrets@) == Err::<
                Seq<RunStatusPageView>,
                _,
            >(e@),
        },
{
    let ghost decode = |page: StatusPageView| run_status_page_of(page, secrets@);
    let ghost views = seq_view(pages@);
    let mut runs: Vec<RunStatusPage> = Vec::new();
    assert(seq_view(runs@) =~= Seq::<RunStatusPageView>::empty());
    assert(views.take(0) =~= Seq::<StatusPageView>::empty());
    for i in 0..pages.len()
        invariant
            views == seq_view(pages@),
            decode == (|page: StatusPageView| run_status_page_of(page, secrets@)),
            decoded(views.take(i as int), decode) == Ok::<_, ResolveError<Seq<char>>>(
                seq_view(runs@),
            ),
    {
        let ghost before = runs@;
        proof {
            lemma_decoded_step(views, decode, i as int);
        }
        let webhook = look_up_webhook(&pages[i].webhook, secrets);
        match run_status_page(&pages[i], webhook) {
            Ok(run) => {
                runs.push(run);
                assert(seq_view(runs@) =~= seq_view(before).push(run@));
            },
            Err(e) => {
                proof {
                    lemma_decoded_fault_stays(views, decode, i + 1);
                }
                return Err(e);
            },
        }
    }
    assert(views.take(pages@.len() as int) =~= views);
    Ok(runs)
}

/// Settles everything that a configuration leaves open. `secrets` hold what the
/// environment has under each webhook's key, `heartbeat` what it has for the
/// heartbeat file.
pub fn resolve(cfg: Config, secrets: &NameMap<Secret>, heartbeat: Option<String>) -> (r: Result<
    RunConfig,
    ResolveError,
>)
    ensures
        result_view(r) == run_config_of(cfg@, secrets@, opt_view(heartbeat)),
        r matches Ok(run) ==> {
            &&& run.timezone@ == cfg.system.timezone@
            &&& run.log_level == cfg.system.log_level
            &&& run.interval.secs == cfg.system.tick_interval_sec@
            &&& run.interval.nanos == 0
            &&& run.reminders@.len() == cfg.reminders@.len()
            &&& run.status_pages@.len() == cfg.status_pages@.len()
        },
{
    let reminders = match run_reminders(&cfg.reminders, secrets) {
        Ok(reminders) => reminders,
        Err(e) => {
            return Err(e);
        },
    };
    let status_pages = match run_status_pages(&cfg.status_pages, secrets) {
        Ok(pages) => pages,
        Err(e) => {
            return Err(e);
        },
    };
    proof {
        law_resolved_configs_keep_their_settings(cfg@, secrets@, opt_view(heartbeat));
    }
    Ok(
        RunConfig {
            log_level: cfg.system.log_level,
            interval: cfg.system.tick_interval_sec.as_duration(),
            timezone: cfg.system.timezone,
            reminders,
            status_pages,
            heartbeat_path: heartbeat_path(heartbeat),
        },
    )
}

/// What remains to go wrong with a valid configuration is a webhook's URL: no
/// schedule is left unsettled, and what comes out runs every reminder and every
/// page, in order and under its own name.
pub proof fn law_valid_configs_lack_only_webhooks(
    config: ConfigView,
    secrets: Map<Seq<char>, SecretView>,
    heartbeat: Option<Seq<char>>,
)
    requires
        valid_config(config),
    ensures
        match run_config_of(config, secrets, heartbeat) {
            Err(e) => e !is Schedule,
            Ok(run) => {
                &&& run.reminders.len() == config.reminders.len()
                &&& run.status_pages.len() == config.status_pages.len()
                &&& forall|i: int|
                    0 <= i < run.reminders.len() ==> (#[trigger] run.reminders[i]).name
                        == config.reminders[i].name
                &&& forall|i: int|
                    0 <= i < run.status_pages.len() ==> (#[trigger] run.status_pages[i]).name
                        == config.status_pages[i].name
            },
        },
{
    let reminder = |reminder: ReminderView| run_reminder_of(reminder, secrets);
    let page = |page: StatusPageView| run_status_page_of(page, secrets);
    lemma_schedule_faults(config.reminders, secrets);
    lemma_page_faults(config.status_pages, secrets);
    if run_config_of(config, secrets, heartbeat) is Ok {
        lemma_decoded_items(config.reminders, reminder);
        lemma_decoded_items(config.status_pages, page);
        let run = run_config_of(config, secrets, heartbeat)->Ok_0;
        assert forall|i: int| 0 <= i < run.reminders.len() implies (
        #[trigger] run.reminders[i]).name == config.reminders[i].name by {
            assert(reminder(config.reminders[i]) == Ok::<_, ResolveError<Seq<char>>>(
                run.reminders[i],
            ));
        }
        assert forall|i: int| 0 <= i < run.status_pages.len() implies (
        #[trigger] run.status_pages[i]).name == config.status_pages[i].name by {
            assert(page(config.status_pages[i]) == Ok::<_, ResolveError<Seq<char>>>(
                run.status_pages[i],
            ));
        }
    }
}

proof fn lemma_schedule_faults(reminders: Seq<ReminderView>, secrets: Map<Seq<char>, SecretView>)
    requires
        forall|i: int| 0 <= i < reminders.len() ==> valid_reminder(#[trigger] reminders[i]),
    ensures
        run_reminders_of(reminders, secrets) matches Err(e) ==> e !is Schedule,
    decreases reminders.len(),
{
    if reminders.len() > 0 {
        assert forall|i: int| 0 <= i < reminders.len() - 1 implies valid_reminder(
            #[trigger] reminders.drop_last()[i],
        ) by {
            assert(valid_reminder(reminders[i]));
        }
        lemma_schedule_faults(reminders.drop_last(), secrets);
        assert(valid_reminder(reminders.last()));
    }
}

proof fn lemma_page_faults(pages: Seq<StatusPageView>, secrets: Map<Seq<char>, SecretView>)
    ensures
        run_status_pages_of(pages, secrets) matches Err(e) ==> e !is Schedule,
    decreases pages.len(),
{
    if pages.len() > 0 {
        lemma_page_faults(pages.drop_last(), secrets);
    }
}

// ---------------------------------------------------------------------------
// What holds of every reminder
// ---------------------------------------------------------------------------
/// On the days that it has, and at the minute of the day that it is set to, a reminder
/// fires, and at no other time. A weekday is told by the days since 1970 began, on a
/// Thursday.
pub proof fn law_reminders_fire_on_their_days(reminder: RunReminderView, now: Clock, today: Weekday)
    requires
        now.valid(),
        reminder.time.hour <= 23,
        reminder.time.minute <= 59,
        today.index() == (now.local_secs() / 86_400 + 3) % 7,
    ensures
        reminder.schedule matches Schedule::Weekly(days) ==> (reminder.fires_at(now)
            <==> now.local_secs() % 86_400 / 60 == 60 * reminder.time.hour + reminder.time.minute
            && days.contains(today)),
        reminder.schedule matches Schedule::Monthly(days) ==> (reminder.fires_at(now)
            <==> now.local_secs() % 86_400 / 60 == 60 * reminder.time.hour + reminder.time.minute
            && days.contains(now.day)),
{
    lemma_hour_and_minute(
        now.local_secs(),
        reminder.time.hour as int,
        reminder.time.minute as int,
    );
    assert(today == now.weekday);
}

/// The minute of the day is that of an hour and a minute exactly when both are shown.
proof fn lemma_hour_and_minute(secs: int, hour: int, minute: int)
    requires
        0 <= hour <= 23,
        0 <= minute <= 59,
    ensures
        secs % 86_400 / 60 == 60 * hour + minute <==> secs % 86_400 / 3_600 == hour && secs % 3_600
            / 60 == minute,
{
    let of_day = secs / 60 % 1440;
    lemma_minute_of_day(secs);
    lemma_fundamental_div_mod_converse(secs % 86_400, 60, of_day, secs % 60);
    lemma_fundamental_div_mod_converse(of_day, 60, of_day / 60, secs / 60 % 60);
}

/// A reminder on one weekday alone fires on that day and on no other, and one on all
/// seven fires every day, when the clock shows its time.
pub proof fn law_every_weekday_can_be_set(
    reminder: RunReminderView,
    days: Set<Weekday>,
    day: Weekday,
    now: Clock,
)
    requires
        reminder.schedule == Schedule::<Set<Weekday>, Set<int>>::Weekly(days),
        now.hour == reminder.time.hour,
        now.minute == reminder.time.minute,
    ensures
        days == Set::<Weekday>::empty().insert(day) ==> reminder.fires_at(now) == (now.weekday
            == day),
        days.contains(Weekday::Mon) && days.contains(Weekday::Tue) && days.contains(Weekday::Wed)
            && days.contains(Weekday::Thu) && days.contains(Weekday::Fri) && days.contains(
            Weekday::Sat,
        ) && days.contains(Weekday::Sun) ==> reminder.fires_at(now),
{
}

/// A weekly reminder that fires fires again at the same local time a week later, and one
/// that does not does not.
pub proof fn law_weeks_repeat(reminder: RunReminderView, now: Clock, later: Clock)
    requires
        reminder.schedule is Weekly,
        now.valid(),
        later.valid(),
        later.local_secs() == now.local_secs() + 7 * 86_400,
    ensures
        reminder.fires_at(later) == reminder.fires_at(now),
{
    lemma_a_week_on(now.local_secs());
    assert(later.weekday == now.weekday);
}

/// A week on, the day is seven further, and the time of day is the same.
proof fn lemma_a_week_on(secs: int)
    ensures
        ((secs + 604_800) / 86_400 + 3) % 7 == (secs / 86_400 + 3) % 7,
        (secs + 604_800) % 86_400 / 3_600 == secs % 86_400 / 3_600,
        (secs + 604_800) % 3_600 / 60 == secs % 3_600 / 60,
{
    let day = secs / 86_400;
    lemma_fundamental_div_mod_converse(secs + 604_800, 86_400, day + 7, secs % 86_400);
    lemma_fundamental_div_mod_converse(secs + 604_800, 3_600, secs / 3_600 + 168, secs % 3_600);
    lemma_fundamental_div_mod_converse(day + 10, 7, (day + 3) / 7 + 1, (day + 3) % 7);
}

/// A reminder fires as it is written down: when the clock shows its time, on a day that
/// its list of weekdays names or says `every` for, or on a day of the month that its list
/// of days holds.
pub proof fn law_reminders_fire_as_written(
    doc: ReminderDoc,
    webhook: Result<Seq<char>, WebhookError<Seq<char>>>,
    now: Clock,
)
    requires
        now.valid(),
        reminder_of(doc) is Ok,
        run_reminder_with(reminder_of(doc)->Ok_0, webhook) is Ok,
    ensures
        run_reminder_with(reminder_of(doc)->Ok_0, webhook)->Ok_0.fires_at(now) <==> {
            &&& doc.time@ == written_time(now.hour, now.minute)
            &&& match (doc.days, doc.day_of_month) {
                (Some(words), None) => exists|i: int|
                    0 <= i < words@.len() && (lowered(#[trigger] words@[i]@) == "every"@ || lowered(
                        words@[i]@,
                    ) == day_name(now.weekday)),
                (None, Some(days)) => exists|i: int|
                    0 <= i < days@.len() && #[trigger] days@[i] == now.day,
                _ => false,
            }
        },
{
    let run = run_reminder_with(reminder_of(doc)->Ok_0, webhook)->Ok_0;
    let time = time_of(doc.time@)->Ok_0;
    assert(run.time == time);
    law_times_are_written_in_one_way(doc.time@, written_time(now.hour, now.minute));
    law_written_times_read_back(now.hour, now.minute);
    law_written_times_read_back(time.hour as int, time.minute as int);
    law_times_are_written_in_one_way(
        doc.time@,
        written_time(time.hour as int, time.minute as int),
    );
    match (doc.days, doc.day_of_month) {
        (Some(words), None) => {
            let views = seq_view(words@);
            law_weekday_lists_hold_what_they_name(views);
            assert forall|i: int| 0 <= i < views.len() implies #[trigger] views[i]
                == words@[i]@ by {}
            let named = exists|i: int|
                0 <= i < words@.len() && (lowered(#[trigger] words@[i]@) == "every"@ || lowered(
                    words@[i]@,
                ) == day_name(now.weekday));
            let listed = exists|i: int|
                0 <= i < views.len() && (lowered(#[trigger] views[i]) == "every"@ || lowered(
                    views[i],
                ) == day_name(now.weekday));
            assert(run.schedule == Schedule::<Set<Weekday>, Set<int>>::Weekly(
                weekdays_of(views)->Ok_0,
            ));
            assert(weekdays_of(views)->Ok_0.contains(now.weekday) == listed);
            if named {
                let i = choose|i: int|
                    0 <= i < words@.len() && (lowered(#[trigger] words@[i]@) == "every"@ || lowered(
                        words@[i]@,
                    ) == day_name(now.weekday));
                assert(lowered(views[i]) == lowered(words@[i]@));
            }
            if listed {
                let i = choose|i: int|
                    0 <= i < views.len() && (lowered(#[trigger] views[i]) == "every"@ || lowered(
                        views[i],
                    ) == day_name(now.weekday));
                assert(lowered(views[i]) == lowered(words@[i]@));
            }
        },
        (None, Some(days)) => {
            law_month_day_lists_hold_what_they_name(days@);
            assert(run.schedule == Schedule::<Set<Weekday>, Set<int>>::Monthly(
                month_days_of(days@)->Ok_0,
            ));
            assert(month_days_of(days@)->Ok_0.contains(now.day) == exists|i: int|
                0 <= i < days@.len() && #[trigger] days@[i] == now.day);
        },
        _ => {},
    }
}

// ---------------------------------------------------------------------------
// What holds of every resolved configuration
// ---------------------------------------------------------------------------
/// A webhook's URL comes from the file that the environment points to, or else from the
/// value that it holds. A file that cannot be read, and nothing at all, are told as such,
/// a blank text is empty, and anything else is a URL, in its normal form, once the white
/// space around it is gone, or the reason why it is none.
pub proof fn law_webhooks_come_from_the_environment(
    key: Seq<char>,
    path: Seq<char>,
    text: Seq<char>,
    value: Option<Seq<char>>,
)
    ensures
        webhook_of(key, SecretView { file: None, value: None }) == Err::<Seq<char>, _>(
            WebhookError::Missing(key),
        ),
        webhook_of(
            key,
            SecretView { file: Some(SecretFileView { path, contents: Err(text) }), value },
        ) == Err::<Seq<char>, _>(WebhookError::File { path, source: text }),
        ({
            let from_file = webhook_of(
                key,
                SecretView { file: Some(SecretFileView { path, contents: Ok(text) }), value },
            );
            let from_value = webhook_of(key, SecretView { file: None, value: Some(text) });
            let value_of = webhook_value_of(key, SecretView { file: None, value: Some(text) });
            &&& from_file == from_value
            &&& is_blank(text) ==> value_of == Err::<Seq<char>, _>(WebhookError::<Seq<char>>::Empty)
            &&& !is_blank(text) ==> value_of == Ok::<_, WebhookError<Seq<char>>>(trimmed(text))
            &&& is_blank(text) ==> from_value == Err::<Seq<char>, _>(
                WebhookError::<Seq<char>>::Empty,
            )
            &&& !is_blank(text) ==> from_value == match url_of(trimmed(text)) {
                Ok((url, _, _)) => Ok(url),
                Err(reason) => Err(WebhookError::Url(reason)),
            }
        }),
        webhook_url_of(Err(text)) == Err::<Seq<char>, _>(WebhookError::Url(text)),
        webhook_url_of(Ok((text, key, value))) == Ok::<_, WebhookError<Seq<char>>>(text),
{
    law_blank_text_trims_to_nothing(text);
}

/// The feed of a page is at its URL up to the query or the fragment, with one slash and
/// the path of the feed behind it.
pub proof fn law_feeds_lie_below_their_page(url: Seq<char>, n: int)
    requires
        0 <= n <= url.len(),
        forall|i: int| 0 <= i < n ==> #[trigger] url[i] != '?' && url[i] != '#',
        n < url.len() ==> url[n] == '?' || url[n] == '#',
    ensures
        n > 0 && url[n - 1] == '/' ==> api_url_of(url) == url.take(n) + "api/v2/incidents.json"@,
        n == 0 || url[n - 1] != '/' ==> api_url_of(url) == url.take(n)
            + "/api/v2/incidents.json"@,
{
    lemma_path_end(url, n);
    reveal_strlit("/");
    reveal_strlit("api/v2/incidents.json");
    reveal_strlit("/api/v2/incidents.json");
    assert("/"@ + "api/v2/incidents.json"@ =~= "/api/v2/incidents.json"@);
    assert(url.take(n) + "/"@ + "api/v2/incidents.json"@ =~= url.take(n)
        + "/api/v2/incidents.json"@);
}

/// What the environment holds for a webhook is looked up under the key of its name.
pub open spec fn webhook_in(secrets: Map<Seq<char>, SecretView>, name: Seq<char>) -> Result<
    Seq<char>,
    WebhookError<Seq<char>>,
> {
    let key = env_key_of(name);
    webhook_of(
        key,
        if secrets.dom().contains(key) {
            secrets[key]
        } else {
            SecretView { file: None, value: None }
        },
    )
}

/// The reminder runs as it is configured: its name, time and message, the days of one
/// kind that it has, and the URL that the environment has for its webhook.
pub open spec fn runs_reminder(
    run: RunReminderView,
    reminder: ReminderView,
    secrets: Map<Seq<char>, SecretView>,
) -> bool {
    &&& run.name == reminder.name
    &&& run.time == reminder.time
    &&& run.message == reminder.message
    &&& webhook_in(secrets, reminder.webhook) == Ok::<_, WebhookError<Seq<char>>>(run.webhook_url)
    &&& match run.schedule {
        Schedule::Weekly(days) => reminder.days == Some(days) && reminder.day_of_month is None,
        Schedule::Monthly(days) => reminder.day_of_month == Some(days) && reminder.days is None,
    }
}

/// The page is watched as it is configured: its name, host, interval, threshold and
/// avatar, its own name where it has none to show, the feed below its URL, and the URL
/// that the environment has for its webhook.
pub open spec fn runs_status_page(
    run: RunStatusPageView,
    page: StatusPageView,
    secrets: Map<Seq<char>, SecretView>,
) -> bool {
    &&& run.name == page.name
    &&& run.api_url == api_url_of(page.url.text)
    &&& run.host == page.url.host
    &&& run.display_name == if page.display_name is Some {
        page.display_name->Some_0
    } else {
        page.name
    }
    &&& run.avatar_url is Some <==> page.avatar_url is Some
    &&& page.avatar_url matches Some(url) ==> run.avatar_url == Some(url.text)
    &&& 0 <= page.poll_interval_sec <= u64::MAX ==> run.poll_interval.secs
        == page.poll_interval_sec
    &&& run.poll_interval.nanos == 0
    &&& run.min_impact == page.min_impact
    &&& webhook_in(secrets, page.webhook) == Ok::<_, WebhookError<Seq<char>>>(run.webhook_url)
}

/// A configuration that can be run keeps its time zone, its log level and its tick
/// interval, whatever they are, writes its heartbeat where the environment says or to the
/// default path, and runs every reminder and every page as configured, in order.
pub proof fn law_resolved_configs_keep_their_settings(
    config: ConfigView,
    secrets: Map<Seq<char>, SecretView>,
    heartbeat: Option<Seq<char>>,
)
    ensures
        run_config_of(config, secrets, heartbeat) matches Ok(run) ==> {
            &&& run.timezone == config.system.timezone
            &&& run.log_level == config.system.log_level
            &&& 0 <= config.system.tick_interval_sec <= u64::MAX ==> run.interval.secs
                == config.system.tick_interval_sec
            &&& run.interval.nanos == 0
            &&& run.heartbeat_path == if heartbeat is Some {
                heartbeat->Some_0
            } else {
                "/tmp/chime.heartbeat"@
            }
            &&& run.reminders.len() == config.reminders.len()
            &&& forall|i: int|
                0 <= i < run.reminders.len() ==> runs_reminder(
                    #[trigger] run.reminders[i],
                    config.reminders[i],
                    secrets,
                )
            &&& run.status_pages.len() == config.status_pages.len()
            &&& forall|i: int|
                0 <= i < run.status_pages.len() ==> runs_status_page(
                    #[trigger] run.status_pages[i],
                    config.status_pages[i],
                    secrets,
                )
        },
{
    let reminder = |reminder: ReminderView| run_reminder_of(reminder, secrets);
    let page = |page: StatusPageView| run_status_page_of(page, secrets);
    if run_config_of(config, secrets, heartbeat) is Ok {
        lemma_decoded_items(config.reminders, reminder);
        lemma_decoded_items(config.status_pages, page);
        let run = run_config_of(config, secrets, heartbeat)->Ok_0;
        assert forall|i: int| 0 <= i < run.reminders.len() implies runs_reminder(
            #[trigger] run.reminders[i],
            config.reminders[i],
            secrets,
        ) by {
            assert(reminder(config.reminders[i]) == Ok::<_, ResolveError<Seq<char>>>(
                run.reminders[i],
            ));
        }
        assert forall|i: int| 0 <= i < run.status_pages.len() implies runs_status_page(
            #[trigger] run.status_pages[i],
            config.status_pages[i],
            secrets,
        ) by {
            assert(page(config.status_pages[i]) == Ok::<_, ResolveError<Seq<char>>>(
                run.status_pages[i],
            ));
        }
    }
}

/// The reminder has days of exactly one kind and a webhook.
pub open spec fn can_run(reminder: ReminderView, secrets: Map<Seq<char>, SecretView>) -> bool {
    &&& reminder.days is Some <==> reminder.day_of_month is None
    &&& webhook_in(secrets, reminder.webhook) is Ok
}

/// A configuration can be run exactly when every reminder has days of one kind and every
/// webhook a URL. Otherwise the first reminder that cannot be run is named, with what is
/// wrong with its days or else with its webhook, or where all can, the first page.
pub proof fn law_the_first_fault_is_told(
    config: ConfigView,
    secrets: Map<Seq<char>, SecretView>,
    heartbeat: Option<Seq<char>>,
    n: int,
)
    ensures
        run_config_of(config, secrets, heartbeat) is Ok <==> {
            &&& forall|i: int|
                0 <= i < config.reminders.len() ==> can_run(#[trigger] config.reminders[i], secrets)
            &&& forall|i: int|
                0 <= i < config.status_pages.len() ==> webhook_in(
                    secrets,
                    (#[trigger] config.status_pages[i]).webhook,
                ) is Ok
        },
        0 <= n < config.reminders.len() && !can_run(config.reminders[n], secrets) && (forall|i: int|
            0 <= i < n ==> can_run(#[trigger] config.reminders[i], secrets)) ==> run_config_of(
            config,
            secrets,
            heartbeat,
        ) == Err::<RunConfigView, _>(
            if config.reminders[n].days is None && config.reminders[n].day_of_month is None {
                ResolveError::Schedule {
                    name: config.reminders[n].name,
                    source: ScheduleError::Missing,
                }
            } else if config.reminders[n].days is Some && config.reminders[n].day_of_month is Some {
                ResolveError::Schedule {
                    name: config.reminders[n].name,
                    source: ScheduleError::Conflict,
                }
            } else {
                ResolveError::Webhook {
                    name: config.reminders[n].name,
                    source: webhook_in(secrets, config.reminders[n].webhook)->Err_0,
                }
            },
        ),
        0 <= n < config.status_pages.len() && (forall|i: int|
            0 <= i < config.reminders.len() ==> can_run(#[trigger] config.reminders[i], secrets))
            && webhook_in(secrets, config.status_pages[n].webhook) is Err && (forall|i: int|
            0 <= i < n ==> webhook_in(secrets, (#[trigger] config.status_pages[i]).webhook) is Ok)
            ==> run_config_of(config, secrets, heartbeat) == Err::<RunConfigView, _>(
            ResolveError::StatusPage {
                name: config.status_pages[n].name,
                source: webhook_in(secrets, config.status_pages[n].webhook)->Err_0,
            },
        ),
{
    let reminder = |reminder: ReminderView| run_reminder_of(reminder, secrets);
    let page = |page: StatusPageView| run_status_page_of(page, secrets);
    assert forall|i: int| 0 <= i < config.reminders.len() implies can_run(
        #[trigger] config.reminders[i],
        secrets,
    ) == (reminder(config.reminders[i]) is Ok) by {}
    assert forall|i: int| 0 <= i < config.status_pages.len() implies webhook_in(
        secrets,
        (#[trigger] config.status_pages[i]).webhook,
    ) is Ok == (page(config.status_pages[i]) is Ok) by {}
    if forall|i: int|
        0 <= i < config.reminders.len() ==> can_run(#[trigger] config.reminders[i], secrets) {
        lemma_decoded_all(config.reminders, reminder);
    }
    if forall|i: int|
        0 <= i < config.status_pages.len() ==> webhook_in(
            secrets,
            (#[trigger] config.status_pages[i]).webhook,
        ) is Ok {
        lemma_decoded_all(config.status_pages, page);
    }
    if run_config_of(config, secrets, heartbeat) is Ok {
        law_resolved_configs_keep_their_settings(config, secrets, heartbeat);
        let run = run_config_of(config, secrets, heartbeat)->Ok_0;
        assert forall|i: int| 0 <= i < config.reminders.len() implies can_run(
            #[trigger] config.reminders[i],
            secrets,
        ) by {
            assert(runs_reminder(run.reminders[i], config.reminders[i], secrets));
        }
        assert forall|i: int| 0 <= i < config.status_pages.len() implies webhook_in(
            secrets,
            (#[trigger] config.status_pages[i]).webhook,
        ) is Ok by {
            assert(runs_status_page(run.status_pages[i], config.status_pages[i], secrets));
        }
    }
    if 0 <= n < config.reminders.len() && !can_run(config.reminders[n], secrets) && (forall|i: int|
        0 <= i < n ==> can_run(#[trigger] config.reminders[i], secrets)) {
        lemma_decoded_first_fault(config.reminders, reminder, n);
    }
    if 0 <= n < config.status_pages.len() && webhook_in(
        secrets,
        config.status_pages[n].webhook,
    ) is Err && (forall|i: int|
        0 <= i < n ==> webhook_in(secrets, (#[trigger] config.status_pages[i]).webhook) is Ok) {
        lemma_decoded_first_fault(config.status_pages, page, n);
    }
}

/// What a reminder, a status page and a configuration to run show of themselves are their
/// own parts, each in its place.
pub proof fn law_run_configs_show_their_parts(
    reminder: RunReminder,
    page: RunStatusPage,
    config: RunConfig,
)
    ensures
        reminder@.name == reminder.name@,
        reminder@.time == reminder.time,
        reminder.schedule matches Schedule::Weekly(days) ==> reminder@.schedule == Schedule::<
            Set<Weekday>,
            Set<int>,
        >::Weekly(days@),
        reminder.schedule matches Schedule::Monthly(days) ==> reminder@.schedule == Schedule::<
            Set<Weekday>,
            Set<int>,
        >::Monthly(days@),
        reminder@.message == reminder.message@,
        reminder@.webhook_url == reminder.webhook_url@,
        page@.name == page.name@,
        page@.api_url == page.api_url@,
        page@.webhook_url == page.webhook_url@,
        page@.host == page.host@,
        page@.display_name == page.display_name@,
        page@.avatar_url is Some <==> page.avatar_url is Some,
        page.avatar_url matches Some(url) ==> page@.avatar_url == Some(url@),
        page@.poll_interval == page.poll_interval,
        page@.min_impact == page.min_impact,
        config@.log_level == config.log_level,
        config@.interval == config.interval,
        config@.timezone == config.timezone@,
        config@.heartbeat_path == config.heartbeat_path@,
        config@.reminders.len() == config.reminders@.len(),
        forall|i: int|
            0 <= i < config.reminders@.len() ==> #[trigger] config@.reminders[i]
                == config.reminders@[i]@,
        config@.status_pages.len() == config.status_pages@.len(),
        forall|i: int|
            0 <= i < config.status_pages@.len() ==> #[trigger] config@.status_pages[i]
                == config.status_pages@[i]@,
{
}

} // verus!
