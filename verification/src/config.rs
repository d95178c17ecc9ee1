//! The configuration, and the rules that it has to keep.

use std::str::FromStr;
use vstd::prelude::*;

use crate::clock::{known_zone, TimeZone, Weekday};
use crate::links::{secured, url_of, HttpsUrl, HttpsView, UrlError};
use crate::schedule::{
    law_month_day_lists_name_some_day, law_weekday_lists_name_some_day, month_days_of, schedule_of,
    time_of, weekdays_of,
};
use crate::text::{
    is_blank, law_blank_text_trims_to_nothing, law_trimming_is_idempotent, opt_view, result_view,
    same, seq_view, trimmed,
};
use crate::values::{
    impact_named, is_proper, log_level_named, non_empty, poll_interval_of, tick_interval_of,
};

pub use crate::schedule::{
    DayOfMonthError, DayOfMonthSet, Schedule, ScheduleError, TimeError, TimeOfDay, WeekdayError,
    WeekdaySet,
};
pub use crate::values::{
    EmptyFieldError, Impact, IntervalError, LogLevel, Message, PageName, PollInterval,
    PollIntervalError, ReminderName, TickInterval, WebhookRef,
};

verus! {

// ---------------------------------------------------------------------------
// The configuration
// ---------------------------------------------------------------------------
/// The `[system]` table as it is written down.
#[derive(Debug, Clone)]
pub struct SystemDoc {
    pub log_level: Option<String>,
    pub tick_interval_sec: i64,
    pub timezone: String,
}

/// One `[[reminders]]` table as it is written down.
#[derive(Debug, Clone)]
pub struct ReminderDoc {
    pub name: String,
    pub time: String,
    pub days: Option<Vec<String>>,
    pub day_of_month: Option<Vec<i64>>,
    pub message: String,
    pub webhook: String,
}

/// One `[[status_pages]]` table as it is written down.
#[derive(Debug, Clone)]
pub struct StatusPageDoc {
    pub name: String,
    pub url: String,
    pub webhook: String,
    pub display_name: Option<String>,
    pub avatar_url: Option<String>,
    pub poll_interval_sec: Option<i64>,
    pub min_impact: Option<String>,
}

/// A configuration file as it is written down: every key is known and has a value
/// of the right kind, but no value has been looked at.
#[derive(Debug, Clone)]
pub struct ConfigDoc {
    pub system: SystemDoc,
    pub reminders: Vec<ReminderDoc>,
    pub status_pages: Vec<StatusPageDoc>,
}

#[derive(Debug, Clone)]
pub struct System {
    pub log_level: LogLevel,
    pub tick_interval_sec: TickInterval,
    pub timezone: TimeZone,
}

#[derive(Debug, Clone)]
pub struct Reminder {
    pub name: ReminderName,
    pub time: TimeOfDay,
    pub days: Option<WeekdaySet>,
    pub day_of_month: Option<DayOfMonthSet>,
    pub message: Message,
    pub webhook: WebhookRef,
}

#[derive(Debug, Clone)]
pub struct StatusPage {
    pub name: PageName,
    pub url: HttpsUrl,
    pub webhook: WebhookRef,
    pub display_name: Option<String>,
    pub avatar_url: Option<HttpsUrl>,
    pub poll_interval_sec: PollInterval,
    pub min_impact: Impact,
}

#[derive(Debug, Clone)]
pub struct Config {
    pub system: System,
    pub reminders: Vec<Reminder>,
    pub status_pages: Vec<StatusPage>,
}

pub struct SystemView {
    pub log_level: LogLevel,
    pub tick_interval_sec: int,
    pub timezone: Seq<char>,
}

pub struct ReminderView {
    pub name: Seq<char>,
    pub time: TimeOfDay,
    pub days: Option<Set<Weekday>>,
    pub day_of_month: Option<Set<int>>,
    pub message: Seq<char>,
    pub webhook: Seq<char>,
}

pub struct StatusPageView {
    pub name: Seq<char>,
    pub url: HttpsView,
    pub webhook: Seq<char>,
    pub display_name: Option<Seq<char>>,
    pub avatar_url: Option<HttpsView>,
    pub poll_interval_sec: int,
    pub min_impact: Impact,
}

pub struct ConfigView {
    pub system: SystemView,
    pub reminders: Seq<ReminderView>,
    pub status_pages: Seq<StatusPageView>,
}

impl View for System {
    type V = SystemView;

    open spec fn view(&self) -> SystemView {
        SystemView {
            log_level: self.log_level,
            tick_interval_sec: self.tick_interval_sec@,
            timezone: self.timezone@,
        }
    }
}

impl View for Reminder {
    type V = ReminderView;

    open spec fn view(&self) -> ReminderView {
        ReminderView {
            name: self.name@,
            time: self.time,
            days: opt_view(self.days),
            day_of_month: opt_view(self.day_of_month),
            message: self.message@,
            webhook: self.webhook@,
        }
    }
}

impl View for StatusPage {
    type V = StatusPageView;

    open spec fn view(&self) -> StatusPageView {
        StatusPageView {
            name: self.name@,
            url: self.url@,
            webhook: self.webhook@,
            display_name: opt_view(self.display_name),
            avatar_url: opt_view(self.avatar_url),
            poll_interval_sec: self.poll_interval_sec@,
            min_impact: self.min_impact,
        }
    }
}

impl View for Config {
    type V = ConfigView;

    open spec fn view(&self) -> ConfigView {
        ConfigView {
            system: self.system@,
            reminders: seq_view(self.reminders@),
            status_pages: seq_view(self.status_pages@),
        }
    }
}

/// What is wrong with the value of one field.
#[derive(Debug)]
pub enum FieldError<S = String, L = &'static str> {
    Interval(IntervalError),
    /// No IANA time zone of this name.
    Timezone(S),
    /// No log level of this name.
    LogLevel(S),
    Time(TimeError<S>),
    Weekday(WeekdayError<S>),
    DayOfMonth(DayOfMonthError),
    Empty(EmptyFieldError<L>),
    Url(UrlError<S>),
    PollInterval(PollIntervalError),
    /// No severity of this name.
    Impact(S),
}

impl View for FieldError {
    type V = FieldError<Seq<char>, Seq<char>>;

    open spec fn view(&self) -> FieldError<Seq<char>, Seq<char>> {
        match self {
            FieldError::Interval(e) => FieldError::Interval(*e),
            FieldError::Timezone(name) => FieldError::Timezone(name@),
            FieldError::LogLevel(name) => FieldError::LogLevel(name@),
            FieldError::Time(e) => FieldError::Time(e@),
            FieldError::Weekday(e) => FieldError::Weekday(e@),
            FieldError::DayOfMonth(e) => FieldError::DayOfMonth(*e),
            FieldError::Empty(e) => FieldError::Empty(e@),
            FieldError::Url(e) => FieldError::Url(e@),
            FieldError::PollInterval(e) => FieldError::PollInterval(*e),
            FieldError::Impact(name) => FieldError::Impact(name@),
        }
    }
}

/// Why a configuration is refused.
#[derive(Debug)]
pub enum ConfigError<S = String, L = &'static str> {
    /// A field does not hold what it has to.
    Toml(FieldError<S, L>),
    /// There are neither reminders nor status pages.
    NoReminders,
    /// Two reminders have this name.
    DuplicateName(S),
    /// Two status pages have this name.
    DuplicateStatusPage(S),
    Schedule { name: S, source: ScheduleError },
}

impl View for ConfigError {
    type V = ConfigError<Seq<char>, Seq<char>>;

    open spec fn view(&self) -> ConfigError<Seq<char>, Seq<char>> {
        match self {
            ConfigError::Toml(e) => ConfigError::Toml(e@),
            ConfigError::NoReminders => ConfigError::NoReminders,
            ConfigError::DuplicateName(name) => ConfigError::DuplicateName(name@),
            ConfigError::DuplicateStatusPage(name) => ConfigError::DuplicateStatusPage(name@),
            ConfigError::Schedule { name, source } => ConfigError::Schedule {
                name: name@,
                source: *source,
            },
        }
    }
}

/// The error that models a fault in a field.
pub type FieldFault = FieldError<Seq<char>, Seq<char>>;

/// The error that models a fault of the whole configuration.
pub type ConfigFault = ConfigError<Seq<char>, Seq<char>>;

pub open spec fn log_level_of(name: Option<Seq<char>>) -> Result<LogLevel, FieldFault> {
    match name {
        None => Ok(LogLevel::Info),
        Some(name) => match log_level_named(name) {
            Some(level) => Ok(level),
            None => Err(FieldError::LogLevel(name)),
        },
    }
}

/// The settings that a table stands for, or the first of its fields that is wrong,
/// where `timezone` is the zone of the name that it gives.
pub open spec fn system_with(doc: SystemDoc, timezone: Option<Seq<char>>) -> Result<
    SystemView,
    FieldFault,
> {
    match (log_level_of(opt_view(doc.log_level)), tick_interval_of(doc.tick_interval_sec)) {
        (Err(e), _) => Err(e),
        (_, Err(e)) => Err(FieldError::Interval(e)),
        (Ok(log_level), Ok(tick_interval_sec)) => match timezone {
            Some(timezone) => Ok(SystemView { log_level, tick_interval_sec, timezone }),
            None => Err(FieldError::Timezone(doc.timezone@)),
        },
    }
}

pub open spec fn system_of(doc: SystemDoc) -> Result<SystemView, FieldFault> {
    system_with(
        doc,
        if known_zone(doc.timezone@) {
            Some(doc.timezone@)
        } else {
            None
        },
    )
}

pub open spec fn days_of(days: Option<Vec<String>>) -> Result<Option<Set<Weekday>>, FieldFault> {
    match days {
        None => Ok(None),
        Some(days) => match weekdays_of(seq_view(days@)) {
            Ok(days) => Ok(Some(days)),
            Err(e) => Err(FieldError::Weekday(e)),
        },
    }
}

pub open spec fn day_of_month_of(days: Option<Vec<i64>>) -> Result<Option<Set<int>>, FieldFault> {
    match days {
        None => Ok(None),
        Some(days) => match month_days_of(days@) {
            Ok(days) => Ok(Some(days)),
            Err(e) => Err(FieldError::DayOfMonth(e)),
        },
    }
}

/// The reminder that a table stands for, or the first of its fields that is
/// wrong.
pub open spec fn reminder_of(doc: ReminderDoc) -> Result<ReminderView, FieldFault> {
    match non_empty(doc.name@, "name"@) {
        Err(e) => Err(FieldError::Empty(e)),
        Ok(name) => match time_of(doc.time@) {
            Err(e) => Err(FieldError::Time(e)),
            Ok(time) => match days_of(doc.days) {
                Err(e) => Err(e),
                Ok(days) => match day_of_month_of(doc.day_of_month) {
                    Err(e) => Err(e),
                    Ok(day_of_month) => match non_empty(doc.message@, "message"@) {
                        Err(e) => Err(FieldError::Empty(e)),
                        Ok(message) => match non_empty(doc.webhook@, "webhook"@) {
                            Err(e) => Err(FieldError::Empty(e)),
                            Ok(webhook) => Ok(
                                ReminderView { name, time, days, day_of_month, message, webhook },
                            ),
                        },
                    },
                },
            },
        },
    }
}

/// The view of a link that may be left out.
pub open spec fn link_view(url: Result<Option<HttpsUrl>, UrlError>) -> Result<
    Option<HttpsView>,
    UrlError<Seq<char>>,
> {
    match url {
        Ok(url) => Ok(opt_view(url)),
        Err(e) => Err(e@),
    }
}

pub open spec fn avatar_of(url: Option<Seq<char>>) -> Result<
    Option<HttpsView>,
    UrlError<Seq<char>>,
> {
    match url {
        None => Ok(None),
        Some(text) => match secured(url_of(text)) {
            Ok(url) => Ok(Some(url)),
            Err(e) => Err(e),
        },
    }
}

pub open spec fn min_impact_of(name: Option<Seq<char>>) -> Result<Impact, FieldFault> {
    match name {
        None => Ok(Impact::NoImpact),
        Some(name) => match impact_named(name) {
            Some(impact) => Ok(impact),
            None => Err(FieldError::Impact(name)),
        },
    }
}

/// The status page that a table stands for, or the first of its fields that is
/// wrong, where `url` and `avatar_url` are the links that it gives.
pub open spec fn status_page_with(
    doc: StatusPageDoc,
    url: Result<HttpsView, UrlError<Seq<char>>>,
    avatar_url: Result<Option<HttpsView>, UrlError<Seq<char>>>,
) -> Result<StatusPageView, FieldFault> {
    match non_empty(doc.name@, "name"@) {
        Err(e) => Err(FieldError::Empty(e)),
        Ok(name) => match url {
            Err(e) => Err(FieldError::Url(e)),
            Ok(url) => match non_empty(doc.webhook@, "webhook"@) {
                Err(e) => Err(FieldError::Empty(e)),
                Ok(webhook) => match avatar_url {
                    Err(e) => Err(FieldError::Url(e)),
                    Ok(avatar_url) => match poll_interval_of(doc.poll_interval_sec) {
                        Err(e) => Err(FieldError::PollInterval(e)),
                        Ok(poll_interval_sec) => match min_impact_of(opt_view(doc.min_impact)) {
                            Err(e) => Err(e),
                            Ok(min_impact) => Ok(
                                StatusPageView {
                                    name,
                                    url,
                                    webhook,
                                    display_name: opt_view(doc.display_name),
                                    avatar_url,
                                    poll_interval_sec,
                                    min_impact,
                                },
                            ),
                        },
                    },
                },
            },
        },
    }
}

pub open spec fn status_page_of(doc: StatusPageDoc) -> Result<StatusPageView, FieldFault> {
    status_page_with(doc, secured(url_of(doc.url@)), avatar_of(opt_view(doc.avatar_url)))
}

/// What every one of `docs` stands for, or what is wrong with the first that
/// stands for nothing.
pub open spec fn decoded<A, B, E>(docs: Seq<A>, decode: spec_fn(A) -> Result<B, E>) -> Result<
    Seq<B>,
    E,
>
    decreases docs.len(),
{
    if docs.len() == 0 {
        Ok(Seq::empty())
    } else {
        match decoded(docs.drop_last(), decode) {
            Err(e) => Err(e),
            Ok(values) => match decode(docs.last()) {
                Err(e) => Err(e),
                Ok(value) => Ok(values.push(value)),
            },
        }
    }
}

pub open spec fn reminders_of(docs: Seq<ReminderDoc>) -> Result<Seq<ReminderView>, FieldFault> {
    decoded(docs, |doc: ReminderDoc| reminder_of(doc))
}

pub open spec fn status_pages_of(docs: Seq<StatusPageDoc>) -> Result<
    Seq<StatusPageView>,
    FieldFault,
> {
    decoded(docs, |doc: StatusPageDoc| status_page_of(doc))
}

pub proof fn lemma_decoded_step<A, B, E>(
    docs: Seq<A>,
    decode: spec_fn(A) -> Result<B, E>,
    n: int,
)
    requires
        0 <= n < docs.len(),
    ensures
        decoded(docs.take(n + 1), decode) == (match decoded(docs.take(n), decode) {
            Err(e) => Err(e),
            Ok(values) => match decode(docs[n]) {
                Err(e) => Err(e),
                Ok(value) => Ok(values.push(value)),
            },
        }),
{
    assert(docs.take(n + 1).drop_last() =~= docs.take(n));
}

pub proof fn lemma_decoded_fault_stays<A, B, E>(
    docs: Seq<A>,
    decode: spec_fn(A) -> Result<B, E>,
    n: int,
)
    requires
        0 <= n <= docs.len(),
        decoded(docs.take(n), decode) is Err,
    ensures
        decoded(docs, decode) == decoded(docs.take(n), decode),
    decreases docs.len() - n,
{
    if n < docs.len() {
        lemma_decoded_step(docs, decode, n);
        lemma_decoded_fault_stays(docs, decode, n + 1);
    } else {
        assert(docs.take(n) =~= docs);
    }
}

pub proof fn lemma_decoded_items<A, B, E>(docs: Seq<A>, decode: spec_fn(A) -> Result<B, E>)
    requires
        decoded(docs, decode) is Ok,
    ensures
        decoded(docs, decode)->Ok_0.len() == docs.len(),
        forall|i: int|
            0 <= i < docs.len() ==> decode(docs[i]) == Ok::<B, E>(
                #[trigger] decoded(docs, decode)->Ok_0[i],
            ),
    decreases docs.len(),
{
    if docs.len() > 0 {
        lemma_decoded_items(docs.drop_last(), decode);
        let values = decoded(docs, decode)->Ok_0;
        let before = decoded(docs.drop_last(), decode)->Ok_0;
        assert forall|i: int| 0 <= i < docs.len() implies decode(docs[i]) == Ok::<B, E>(
            #[trigger] values[i],
        ) by {
            if i < docs.len() - 1 {
                assert(values[i] == before[i]);
                assert(docs.drop_last()[i] == docs[i]);
            }
        }
    }
}

/// Where all of `docs` stand for something, so does the list.
pub proof fn lemma_decoded_all<A, B, E>(docs: Seq<A>, decode: spec_fn(A) -> Result<B, E>)
    requires
        forall|i: int| 0 <= i < docs.len() ==> decode(#[trigger] docs[i]) is Ok,
    ensures
        decoded(docs, decode) is Ok,
    decreases docs.len(),
{
    if docs.len() > 0 {
        let before = docs.drop_last();
        assert forall|i: int| 0 <= i < before.len() implies decode(#[trigger] before[i]) is Ok by {
            assert(before[i] == docs[i]);
        }
        lemma_decoded_all(before, decode);
        assert(decode(docs[docs.len() - 1]) is Ok);
    }
}

/// What is wrong with a list is what is wrong with the first of `docs` that stands for
/// nothing.
pub proof fn lemma_decoded_first_fault<A, B, E>(
    docs: Seq<A>,
    decode: spec_fn(A) -> Result<B, E>,
    n: int,
)
    requires
        0 <= n < docs.len(),
        forall|i: int| 0 <= i < n ==> decode(#[trigger] docs[i]) is Ok,
        decode(docs[n]) is Err,
    ensures
        decoded(docs, decode) == Err::<Seq<B>, E>(decode(docs[n])->Err_0),
{
    let before = docs.take(n);
    assert forall|i: int| 0 <= i < before.len() implies decode(#[trigger] before[i]) is Ok by {
        assert(before[i] == docs[i]);
    }
    lemma_decoded_all(before, decode);
    lemma_decoded_step(docs, decode, n);
    lemma_decoded_fault_stays(docs, decode, n + 1);
}

pub open spec fn reminder_name_taken(
    reminders: Seq<ReminderView>,
    name: Seq<char>,
) -> bool {
    exists|i: int| 0 <= i < reminders.len() && (#[trigger] reminders[i]).name == name
}

pub open spec fn page_name_taken(pages: Seq<StatusPageView>, name: Seq<char>) -> bool {
    exists|i: int| 0 <= i < pages.len() && (#[trigger] pages[i]).name == name
}

/// What is wrong with the first reminder that repeats a name or has no schedule
/// of its own.
pub open spec fn reminders_fault(reminders: Seq<ReminderView>) -> Option<ConfigFault>
    decreases reminders.len(),
{
    if reminders.len() == 0 {
        None
    } else {
        let reminder = reminders.last();
        match reminders_fault(reminders.drop_last()) {
            Some(fault) => Some(fault),
            None => if reminder_name_taken(reminders.drop_last(), reminder.name) {
                Some(ConfigError::DuplicateName(reminder.name))
            } else {
                match schedule_of(reminder.days, reminder.day_of_month) {
                    Ok(_) => None,
                    Err(source) => Some(ConfigError::Schedule { name: reminder.name, source }),
                }
            },
        }
    }
}

/// What is wrong with the first status page that repeats a name.
pub open spec fn status_pages_fault(pages: Seq<StatusPageView>) -> Option<ConfigFault>
    decreases pages.len(),
{
    if pages.len() == 0 {
        None
    } else {
        match status_pages_fault(pages.drop_last()) {
            Some(fault) => Some(fault),
            None => if page_name_taken(pages.drop_last(), pages.last().name) {
                Some(ConfigError::DuplicateStatusPage(pages.last().name))
            } else {
                None
            },
        }
    }
}

/// The configuration of these parts, or the first rule that they break.
pub open spec fn config_with(
    system: SystemView,
    reminders: Seq<ReminderView>,
    status_pages: Seq<StatusPageView>,
) -> Result<ConfigView, ConfigFault> {
    if reminders.len() == 0 && status_pages.len() == 0 {
        Err(ConfigError::NoReminders)
    } else {
        match (reminders_fault(reminders), status_pages_fault(status_pages)) {
            (Some(fault), _) => Err(fault),
            (_, Some(fault)) => Err(fault),
            (None, None) => Ok(ConfigView { system, reminders, status_pages }),
        }
    }
}

/// The configuration that a file stands for. A field that is wrong comes before a
/// rule that is broken.
pub open spec fn config_of(doc: ConfigDoc) -> Result<ConfigView, ConfigFault> {
    match (
        system_of(doc.system),
        reminders_of(doc.reminders@),
        status_pages_of(doc.status_pages@),
    ) {
        (Err(e), _, _) => Err(ConfigError::Toml(e)),
        (_, Err(e), _) => Err(ConfigError::Toml(e)),
        (_, _, Err(e)) => Err(ConfigError::Toml(e)),
        (Ok(system), Ok(reminders), Ok(status_pages)) => config_with(
            system,
            reminders,
            status_pages,
        ),
    }
}

impl System {
    pub fn from_doc(doc: &SystemDoc) -> (r: Result<System, FieldError>)
        ensures
            result_view(r) == system_of(*doc),
    {
        System::with_zone(doc, TimeZone::new(doc.timezone.as_str()))
    }

    /// The settings, where `timezone` is the zone of the name that `doc` gives.
    pub fn with_zone(doc: &SystemDoc, timezone: Option<TimeZone>) -> (r: Result<
        System,
        FieldError,
    >)
        ensures
            result_view(r) == system_with(*doc, opt_view(timezone)),
    {
        let log_level = match &doc.log_level {
            None => LogLevel::default(),
            Some(name) => match LogLevel::from_name(name.as_str()) {
                Some(level) => level,
                None => {
                    return Err(FieldError::LogLevel(name.clone()));
                },
            },
        };
        let tick_interval_sec = match TickInterval::try_from(doc.tick_interval_sec) {
            Ok(interval) => interval,
            Err(e) => {
                return Err(FieldError::Interval(e));
            },
        };
        match timezone {
            Some(timezone) => Ok(System { log_level, tick_interval_sec, timezone }),
            None => Err(FieldError::Timezone(doc.timezone.clone())),
        }
    }
}

impl Reminder {
    /// Exactly one of `days` and `day_of_month` has to be given.
    pub fn schedule(&self) -> (r: Result<Schedule, ScheduleError>)
        ensures
            result_view(r) == schedule_of(self@.days, self@.day_of_month),
    {
        match (self.days, self.day_of_month) {
            (Some(days), None) => Ok(Schedule::Weekly(days)),
            (None, Some(days)) => Ok(Schedule::Monthly(days)),
            (None, None) => Err(ScheduleError::Missing),
            (Some(_), Some(_)) => Err(ScheduleError::Conflict),
        }
    }

    pub fn from_doc(doc: &ReminderDoc) -> (r: Result<Reminder, FieldError>)
        ensures
            result_view(r) == reminder_of(*doc),
    {
        let name = match ReminderName::new(doc.name.as_str()) {
            Ok(name) => name,
            Err(e) => {
                return Err(FieldError::Empty(e));
            },
        };
        let time = match TimeOfDay::from_str(doc.time.as_str()) {
            Ok(time) => time,
            Err(e) => {
                return Err(FieldError::Time(e));
            },
        };
        let days = match &doc.days {
            None => None,
            Some(days) => match WeekdaySet::from_words(days) {
                Ok(days) => Some(days),
                Err(e) => {
                    return Err(FieldError::Weekday(e));
                },
            },
        };
        let day_of_month = match &doc.day_of_month {
            None => None,
            Some(days) => match DayOfMonthSet::from_numbers(days) {
                Ok(days) => Some(days),
                Err(e) => {
                    return Err(FieldError::DayOfMonth(e));
                },
            },
        };
        let message = match Message::new(doc.message.as_str()) {
            Ok(message) => message,
            Err(e) => {
                return Err(FieldError::Empty(e));
            },
        };
        let webhook = match WebhookRef::new(doc.webhook.as_str()) {
            Ok(webhook) => webhook,
            Err(e) => {
                return Err(FieldError::Empty(e));
            },
        };
        Ok(Reminder { name, time, days, day_of_month, message, webhook })
    }
}

impl StatusPage {
    pub fn from_doc(doc: &StatusPageDoc) -> (r: Result<StatusPage, FieldError>)
        ensures
            result_view(r) == status_page_of(*doc),
    {
        let avatar_url = match &doc.avatar_url {
            None => Ok(None),
            Some(text) => match HttpsUrl::new(text.as_str()) {
                Ok(url) => Ok(Some(url)),
                Err(e) => Err(e),
            },
        };
        assert(link_view(avatar_url) == avatar_of(opt_view(doc.avatar_url)));
        StatusPage::with_links(doc, HttpsUrl::new(doc.url.as_str()), avatar_url)
    }

    /// The status page, where `url` and `avatar_url` are the links that `doc` gives.
    pub fn with_links(
        doc: &StatusPageDoc,
        url: Result<HttpsUrl, UrlError>,
        avatar_url: Result<Option<HttpsUrl>, UrlError>,
    ) -> (r: Result<StatusPage, FieldError>)
        ensures
            result_view(r) == status_page_with(
                *doc,
                result_view(url),
                link_view(avatar_url),
            ),
    {
        let name = match PageName::new(doc.name.as_str()) {
            Ok(name) => name,
            Err(e) => {
                return Err(FieldError::Empty(e));
            },
        };
        let url = match url {
            Ok(url) => url,
            Err(e) => {
                return Err(FieldError::Url(e));
            },
        };
        let webhook = match WebhookRef::new(doc.webhook.as_str()) {
            Ok(webhook) => webhook,
            Err(e) => {
                return Err(FieldError::Empty(e));
            },
        };
        let display_name = match &doc.display_name {
            None => None,
            Some(name) => Some(name.clone()),
        };
        let avatar_url = match avatar_url {
            Ok(url) => url,
            Err(e) => {
                return Err(FieldError::Url(e));
            },
        };
        let poll_interval_sec = match PollInterval::new(doc.poll_interval_sec) {
            Ok(interval) => interval,
            Err(e) => {
                return Err(FieldError::PollInterval(e));
            },
        };
        let min_impact = match &doc.min_impact {
            None => Impact::NoImpact,
            Some(name) => match Impact::from_wire(name.as_str()) {
                Some(impact) => impact,
                None => {
                    return Err(FieldError::Impact(name.clone()));
                },
            },
        };
        Ok(
            StatusPage {
                name,
                url,
                webhook,
                display_name,
                avatar_url,
                poll_interval_sec,
                min_impact,
            },
        )
    }
}

fn decode_reminders(docs: &Vec<ReminderDoc>) -> (r: Result<Vec<Reminder>, FieldError>)
    ensures
        match r {
            Ok(reminders) => reminders_of(docs@) == Ok::<_, FieldFault>(seq_view(reminders@)),
            Err(e) => reminders_of(docs@) == Err::<Seq<ReminderView>, _>(e@),
        },
{
    let ghost decode = |doc: ReminderDoc| reminder_of(doc);
    let mut reminders: Vec<Reminder> = Vec::new();
    assert(seq_view(reminders@) =~= Seq::<ReminderView>::empty());
    assert(docs@.take(0) =~= Seq::<ReminderDoc>::empty());
    for i in 0..docs.len()
        invariant
            decode == (|doc: ReminderDoc| reminder_of(doc)),
            decoded(docs@.take(i as int), decode) == Ok::<_, FieldFault>(seq_view(reminders@)),
    {
        let ghost before = reminders@;
        proof {
            lemma_decoded_step(docs@, decode, i as int);
        }
        match Reminder::from_doc(&docs[i]) {
            Ok(reminder) => {
                reminders.push(reminder);
                assert(seq_view(reminders@) =~= seq_view(before).push(reminder@));
            },
            Err(e) => {
                proof {
                    lemma_decoded_fault_stays(docs@, decode, i + 1);
                }
                return Err(e);
            },
        }
    }
    assert(docs@.take(docs@.len() as int) =~= docs@);
    Ok(reminders)
}

fn decode_status_pages(docs: &Vec<StatusPageDoc>) -> (r: Result<Vec<StatusPage>, FieldError>)
    ensures
        match r {
            Ok(pages) => status_pages_of(docs@) == Ok::<_, FieldFault>(seq_view(pages@)),
            Err(e) => status_pages_of(docs@) == Err::<Seq<StatusPageView>, _>(e@),
        },
{
    let ghost decode = |doc: StatusPageDoc| status_page_of(doc);
    let mut pages: Vec<StatusPage> = Vec::new();
    assert(seq_view(pages@) =~= Seq::<StatusPageView>::empty());
    assert(docs@.take(0) =~= Seq::<StatusPageDoc>::empty());
    for i in 0..docs.len()
        invariant
            decode == (|doc: StatusPageDoc| status_page_of(doc)),
            decoded(docs@.take(i as int), decode) == Ok::<_, FieldFault>(seq_view(pages@)),
    {
        let ghost before = pages@;
        proof {
            lemma_decoded_step(docs@, decode, i as int);
        }
        match StatusPage::from_doc(&docs[i]) {
            Ok(page) => {
                pages.push(page);
                assert(seq_view(pages@) =~= seq_view(before).push(page@));
            },
            Err(e) => {
                proof {
                    lemma_decoded_fault_stays(docs@, decode, i + 1);
                }
                return Err(e);
            },
        }
    }
    assert(docs@.take(docs@.len() as int) =~= docs@);
    Ok(pages)
}

proof fn lemma_reminders_fault_stays(reminders: Seq<ReminderView>, n: int)
    requires
        0 <= n <= reminders.len(),
        reminders_fault(reminders.take(n)) is Some,
    ensures
        reminders_fault(reminders) == reminders_fault(reminders.take(n)),
    decreases reminders.len() - n,
{
    if n < reminders.len() {
        assert(reminders.take(n + 1).drop_last() =~= reminders.take(n));
        lemma_reminders_fault_stays(reminders, n + 1);
    } else {
        assert(reminders.take(n) =~= reminders);
    }
}

proof fn lemma_status_pages_fault_stays(pages: Seq<StatusPageView>, n: int)
    requires
        0 <= n <= pages.len(),
        status_pages_fault(pages.take(n)) is Some,
    ensures
        status_pages_fault(pages) == status_pages_fault(pages.take(n)),
    decreases pages.len() - n,
{
    if n < pages.len() {
        assert(pages.take(n + 1).drop_last() =~= pages.take(n));
        lemma_status_pages_fault_stays(pages, n + 1);
    } else {
        assert(pages.take(n) =~= pages);
    }
}

/// Does one of the first `n` reminders have this name?
fn reminder_named(reminders: &Vec<Reminder>, n: usize, name: &str) -> (r: bool)
    requires
        n <= reminders@.len(),
    ensures
        r == reminder_name_taken(seq_view(reminders@).take(n as int), name@),
{
    let ghost views = seq_view(reminders@);
    for i in 0..n
        invariant
            n <= reminders@.len(),
            views == seq_view(reminders@),
            forall|j: int| 0 <= j < i ==> (#[trigger] views[j]).name != name@,
    {
        if same(reminders[i].name.as_str(), name) {
            assert(views.take(n as int)[i as int].name == name@);
            return true;
        }
    }
    assert forall|j: int| 0 <= j < n implies (#[trigger] views.take(n as int)[j]).name != name@ by {
        assert(views.take(n as int)[j] == views[j]);
    }
    false
}

/// Does one of the first `n` status pages have this name?
fn page_named(pages: &Vec<StatusPage>, n: usize, name: &str) -> (r: bool)
    requires
        n <= pages@.len(),
    ensures
        r == page_name_taken(seq_view(pages@).take(n as int), name@),
{
    let ghost views = seq_view(pages@);
    for i in 0..n
        invariant
            n <= pages@.len(),
            views == seq_view(pages@),
            forall|j: int| 0 <= j < i ==> (#[trigger] views[j]).name != name@,
    {
        if same(pages[i].name.as_str(), name) {
            assert(views.take(n as int)[i as int].name == name@);
            return true;
        }
    }
    assert forall|j: int| 0 <= j < n implies (#[trigger] views.take(n as int)[j]).name != name@ by {
        assert(views.take(n as int)[j] == views[j]);
    }
    false
}

fn check_reminders(reminders: &Vec<Reminder>) -> (r: Option<ConfigError>)
    ensures
        opt_view(r) == reminders_fault(seq_view(reminders@)),
{
    let ghost views = seq_view(reminders@);
    for i in 0..reminders.len()
        invariant
            views == seq_view(reminders@),
            reminders_fault(views.take(i as int)) is None,
    {
        let reminder = &reminders[i];
        proof {
            assert(views.take(i + 1).drop_last() =~= views.take(i as int));
            assert(views.take(i + 1).last() == reminder@);
            if reminders_fault(views.take(i + 1)) is Some {
                lemma_reminders_fault_stays(views, i + 1);
            }
        }
        if reminder_named(reminders, i, reminder.name.as_str()) {
            return Some(ConfigError::DuplicateName(reminder.name.as_str().to_owned()));
        }
        match reminder.schedule() {
            Ok(_) => {},
            Err(source) => {
                return Some(
                    ConfigError::Schedule { name: reminder.name.as_str().to_owned(), source },
                );
            },
        }
    }
    assert(views.take(reminders@.len() as int) =~= views);
    None
}

fn check_status_pages(pages: &Vec<StatusPage>) -> (r: Option<ConfigError>)
    ensures
        opt_view(r) == status_pages_fault(seq_view(pages@)),
{
    let ghost views = seq_view(pages@);
    for i in 0..pages.len()
        invariant
            views == seq_view(pages@),
            status_pages_fault(views.take(i as int)) is None,
    {
        let page = &pages[i];
        proof {
            assert(views.take(i + 1).drop_last() =~= views.take(i as int));
            assert(views.take(i + 1).last() == page@);
            if status_pages_fault(views.take(i + 1)) is Some {
                lemma_status_pages_fault_stays(views, i + 1);
            }
        }
        if page_named(pages, i, page.name.as_str()) {
            return Some(ConfigError::DuplicateStatusPage(page.name.as_str().to_owned()));
        }
    }
    assert(views.take(pages@.len() as int) =~= views);
    None
}

impl Config {
    /// The configuration that a TOML file stands for. The file has been read into
    /// its tables; what is left to decide is whether they hold what they must.
    pub fn from_toml(doc: &ConfigDoc) -> (r: Result<Config, ConfigError>)
        ensures
            result_view(r) == config_of(*doc),
    {
        let system = match System::from_doc(&doc.system) {
            Ok(system) => system,
            Err(e) => {
                return Err(ConfigError::Toml(e));
            },
        };
        let reminders = match decode_reminders(&doc.reminders) {
            Ok(reminders) => reminders,
            Err(e) => {
                return Err(ConfigError::Toml(e));
            },
        };
        let status_pages = match decode_status_pages(&doc.status_pages) {
            Ok(pages) => pages,
            Err(e) => {
                return Err(ConfigError::Toml(e));
            },
        };
        Config::new(system, reminders, status_pages)
    }

    /// The configuration of these parts, or the first rule that they break.
    pub fn new(system: System, reminders: Vec<Reminder>, status_pages: Vec<StatusPage>) -> (r:
        Result<Config, ConfigError>)
        ensures
            result_view(r) == config_with(
                system@,
                seq_view(reminders@),
                seq_view(status_pages@),
            ),
    {
        if reminders.is_empty() && status_pages.is_empty() {
            return Err(ConfigError::NoReminders);
        }
        match check_reminders(&reminders) {
            Some(fault) => {
                return Err(fault);
            },
            None => {},
        }
        match check_status_pages(&status_pages) {
            Some(fault) => {
                return Err(fault);
            },
            None => {},
        }
        Ok(Config { system, reminders, status_pages })
    }
}

// ---------------------------------------------------------------------------
// What an accepted configuration is
// ---------------------------------------------------------------------------
/// Proper texts, a time of day, and exactly one schedule, which names some day.
pub open spec fn valid_reminder(reminder: ReminderView) -> bool {
    &&& is_proper(reminder.name)
    &&& is_proper(reminder.message)
    &&& is_proper(reminder.webhook)
    &&& reminder.time.hour <= 23
    &&& reminder.time.minute <= 59
    &&& match (reminder.days, reminder.day_of_month) {
        (Some(days), None) => exists|day: Weekday| days.contains(day),
        (None, Some(days)) => {
            &&& exists|day: int| days.contains(day)
            &&& forall|day: int| days.contains(day) ==> 1 <= day <= 31
        },
        _ => false,
    }
}

/// Some text was read as this link.
pub open spec fn is_secure(url: HttpsView) -> bool {
    exists|text: Seq<char>| secured(#[trigger] url_of(text)) == Ok::<_, UrlError<Seq<char>>>(url)
}

/// Proper texts, links that are `https`, and an interval within bounds.
pub open spec fn valid_status_page(page: StatusPageView) -> bool {
    &&& is_proper(page.name)
    &&& is_proper(page.webhook)
    &&& is_secure(page.url)
    &&& page.avatar_url matches Some(url) ==> is_secure(url)
    &&& 60 <= page.poll_interval_sec <= 3600
}

pub open spec fn valid_config(config: ConfigView) -> bool {
    &&& 1 <= config.system.tick_interval_sec <= 60
    &&& known_zone(config.system.timezone)
    &&& config.reminders.len() + config.status_pages.len() > 0
    &&& forall|i: int|
        0 <= i < config.reminders.len() ==> valid_reminder(#[trigger] config.reminders[i])
    &&& forall|i: int|
        0 <= i < config.status_pages.len() ==> valid_status_page(#[trigger] config.status_pages[i])
    &&& forall|i: int, j: int|
        0 <= i < j < config.reminders.len() ==> (#[trigger] config.reminders[i]).name != (
        #[trigger] config.reminders[j]).name
    &&& forall|i: int, j: int|
        0 <= i < j < config.status_pages.len() ==> (#[trigger] config.status_pages[i]).name != (
        #[trigger] config.status_pages[j]).name
}

proof fn lemma_no_reminders_fault(reminders: Seq<ReminderView>)
    requires
        reminders_fault(reminders) is None,
    ensures
        forall|i: int|
            0 <= i < reminders.len() ==> schedule_of(
                (#[trigger] reminders[i]).days,
                reminders[i].day_of_month,
            ) is Ok,
        forall|i: int, j: int|
            0 <= i < j < reminders.len() ==> (#[trigger] reminders[i]).name != (
            #[trigger] reminders[j]).name,
    decreases reminders.len(),
{
    if reminders.len() > 0 {
        let before = reminders.drop_last();
        lemma_no_reminders_fault(before);
        assert forall|i: int| 0 <= i < reminders.len() implies schedule_of(
            (#[trigger] reminders[i]).days,
            reminders[i].day_of_month,
        ) is Ok by {
            if i < before.len() {
                assert(before[i] == reminders[i]);
            }
        }
        assert forall|i: int, j: int| 0 <= i < j < reminders.len() implies (
        #[trigger] reminders[i]).name != (#[trigger] reminders[j]).name by {
            assert(before[i] == reminders[i]);
            if j < before.len() {
                assert(before[j] == reminders[j]);
            }
        }
    }
}

proof fn lemma_no_status_pages_fault(pages: Seq<StatusPageView>)
    requires
        status_pages_fault(pages) is None,
    ensures
        forall|i: int, j: int|
            0 <= i < j < pages.len() ==> (#[trigger] pages[i]).name != (#[trigger] pages[j]).name,
    decreases pages.len(),
{
    if pages.len() > 0 {
        let before = pages.drop_last();
        lemma_no_status_pages_fault(before);
        assert forall|i: int, j: int| 0 <= i < j < pages.len() implies (#[trigger] pages[i]).name
            != (#[trigger] pages[j]).name by {
            assert(before[i] == pages[i]);
            if j < before.len() {
                assert(before[j] == pages[j]);
            }
        }
    }
}

proof fn lemma_decoded_reminder(doc: ReminderDoc)
    requires
        reminder_of(doc) is Ok,
        schedule_of(reminder_of(doc)->Ok_0.days, reminder_of(doc)->Ok_0.day_of_month) is Ok,
    ensures
        valid_reminder(reminder_of(doc)->Ok_0),
{
    law_trimming_is_idempotent(doc.name@);
    law_trimming_is_idempotent(doc.message@);
    law_trimming_is_idempotent(doc.webhook@);
    match doc.days {
        Some(words) => {
            law_weekday_lists_name_some_day(seq_view(words@));
        },
        None => {},
    }
    match doc.day_of_month {
        Some(days) => {
            law_month_day_lists_name_some_day(days@);
        },
        None => {},
    }
}

/// An accepted configuration keeps every rule: at least one reminder or status
/// page, names that are proper and unique, exactly one schedule for each
/// reminder, and every number within its bounds.
pub proof fn law_accepted_configs_are_valid(doc: ConfigDoc)
    requires
        config_of(doc) is Ok,
    ensures
        valid_config(config_of(doc)->Ok_0),
{
    let config = config_of(doc)->Ok_0;
    let reminder = |doc: ReminderDoc| reminder_of(doc);
    let page = |doc: StatusPageDoc| status_page_of(doc);
    lemma_decoded_items(doc.reminders@, reminder);
    lemma_decoded_items(doc.status_pages@, page);
    lemma_no_reminders_fault(config.reminders);
    lemma_no_status_pages_fault(config.status_pages);
    assert forall|i: int| 0 <= i < config.reminders.len() implies valid_reminder(
        #[trigger] config.reminders[i],
    ) by {
        assert(reminder(doc.reminders@[i]) == Ok::<_, FieldFault>(config.reminders[i]));
        lemma_decoded_reminder(doc.reminders@[i]);
    }
    assert forall|i: int| 0 <= i < config.status_pages.len() implies valid_status_page(
        #[trigger] config.status_pages[i],
    ) by {
        let page_doc = doc.status_pages@[i];
        assert(page(page_doc) == Ok::<_, FieldFault>(config.status_pages[i]));
        law_trimming_is_idempotent(page_doc.name@);
        law_trimming_is_idempotent(page_doc.webhook@);
        assert(secured(url_of(page_doc.url@)) == Ok::<_, UrlError<Seq<char>>>(
            config.status_pages[i].url,
        ));
    }
}

// ---------------------------------------------------------------------------
// What every table stands for
// ---------------------------------------------------------------------------
/// The settings are taken when the log level is left out or has a name, the tick interval
/// is from 1 to 60 seconds, and the time zone is known; they are then the level of that
/// name, or `info`, and the interval and the zone as they are written. Otherwise the
/// fault is the first of these that does not hold.
pub proof fn law_settings_are_taken_as_written(doc: SystemDoc, timezone: Option<Seq<char>>)
    ensures
        system_with(doc, timezone) is Ok <==> {
            &&& doc.log_level matches Some(name) ==> log_level_named(name@) is Some
            &&& 1 <= doc.tick_interval_sec <= 60
            &&& timezone is Some
        },
        system_with(doc, timezone) matches Ok(system) ==> {
            &&& doc.log_level is None ==> system.log_level is Info
            &&& doc.log_level matches Some(name) ==> log_level_named(name@) == Some(
                system.log_level,
            )
            &&& system.tick_interval_sec == doc.tick_interval_sec
            &&& timezone == Some(system.timezone)
        },
        system_of(doc) is Ok <==> {
            &&& doc.log_level matches Some(name) ==> log_level_named(name@) is Some
            &&& 1 <= doc.tick_interval_sec <= 60
            &&& known_zone(doc.timezone@)
        },
        system_of(doc) matches Ok(system) ==> {
            &&& doc.log_level is None ==> system.log_level is Info
            &&& doc.log_level matches Some(name) ==> log_level_named(name@) == Some(
                system.log_level,
            )
            &&& system.tick_interval_sec == doc.tick_interval_sec
            &&& system.timezone == doc.timezone@
        },
        doc.log_level matches Some(name) && log_level_named(name@) is None ==> system_with(
            doc,
            timezone,
        ) == Err::<SystemView, FieldFault>(FieldError::LogLevel(doc.log_level->Some_0@)),
        (doc.log_level matches Some(name) ==> log_level_named(name@) is Some) && !(1
            <= doc.tick_interval_sec <= 60) ==> system_with(doc, timezone) == Err::<
            SystemView,
            FieldFault,
        >(FieldError::Interval(IntervalError::OutOfRange(doc.tick_interval_sec))),
        (doc.log_level matches Some(name) ==> log_level_named(name@) is Some) && 1
            <= doc.tick_interval_sec <= 60 && timezone is None ==> system_with(doc, timezone)
            == Err::<SystemView, FieldFault>(FieldError::Timezone(doc.timezone@)),
{
}

/// A reminder is taken when its name, its message and its webhook are not blank, its time
/// is a time of day, and the days that it gives are days. It then has those texts without
/// the white space around them, that time, and those days.
pub proof fn law_reminders_are_taken_as_written(doc: ReminderDoc)
    ensures
        reminder_of(doc) is Ok <==> {
            &&& !is_blank(doc.name@)
            &&& !is_blank(doc.message@)
            &&& !is_blank(doc.webhook@)
            &&& time_of(doc.time@) is Ok
            &&& doc.days matches Some(words) ==> weekdays_of(seq_view(words@)) is Ok
            &&& doc.day_of_month matches Some(days) ==> month_days_of(days@) is Ok
        },
        reminder_of(doc) matches Ok(reminder) ==> {
            &&& reminder.name == trimmed(doc.name@)
            &&& reminder.message == trimmed(doc.message@)
            &&& reminder.webhook == trimmed(doc.webhook@)
            &&& time_of(doc.time@) == Ok::<_, TimeError<Seq<char>>>(reminder.time)
            &&& reminder.days is Some <==> doc.days is Some
            &&& doc.days matches Some(words) ==> weekdays_of(seq_view(words@)) == Ok::<
                _,
                WeekdayError<Seq<char>>,
            >(reminder.days->Some_0)
            &&& reminder.day_of_month is Some <==> doc.day_of_month is Some
            &&& doc.day_of_month matches Some(days) ==> month_days_of(days@) == Ok::<
                _,
                DayOfMonthError,
            >(reminder.day_of_month->Some_0)
        },
{
    law_blank_text_trims_to_nothing(doc.name@);
    law_blank_text_trims_to_nothing(doc.message@);
    law_blank_text_trims_to_nothing(doc.webhook@);
}

/// What is told of a reminder that is not taken is wrong with it: a blank field is told
/// by its name, a time, a list of weekdays and a list of days of the month by their own
/// faults.
pub proof fn law_faults_of_reminders_are_real(doc: ReminderDoc)
    ensures
        reminder_of(doc) matches Err(fault) ==> match fault {
            FieldError::Empty(field) => {
                ||| field.0 == "name"@ && is_blank(doc.name@)
                ||| field.0 == "message"@ && is_blank(doc.message@)
                ||| field.0 == "webhook"@ && is_blank(doc.webhook@)
            },
            FieldError::Time(e) => time_of(doc.time@) == Err::<TimeOfDay, _>(e),
            FieldError::Weekday(e) => doc.days matches Some(words) && weekdays_of(seq_view(words@))
                == Err::<Set<Weekday>, _>(e),
            FieldError::DayOfMonth(e) => doc.day_of_month matches Some(days) && month_days_of(days@)
                == Err::<Set<int>, _>(e),
            _ => false,
        },
{
    law_blank_text_trims_to_nothing(doc.name@);
    law_blank_text_trims_to_nothing(doc.message@);
    law_blank_text_trims_to_nothing(doc.webhook@);
}

/// A status page is taken when its name and its webhook are not blank, its link, and its
/// avatar's if it has one, are secure, its interval is left out or from 60 to 3600
/// seconds, and its threshold is left out or has a name. It then has those texts without
/// the white space around them, those links, the interval or 300 seconds, the threshold of
/// that name or none, and the name to show as it is written.
pub proof fn law_status_pages_are_taken_as_written(
    doc: StatusPageDoc,
    url: Result<HttpsView, UrlError<Seq<char>>>,
    avatar_url: Result<Option<HttpsView>, UrlError<Seq<char>>>,
)
    ensures
        status_page_with(doc, url, avatar_url) is Ok <==> {
            &&& !is_blank(doc.name@)
            &&& !is_blank(doc.webhook@)
            &&& url is Ok
            &&& avatar_url is Ok
            &&& doc.poll_interval_sec matches Some(secs) ==> 60 <= secs <= 3600
            &&& doc.min_impact matches Some(name) ==> impact_named(name@) is Some
        },
        status_page_with(doc, url, avatar_url) matches Ok(page) ==> {
            &&& page.name == trimmed(doc.name@)
            &&& page.webhook == trimmed(doc.webhook@)
            &&& url == Ok::<_, UrlError<Seq<char>>>(page.url)
            &&& avatar_url == Ok::<_, UrlError<Seq<char>>>(page.avatar_url)
            &&& page.display_name is Some <==> doc.display_name is Some
            &&& doc.display_name matches Some(name) ==> page.display_name == Some(name@)
            &&& doc.poll_interval_sec is None ==> page.poll_interval_sec == 300
            &&& doc.poll_interval_sec matches Some(secs) ==> page.poll_interval_sec == secs
            &&& doc.min_impact is None ==> page.min_impact is NoImpact
            &&& doc.min_impact matches Some(name) ==> impact_named(name@) == Some(page.min_impact)
        },
        status_page_of(doc) matches Ok(page) ==> {
            &&& secured(url_of(doc.url@)) == Ok::<_, UrlError<Seq<char>>>(page.url)
            &&& page.avatar_url is Some <==> doc.avatar_url is Some
            &&& doc.avatar_url matches Some(text) ==> secured(url_of(text@)) == Ok::<
                _,
                UrlError<Seq<char>>,
            >(page.avatar_url->Some_0)
        },
        status_page_of(doc) is Ok <==> {
            &&& status_page_with(doc, secured(url_of(doc.url@)), Ok(None)) is Ok
            &&& doc.avatar_url matches Some(text) ==> secured(url_of(text@)) is Ok
        },
{
    law_blank_text_trims_to_nothing(doc.name@);
    law_blank_text_trims_to_nothing(doc.webhook@);
}

/// What is told of a status page that is not taken is wrong with it.
pub proof fn law_faults_of_status_pages_are_real(
    doc: StatusPageDoc,
    url: Result<HttpsView, UrlError<Seq<char>>>,
    avatar_url: Result<Option<HttpsView>, UrlError<Seq<char>>>,
)
    ensures
        status_page_with(doc, url, avatar_url) matches Err(fault) ==> match fault {
            FieldError::Empty(field) => {
                ||| field.0 == "name"@ && is_blank(doc.name@)
                ||| field.0 == "webhook"@ && is_blank(doc.webhook@)
            },
            FieldError::Url(e) => {
                ||| url == Err::<HttpsView, _>(e)
                ||| avatar_url == Err::<Option<HttpsView>, _>(e)
            },
            FieldError::PollInterval(PollIntervalError::OutOfRange(secs)) => {
                &&& doc.poll_interval_sec == Some(secs)
                &&& !(60 <= secs <= 3600)
            },
            FieldError::Impact(name) => {
                &&& impact_named(name) is None
                &&& doc.min_impact matches Some(text) && text@ == name
            },
            _ => false,
        },
{
    law_blank_text_trims_to_nothing(doc.name@);
    law_blank_text_trims_to_nothing(doc.webhook@);
}

// ---------------------------------------------------------------------------
// Which rules a configuration can break
// ---------------------------------------------------------------------------
/// The reminder at `i` is the first of its name and has days of exactly one kind.
pub open spec fn keeps_the_rules(reminders: Seq<ReminderView>, i: int) -> bool {
    &&& forall|j: int| 0 <= j < i ==> (#[trigger] reminders[j]).name != reminders[i].name
    &&& reminders[i].days is Some <==> reminders[i].day_of_month is None
}

/// The status page at `i` is the first of its name.
pub open spec fn is_first_of_its_name(pages: Seq<StatusPageView>, i: int) -> bool {
    forall|j: int| 0 <= j < i ==> (#[trigger] pages[j]).name != pages[i].name
}

proof fn lemma_reminders_keep_the_rules(reminders: Seq<ReminderView>, n: int)
    requires
        0 <= n <= reminders.len(),
        forall|i: int| 0 <= i < n ==> #[trigger] keeps_the_rules(reminders, i),
    ensures
        reminders_fault(reminders.take(n)) is None,
    decreases n,
{
    if n > 0 {
        lemma_reminders_keep_the_rules(reminders, n - 1);
        let prefix = reminders.take(n);
        assert(prefix.drop_last() =~= reminders.take(n - 1));
        assert(prefix.last() == reminders[n - 1]);
        assert(keeps_the_rules(reminders, n - 1));
        assert forall|j: int| 0 <= j < n - 1 implies (
        #[trigger] reminders.take(n - 1)[j]).name != reminders[n - 1].name by {
            assert(reminders.take(n - 1)[j] == reminders[j]);
        }
    }
}

proof fn lemma_status_pages_keep_the_rules(pages: Seq<StatusPageView>, n: int)
    requires
        0 <= n <= pages.len(),
        forall|i: int| 0 <= i < n ==> #[trigger] is_first_of_its_name(pages, i),
    ensures
        status_pages_fault(pages.take(n)) is None,
    decreases n,
{
    if n > 0 {
        lemma_status_pages_keep_the_rules(pages, n - 1);
        let prefix = pages.take(n);
        assert(prefix.drop_last() =~= pages.take(n - 1));
        assert(prefix.last() == pages[n - 1]);
        assert(is_first_of_its_name(pages, n - 1));
        assert forall|j: int| 0 <= j < n - 1 implies (#[trigger] pages.take(n - 1)[j]).name
            != pages[n - 1].name by {
            assert(pages.take(n - 1)[j] == pages[j]);
        }
    }
}

/// What is wrong with the first reminder that breaks a rule: a name that was taken comes
/// before days of no kind or of both.
proof fn lemma_first_broken_rule(reminders: Seq<ReminderView>, n: int)
    requires
        0 <= n < reminders.len(),
        forall|i: int| 0 <= i < n ==> #[trigger] keeps_the_rules(reminders, i),
        !keeps_the_rules(reminders, n),
    ensures
        reminders_fault(reminders) == Some(
            if exists|j: int| 0 <= j < n && (#[trigger] reminders[j]).name == reminders[n].name {
                ConfigError::<Seq<char>, Seq<char>>::DuplicateName(reminders[n].name)
            } else {
                ConfigError::Schedule {
                    name: reminders[n].name,
                    source: if reminders[n].days is None {
                        ScheduleError::Missing
                    } else {
                        ScheduleError::Conflict
                    },
                }
            },
        ),
{
    lemma_reminders_keep_the_rules(reminders, n);
    let prefix = reminders.take(n + 1);
    let before = reminders.take(n);
    assert(prefix.drop_last() =~= before);
    assert(prefix.last() == reminders[n]);
    if exists|j: int| 0 <= j < n && (#[trigger] reminders[j]).name == reminders[n].name {
        let j = choose|j: int| 0 <= j < n && (#[trigger] reminders[j]).name == reminders[n].name;
        assert(before[j].name == reminders[n].name);
    } else {
        assert forall|j: int| 0 <= j < n implies (#[trigger] before[j]).name
            != reminders[n].name by {
            assert(before[j] == reminders[j]);
        }
    }
    lemma_reminders_fault_stays(reminders, n + 1);
}

/// A configuration is accepted, as it is, when it has a reminder or a status page, all
/// reminders keep the rules, and no status page repeats a name. Otherwise the first rule
/// that is broken is told: that there is nothing, then what is wrong with the first
/// reminder that breaks one, then the first name of a status page that is repeated.
pub proof fn law_the_first_broken_rule_is_told(
    system: SystemView,
    reminders: Seq<ReminderView>,
    pages: Seq<StatusPageView>,
    n: int,
)
    ensures
        reminders.len() == 0 && pages.len() == 0 <==> config_with(system, reminders, pages)
            == Err::<
            ConfigView,
            ConfigFault,
        >(ConfigError::NoReminders),
        config_with(system, reminders, pages) is Ok <==> {
            &&& reminders.len() > 0 || pages.len() > 0
            &&& forall|i: int|
                0 <= i < reminders.len() ==> #[trigger] keeps_the_rules(reminders, i)
            &&& forall|i: int| 0 <= i < pages.len() ==> #[trigger] is_first_of_its_name(pages, i)
        },
        config_with(system, reminders, pages) matches Ok(config) ==> {
            &&& config.system == system
            &&& config.reminders == reminders
            &&& config.status_pages == pages
        },
        0 <= n < reminders.len() && !keeps_the_rules(reminders, n) && (forall|i: int|
            0 <= i < n ==> #[trigger] keeps_the_rules(reminders, i)) ==> config_with(
            system,
            reminders,
            pages,
        ) == Err::<ConfigView, ConfigFault>(
            if exists|j: int| 0 <= j < n && (#[trigger] reminders[j]).name == reminders[n].name {
                ConfigError::DuplicateName(reminders[n].name)
            } else {
                ConfigError::Schedule {
                    name: reminders[n].name,
                    source: if reminders[n].days is None {
                        ScheduleError::Missing
                    } else {
                        ScheduleError::Conflict
                    },
                }
            },
        ),
        0 <= n < pages.len() && !is_first_of_its_name(pages, n) && (forall|i: int|
            0 <= i < n ==> #[trigger] is_first_of_its_name(pages, i)) && (forall|i: int|
            0 <= i < reminders.len() ==> #[trigger] keeps_the_rules(reminders, i))
            ==> config_with(system, reminders, pages) == Err::<ConfigView, ConfigFault>(
            ConfigError::DuplicateStatusPage(pages[n].name),
        ),
{
    assert(reminders.take(reminders.len() as int) =~= reminders);
    assert(pages.take(pages.len() as int) =~= pages);
    if forall|i: int| 0 <= i < reminders.len() ==> #[trigger] keeps_the_rules(reminders, i) {
        lemma_reminders_keep_the_rules(reminders, reminders.len() as int);
    }
    if forall|i: int| 0 <= i < pages.len() ==> #[trigger] is_first_of_its_name(pages, i) {
        lemma_status_pages_keep_the_rules(pages, pages.len() as int);
    }
    if config_with(system, reminders, pages) is Ok {
        lemma_no_reminders_fault(reminders);
        lemma_no_status_pages_fault(pages);
    }
    if 0 <= n < reminders.len() && !keeps_the_rules(reminders, n) && (forall|i: int|
        0 <= i < n ==> #[trigger] keeps_the_rules(reminders, i)) {
        lemma_first_broken_rule(reminders, n);
    }
    if 0 <= n < pages.len() && !is_first_of_its_name(pages, n) && (forall|i: int|
        0 <= i < n ==> #[trigger] is_first_of_its_name(pages, i)) {
        lemma_status_pages_keep_the_rules(pages, n);
        let prefix = pages.take(n + 1);
        let before = pages.take(n);
        assert(prefix.drop_last() =~= before);
        assert(prefix.last() == pages[n]);
        let j = choose|j: int| 0 <= j < n && (#[trigger] pages[j]).name == pages[n].name;
        assert(before[j].name == pages[n].name);
        lemma_status_pages_fault_stays(pages, n + 1);
    }
    lemma_faults_are_rules(reminders, pages);
}

/// What is wrong with a reminder or a status page is neither that there is nothing nor
/// the fault of a field.
proof fn lemma_faults_are_rules(reminders: Seq<ReminderView>, pages: Seq<StatusPageView>)
    ensures
        reminders_fault(reminders) matches Some(fault) ==> fault !is NoReminders && fault !is Toml,
        status_pages_fault(pages) matches Some(fault) ==> fault !is NoReminders && fault !is Toml,
    decreases reminders.len() + pages.len(),
{
    if reminders.len() > 0 {
        lemma_faults_are_rules(reminders.drop_last(), pages);
    }
    if pages.len() > 0 {
        lemma_faults_are_rules(reminders, pages.drop_last());
    }
}

/// An accepted file stands for what is written in it: its settings, and every reminder and
/// every status page, in order. A file is accepted when all its tables are, and they keep
/// the rules.
pub proof fn law_accepted_configs_hold_what_is_written(doc: ConfigDoc)
    ensures
        config_of(doc) matches Ok(config) ==> {
            &&& system_of(doc.system) == Ok::<_, FieldFault>(config.system)
            &&& config.reminders.len() == doc.reminders@.len()
            &&& forall|i: int|
                0 <= i < config.reminders.len() ==> reminder_of(doc.reminders@[i]) == Ok::<
                    _,
                    FieldFault,
                >(#[trigger] config.reminders[i])
            &&& config.status_pages.len() == doc.status_pages@.len()
            &&& forall|i: int|
                0 <= i < config.status_pages.len() ==> status_page_of(doc.status_pages@[i]) == Ok::<
                    _,
                    FieldFault,
                >(#[trigger] config.status_pages[i])
        },
        config_of(doc) matches Err(ConfigError::Toml(_)) <==> !{
            &&& system_of(doc.system) is Ok
            &&& forall|i: int|
                0 <= i < doc.reminders@.len() ==> reminder_of(#[trigger] doc.reminders@[i]) is Ok
            &&& forall|i: int|
                0 <= i < doc.status_pages@.len() ==> status_page_of(
                    #[trigger] doc.status_pages@[i],
                ) is Ok
        },
        config_of(doc) !is Ok && !(config_of(doc) matches Err(ConfigError::Toml(_)))
            ==> config_of(doc) == config_with(
            system_of(doc.system)->Ok_0,
            reminders_of(doc.reminders@)->Ok_0,
            status_pages_of(doc.status_pages@)->Ok_0,
        ),
{
    let reminder = |doc: ReminderDoc| reminder_of(doc);
    let page = |doc: StatusPageDoc| status_page_of(doc);
    if reminders_of(doc.reminders@) is Ok {
        lemma_decoded_items(doc.reminders@, reminder);
        let reminders = reminders_of(doc.reminders@)->Ok_0;
        assert forall|i: int| 0 <= i < doc.reminders@.len() implies reminder_of(
            #[trigger] doc.reminders@[i],
        ) == Ok::<_, FieldFault>(reminders[i]) by {
            assert(reminder(doc.reminders@[i]) == Ok::<_, FieldFault>(reminders[i]));
        }
    }
    if status_pages_of(doc.status_pages@) is Ok {
        lemma_decoded_items(doc.status_pages@, page);
        let pages = status_pages_of(doc.status_pages@)->Ok_0;
        assert forall|i: int| 0 <= i < doc.status_pages@.len() implies status_page_of(
            #[trigger] doc.status_pages@[i],
        ) == Ok::<_, FieldFault>(pages[i]) by {
            assert(page(doc.status_pages@[i]) == Ok::<_, FieldFault>(pages[i]));
        }
    }
    if forall|i: int|
        0 <= i < doc.reminders@.len() ==> reminder_of(#[trigger] doc.reminders@[i]) is Ok {
        assert forall|i: int| 0 <= i < doc.reminders@.len() implies reminder(
            #[trigger] doc.reminders@[i],
        ) is Ok by {}
        lemma_decoded_all(doc.reminders@, reminder);
    }
    if forall|i: int|
        0 <= i < doc.status_pages@.len() ==> status_page_of(#[trigger] doc.status_pages@[i]) is Ok {
        assert forall|i: int| 0 <= i < doc.status_pages@.len() implies page(
            #[trigger] doc.status_pages@[i],
        ) is Ok by {}
        lemma_decoded_all(doc.status_pages@, page);
    }
    if system_of(doc.system) is Ok && reminders_of(doc.reminders@) is Ok && status_pages_of(
        doc.status_pages@,
    ) is Ok {
        lemma_faults_are_rules(
            reminders_of(doc.reminders@)->Ok_0,
            status_pages_of(doc.status_pages@)->Ok_0,
        );
    }
}

/// Of the tables that are not taken the first is told, with what is wrong with it: the
/// settings come first, then the reminders, then the status pages, each in order.
pub proof fn law_the_first_faulty_table_is_told(doc: ConfigDoc, n: int)
    ensures
        system_of(doc.system) matches Err(e) ==> config_of(doc) == Err::<ConfigView, ConfigFault>(
            ConfigError::Toml(e),
        ),
        system_of(doc.system) is Ok && 0 <= n < doc.reminders@.len() && (forall|i: int|
            0 <= i < n ==> reminder_of(#[trigger] doc.reminders@[i]) is Ok) && reminder_of(
            doc.reminders@[n],
        ) is Err ==> config_of(doc) == Err::<ConfigView, ConfigFault>(
            ConfigError::Toml(reminder_of(doc.reminders@[n])->Err_0),
        ),
        system_of(doc.system) is Ok && (forall|i: int|
            0 <= i < doc.reminders@.len() ==> reminder_of(#[trigger] doc.reminders@[i]) is Ok) && 0
            <= n < doc.status_pages@.len() && (forall|i: int|
            0 <= i < n ==> status_page_of(#[trigger] doc.status_pages@[i]) is Ok)
            && status_page_of(doc.status_pages@[n]) is Err ==> config_of(doc) == Err::<
            ConfigView,
            ConfigFault,
        >(ConfigError::Toml(status_page_of(doc.status_pages@[n])->Err_0)),
{
    let reminder = |doc: ReminderDoc| reminder_of(doc);
    let page = |doc: StatusPageDoc| status_page_of(doc);
    if 0 <= n < doc.reminders@.len() && (forall|i: int|
        0 <= i < n ==> reminder_of(#[trigger] doc.reminders@[i]) is Ok) && reminder_of(
        doc.reminders@[n],
    ) is Err {
        assert forall|i: int| 0 <= i < n implies reminder(#[trigger] doc.reminders@[i]) is Ok by {}
        lemma_decoded_first_fault(doc.reminders@, reminder, n);
    }
    if forall|i: int|
        0 <= i < doc.reminders@.len() ==> reminder_of(#[trigger] doc.reminders@[i]) is Ok {
        assert forall|i: int| 0 <= i < doc.reminders@.len() implies reminder(
            #[trigger] doc.reminders@[i],
        ) is Ok by {}
        lemma_decoded_all(doc.reminders@, reminder);
    }
    if 0 <= n < doc.status_pages@.len() && (forall|i: int|
        0 <= i < n ==> status_page_of(#[trigger] doc.status_pages@[i]) is Ok) && status_page_of(
        doc.status_pages@[n],
    ) is Err {
        assert forall|i: int| 0 <= i < n implies page(#[trigger] doc.status_pages@[i]) is Ok by {}
        lemma_decoded_first_fault(doc.status_pages@, page, n);
    }
}

/// What a configuration and its tables show of themselves are their own parts, each in its
/// place.
pub proof fn law_configs_show_their_parts(config: Config, reminder: Reminder, page: StatusPage)
    ensures
        config@.system.log_level == config.system.log_level,
        config@.system.tick_interval_sec == config.system.tick_interval_sec@,
        config@.system.timezone == config.system.timezone@,
        config@.reminders.len() == config.reminders@.len(),
        forall|i: int|
            0 <= i < config.reminders@.len() ==> #[trigger] config@.reminders[i]
                == config.reminders@[i]@,
        config@.status_pages.len() == config.status_pages@.len(),
        forall|i: int|
            0 <= i < config.status_pages@.len() ==> #[trigger] config@.status_pages[i]
                == config.status_pages@[i]@,
        reminder@.name == reminder.name@,
        reminder@.time == reminder.time,
        reminder@.days is Some <==> reminder.days is Some,
        reminder.days matches Some(days) ==> reminder@.days == Some(days@),
        reminder@.day_of_month is Some <==> reminder.day_of_month is Some,
        reminder.day_of_month matches Some(days) ==> reminder@.day_of_month == Some(days@),
        reminder@.message == reminder.message@,
        reminder@.webhook == reminder.webhook@,
        page@.name == page.name@,
        page@.url == page.url@,
        page@.webhook == page.webhook@,
        page@.display_name is Some <==> page.display_name is Some,
        page.display_name matches Some(name) ==> page@.display_name == Some(name@),
        page@.avatar_url is Some <==> page.avatar_url is Some,
        page.avatar_url matches Some(url) ==> page@.avatar_url == Some(url@),
        page@.poll_interval_sec == page.poll_interval_sec@,
        page@.min_impact == page.min_impact,
{
}

} // verus!
