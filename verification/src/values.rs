//! The values that the fields of a configuration hold.

use vstd::prelude::*;
use vstd::string::StringExecFns;

use crate::clock::Span;
use crate::text::{
    char_shift, is_alphanumeric, is_blank, is_digit, law_blank_text_trims_to_nothing,
    law_trimming_is_idempotent, lowered, result_view, same, to_chars, trim, trimmed, upper,
};

verus! {

// ---------------------------------------------------------------------------
// Text that must not be empty
// ---------------------------------------------------------------------------
/// The field of this name holds nothing but white space.
#[derive(Debug)]
pub struct EmptyFieldError<L = &'static str>(pub L);

impl View for EmptyFieldError {
    type V = EmptyFieldError<Seq<char>>;

    open spec fn view(&self) -> EmptyFieldError<Seq<char>> {
        EmptyFieldError(self.0@)
    }
}

/// A text without the white space around it, if anything is left.
pub open spec fn non_empty(text: Seq<char>, field: Seq<char>) -> Result<
    Seq<char>,
    EmptyFieldError<Seq<char>>,
> {
    if trimmed(text).len() == 0 {
        Err(EmptyFieldError(field))
    } else {
        Ok(trimmed(text))
    }
}

/// Some text with no white space around it.
pub open spec fn is_proper(text: Seq<char>) -> bool {
    text.len() > 0 && trimmed(text) == text
}

fn trim_non_empty(text: &str, field: &'static str) -> (r: Result<String, EmptyFieldError>)
    ensures
        result_view(r) == non_empty(text@, field@),
        r matches Ok(t) ==> is_proper(t@),
{
    let t = trim(text);
    proof {
        law_trimming_is_idempotent(text@);
    }
    if t.as_str().is_empty() {
        Err(EmptyFieldError(field))
    } else {
        Ok(t)
    }
}

/// The name of a reminder.
#[derive(Debug, PartialEq, Eq, Hash)]
pub struct ReminderName(String);

impl View for ReminderName {
    type V = Seq<char>;

    closed spec fn view(&self) -> Seq<char> {
        self.0@
    }
}

impl ReminderName {
    #[verifier::type_invariant]
    pub open spec fn wf(&self) -> bool {
        is_proper(self@)
    }

    pub fn new(text: &str) -> (r: Result<ReminderName, EmptyFieldError>)
        ensures
            result_view(r) == non_empty(text@, "name"@),
    {
        match trim_non_empty(text, "name") {
            Ok(t) => Ok(ReminderName(t)),
            Err(e) => Err(e),
        }
    }

    pub fn as_str(&self) -> (text: &str)
        ensures
            text@ == self@,
            is_proper(text@),
    {
        proof {
            use_type_invariant(self);
        }
        self.0.as_str()
    }
}

impl Clone for ReminderName {
    fn clone(&self) -> (copy: Self)
        ensures
            copy@ == self@,
    {
        proof {
            use_type_invariant(self);
        }
        ReminderName(self.0.clone())
    }
}

impl TryFrom<String> for ReminderName {
    type Error = EmptyFieldError;

    fn try_from(s: String) -> (r: Result<Self, EmptyFieldError>)
        ensures
            result_view(r) == non_empty(s@, "name"@),
    {
        ReminderName::new(s.as_str())
    }
}

impl vstd::std_specs::convert::TryFromSpecImpl<String> for ReminderName {
    open spec fn obeys_try_from_spec() -> bool {
        false
    }

    open spec fn try_from_spec(s: String) -> Result<Self, EmptyFieldError> {
        arbitrary()
    }
}

/// What a reminder says.
#[derive(Debug, PartialEq, Eq, Hash)]
pub struct Message(String);

impl View for Message {
    type V = Seq<char>;

    closed spec fn view(&self) -> Seq<char> {
        self.0@
    }
}

impl Message {
    #[verifier::type_invariant]
    pub open spec fn wf(&self) -> bool {
        is_proper(self@)
    }

    pub fn new(text: &str) -> (r: Result<Message, EmptyFieldError>)
        ensures
            result_view(r) == non_empty(text@, "message"@),
    {
        match trim_non_empty(text, "message") {
            Ok(t) => Ok(Message(t)),
            Err(e) => Err(e),
        }
    }

    pub fn as_str(&self) -> (text: &str)
        ensures
            text@ == self@,
            is_proper(text@),
    {
        proof {
            use_type_invariant(self);
        }
        self.0.as_str()
    }
}

impl Clone for Message {
    fn clone(&self) -> (copy: Self)
        ensures
            copy@ == self@,
    {
        proof {
            use_type_invariant(self);
        }
        Message(self.0.clone())
    }
}

impl TryFrom<String> for Message {
    type Error = EmptyFieldError;

    fn try_from(s: String) -> (r: Result<Self, EmptyFieldError>)
        ensures
            result_view(r) == non_empty(s@, "message"@),
    {
        Message::new(s.as_str())
    }
}

impl vstd::std_specs::convert::TryFromSpecImpl<String> for Message {
    open spec fn obeys_try_from_spec() -> bool {
        false
    }

    open spec fn try_from_spec(s: String) -> Result<Self, EmptyFieldError> {
        arbitrary()
    }
}

/// The logical name of a webhook. Its URL comes from the environment.
#[derive(Debug, PartialEq, Eq, Hash)]
pub struct WebhookRef(String);

impl View for WebhookRef {
    type V = Seq<char>;

    closed spec fn view(&self) -> Seq<char> {
        self.0@
    }
}

impl WebhookRef {
    #[verifier::type_invariant]
    pub open spec fn wf(&self) -> bool {
        is_proper(self@)
    }

    pub fn new(text: &str) -> (r: Result<WebhookRef, EmptyFieldError>)
        ensures
            result_view(r) == non_empty(text@, "webhook"@),
    {
        match trim_non_empty(text, "webhook") {
            Ok(t) => Ok(WebhookRef(t)),
            Err(e) => Err(e),
        }
    }

    pub fn as_str(&self) -> (text: &str)
        ensures
            text@ == self@,
            is_proper(text@),
    {
        proof {
            use_type_invariant(self);
        }
        self.0.as_str()
    }
}

impl Clone for WebhookRef {
    fn clone(&self) -> (copy: Self)
        ensures
            copy@ == self@,
    {
        proof {
            use_type_invariant(self);
        }
        WebhookRef(self.0.clone())
    }
}

impl TryFrom<String> for WebhookRef {
    type Error = EmptyFieldError;

    fn try_from(s: String) -> (r: Result<Self, EmptyFieldError>)
        ensures
            result_view(r) == non_empty(s@, "webhook"@),
    {
        WebhookRef::new(s.as_str())
    }
}

impl vstd::std_specs::convert::TryFromSpecImpl<String> for WebhookRef {
    open spec fn obeys_try_from_spec() -> bool {
        false
    }

    open spec fn try_from_spec(s: String) -> Result<Self, EmptyFieldError> {
        arbitrary()
    }
}

/// The name of a status page.
#[derive(Debug, PartialEq, Eq, Hash)]
pub struct PageName(String);

impl View for PageName {
    type V = Seq<char>;

    closed spec fn view(&self) -> Seq<char> {
        self.0@
    }
}

impl PageName {
    #[verifier::type_invariant]
    pub open spec fn wf(&self) -> bool {
        is_proper(self@)
    }

    pub fn new(text: &str) -> (r: Result<PageName, EmptyFieldError>)
        ensures
            result_view(r) == non_empty(text@, "name"@),
    {
        match trim_non_empty(text, "name") {
            Ok(t) => Ok(PageName(t)),
            Err(e) => Err(e),
        }
    }

    pub fn as_str(&self) -> (text: &str)
        ensures
            text@ == self@,
            is_proper(text@),
    {
        proof {
            use_type_invariant(self);
        }
        self.0.as_str()
    }
}

impl Clone for PageName {
    fn clone(&self) -> (copy: Self)
        ensures
            copy@ == self@,
    {
        proof {
            use_type_invariant(self);
        }
        PageName(self.0.clone())
    }
}

impl TryFrom<String> for PageName {
    type Error = EmptyFieldError;

    fn try_from(s: String) -> (r: Result<Self, EmptyFieldError>)
        ensures
            result_view(r) == non_empty(s@, "name"@),
    {
        PageName::new(s.as_str())
    }
}

impl vstd::std_specs::convert::TryFromSpecImpl<String> for PageName {
    open spec fn obeys_try_from_spec() -> bool {
        false
    }

    open spec fn try_from_spec(s: String) -> Result<Self, EmptyFieldError> {
        arbitrary()
    }
}

/// What one character of a logical name becomes in the name of an environment
/// variable.
pub open spec fn key_char(c: char) -> char {
    if is_alphanumeric(c) {
        upper(c)
    } else {
        '_'
    }
}

/// The environment variable that a logical webhook name stands for.
pub open spec fn env_key_of(name: Seq<char>) -> Seq<char> {
    "CHIME_WEBHOOK_"@ + name.map_values(|c: char| key_char(c))
}

/// The environment variable that may hold the path of a file with the URL.
pub open spec fn file_key_of(name: Seq<char>) -> Seq<char> {
    env_key_of(name) + "_FILE"@
}

impl WebhookRef {
    pub fn env_key(&self) -> (key: String)
        ensures
            key@ == env_key_of(self@),
    {
        let chars = to_chars(self.0.as_str());
        let mut key = "CHIME_WEBHOOK_".to_owned();
        let ghost prefix = "CHIME_WEBHOOK_"@;
        for i in 0..chars.len()
            invariant
                chars@ == self@,
                prefix == "CHIME_WEBHOOK_"@,
                key@ == prefix + self@.take(i as int).map_values(|c: char| key_char(c)),
        {
            let c = chars[i];
            let lower_case = 'a' <= c && c <= 'z';
            let upper_case = 'A' <= c && c <= 'Z';
            if lower_case {
                key.push(char_shift(c, false));
            } else if upper_case || ('0' <= c && c <= '9') {
                key.push(c);
            } else {
                key.push('_');
            }
            assert(key@ =~= prefix + self@.take(i + 1).map_values(|c: char| key_char(c)));
        }
        assert(self@.take(chars@.len() as int) =~= self@);
        key
    }

    pub fn file_key(&self) -> (key: String)
        ensures
            key@ == file_key_of(self@),
    {
        let mut key = self.env_key();
        key.append("_FILE");
        key
    }
}

/// An environment key consists of the prefix and one capital letter, digit or
/// underscore for each character of the name, and logical names that differ only
/// in the case of ASCII letters share it.
pub proof fn law_env_keys_are_portable(name: Seq<char>)
    ensures
        env_key_of(name).len() == "CHIME_WEBHOOK_"@.len() + name.len(),
        env_key_of(name).take("CHIME_WEBHOOK_"@.len() as int) == "CHIME_WEBHOOK_"@,
        forall|i: int|
            "CHIME_WEBHOOK_"@.len() <= i < env_key_of(name).len() ==> {
                let c = #[trigger] env_key_of(name)[i];
                is_digit(c) || 'A' <= c <= 'Z' || c == '_'
            },
        env_key_of(lowered(name)) == env_key_of(name),
{
    assert(env_key_of(name).take("CHIME_WEBHOOK_"@.len() as int) =~= "CHIME_WEBHOOK_"@);
    assert(lowered(name).map_values(|c: char| key_char(c)) =~= name.map_values(
        |c: char| key_char(c),
    ));
}

// ---------------------------------------------------------------------------
// Intervals
// ---------------------------------------------------------------------------
#[derive(Debug, Clone, Copy, PartialEq, Eq, Structural)]
pub enum IntervalError {
    /// Not in `1..=60`.
    OutOfRange(i64),
}

impl View for IntervalError {
    type V = IntervalError;

    open spec fn view(&self) -> IntervalError {
        *self
    }
}

/// The seconds between two ticks.
#[derive(Debug, Clone, Copy, PartialEq, Eq, Structural)]
pub struct TickInterval(u64);

impl View for TickInterval {
    type V = int;

    closed spec fn view(&self) -> int {
        self.0 as int
    }
}

pub open spec fn tick_interval_of(n: i64) -> Result<int, IntervalError> {
    if 1 <= n <= 60 {
        Ok(n as int)
    } else {
        Err(IntervalError::OutOfRange(n))
    }
}

impl TickInterval {
    #[verifier::type_invariant]
    pub open spec fn wf(&self) -> bool {
        1 <= self@ <= 60
    }

    pub fn as_duration(&self) -> (span: Span)
        ensures
            span.secs == self@,
            span.nanos == 0,
            1 <= span.secs <= 60,
    {
        proof {
            use_type_invariant(self);
        }
        Span::from_secs(self.0)
    }
}

impl TryFrom<i64> for TickInterval {
    type Error = IntervalError;

    fn try_from(n: i64) -> (r: Result<Self, IntervalError>)
        ensures
            result_view(r) == tick_interval_of(n),
    {
        if 1 <= n && n <= 60 {
            Ok(TickInterval(n as u64))
        } else {
            Err(IntervalError::OutOfRange(n))
        }
    }
}

impl vstd::std_specs::convert::TryFromSpecImpl<i64> for TickInterval {
    open spec fn obeys_try_from_spec() -> bool {
        false
    }

    open spec fn try_from_spec(n: i64) -> Result<Self, IntervalError> {
        arbitrary()
    }
}

#[derive(Debug, Clone, Copy, PartialEq, Eq, Structural)]
pub enum PollIntervalError {
    /// Not in `60..=3600`.
    OutOfRange(i64),
}

impl View for PollIntervalError {
    type V = PollIntervalError;

    open spec fn view(&self) -> PollIntervalError {
        *self
    }
}

/// The seconds between two polls of a status page.
#[derive(Debug, Clone, Copy, PartialEq, Eq, Structural)]
pub struct PollInterval(u64);

impl View for PollInterval {
    type V = int;

    closed spec fn view(&self) -> int {
        self.0 as int
    }
}

pub const DEFAULT_POLL_INTERVAL_SEC: i64 = 300;

pub open spec fn poll_interval_of(n: Option<i64>) -> Result<int, PollIntervalError> {
    let secs = match n {
        Some(n) => n,
        None => DEFAULT_POLL_INTERVAL_SEC,
    };
    if 60 <= secs <= 3600 {
        Ok(secs as int)
    } else {
        Err(PollIntervalError::OutOfRange(secs))
    }
}

impl PollInterval {
    #[verifier::type_invariant]
    pub open spec fn wf(&self) -> bool {
        60 <= self@ <= 3600
    }

    /// The interval that is given, or five minutes.
    pub fn new(n: Option<i64>) -> (r: Result<PollInterval, PollIntervalError>)
        ensures
            result_view(r) == poll_interval_of(n),
    {
        let secs: i64 = match n {
            Some(n) => n,
            None => DEFAULT_POLL_INTERVAL_SEC,
        };
        if 60 <= secs && secs <= 3600 {
            Ok(PollInterval(secs as u64))
        } else {
            Err(PollIntervalError::OutOfRange(secs))
        }
    }

    pub fn as_duration(&self) -> (span: Span)
        ensures
            span.secs == self@,
            span.nanos == 0,
            60 <= span.secs <= 3600,
    {
        proof {
            use_type_invariant(self);
        }
        Span::from_secs(self.0)
    }
}

// ---------------------------------------------------------------------------
// Named levels
// ---------------------------------------------------------------------------
#[derive(Debug, Clone, Copy, PartialEq, Eq, Structural)]
pub enum LogLevel {
    Debug,
    Info,
    Warn,
    Error,
}

pub open spec fn log_level_named(name: Seq<char>) -> Option<LogLevel> {
    if name == "debug"@ {
        Some(LogLevel::Debug)
    } else if name == "info"@ {
        Some(LogLevel::Info)
    } else if name == "warn"@ {
        Some(LogLevel::Warn)
    } else if name == "error"@ {
        Some(LogLevel::Error)
    } else {
        None
    }
}

impl Default for LogLevel {
    fn default() -> (level: Self)
        ensures
            level == LogLevel::Info,
    {
        LogLevel::Info
    }
}

impl LogLevel {
    pub fn from_name(name: &str) -> (r: Option<LogLevel>)
        ensures
            r == log_level_named(name@),
    {
        if same(name, "debug") {
            Some(LogLevel::Debug)
        } else if same(name, "info") {
            Some(LogLevel::Info)
        } else if same(name, "warn") {
            Some(LogLevel::Warn)
        } else if same(name, "error") {
            Some(LogLevel::Error)
        } else {
            None
        }
    }

    /// The name of the level, which is also its filter directive.
    pub fn directive(self) -> (name: &'static str)
        ensures
            name@ == match self {
                LogLevel::Debug => "debug"@,
                LogLevel::Info => "info"@,
                LogLevel::Warn => "warn"@,
                LogLevel::Error => "error"@,
            },
            log_level_named(name@) == Some(self),
    {
        proof {
            law_log_levels_have_one_name("debug"@);
            law_log_levels_have_one_name("info"@);
            law_log_levels_have_one_name("warn"@);
            law_log_levels_have_one_name("error"@);
        }
        match self {
            LogLevel::Debug => "debug",
            LogLevel::Info => "info",
            LogLevel::Warn => "warn",
            LogLevel::Error => "error",
        }
    }
}

/// How severe an incident is.
#[derive(Debug, Clone, Copy, PartialEq, Eq, Structural)]
pub enum Impact {
    NoImpact,
    Maintenance,
    Minor,
    Major,
    Critical,
}

pub open spec fn impact_named(name: Seq<char>) -> Option<Impact> {
    if name == "none"@ {
        Some(Impact::NoImpact)
    } else if name == "maintenance"@ {
        Some(Impact::Maintenance)
    } else if name == "minor"@ {
        Some(Impact::Minor)
    } else if name == "major"@ {
        Some(Impact::Major)
    } else if name == "critical"@ {
        Some(Impact::Critical)
    } else {
        None
    }
}

impl Impact {
    /// The place in the order of severity.
    pub open spec fn rank(self) -> int {
        match self {
            Impact::NoImpact => 0,
            Impact::Maintenance => 1,
            Impact::Minor => 2,
            Impact::Major => 3,
            Impact::Critical => 4,
        }
    }

    fn rank_value(self) -> (n: u8)
        ensures
            n == self.rank(),
    {
        match self {
            Impact::NoImpact => 0,
            Impact::Maintenance => 1,
            Impact::Minor => 2,
            Impact::Major => 3,
            Impact::Critical => 4,
        }
    }

    pub fn from_wire(s: &str) -> (r: Option<Impact>)
        ensures
            r == impact_named(s@),
    {
        if same(s, "none") {
            Some(Impact::NoImpact)
        } else if same(s, "maintenance") {
            Some(Impact::Maintenance)
        } else if same(s, "minor") {
            Some(Impact::Minor)
        } else if same(s, "major") {
            Some(Impact::Major)
        } else if same(s, "critical") {
            Some(Impact::Critical)
        } else {
            None
        }
    }

    /// Is this strictly less severe than `other`?
    pub fn below(self, other: Impact) -> (r: bool)
        ensures
            r == (self.rank() < other.rank()),
    {
        self.rank_value() < other.rank_value()
    }

    pub open spec fn label_text(self) -> Seq<char> {
        match self {
            Impact::NoImpact => "None"@,
            Impact::Maintenance => "Maintenance"@,
            Impact::Minor => "Minor"@,
            Impact::Major => "Major"@,
            Impact::Critical => "Critical"@,
        }
    }

    pub fn label(self) -> (label: &'static str)
        ensures
            label@ == self.label_text(),
    {
        match self {
            Impact::NoImpact => "None",
            Impact::Maintenance => "Maintenance",
            Impact::Minor => "Minor",
            Impact::Major => "Major",
            Impact::Critical => "Critical",
        }
    }
}

// ---------------------------------------------------------------------------
// What holds of every value
// ---------------------------------------------------------------------------
/// A text is refused exactly when it is blank, under the name of its field; any other is
/// taken without the white space around it.
pub proof fn law_only_blank_texts_are_refused(text: Seq<char>, field: Seq<char>)
    ensures
        is_blank(text) ==> non_empty(text, field) == Err::<Seq<char>, _>(EmptyFieldError(field)),
        !is_blank(text) ==> non_empty(text, field) == Ok::<_, EmptyFieldError<Seq<char>>>(
            trimmed(text),
        ),
{
    law_blank_text_trims_to_nothing(text);
}

/// In the environment key of a logical name, behind the prefix, a letter stands as its
/// capital, a digit as it is, and anything else as an underscore; the key of the file
/// has a suffix more.
pub proof fn law_env_keys_follow_the_name(name: Seq<char>, i: int)
    requires
        0 <= i < name.len(),
    ensures
        "CHIME_WEBHOOK_"@.len() == 14,
        ({
            let c = name[i];
            let key = env_key_of(name)[14 + i];
            &&& 'a' <= c <= 'z' ==> key as int == c as int - 32
            &&& 'A' <= c <= 'Z' || '0' <= c <= '9' ==> key == c
            &&& !('a' <= c <= 'z' || 'A' <= c <= 'Z' || '0' <= c <= '9') ==> key == '_'
        }),
        file_key_of(name).len() == env_key_of(name).len() + 5,
        file_key_of(name).take(env_key_of(name).len() as int) == env_key_of(name),
        file_key_of(name).skip(env_key_of(name).len() as int) == "_FILE"@,
{
    reveal_strlit("CHIME_WEBHOOK_");
    reveal_strlit("_FILE");
    assert(file_key_of(name).take(env_key_of(name).len() as int) =~= env_key_of(name));
    assert(file_key_of(name).skip(env_key_of(name).len() as int) =~= "_FILE"@);
}

/// The seconds between ticks are taken as they are from 1 to 60, those between polls
/// from 60 to 3600; 300 stand in where none are given for polls, and all others are
/// refused by their number.
pub proof fn law_intervals_within_bounds_are_kept(n: i64)
    ensures
        1 <= n <= 60 ==> tick_interval_of(n) == Ok::<int, IntervalError>(n as int),
        n < 1 || n > 60 ==> tick_interval_of(n) == Err::<int, _>(IntervalError::OutOfRange(n)),
        60 <= n <= 3600 ==> poll_interval_of(Some(n)) == Ok::<int, PollIntervalError>(n as int),
        n < 60 || n > 3600 ==> poll_interval_of(Some(n)) == Err::<int, _>(
            PollIntervalError::OutOfRange(n),
        ),
        poll_interval_of(None) == Ok::<int, PollIntervalError>(300),
{
}

/// Each log level has one name, and no other text is one.
pub proof fn law_log_levels_have_one_name(name: Seq<char>)
    ensures
        log_level_named(name) == Some(LogLevel::Debug) <==> name == "debug"@,
        log_level_named(name) == Some(LogLevel::Info) <==> name == "info"@,
        log_level_named(name) == Some(LogLevel::Warn) <==> name == "warn"@,
        log_level_named(name) == Some(LogLevel::Error) <==> name == "error"@,
{
    reveal_strlit("debug");
    reveal_strlit("info");
    reveal_strlit("warn");
    reveal_strlit("error");
    assert("debug"@[0] != "error"@[0]);
    assert("info"@[0] != "warn"@[0]);
}

/// Each severity has one name, and no other text is one.
pub proof fn law_impacts_have_one_name(name: Seq<char>)
    ensures
        impact_named(name) == Some(Impact::NoImpact) <==> name == "none"@,
        impact_named(name) == Some(Impact::Maintenance) <==> name == "maintenance"@,
        impact_named(name) == Some(Impact::Minor) <==> name == "minor"@,
        impact_named(name) == Some(Impact::Major) <==> name == "major"@,
        impact_named(name) == Some(Impact::Critical) <==> name == "critical"@,
{
    reveal_strlit("none");
    reveal_strlit("maintenance");
    reveal_strlit("minor");
    reveal_strlit("major");
    reveal_strlit("critical");
    assert("none"@.len() == 4 && "maintenance"@.len() == 11 && "critical"@.len() == 8);
    assert("minor"@.len() == 5 && "major"@.len() == 5);
    assert("minor"@[1] == 'i' && "major"@[1] == 'a');
}

/// No impact is the least of the severities, and maintenance, minor, major and critical
/// come above it in that order.
pub proof fn law_severities_are_ordered(impact: Impact, other: Impact)
    ensures
        Impact::NoImpact.rank() < Impact::Maintenance.rank() < Impact::Minor.rank()
            < Impact::Major.rank() < Impact::Critical.rank(),
        impact.rank() == other.rank() ==> impact == other,
{
}

/// The label of a severity is its name with a capital: it reads back as the severity.
pub proof fn law_impact_labels_are_capitalised_names(impact: Impact)
    ensures
        impact_named(lowered(impact.label_text())) == Some(impact),
        impact.label_text().len() > 0,
        'A' <= impact.label_text()[0] <= 'Z',
        forall|i: int|
            0 < i < impact.label_text().len() ==> 'a' <= #[trigger] impact.label_text()[i] <= 'z',
{
    reveal_strlit("None");
    reveal_strlit("Maintenance");
    reveal_strlit("Minor");
    reveal_strlit("Major");
    reveal_strlit("Critical");
    reveal_strlit("none");
    reveal_strlit("maintenance");
    reveal_strlit("minor");
    reveal_strlit("major");
    reveal_strlit("critical");
    law_impacts_have_one_name(lowered(impact.label_text()));
    match impact {
        Impact::NoImpact => {
            assert(lowered("None"@) =~= "none"@);
        },
        Impact::Maintenance => {
            assert(lowered("Maintenance"@) =~= "maintenance"@);
        },
        Impact::Minor => {
            assert(lowered("Minor"@) =~= "minor"@);
        },
        Impact::Major => {
            assert(lowered("Major"@) =~= "major"@);
        },
        Impact::Critical => {
            assert(lowered("Critical"@) =~= "critical"@);
        },
    }
}

} // verus!
