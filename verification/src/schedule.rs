//! When a reminder fires: times of day, weekdays and days of the month.

use std::str::FromStr;
use vstd::prelude::*;

use crate::clock::Weekday;
use crate::text::{is_digit, lowered, result_view, same, seq_view, to_chars, to_lower};

verus! {

// ---------------------------------------------------------------------------
// Time of day
// ---------------------------------------------------------------------------
#[derive(Debug)]
pub enum TimeError<S = String> {
    /// Not `HH:MM` but this.
    Format(S),
    /// The hour is not in `0..=23`.
    Hour(u32),
    /// The minute is not in `0..=59`.
    Minute(u32),
}

impl View for TimeError {
    type V = TimeError<Seq<char>>;

    open spec fn view(&self) -> TimeError<Seq<char>> {
        match self {
            TimeError::Format(text) => TimeError::Format(text@),
            TimeError::Hour(hour) => TimeError::Hour(*hour),
            TimeError::Minute(minute) => TimeError::Minute(*minute),
        }
    }
}

#[derive(Debug, Clone, Copy, PartialEq, Eq, Structural)]
pub struct TimeOfDay {
    pub hour: u32,
    pub minute: u32,
}

impl View for TimeOfDay {
    type V = TimeOfDay;

    open spec fn view(&self) -> TimeOfDay {
        *self
    }
}

/// Two digits, a colon and two digits.
pub open spec fn is_hh_mm(s: Seq<char>) -> bool {
    &&& s.len() == 5
    &&& is_digit(s[0])
    &&& is_digit(s[1])
    &&& s[2] == ':'
    &&& is_digit(s[3])
    &&& is_digit(s[4])
}

/// The number that two digits stand for.
pub open spec fn two_digits(tens: char, ones: char) -> u32 {
    ((tens as u32 - '0' as u32) * 10 + (ones as u32 - '0' as u32)) as u32
}

/// The time of day that a text of the form `HH:MM` stands for.
pub open spec fn time_of(s: Seq<char>) -> Result<TimeOfDay, TimeError<Seq<char>>> {
    if !is_hh_mm(s) {
        Err(TimeError::Format(s))
    } else {
        let hour = two_digits(s[0], s[1]);
        let minute = two_digits(s[3], s[4]);
        if hour > 23 {
            Err(TimeError::Hour(hour))
        } else if minute > 59 {
            Err(TimeError::Minute(minute))
        } else {
            Ok(TimeOfDay { hour, minute })
        }
    }
}

fn digit(c: char) -> (r: Option<u32>)
    ensures
        r == if is_digit(c) {
            Some((c as u32 - '0' as u32) as u32)
        } else {
            None
        },
{
    if '0' <= c && c <= '9' {
        Some(c as u32 - '0' as u32)
    } else {
        None
    }
}

impl FromStr for TimeOfDay {
    type Err = TimeError;

    fn from_str(s: &str) -> (r: Result<Self, TimeError>)
        ensures
            result_view(r) == time_of(s@),
    {
        let chars = to_chars(s);
        if chars.len() != 5 || chars[2] != ':' {
            return Err(TimeError::Format(s.to_owned()));
        }
        match (digit(chars[0]), digit(chars[1]), digit(chars[3]), digit(chars[4])) {
            (Some(h), Some(hh), Some(m), Some(mm)) => {
                let hour: u32 = h * 10 + hh;
                let minute: u32 = m * 10 + mm;
                if hour > 23 {
                    Err(TimeError::Hour(hour))
                } else if minute > 59 {
                    Err(TimeError::Minute(minute))
                } else {
                    Ok(TimeOfDay { hour, minute })
                }
            },
            _ => Err(TimeError::Format(s.to_owned())),
        }
    }
}

/// What is not of the form `HH:MM` is no time of day, and is given back as it is; and
/// every time of day is written in one way only.
pub proof fn law_times_are_written_in_one_way(s: Seq<char>, other: Seq<char>)
    ensures
        !is_hh_mm(s) <==> time_of(s) == Err::<TimeOfDay, _>(TimeError::Format(s)),
        time_of(s) matches Ok(time) ==> time.hour <= 23 && time.minute <= 59,
        time_of(s) is Ok && time_of(s) == time_of(other) ==> s == other,
{
    if time_of(s) is Ok && time_of(s) == time_of(other) {
        assert(s =~= other);
    }
}

impl TryFrom<String> for TimeOfDay {
    type Error = TimeError;

    fn try_from(s: String) -> (r: Result<Self, TimeError>)
        ensures
            result_view(r) == time_of(s@),
    {
        TimeOfDay::from_str(s.as_str())
    }
}

impl vstd::std_specs::convert::TryFromSpecImpl<String> for TimeOfDay {
    open spec fn obeys_try_from_spec() -> bool {
        false
    }

    open spec fn try_from_spec(s: String) -> Result<Self, TimeError> {
        arbitrary()
    }
}

// ---------------------------------------------------------------------------
// Weekdays
// ---------------------------------------------------------------------------
#[derive(Debug)]
pub enum WeekdayError<S = String> {
    Empty,
    Unknown(S),
}

impl View for WeekdayError {
    type V = WeekdayError<Seq<char>>;

    open spec fn view(&self) -> WeekdayError<Seq<char>> {
        match self {
            WeekdayError::Empty => WeekdayError::Empty,
            WeekdayError::Unknown(day) => WeekdayError::Unknown(day@),
        }
    }
}

/// A set of weekdays: bit `i` stands for the day `i` days after Monday.
#[derive(Debug, Clone, Copy, PartialEq, Eq, Structural)]
pub struct WeekdaySet(u8);

spec fn week_bit(bits: u8, i: u8) -> bool {
    bits & (1u8 << i) != 0
}

impl View for WeekdaySet {
    type V = Set<Weekday>;

    closed spec fn view(&self) -> Set<Weekday> {
        Set::new(|day: Weekday| week_bit(self.0, day.index() as u8))
    }
}

/// The weekday of a lower-case three-letter name.
pub open spec fn weekday_named(name: Seq<char>) -> Option<Weekday> {
    if name == "mon"@ {
        Some(Weekday::Mon)
    } else if name == "tue"@ {
        Some(Weekday::Tue)
    } else if name == "wed"@ {
        Some(Weekday::Wed)
    } else if name == "thu"@ {
        Some(Weekday::Thu)
    } else if name == "fri"@ {
        Some(Weekday::Fri)
    } else if name == "sat"@ {
        Some(Weekday::Sat)
    } else if name == "sun"@ {
        Some(Weekday::Sun)
    } else {
        None
    }
}

/// In any mixture of cases, `word` is the name of a weekday or `every`.
pub open spec fn is_day_word(word: Seq<char>) -> bool {
    lowered(word) == "every"@ || weekday_named(lowered(word)) is Some
}

/// In any mixture of cases, `word` is the name of `day` or `every`.
pub open spec fn word_covers(word: Seq<char>, day: Weekday) -> bool {
    lowered(word) == "every"@ || weekday_named(lowered(word)) == Some(day)
}

/// The first of `words` that names no day.
pub open spec fn first_unknown(words: Seq<Seq<char>>) -> Option<Seq<char>>
    decreases words.len(),
{
    if words.len() == 0 {
        None
    } else if !is_day_word(words[0]) {
        Some(words[0])
    } else {
        first_unknown(words.drop_first())
    }
}

/// The days that at least one of `words` covers.
pub open spec fn covered_days(words: Seq<Seq<char>>) -> Set<Weekday> {
    Set::new(
        |day: Weekday|
            exists|i: int| 0 <= i < words.len() && word_covers(#[trigger] words[i], day),
    )
}

pub open spec fn weekdays_of(words: Seq<Seq<char>>) -> Result<
    Set<Weekday>,
    WeekdayError<Seq<char>>,
> {
    if words.len() == 0 {
        Err(WeekdayError::Empty)
    } else {
        match first_unknown(words) {
            Some(word) => Err(WeekdayError::Unknown(word)),
            None => Ok(covered_days(words)),
        }
    }
}

fn parse_weekday(name: &str) -> (r: Option<Weekday>)
    ensures
        r == weekday_named(name@),
{
    if same(name, "mon") {
        Some(Weekday::Mon)
    } else if same(name, "tue") {
        Some(Weekday::Tue)
    } else if same(name, "wed") {
        Some(Weekday::Wed)
    } else if same(name, "thu") {
        Some(Weekday::Thu)
    } else if same(name, "fri") {
        Some(Weekday::Fri)
    } else if same(name, "sat") {
        Some(Weekday::Sat)
    } else if same(name, "sun") {
        Some(Weekday::Sun)
    } else {
        None
    }
}

proof fn lemma_first_unknown_is_found(words: Seq<Seq<char>>, n: int)
    requires
        0 <= n < words.len(),
        forall|i: int| 0 <= i < n ==> is_day_word(#[trigger] words[i]),
        !is_day_word(words[n]),
    ensures
        first_unknown(words) == Some(words[n]),
    decreases n,
{
    if n > 0 {
        assert(is_day_word(words[0]));
        assert forall|i: int| 0 <= i < n - 1 implies is_day_word(
            #[trigger] words.drop_first()[i],
        ) by {
            assert(is_day_word(words[i + 1]));
        }
        lemma_first_unknown_is_found(words.drop_first(), n - 1);
    }
}

proof fn lemma_no_unknown(words: Seq<Seq<char>>)
    requires
        forall|i: int| 0 <= i < words.len() ==> is_day_word(#[trigger] words[i]),
    ensures
        first_unknown(words) is None,
    decreases words.len(),
{
    if words.len() > 0 {
        assert forall|i: int| 0 <= i < words.len() - 1 implies is_day_word(
            #[trigger] words.drop_first()[i],
        ) by {
            assert(is_day_word(words[i + 1]));
        }
        lemma_no_unknown(words.drop_first());
    }
}

proof fn lemma_week_bits(bits: u8, i: u8, j: u8)
    requires
        i < 7,
        j < 7,
    ensures
        week_bit(bits | (1u8 << j), i) == (week_bit(bits, i) || i == j),
        week_bit(0b0111_1111, i),
        !week_bit(0, i),
{
    assert(i < 7 && j < 7 ==> (((bits | (1u8 << j)) & (1u8 << i) != 0) == ((bits & (1u8 << i) != 0)
        || i == j)) && (0b0111_1111u8 & (1u8 << i) != 0) && (0u8 & (1u8 << i) == 0))
        by (bit_vector);
}

impl WeekdaySet {
    pub fn contains(self, day: Weekday) -> (r: bool)
        ensures
            r == self@.contains(day),
    {
        let i: u8 = day.num_days_from_monday();
        (self.0 & (1u8 << i)) != 0
    }

    /// The days that a list of day names and `every` stands for.
    pub fn from_words(words: &Vec<String>) -> (r: Result<WeekdaySet, WeekdayError>)
        ensures
            result_view(r) == weekdays_of(seq_view(words@)),
    {
        if words.is_empty() {
            return Err(WeekdayError::Empty);
        }
        let ghost model = seq_view(words@);
        let mut bits: u8 = 0;
        proof {
            assert forall|day: Weekday| !#[trigger] week_bit(0, day.index() as u8) by {
                lemma_week_bits(0, day.index() as u8, 0);
            }
        }
        for k in 0..words.len()
            invariant
                model == seq_view(words@),
                words@.len() > 0,
                forall|i: int| 0 <= i < k ==> is_day_word(#[trigger] model[i]),
                forall|day: Weekday| #[trigger]
                    week_bit(bits, day.index() as u8) == exists|i: int|
                        0 <= i < k && word_covers(#[trigger] model[i], day),
        {
            let ghost before = bits;
            let word = to_lower(words[k].as_str());
            assert(model[k as int] == words@[k as int]@);
            if same(word.as_str(), "every") {
                bits = 0b0111_1111;
                assert forall|day: Weekday| #[trigger]
                    week_bit(bits, day.index() as u8) == exists|i: int|
                        0 <= i < k + 1 && word_covers(#[trigger] model[i], day) by {
                    lemma_week_bits(bits, day.index() as u8, 0);
                    assert(word_covers(model[k as int], day));
                }
            } else {
                match parse_weekday(word.as_str()) {
                    None => {
                        proof {
                            lemma_first_unknown_is_found(model, k as int);
                        }
                        return Err(WeekdayError::Unknown(words[k].clone()));
                    },
                    Some(named) => {
                        let j: u8 = named.num_days_from_monday();
                        bits = bits | (1u8 << j);
                        assert forall|day: Weekday| #[trigger]
                            week_bit(bits, day.index() as u8) == exists|i: int|
                                0 <= i < k + 1 && word_covers(#[trigger] model[i], day) by {
                            lemma_week_bits(before, day.index() as u8, j);
                            assert(week_bit(before, day.index() as u8) == exists|i: int|
                                0 <= i < k && word_covers(#[trigger] model[i], day));
                            assert(word_covers(model[k as int], day) == (named == day));
                            if exists|i: int|
                                0 <= i < k + 1 && word_covers(#[trigger] model[i], day) {
                                let i = choose|i: int|
                                    0 <= i < k + 1 && word_covers(#[trigger] model[i], day);
                                if i < k {
                                    assert(week_bit(before, day.index() as u8));
                                }
                            }
                        }
                    },
                }
            }
        }
        let set = WeekdaySet(bits);
        proof {
            lemma_no_unknown(model);
            assert(set@ =~= covered_days(model));
        }
        Ok(set)
    }
}

impl TryFrom<Vec<String>> for WeekdaySet {
    type Error = WeekdayError;

    fn try_from(days: Vec<String>) -> (r: Result<Self, WeekdayError>)
        ensures
            result_view(r) == weekdays_of(seq_view(days@)),
    {
        WeekdaySet::from_words(&days)
    }
}

impl vstd::std_specs::convert::TryFromSpecImpl<Vec<String>> for WeekdaySet {
    open spec fn obeys_try_from_spec() -> bool {
        false
    }

    open spec fn try_from_spec(days: Vec<String>) -> Result<Self, WeekdayError> {
        arbitrary()
    }
}

// ---------------------------------------------------------------------------
// Days of the month
// ---------------------------------------------------------------------------
#[derive(Debug, Clone, Copy, PartialEq, Eq, Structural)]
pub enum DayOfMonthError {
    Empty,
    /// Not in `1..=31`.
    OutOfRange(i64),
}

impl View for DayOfMonthError {
    type V = DayOfMonthError;

    open spec fn view(&self) -> DayOfMonthError {
        *self
    }
}

/// A set of days of the month: bit `i` stands for the day `i + 1`.
#[derive(Debug, Clone, Copy, PartialEq, Eq, Structural)]
pub struct DayOfMonthSet(u32);

spec fn month_bit(bits: u32, i: u32) -> bool {
    bits & (1u32 << i) != 0
}

impl View for DayOfMonthSet {
    type V = Set<int>;

    closed spec fn view(&self) -> Set<int> {
        Set::new(|day: int| 1 <= day <= 31 && month_bit(self.0, (day - 1) as u32))
    }
}

/// The first of `days` that no month has.
pub open spec fn first_out_of_range(days: Seq<i64>) -> Option<i64>
    decreases days.len(),
{
    if days.len() == 0 {
        None
    } else if !(1 <= days[0] <= 31) {
        Some(days[0])
    } else {
        first_out_of_range(days.drop_first())
    }
}

pub open spec fn month_days_of(days: Seq<i64>) -> Result<Set<int>, DayOfMonthError> {
    if days.len() == 0 {
        Err(DayOfMonthError::Empty)
    } else {
        match first_out_of_range(days) {
            Some(day) => Err(DayOfMonthError::OutOfRange(day)),
            None => Ok(Set::new(|day: int| exists|i: int| 0 <= i < days.len() && days[i] == day)),
        }
    }
}

proof fn lemma_first_out_of_range_is_found(days: Seq<i64>, n: int)
    requires
        0 <= n < days.len(),
        forall|i: int| 0 <= i < n ==> 1 <= #[trigger] days[i] <= 31,
        !(1 <= days[n] <= 31),
    ensures
        first_out_of_range(days) == Some(days[n]),
    decreases n,
{
    if n > 0 {
        assert(1 <= days[0] <= 31);
        assert forall|i: int| 0 <= i < n - 1 implies 1 <= #[trigger] days.drop_first()[i] <= 31 by {
            assert(1 <= days[i + 1] <= 31);
        }
        lemma_first_out_of_range_is_found(days.drop_first(), n - 1);
    }
}

proof fn lemma_none_out_of_range(days: Seq<i64>)
    requires
        forall|i: int| 0 <= i < days.len() ==> 1 <= #[trigger] days[i] <= 31,
    ensures
        first_out_of_range(days) is None,
    decreases days.len(),
{
    if days.len() > 0 {
        assert forall|i: int| 0 <= i < days.len() - 1 implies 1 <= #[trigger] days.drop_first()[i]
            <= 31 by {
            assert(1 <= days[i + 1] <= 31);
        }
        lemma_none_out_of_range(days.drop_first());
    }
}

proof fn lemma_all_in_range(days: Seq<i64>)
    requires
        first_out_of_range(days) is None,
    ensures
        forall|i: int| 0 <= i < days.len() ==> 1 <= #[trigger] days[i] <= 31,
    decreases days.len(),
{
    if days.len() > 0 {
        lemma_all_in_range(days.drop_first());
        assert forall|i: int| 0 <= i < days.len() implies 1 <= #[trigger] days[i] <= 31 by {
            if i > 0 {
                assert(1 <= days.drop_first()[i - 1] <= 31);
            }
        }
    }
}

proof fn lemma_month_bits(bits: u32, i: u32, j: u32)
    requires
        i < 31,
        j < 31,
    ensures
        month_bit(bits | (1u32 << j), i) == (month_bit(bits, i) || i == j),
        !month_bit(0, i),
{
    assert(i < 31 && j < 31 ==> (((bits | (1u32 << j)) & (1u32 << i) != 0) == ((bits & (1u32 << i)
        != 0) || i == j)) && (0u32 & (1u32 << i) == 0)) by (bit_vector);
}

impl DayOfMonthSet {
    pub fn contains(self, day: u32) -> (r: bool)
        ensures
            r == self@.contains(day as int),
    {
        1 <= day && day <= 31 && (self.0 & (1u32 << (day - 1))) != 0
    }

    /// The days that a list of numbers stands for.
    pub fn from_numbers(days: &Vec<i64>) -> (r: Result<DayOfMonthSet, DayOfMonthError>)
        ensures
            result_view(r) == month_days_of(days@),
    {
        if days.is_empty() {
            return Err(DayOfMonthError::Empty);
        }
        let mut bits: u32 = 0;
        proof {
            assert forall|i: u32| i < 31 implies !#[trigger] month_bit(0, i) by {
                lemma_month_bits(0, i, 0);
            }
        }
        for k in 0..days.len()
            invariant
                days@.len() > 0,
                forall|i: int| 0 <= i < k ==> 1 <= #[trigger] days@[i] <= 31,
                forall|d: u32|
                    d < 31 ==> #[trigger] month_bit(bits, d) == exists|i: int|
                        0 <= i < k && #[trigger] days@[i] == d + 1,
        {
            let ghost before = bits;
            let day = days[k];
            if day < 1 || day > 31 {
                proof {
                    lemma_first_out_of_range_is_found(days@, k as int);
                }
                return Err(DayOfMonthError::OutOfRange(day));
            }
            let j: u32 = day as u32 - 1;
            bits = bits | (1u32 << j);
            assert forall|d: u32| d < 31 implies #[trigger] month_bit(bits, d) == exists|i: int|
                0 <= i < k + 1 && #[trigger] days@[i] == d + 1 by {
                lemma_month_bits(before, d, j);
                assert(month_bit(before, d) == exists|i: int|
                    0 <= i < k && #[trigger] days@[i] == d + 1);
                assert((d == j) == (days@[k as int] == d + 1));
            }
        }
        let set = DayOfMonthSet(bits);
        proof {
            lemma_none_out_of_range(days@);
            let model = month_days_of(days@)->Ok_0;
            assert forall|day: int| set@.contains(day) == model.contains(day) by {
                if 1 <= day <= 31 {
                    let d = (day - 1) as u32;
                    assert(month_bit(bits, d) == exists|i: int|
                        0 <= i < days@.len() && #[trigger] days@[i] == d + 1);
                }
            }
            assert(set@ =~= model);
        }
        Ok(set)
    }
}

impl TryFrom<Vec<i64>> for DayOfMonthSet {
    type Error = DayOfMonthError;

    fn try_from(days: Vec<i64>) -> (r: Result<Self, DayOfMonthError>)
        ensures
            result_view(r) == month_days_of(days@),
    {
        DayOfMonthSet::from_numbers(&days)
    }
}

impl vstd::std_specs::convert::TryFromSpecImpl<Vec<i64>> for DayOfMonthSet {
    open spec fn obeys_try_from_spec() -> bool {
        false
    }

    open spec fn try_from_spec(days: Vec<i64>) -> Result<Self, DayOfMonthError> {
        arbitrary()
    }
}

// ---------------------------------------------------------------------------
// Schedules
// ---------------------------------------------------------------------------
#[derive(Debug, Clone, Copy, PartialEq, Eq, Structural)]
pub enum ScheduleError {
    /// Neither `days` nor `day_of_month` is given.
    Missing,
    /// Both are.
    Conflict,
}

impl View for ScheduleError {
    type V = ScheduleError;

    open spec fn view(&self) -> ScheduleError {
        *self
    }
}

/// A reminder fires on either weekdays or days of the month, never both.
#[derive(Debug, Clone, Copy, PartialEq, Eq)]
pub enum Schedule<W = WeekdaySet, M = DayOfMonthSet> {
    Weekly(W),
    Monthly(M),
}

impl View for Schedule {
    type V = Schedule<Set<Weekday>, Set<int>>;

    open spec fn view(&self) -> Schedule<Set<Weekday>, Set<int>> {
        match self {
            Schedule::Weekly(days) => Schedule::Weekly(days@),
            Schedule::Monthly(days) => Schedule::Monthly(days@),
        }
    }
}

/// The schedule of a reminder that is given `days`, `day_of_month`, both or
/// neither.
pub open spec fn schedule_of(
    days: Option<Set<Weekday>>,
    day_of_month: Option<Set<int>>,
) -> Result<Schedule<Set<Weekday>, Set<int>>, ScheduleError> {
    match (days, day_of_month) {
        (Some(days), None) => Ok(Schedule::Weekly(days)),
        (None, Some(days)) => Ok(Schedule::Monthly(days)),
        (None, None) => Err(ScheduleError::Missing),
        (Some(_), Some(_)) => Err(ScheduleError::Conflict),
    }
}

/// An accepted list of weekdays names some day, and `every` in it names them all.
pub proof fn law_weekday_lists_name_some_day(words: Seq<Seq<char>>)
    requires
        weekdays_of(words) is Ok,
    ensures
        exists|day: Weekday| weekdays_of(words)->Ok_0.contains(day),
        forall|i: int, day: Weekday|
            0 <= i < words.len() && lowered(#[trigger] words[i]) == "every"@
                ==> #[trigger] weekdays_of(words)->Ok_0.contains(day),
{
    let set = weekdays_of(words)->Ok_0;
    assert(is_day_word(words[0]));
    let day = if lowered(words[0]) == "every"@ {
        Weekday::Mon
    } else {
        weekday_named(lowered(words[0]))->Some_0
    };
    assert(word_covers(words[0], day));
    assert(set.contains(day));
    assert forall|i: int, day: Weekday|
        0 <= i < words.len() && lowered(#[trigger] words[i])
            == "every"@ implies #[trigger] set.contains(day) by {
        assert(word_covers(words[i], day));
    }
}

/// An accepted list of days of the month holds the days that it lists, which are
/// some, and all between 1 and 31.
pub proof fn law_month_day_lists_name_some_day(days: Seq<i64>)
    requires
        month_days_of(days) is Ok,
    ensures
        exists|day: int| month_days_of(days)->Ok_0.contains(day),
        forall|day: int| month_days_of(days)->Ok_0.contains(day) ==> 1 <= day <= 31,
        forall|i: int|
            0 <= i < days.len() ==> month_days_of(days)->Ok_0.contains(#[trigger] days[i] as int),
{
    lemma_all_in_range(days);
    let set = month_days_of(days)->Ok_0;
    assert(days[0] == days[0] as int);
    assert(set.contains(days[0] as int));
}

// ---------------------------------------------------------------------------
// What holds of every schedule
// ---------------------------------------------------------------------------
/// The digit that stands for a number under ten.
pub open spec fn digit_char(n: int) -> char {
    ('0' as int + n) as char
}

/// An hour and a minute, two digits each, with a colon between them.
pub open spec fn written_time(hour: int, minute: int) -> Seq<char> {
    seq![
        digit_char(hour / 10),
        digit_char(hour % 10),
        ':',
        digit_char(minute / 10),
        digit_char(minute % 10),
    ]
}

/// A time that is written down reads back: the hour up to 23, the minute up to 59. An
/// hour beyond that is refused by its number, and so is a minute after a good hour.
pub proof fn law_written_times_read_back(hour: int, minute: int)
    requires
        0 <= hour <= 99,
        0 <= minute <= 99,
    ensures
        hour <= 23 && minute <= 59 ==> time_of(written_time(hour, minute)) == Ok::<
            _,
            TimeError<Seq<char>>,
        >(TimeOfDay { hour: hour as u32, minute: minute as u32 }),
        hour > 23 ==> time_of(written_time(hour, minute)) == Err::<TimeOfDay, _>(
            TimeError::<Seq<char>>::Hour(hour as u32),
        ),
        hour <= 23 && minute > 59 ==> time_of(written_time(hour, minute)) == Err::<TimeOfDay, _>(
            TimeError::<Seq<char>>::Minute(minute as u32),
        ),
{
    let s = written_time(hour, minute);
    assert(two_digits(s[0], s[1]) == hour as u32);
    assert(two_digits(s[3], s[4]) == minute as u32);
}

/// What is not written as a time is refused as it is.
pub proof fn law_other_texts_are_no_times(s: Seq<char>)
    requires
        forall|hour: int, minute: int|
            0 <= hour <= 99 && 0 <= minute <= 99 ==> s != #[trigger] written_time(hour, minute),
    ensures
        time_of(s) == Err::<TimeOfDay, _>(TimeError::Format(s)),
{
    if is_hh_mm(s) {
        let hour = (s[0] as int - '0' as int) * 10 + (s[1] as int - '0' as int);
        let minute = (s[3] as int - '0' as int) * 10 + (s[4] as int - '0' as int);
        assert(written_time(hour, minute) =~= s);
    }
}

/// The three letters that stand for a weekday.
pub open spec fn day_name(day: Weekday) -> Seq<char> {
    match day {
        Weekday::Mon => "mon"@,
        Weekday::Tue => "tue"@,
        Weekday::Wed => "wed"@,
        Weekday::Thu => "thu"@,
        Weekday::Fri => "fri"@,
        Weekday::Sat => "sat"@,
        Weekday::Sun => "sun"@,
    }
}

/// In any mixture of cases, `word` is `every` or one of the seven names.
pub open spec fn says_a_day(word: Seq<char>) -> bool {
    lowered(word) == "every"@ || exists|day: Weekday| lowered(word) == #[trigger] day_name(day)
}

/// Each weekday has one name, and no other text is one.
pub proof fn law_weekdays_have_one_name(name: Seq<char>, day: Weekday)
    ensures
        weekday_named(name) == Some(day) <==> name == day_name(day),
        name != "every"@ || weekday_named(name) is None,
{
    reveal_strlit("mon");
    reveal_strlit("tue");
    reveal_strlit("wed");
    reveal_strlit("thu");
    reveal_strlit("fri");
    reveal_strlit("sat");
    reveal_strlit("sun");
    reveal_strlit("every");
    assert("mon"@[0] == 'm' && "wed"@[0] == 'w' && "fri"@[0] == 'f');
    assert("tue"@[0] == 't' && "tue"@[1] == 'u' && "thu"@[0] == 't' && "thu"@[1] == 'h');
    assert("sat"@[0] == 's' && "sat"@[1] == 'a' && "sun"@[0] == 's' && "sun"@[1] == 'u');
}

/// The days of a list are those that it names, and all seven where it says `every`. A
/// list is refused when it is empty, and by the first word that says no day.
pub proof fn law_weekday_lists_hold_what_they_name(words: Seq<Seq<char>>)
    ensures
        words.len() == 0 <==> weekdays_of(words) == Err::<Set<Weekday>, _>(
            WeekdayError::<Seq<char>>::Empty,
        ),
        weekdays_of(words) is Ok <==> words.len() > 0 && forall|i: int|
            0 <= i < words.len() ==> says_a_day(#[trigger] words[i]),
        weekdays_of(words) matches Ok(days) ==> forall|day: Weekday| #[trigger]
            days.contains(day) <==> exists|i: int|
                0 <= i < words.len() && (lowered(#[trigger] words[i]) == "every"@ || lowered(
                    words[i],
                ) == day_name(day)),
        forall|n: int|
            0 <= n < words.len() && !says_a_day(#[trigger] words[n]) && (forall|i: int|
                0 <= i < n ==> says_a_day(#[trigger] words[i])) ==> weekdays_of(words) == Err::<
                Set<Weekday>,
                _,
            >(WeekdayError::Unknown(words[n])),
{
    assert forall|i: int| 0 <= i < words.len() implies says_a_day(#[trigger] words[i])
        == is_day_word(words[i]) by {
        lemma_day_words(words[i]);
    }
    assert forall|n: int|
        0 <= n < words.len() && !says_a_day(#[trigger] words[n]) && (forall|i: int|
            0 <= i < n ==> says_a_day(#[trigger] words[i])) implies weekdays_of(words) == Err::<
        Set<Weekday>,
        _,
    >(WeekdayError::Unknown(words[n])) by {
        lemma_first_unknown_is_found(words, n);
    }
    if forall|i: int| 0 <= i < words.len() ==> says_a_day(#[trigger] words[i]) {
        lemma_no_unknown(words);
    } else {
        let n = lemma_some_first_unknown(words);
        lemma_first_unknown_is_found(words, n);
    }
    if weekdays_of(words) is Ok {
        let days = weekdays_of(words)->Ok_0;
        assert forall|day: Weekday| #[trigger] days.contains(day) <==> exists|i: int|
            0 <= i < words.len() && (lowered(#[trigger] words[i]) == "every"@ || lowered(words[i])
                == day_name(day)) by {
            assert forall|i: int| 0 <= i < words.len() implies word_covers(
                #[trigger] words[i],
                day,
            ) == (lowered(words[i]) == "every"@ || lowered(words[i]) == day_name(day)) by {
                law_weekdays_have_one_name(lowered(words[i]), day);
            }
        }
    }
}

proof fn lemma_day_words(word: Seq<char>)
    ensures
        says_a_day(word) == is_day_word(word),
{
    let name = lowered(word);
    if weekday_named(name) is Some {
        law_weekdays_have_one_name(name, weekday_named(name)->Some_0);
        assert(name == day_name(weekday_named(name)->Some_0));
    }
    if exists|day: Weekday| name == #[trigger] day_name(day) {
        let day = choose|day: Weekday| name == #[trigger] day_name(day);
        law_weekdays_have_one_name(name, day);
    }
}

proof fn lemma_some_first_unknown(words: Seq<Seq<char>>) -> (n: int)
    requires
        exists|i: int| 0 <= i < words.len() && !is_day_word(#[trigger] words[i]),
    ensures
        0 <= n < words.len(),
        !is_day_word(words[n]),
        forall|i: int| 0 <= i < n ==> is_day_word(#[trigger] words[i]),
    decreases words.len(),
{
    let k = choose|i: int| 0 <= i < words.len() && !is_day_word(#[trigger] words[i]);
    if exists|i: int| 0 <= i < k && !is_day_word(#[trigger] words[i]) {
        let before = words.take(k);
        let i = choose|i: int| 0 <= i < k && !is_day_word(#[trigger] words[i]);
        assert(before[i] == words[i]);
        let n = lemma_some_first_unknown(before);
        assert(before[n] == words[n]);
        assert forall|i: int| 0 <= i < n implies is_day_word(#[trigger] words[i]) by {
            assert(before[i] == words[i]);
        }
        n
    } else {
        k
    }
}

/// The days of the month of a list are the numbers in it. A list is refused when it is
/// empty, and by the first number that is not from 1 to 31.
pub proof fn law_month_day_lists_hold_what_they_name(days: Seq<i64>)
    ensures
        days.len() == 0 <==> month_days_of(days) == Err::<Set<int>, _>(DayOfMonthError::Empty),
        month_days_of(days) is Ok <==> days.len() > 0 && forall|i: int|
            0 <= i < days.len() ==> 1 <= #[trigger] days[i] <= 31,
        month_days_of(days) matches Ok(set) ==> forall|day: int| #[trigger]
            set.contains(day) <==> exists|i: int| 0 <= i < days.len() && #[trigger] days[i] == day,
        forall|n: int|
            0 <= n < days.len() && !(1 <= #[trigger] days[n] <= 31) && (forall|i: int|
                0 <= i < n ==> 1 <= #[trigger] days[i] <= 31) ==> month_days_of(days) == Err::<
                Set<int>,
                _,
            >(DayOfMonthError::OutOfRange(days[n])),
{
    assert forall|n: int|
        0 <= n < days.len() && !(1 <= #[trigger] days[n] <= 31) && (forall|i: int|
            0 <= i < n ==> 1 <= #[trigger] days[i] <= 31) implies month_days_of(days) == Err::<
        Set<int>,
        _,
    >(DayOfMonthError::OutOfRange(days[n])) by {
        lemma_first_out_of_range_is_found(days, n);
    }
    if forall|i: int| 0 <= i < days.len() ==> 1 <= #[trigger] days[i] <= 31 {
        lemma_none_out_of_range(days);
    }
    if first_out_of_range(days) is None {
        lemma_all_in_range(days);
    }
}

/// A reminder with weekdays alone is weekly, one with days of the month alone is monthly,
/// on the very days that it is given; with neither, or with both, it has no schedule.
pub proof fn law_one_kind_of_days_makes_a_schedule(days: Set<Weekday>, day_of_month: Set<int>)
    ensures
        schedule_of(Some(days), None) == Ok::<_, ScheduleError>(
            Schedule::<Set<Weekday>, Set<int>>::Weekly(days),
        ),
        schedule_of(None, Some(day_of_month)) == Ok::<_, ScheduleError>(
            Schedule::<Set<Weekday>, Set<int>>::Monthly(day_of_month),
        ),
        schedule_of(None, None) == Err::<Schedule<Set<Weekday>, Set<int>>, _>(
            ScheduleError::Missing,
        ),
        schedule_of(Some(days), Some(day_of_month)) == Err::<Schedule<Set<Weekday>, Set<int>>, _>(
            ScheduleError::Conflict,
        ),
{
}

} // verus!
