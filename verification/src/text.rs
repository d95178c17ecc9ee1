//! Character-level text operations and the views of optional, fallible and
//! listed values.

use vstd::prelude::*;
use vstd::string::*;

verus! {

/// The standard library's [`String::push`]: the character is appended and
/// nothing else changes.
pub assume_specification[ String::push ](s: &mut String, ch: char)
    ensures
        final(s)@ == old(s)@.push(ch),
;

/// The view of an optional value.
pub open spec fn opt_view<A: View>(value: Option<A>) -> Option<A::V> {
    match value {
        Some(a) => Some(a@),
        None => None,
    }
}

/// The view of a fallible value: both sides are taken by their views.
pub open spec fn result_view<A: View, E: View>(value: Result<A, E>) -> Result<A::V, E::V> {
    match value {
        Ok(a) => Ok(a@),
        Err(e) => Err(e@),
    }
}

/// The views of the items of a list, in order.
pub open spec fn seq_view<A: View>(items: Seq<A>) -> Seq<A::V> {
    items.map_values(|a: A| a@)
}

/// Characters with the Unicode property `White_Space`.
pub open spec fn is_space(c: char) -> bool {
    ||| 0x09 <= c as u32 <= 0x0d
    ||| c as u32 == 0x20
    ||| c as u32 == 0x85
    ||| c as u32 == 0xa0
    ||| c as u32 == 0x1680
    ||| 0x2000 <= c as u32 <= 0x200a
    ||| c as u32 == 0x2028
    ||| c as u32 == 0x2029
    ||| c as u32 == 0x202f
    ||| c as u32 == 0x205f
    ||| c as u32 == 0x3000
}

/// Nothing but white space, or nothing at all.
pub open spec fn is_blank(s: Seq<char>) -> bool {
    forall|i: int| 0 <= i < s.len() ==> is_space(#[trigger] s[i])
}

/// `s` without its leading white space.
pub open spec fn trim_start(s: Seq<char>) -> Seq<char>
    decreases s.len(),
{
    if s.len() > 0 && is_space(s[0]) {
        trim_start(s.drop_first())
    } else {
        s
    }
}

/// `s` without its trailing white space.
pub open spec fn trim_end(s: Seq<char>) -> Seq<char>
    decreases s.len(),
{
    if s.len() > 0 && is_space(s.last()) {
        trim_end(s.drop_last())
    } else {
        s
    }
}

/// `s` without the white space at either end.
pub open spec fn trimmed(s: Seq<char>) -> Seq<char> {
    trim_end(trim_start(s))
}

/// ASCII letters in lower case, every other character as it is.
pub open spec fn lower(c: char) -> char {
    if 'A' <= c && c <= 'Z' {
        (c as u32 + 32) as char
    } else {
        c
    }
}

/// ASCII letters in upper case, every other character as it is.
pub open spec fn upper(c: char) -> char {
    if 'a' <= c && c <= 'z' {
        (c as u32 - 32) as char
    } else {
        c
    }
}

/// `s` with its ASCII letters in lower case.
pub open spec fn lowered(s: Seq<char>) -> Seq<char> {
    s.map_values(|c: char| lower(c))
}

pub open spec fn is_digit(c: char) -> bool {
    '0' <= c && c <= '9'
}

/// ASCII letters and digits.
pub open spec fn is_alphanumeric(c: char) -> bool {
    ||| is_digit(c)
    ||| 'a' <= c && c <= 'z'
    ||| 'A' <= c && c <= 'Z'
}

/// The items of `parts`, with `separator` between neighbours.
pub open spec fn joined(parts: Seq<Seq<char>>, separator: Seq<char>) -> Seq<char>
    decreases parts.len(),
{
    if parts.len() == 0 {
        Seq::empty()
    } else if parts.len() == 1 {
        parts[0]
    } else {
        joined(parts.drop_last(), separator) + separator + parts.last()
    }
}

/// Trimming leaves nothing exactly when there is nothing but white space.
pub proof fn law_blank_text_trims_to_nothing(s: Seq<char>)
    ensures
        is_blank(s) <==> trimmed(s).len() == 0,
    decreases s.len(),
{
    if s.len() > 0 && is_space(s[0]) {
        law_blank_text_trims_to_nothing(s.drop_first());
        assert(is_blank(s) <==> is_blank(s.drop_first())) by {
            assert(forall|i: int|
                0 <= i < s.len() - 1 ==> s.drop_first()[i] == #[trigger] s[i + 1]);
            if is_blank(s.drop_first()) {
                assert forall|i: int| 0 <= i < s.len() implies is_space(#[trigger] s[i]) by {
                    if i > 0 {
                        assert(is_space(s.drop_first()[i - 1]));
                    }
                }
            }
            if is_blank(s) {
                assert forall|i: int| 0 <= i < s.len() - 1 implies is_space(
                    #[trigger] s.drop_first()[i],
                ) by {
                    assert(is_space(s[i + 1]));
                }
            }
        }
    } else if s.len() > 0 {
        lemma_trim_end_keeps_first(s);
    }
}

proof fn lemma_trim_end_keeps_first(s: Seq<char>)
    requires
        s.len() > 0,
        !is_space(s[0]),
    ensures
        trim_end(s).len() > 0,
    decreases s.len(),
{
    if is_space(s.last()) {
        assert(s.len() > 1);
        lemma_trim_end_keeps_first(s.drop_last());
    }
}

proof fn lemma_trim_end_ends(s: Seq<char>)
    ensures
        trim_end(s).len() > 0 ==> !is_space(trim_end(s).last()),
        trim_end(s).len() <= s.len(),
        trim_end(s) == s.take(trim_end(s).len() as int),
    decreases s.len(),
{
    if s.len() > 0 && is_space(s.last()) {
        lemma_trim_end_ends(s.drop_last());
        let n = trim_end(s).len() as int;
        assert(s.drop_last().take(n) =~= s.take(n));
    } else {
        assert(s.take(s.len() as int) =~= s);
    }
}

proof fn lemma_trim_start_starts(s: Seq<char>)
    ensures
        trim_start(s).len() > 0 ==> !is_space(trim_start(s)[0]),
    decreases s.len(),
{
    if s.len() > 0 && is_space(s[0]) {
        lemma_trim_start_starts(s.drop_first());
    }
}

/// Trimmed text neither starts nor ends with white space.
pub proof fn law_trimmed_text_has_clean_ends(s: Seq<char>)
    ensures
        trimmed(s).len() > 0 ==> !is_space(trimmed(s)[0]) && !is_space(trimmed(s).last()),
{
    lemma_trim_start_starts(s);
    lemma_trim_end_ends(trim_start(s));
}

/// Trimming twice is trimming once.
pub proof fn law_trimming_is_idempotent(s: Seq<char>)
    ensures
        trimmed(trimmed(s)) == trimmed(s),
{
    law_trimmed_text_has_clean_ends(s);
}

/// The characters of `s`, in order.
pub fn to_chars(s: &str) -> (chars: Vec<char>)
    ensures
        chars@ == s@,
{
    let mut chars: Vec<char> = Vec::new();
    for c in it: s.chars()
        invariant
            chars@ == it.seq().take(it.index() as int),
            it.seq() == s@,
    {
        chars.push(c);
    }
    chars
}

/// The text that `chars[from..to]` spells.
pub fn from_chars(chars: &Vec<char>, from: usize, to: usize) -> (text: String)
    requires
        from <= to <= chars@.len(),
    ensures
        text@ == chars@.subrange(from as int, to as int),
{
    let mut text = String::new();
    for i in from..to
        invariant
            from <= to <= chars@.len(),
            text@ == chars@.subrange(from as int, i as int),
    {
        text.push(chars[i]);
    }
    text
}

/// Do `a` and `b` spell the same text?
pub fn same(a: &str, b: &str) -> (r: bool)
    ensures
        r == (a@ == b@),
{
    let x = to_chars(a);
    let y = to_chars(b);
    if x.len() != y.len() {
        return false;
    }
    for i in 0..x.len()
        invariant
            x@ == a@,
            y@ == b@,
            x@.len() == y@.len(),
            forall|j: int| 0 <= j < i ==> x@[j] == y@[j],
    {
        if x[i] != y[i] {
            return false;
        }
    }
    assert(x@ =~= y@);
    true
}

pub fn char_is_space(c: char) -> (r: bool)
    ensures
        r == is_space(c),
{
    let n: u32 = c as u32;
    (0x09 <= n && n <= 0x0d) || n == 0x20 || n == 0x85 || n == 0xa0 || n == 0x1680 || (0x2000 <= n
        && n <= 0x200a) || n == 0x2028 || n == 0x2029 || n == 0x202f || n == 0x205f || n == 0x3000
}

/// Is there nothing but white space in `s`?
pub fn blank(s: &str) -> (r: bool)
    ensures
        r == is_blank(s@),
{
    let chars = to_chars(s);
    for i in 0..chars.len()
        invariant
            chars@ == s@,
            forall|j: int| 0 <= j < i ==> is_space(#[trigger] s@[j]),
    {
        if !char_is_space(chars[i]) {
            return false;
        }
    }
    true
}

/// `s` without the white space at either end.
pub fn trim(s: &str) -> (text: String)
    ensures
        text@ == trimmed(s@),
{
    let chars = to_chars(s);
    let mut from: usize = 0;
    assert(s@.skip(0) =~= s@);
    while from < chars.len() && char_is_space(chars[from])
        invariant
            chars@ == s@,
            from <= chars@.len(),
            trim_start(s@) == trim_start(s@.skip(from as int)),
        decreases chars@.len() - from,
    {
        assert(s@.skip(from as int).drop_first() =~= s@.skip(from + 1));
        from += 1;
    }
    let ghost rest = s@.skip(from as int);
    assert(trim_start(s@) == rest);
    let mut to: usize = chars.len();
    assert(rest.take(rest.len() as int) =~= rest);
    while from < to && char_is_space(chars[to - 1])
        invariant
            chars@ == s@,
            rest == s@.skip(from as int),
            from <= to <= chars@.len(),
            trim_end(rest) == trim_end(rest.take(to - from)),
        decreases to,
    {
        assert(rest.take(to - from).drop_last() =~= rest.take(to - from - 1));
        assert(rest.take(to - from).last() == chars@[to - 1]);
        to -= 1;
    }
    assert(rest.take(to - from) =~= s@.subrange(from as int, to as int));
    if from < to {
        assert(rest.take(to - from).last() == chars@[to - 1]);
    }
    from_chars(&chars, from, to)
}

/// `s` with its ASCII letters in lower case.
pub fn to_lower(s: &str) -> (text: String)
    ensures
        text@ == lowered(s@),
{
    let chars = to_chars(s);
    let mut text = String::new();
    for i in 0..chars.len()
        invariant
            chars@ == s@,
            text@ == lowered(s@.take(i as int)),
    {
        let c = chars[i];
        text.push(if 'A' <= c && c <= 'Z' { char_shift(c, true) } else { c });
        assert(lowered(s@.take(i + 1)) =~= lowered(s@.take(i as int)).push(lower(c)));
    }
    assert(s@.take(s@.len() as int) =~= s@);
    text
}

/// The other case of an ASCII letter: the lower one of an upper-case letter
/// when `down`, the upper one of a lower-case letter otherwise.
pub fn char_shift(c: char, down: bool) -> (r: char)
    requires
        down ==> 'A' <= c && c <= 'Z',
        !down ==> 'a' <= c && c <= 'z',
    ensures
        r == if down { lower(c) } else { upper(c) },
{
    let n: u8 = c as u8;
    if down {
        (n + 32) as char
    } else {
        (n - 32) as char
    }
}

/// The items of `parts`, with `separator` between neighbours.
pub fn join(parts: &Vec<String>, separator: &str) -> (text: String)
    ensures
        text@ == joined(seq_view(parts@), separator@),
{
    let mut text = String::new();
    let ghost model = seq_view(parts@);
    for i in 0..parts.len()
        invariant
            model == seq_view(parts@),
            text@ == joined(model.take(i as int), separator@),
    {
        if i > 0 {
            text.append(separator);
        }
        text.append(parts[i].as_str());
        assert(model.take(i + 1).drop_last() =~= model.take(i as int));
        assert(model.take(i + 1).last() == parts@[i as int]@);
    }
    assert(model.take(parts@.len() as int) =~= model);
    text
}

// ---------------------------------------------------------------------------
// What holds of every text
// ---------------------------------------------------------------------------
/// White space is tab, line feed, vertical tab, form feed, carriage return, the two
/// spaces of Latin 1 and its next line, and the spaces and separators that Unicode
/// has besides. No other character is.
pub proof fn law_white_space(c: char)
    ensures
        is_space(c) <==> {
            ||| c == '\t' || c == '\n' || c == '\u{b}' || c == '\u{c}' || c == '\r'
            ||| c == ' ' || c == '\u{85}' || c == '\u{a0}' || c == '\u{1680}'
            ||| '\u{2000}' <= c && c <= '\u{200a}'
            ||| c == '\u{2028}' || c == '\u{2029}' || c == '\u{202f}' || c == '\u{205f}'
            ||| c == '\u{3000}'
        },
{
}

/// A text is blank when all its characters are white space, and so is one without any.
pub proof fn law_blank_texts_are_white_space(s: Seq<char>)
    ensures
        is_blank(s) <==> forall|i: int| 0 <= i < s.len() ==> is_space(#[trigger] s[i]),
        is_blank(Seq::empty()),
{
}

proof fn lemma_trim_start_cuts(s: Seq<char>) -> (from: int)
    ensures
        0 <= from <= s.len(),
        trim_start(s) == s.skip(from),
        is_blank(s.take(from)),
    decreases s.len(),
{
    if s.len() > 0 && is_space(s[0]) {
        let rest = s.drop_first();
        let k = lemma_trim_start_cuts(rest);
        assert(rest.skip(k) =~= s.skip(k + 1));
        assert forall|i: int| 0 <= i < k + 1 implies is_space(#[trigger] s.take(k + 1)[i]) by {
            if i > 0 {
                assert(is_space(rest.take(k)[i - 1]));
            }
        }
        k + 1
    } else {
        assert(s.skip(0) =~= s);
        0
    }
}

proof fn lemma_trim_end_cuts(s: Seq<char>) -> (to: int)
    ensures
        0 <= to <= s.len(),
        trim_end(s) == s.take(to),
        is_blank(s.skip(to)),
    decreases s.len(),
{
    if s.len() > 0 && is_space(s.last()) {
        let rest = s.drop_last();
        let k = lemma_trim_end_cuts(rest);
        assert(rest.take(k) =~= s.take(k));
        assert forall|i: int| 0 <= i < s.len() - k implies is_space(#[trigger] s.skip(k)[i]) by {
            if i < rest.len() - k {
                assert(is_space(rest.skip(k)[i]));
            }
        }
        k
    } else {
        assert(s.take(s.len() as int) =~= s);
        s.len() as int
    }
}

/// Trimming takes away white space at the two ends and nothing else: what is left is a
/// piece of the text, and all that stands before it and behind it is white space.
pub proof fn law_trimming_removes_only_white_space(s: Seq<char>)
    ensures
        exists|from: int, to: int|
            0 <= from <= to <= s.len() && trimmed(s) == #[trigger] s.subrange(from, to) && is_blank(
                s.take(from),
            ) && is_blank(s.skip(to)),
{
    let from = lemma_trim_start_cuts(s);
    let rest = s.skip(from);
    let n = lemma_trim_end_cuts(rest);
    assert(rest.take(n) =~= s.subrange(from, from + n));
    assert(rest.skip(n) =~= s.skip(from + n));
}

/// Only the letters from `A` to `Z` have two cases, 32 places apart, and one leads back
/// to the other; every other character is left as it is, one by one.
pub proof fn law_only_ascii_letters_have_cases(c: char, s: Seq<char>)
    ensures
        'A' <= c <= 'Z' ==> lower(c) as int == c as int + 32 && upper(lower(c)) == c,
        'a' <= c <= 'z' ==> upper(c) as int == c as int - 32 && lower(upper(c)) == c,
        !('A' <= c <= 'Z') ==> lower(c) == c,
        !('a' <= c <= 'z') ==> upper(c) == c,
        lowered(s).len() == s.len(),
        forall|i: int| 0 <= i < s.len() ==> #[trigger] lowered(s)[i] == lower(s[i]),
{
}

/// Joining leaves one part as it is, makes nothing of none, and puts the separator once
/// between the parts of two lists that are joined as one.
pub proof fn law_joined_parts_are_separated(
    parts: Seq<Seq<char>>,
    more: Seq<Seq<char>>,
    part: Seq<char>,
    separator: Seq<char>,
)
    ensures
        joined(Seq::empty(), separator) == Seq::<char>::empty(),
        joined(seq![part], separator) == part,
        parts.len() > 0 && more.len() > 0 ==> joined(parts + more, separator) == joined(
            parts,
            separator,
        ) + separator + joined(more, separator),
    decreases more.len(),
{
    if parts.len() > 0 && more.len() > 0 {
        let all = parts + more;
        assert(all.last() == more.last());
        assert(all.drop_last() =~= parts + more.drop_last());
        if more.len() == 1 {
            assert(all.drop_last() =~= parts);
        } else {
            law_joined_parts_are_separated(parts, more.drop_last(), part, separator);
            assert(joined(all, separator) =~= joined(parts, separator) + separator + joined(
                more,
                separator,
            ));
        }
    }
}

} // verus!
