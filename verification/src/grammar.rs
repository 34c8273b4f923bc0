//! The header's grammar, stated over sequences of characters.
//!
//! A header is a double quote, blanks, one or more pairs, a double quote and
//! blanks. A pair is a key, a colon, blanks, a value, blanks and an optional
//! comma with blanks. A value is a run of digits or a quoted string.
use vstd::prelude::*;
use crate::model::{Entry, Field, HeaderModel, ParseFailure, ValueModel, ValueType};

verus! {

/// A space or a tab.
pub open spec fn is_blank(c: char) -> bool {
    c == ' ' || c == '\t'
}

/// A decimal digit.
pub open spec fn is_digit(c: char) -> bool {
    '0' <= c && c <= '9'
}

/// The number that a decimal digit stands for.
pub open spec fn digit_value(c: char) -> nat {
    (c as nat - '0' as nat) as nat
}

/// The lower-case form of an ASCII capital; any other character is kept.
pub open spec fn ascii_lower(c: char) -> char {
    if 'A' <= c && c <= 'Z' {
        ((c as u32) + 32) as char
    } else {
        c
    }
}

/// A key with each ASCII capital replaced by its lower-case form.
pub open spec fn lower_seq(key: Seq<char>) -> Seq<char> {
    Seq::new(key.len(), |i: int| ascii_lower(key[i]))
}

/// The first position at or after `i` that holds no blank.
pub open spec fn skip_blanks(s: Seq<char>, i: int) -> int
    decreases s.len() - i,
{
    if 0 <= i < s.len() && is_blank(s[i]) {
        skip_blanks(s, i + 1)
    } else {
        i
    }
}

/// The first position at or after `i` that holds no digit.
pub open spec fn digits_end(s: Seq<char>, i: int) -> int
    decreases s.len() - i,
{
    if 0 <= i < s.len() && is_digit(s[i]) {
        digits_end(s, i + 1)
    } else {
        i
    }
}

/// The first position at or after `i` that holds `c`, or the length of `s`
/// where there is none.
pub open spec fn find(s: Seq<char>, i: int, c: char) -> int
    decreases s.len() - i,
{
    if 0 <= i < s.len() && s[i] != c {
        find(s, i + 1, c)
    } else {
        i
    }
}

/// The number that a run of decimal digits denotes.
pub open spec fn decimal(digits: Seq<char>) -> nat
    decreases digits.len(),
{
    if digits.len() == 0 {
        0
    } else {
        decimal(digits.drop_last()) * 10 + digit_value(digits.last())
    }
}

/// Blanks, one or more digits, blanks: the number, and where the text goes on.
pub open spec fn numeric_at(s: Seq<char>, i: int) -> Result<(u64, int), ParseFailure> {
    let from = skip_blanks(s, i);
    let to = digits_end(s, from);
    if to == from {
        Err(ParseFailure::UnrecognizedValue)
    } else if decimal(s.subrange(from, to)) > u64::MAX {
        Err(ParseFailure::NumericOverflow)
    } else {
        Ok((decimal(s.subrange(from, to)) as u64, skip_blanks(s, to)))
    }
}

/// A double quote, blanks, the text up to the next double quote, that quote,
/// blanks: the two ends of the text, and where the input goes on.
pub open spec fn quoted_at(s: Seq<char>, i: int) -> Result<(int, int, int), ParseFailure> {
    if 0 <= i < s.len() && s[i] == '"' {
        let from = skip_blanks(s, i + 1);
        let to = find(s, from, '"');
        if to >= s.len() {
            Err(ParseFailure::UnrecognizedValue)
        } else {
            Ok((from, to, skip_blanks(s, to + 1)))
        }
    } else {
        Err(ParseFailure::UnrecognizedValue)
    }
}

/// A quoted string as a value.
pub open spec fn string_at(s: Seq<char>, i: int) -> Result<(ValueModel, int), ParseFailure> {
    match quoted_at(s, i) {
        Ok((from, to, next)) => Ok((ValueModel::Text(s.subrange(from, to)), next)),
        Err(e) => Err(e),
    }
}

/// A value: a number where digits stand, a quoted string otherwise. Digits
/// that overflow are not read again as a string.
pub open spec fn value_at(s: Seq<char>, i: int) -> Result<(ValueModel, int), ParseFailure> {
    match numeric_at(s, i) {
        Ok((n, next)) => Ok((ValueModel::Numeric(n), next)),
        Err(ParseFailure::NumericOverflow) => Err(ParseFailure::NumericOverflow),
        Err(_) => string_at(s, i),
    }
}

/// One pair that starts at `i`: the entry, and where the text goes on.
pub open spec fn pair_at(s: Seq<char>, i: int) -> Result<(Entry, int), ParseFailure> {
    let colon = find(s, i, ':');
    if colon >= s.len() {
        Err(ParseFailure::MissingDelimiter)
    } else {
        match value_at(s, skip_blanks(s, colon + 1)) {
            Err(e) => Err(e),
            Ok((value, next)) => {
                let after = if 0 <= next < s.len() && s[next] == ',' {
                    skip_blanks(s, next + 1)
                } else {
                    next
                };
                Ok((Entry { key: s.subrange(i, colon), value }, after))
            },
        }
    }
}

/// The pairs from `i` up to the closing quote, appended to `seen`. A double
/// quote where a pair could start closes the header.
pub open spec fn pairs_from(s: Seq<char>, i: int, seen: Seq<Entry>) -> Result<
    Seq<Entry>,
    ParseFailure,
>
    decreases s.len() - i,
    via pairs_from_terminates
{
    if i < 0 || i >= s.len() {
        Err(ParseFailure::MalformedHeader)
    } else if s[i] == '"' {
        if seen.len() == 0 {
            Err(ParseFailure::EmptyHeader)
        } else if skip_blanks(s, i + 1) != s.len() {
            Err(ParseFailure::TrailingContent)
        } else {
            Ok(seen)
        }
    } else {
        match pair_at(s, i) {
            Err(e) => Err(e),
            Ok((entry, next)) => pairs_from(s, next, seen.push(entry)),
        }
    }
}

#[via_fn]
proof fn pairs_from_terminates(s: Seq<char>, i: int, seen: Seq<Entry>) {
    if 0 <= i < s.len() && s[i] != '"' && pair_at(s, i) is Ok {
        lemma_pair_advances(s, i);
    }
}

/// The pairs of a whole header line.
pub open spec fn header_pairs(s: Seq<char>) -> Result<Seq<Entry>, ParseFailure> {
    if s.len() == 0 || s[0] != '"' {
        Err(ParseFailure::MalformedHeader)
    } else {
        pairs_from(s, skip_blanks(s, 1), Seq::empty())
    }
}

/// The field that a key names, whatever the case of its letters.
pub open spec fn recognized(key: Seq<char>) -> Option<Field> {
    let k = lower_seq(key);
    if k == "pallet"@ {
        Some(Field::Pallet)
    } else if k == "extrinsic"@ {
        Some(Field::Extrinsic)
    } else if k == "steps"@ {
        Some(Field::Steps)
    } else if k == "repeat"@ {
        Some(Field::Repeat)
    } else {
        None
    }
}

/// The table of the keys: the kind of value that a key takes, if it names
/// a field.
pub open spec fn expected_kind(key: Seq<char>) -> Option<ValueType> {
    match recognized(key) {
        Some(f) => Some(f.kind()),
        None => None,
    }
}

/// The record after one more value: stored under `field`, dropped where the
/// key names no field, refused where the value is of the other kind.
pub open spec fn store(h: HeaderModel, field: Option<Field>, value: ValueModel) -> Result<
    HeaderModel,
    ParseFailure,
> {
    match (field, value) {
        (None, _) => Ok(h),
        (Some(Field::Pallet), ValueModel::Text(t)) => Ok(HeaderModel { pallet_name: t, ..h }),
        (Some(Field::Extrinsic), ValueModel::Text(t)) => Ok(HeaderModel { extrinsic: t, ..h }),
        (Some(Field::Steps), ValueModel::Numeric(n)) => Ok(HeaderModel { steps: n, ..h }),
        (Some(Field::Repeat), ValueModel::Numeric(n)) => Ok(HeaderModel { repeat: n, ..h }),
        _ => Err(ParseFailure::FieldTypeMismatch),
    }
}

/// The record that a list of pairs gives, taken in order from the defaults.
pub open spec fn assign_all(pairs: Seq<Entry>) -> Result<HeaderModel, ParseFailure>
    decreases pairs.len(),
{
    if pairs.len() == 0 {
        Ok(HeaderModel::empty())
    } else {
        match assign_all(pairs.drop_last()) {
            Err(e) => Err(e),
            Ok(h) => store(h, recognized(pairs.last().key), pairs.last().value),
        }
    }
}

/// What a header line means: its record, or why it is none.
pub open spec fn header_of(s: Seq<char>) -> Result<HeaderModel, ParseFailure> {
    match header_pairs(s) {
        Err(e) => Err(e),
        Ok(pairs) => assign_all(pairs),
    }
}

/// `skip_blanks` stops at or after its start, within the text, on a
/// character that is no blank, having passed blanks only.
pub proof fn lemma_skip_blanks(s: Seq<char>, i: int)
    requires
        0 <= i <= s.len(),
    ensures
        i <= skip_blanks(s, i) <= s.len(),
        skip_blanks(s, i) < s.len() ==> !is_blank(s[skip_blanks(s, i)]),
        forall|j: int| i <= j < skip_blanks(s, i) ==> is_blank(#[trigger] s[j]),
    decreases s.len() - i,
{
    if i < s.len() && is_blank(s[i]) {
        lemma_skip_blanks(s, i + 1);
    }
}

/// `digits_end` stops at or after its start, within the text, on a
/// character that is no digit, having passed digits only.
pub proof fn lemma_digits_end(s: Seq<char>, i: int)
    requires
        0 <= i <= s.len(),
    ensures
        i <= digits_end(s, i) <= s.len(),
        digits_end(s, i) < s.len() ==> !is_digit(s[digits_end(s, i)]),
        forall|j: int| i <= j < digits_end(s, i) ==> is_digit(#[trigger] s[j]),
    decreases s.len() - i,
{
    if i < s.len() && is_digit(s[i]) {
        lemma_digits_end(s, i + 1);
    }
}

/// `find` stops on the first occurrence of the character, or at the end.
pub proof fn lemma_find(s: Seq<char>, i: int, c: char)
    requires
        0 <= i <= s.len(),
    ensures
        i <= find(s, i, c) <= s.len(),
        find(s, i, c) < s.len() ==> s[find(s, i, c)] == c,
        forall|j: int| i <= j < find(s, i, c) ==> #[trigger] s[j] != c,
    decreases s.len() - i,
{
    if i < s.len() && s[i] != c {
        lemma_find(s, i + 1, c);
    }
}

/// A value that was read ends after its start and within the text.
pub proof fn lemma_value_advances(s: Seq<char>, i: int)
    requires
        0 <= i <= s.len(),
        value_at(s, i) is Ok,
    ensures
        i < value_at(s, i).unwrap().1 <= s.len(),
{
    lemma_skip_blanks(s, i);
    let from = skip_blanks(s, i);
    lemma_digits_end(s, from);
    lemma_skip_blanks(s, digits_end(s, from));
    if numeric_at(s, i) is Err {
        let q = skip_blanks(s, i + 1);
        lemma_skip_blanks(s, i + 1);
        lemma_find(s, q, '"');
        lemma_skip_blanks(s, find(s, q, '"') + 1);
    }
}

/// A pair that was read ends after its start and within the text.
pub proof fn lemma_pair_advances(s: Seq<char>, i: int)
    requires
        0 <= i <= s.len(),
        pair_at(s, i) is Ok,
    ensures
        i < pair_at(s, i).unwrap().1 <= s.len(),
{
    lemma_find(s, i, ':');
    let colon = find(s, i, ':');
    lemma_skip_blanks(s, colon + 1);
    let v = skip_blanks(s, colon + 1);
    lemma_value_advances(s, v);
    let next = value_at(s, v).unwrap().1;
    if next < s.len() {
        lemma_skip_blanks(s, next + 1);
    }
}


/// What is left of a text from position `next` on.
pub open spec fn rest_from(s: Seq<char>, next: int) -> Seq<char> {
    s.subrange(next, s.len() as int)
}

/// A quoted string at the start of a text: what is left, and the string's text.
pub open spec fn unquoted(s: Seq<char>) -> Result<(Seq<char>, Seq<char>), ParseFailure> {
    match quoted_at(s, 0) {
        Ok((from, to, next)) => Ok((rest_from(s, next), s.subrange(from, to))),
        Err(e) => Err(e),
    }
}

/// A string value at the start of a text: what is left, and the value.
pub open spec fn string_of(s: Seq<char>) -> Result<(Seq<char>, ValueModel), ParseFailure> {
    match string_at(s, 0) {
        Ok((v, next)) => Ok((rest_from(s, next), v)),
        Err(e) => Err(e),
    }
}

/// A numeric value at the start of a text: what is left, and the value.
pub open spec fn numeric_of(s: Seq<char>) -> Result<(Seq<char>, ValueModel), ParseFailure> {
    match numeric_at(s, 0) {
        Ok((n, next)) => Ok((rest_from(s, next), ValueModel::Numeric(n))),
        Err(e) => Err(e),
    }
}

/// A pair at the start of a text: what is left, and the entry.
pub open spec fn pair_of(s: Seq<char>) -> Result<(Seq<char>, Entry), ParseFailure> {
    match pair_at(s, 0) {
        Ok((entry, next)) => Ok((rest_from(s, next), entry)),
        Err(e) => Err(e),
    }
}


/// How many keys of the list name no field.
pub open spec fn unknown_count(pairs: Seq<Entry>) -> nat
    decreases pairs.len(),
{
    if pairs.len() == 0 {
        0
    } else if recognized(pairs.last().key) is None {
        unknown_count(pairs.drop_last()) + 1
    } else {
        unknown_count(pairs.drop_last())
    }
}

/// How many keys of a header line name no field; none where the line's
/// shape is unsound.
pub open spec fn ignored_in(s: Seq<char>) -> nat {
    match header_pairs(s) {
        Ok(pairs) => unknown_count(pairs),
        Err(_) => 0,
    }
}

} // verus!
