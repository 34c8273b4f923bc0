//! The header parser on strings: each function reads one part of the grammar
//! from the start of its input and returns what is left with what it read.
use vstd::prelude::*;
use vstd::string::StrSliceExecFns;
use crate::grammar::{
    assign_all, expected_kind, header_of, header_pairs, ignored_in, numeric_of, pair_of,
    pairs_from, string_of, unknown_count, unquoted,
};
use crate::model::{Entry, HeaderInfo, HeaderModel, ParseFailure, Value, ValueModel, ValueType};
use crate::scan::{
    after_blanks, chars_of, field_of, numeric_from, pair_from, quoted_from, store_value,
};

verus! {

/// Looks a key up in the table of the keys that a header may set: the kind
/// of value that it takes, or `None` for a key that names no field. The case
/// of the key's letters does not count.
pub fn supported(key: &str) -> (r: Option<ValueType>)
    ensures
        r == expected_kind(key@),
{
    let s = chars_of(key);
    assert(s@.subrange(0, s@.len() as int) =~= s@);
    match field_of(&s, 0, s.len()) {
        Some(f) => Some(f.value_type()),
        None => None,
    }
}

/// Reads a quoted string: a double quote, blanks, the text up to the next
/// double quote, that quote, blanks. Returns what is left and the text.
/// There is no escape: the text ends at the first double quote.
pub fn unquote_val<'i>(input: &'i str) -> (r: Result<(&'i str, &'i str), ParseFailure>)
    ensures
        match r {
            Ok((rest, text)) => unquoted(input@) == Ok::<_, ParseFailure>((rest@, text@)),
            Err(e) => unquoted(input@) == Err::<(Seq<char>, Seq<char>), _>(e),
        },
{
    let s = chars_of(input);
    match quoted_from(&s, 0) {
        Ok((from, to, next)) => Ok(
            (input.substring_char(next, s.len()), input.substring_char(from, to)),
        ),
        Err(e) => Err(e),
    }
}

/// Reads a quoted string as a value. Returns what is left and the value.
pub fn string_val<'i>(input: &'i str) -> (r: Result<(&'i str, Value), ParseFailure>)
    ensures
        match r {
            Ok((rest, v)) => string_of(input@) == Ok::<_, ParseFailure>((rest@, v@)),
            Err(e) => string_of(input@) == Err::<(Seq<char>, ValueModel), _>(e),
        },
{
    match unquote_val(input) {
        Ok((rest, text)) => Ok((rest, Value::String(text.to_owned()))),
        Err(e) => Err(e),
    }
}

/// Reads blanks, a run of decimal digits and blanks. Returns what is left
/// and the number. No digit is `UnrecognizedValue`; a number over 64 bits
/// is `NumericOverflow`.
pub fn numeric_val<'i>(input: &'i str) -> (r: Result<(&'i str, Value), ParseFailure>)
    ensures
        match r {
            Ok((rest, v)) => numeric_of(input@) == Ok::<_, ParseFailure>((rest@, v@)),
            Err(e) => numeric_of(input@) == Err::<(Seq<char>, ValueModel), _>(e),
        },
{
    let s = chars_of(input);
    match numeric_from(&s, 0) {
        Ok((n, next)) => Ok((input.substring_char(next, s.len()), Value::Numeric(n))),
        Err(e) => Err(e),
    }
}

/// Reads one pair: a key up to the next colon, the colon, blanks, a value,
/// and an optional comma with blanks. Returns what is left, the key as it
/// stands and the value.
pub fn take_header_info_kv<'i>(input: &'i str) -> (r: Result<
    (&'i str, (&'i str, Value)),
    ParseFailure,
>)
    ensures
        match r {
            Ok((rest, (key, v))) => pair_of(input@) == Ok::<_, ParseFailure>(
                (rest@, Entry { key: key@, value: v@ }),
            ),
            Err(e) => pair_of(input@) == Err::<(Seq<char>, Entry), _>(e),
        },
{
    let s = chars_of(input);
    match pair_from(input, &s, 0) {
        Ok((colon, v, next)) => Ok(
            (input.substring_char(next, s.len()), (input.substring_char(0, colon), v)),
        ),
        Err(e) => Err(e),
    }
}

/// Whether `r` is what reading the line `s` gives: the record that the
/// grammar assigns to `s` with nothing left, or the failure that it assigns.
pub open spec fn is_outcome(s: Seq<char>, r: Result<(&str, HeaderInfo), ParseFailure>) -> bool {
    match r {
        Ok((rest, h)) => header_of(s) == Ok::<_, ParseFailure>(h@) && rest@.len() == 0,
        Err(e) => header_of(s) == Err::<HeaderModel, _>(e),
    }
}

/// Reads a whole header line. Returns the record with what is left of the
/// line, which is empty: a header is accepted only as a whole.
///
/// Failures of the line's shape come first, in the order of the text; a
/// recognized key with a value of the other kind is reported only for a
/// line whose shape is sound.
pub fn parse_header_info<'i>(input: &'i str) -> (r: Result<(&'i str, HeaderInfo), ParseFailure>)
    ensures
        is_outcome(input@, r),
{
    let s = chars_of(input);
    let n = s.len();
    if n == 0 || s[0] != '"' {
        return Err(ParseFailure::MalformedHeader);
    }
    let start = after_blanks(&s, 1);
    let mut i: usize = start;
    let mut acc: Result<HeaderInfo, ParseFailure> = Ok(HeaderInfo::default());
    let mut any: bool = false;
    let ghost mut seen: Seq<Entry> = Seq::empty();
    loop
        invariant
            s@ == input@,
            n == s.len(),
            i <= n,
            header_pairs(s@) == pairs_from(s@, i as int, seen),
            any == (seen.len() > 0),
            match acc {
                Ok(h) => assign_all(seen) == Ok::<_, ParseFailure>(h@),
                Err(e) => assign_all(seen) == Err::<HeaderModel, _>(e),
            },
        decreases n - i,
    {
        if i >= n {
            return Err(ParseFailure::MalformedHeader);
        }
        if s[i] == '"' {
            if !any {
                return Err(ParseFailure::EmptyHeader);
            }
            if after_blanks(&s, i + 1) != n {
                return Err(ParseFailure::TrailingContent);
            }
            return match acc {
                Ok(h) => Ok((input.substring_char(n, n), h)),
                Err(e) => Err(e),
            };
        }
        match pair_from(input, &s, i) {
            Err(e) => {
                return Err(e);
            },
            Ok((colon, v, next)) => {
                let field = field_of(&s, i, colon);
                proof {
                    let entry = Entry { key: s@.subrange(i as int, colon as int), value: v@ };
                    assert(seen.push(entry).drop_last() =~= seen);
                    seen = seen.push(entry);
                }
                acc = match acc {
                    Ok(h) => store_value(h, field, v),
                    Err(e) => Err(e),
                };
                any = true;
                i = next;
            },
        }
    }
}

/// Counts the keys of a header line that name no field. Such a key is no
/// failure: its value is dropped, and the caller owes one warning for each.
/// A line whose shape is unsound has none.
pub fn ignored_keys(input: &str) -> (r: usize)
    ensures
        r == ignored_in(input@),
{
    let s = chars_of(input);
    let n = s.len();
    if n == 0 || s[0] != '"' {
        return 0;
    }
    let mut i: usize = after_blanks(&s, 1);
    let mut count: usize = 0;
    let ghost mut seen: Seq<Entry> = Seq::empty();
    loop
        invariant
            s@ == input@,
            n == s.len(),
            i <= n,
            header_pairs(s@) == pairs_from(s@, i as int, seen),
            count == unknown_count(seen),
            count <= i,
            (count > 0) ==> (seen.len() > 0),
        decreases n - i,
    {
        if i >= n {
            return 0;
        }
        if s[i] == '"' {
            if count == 0 || after_blanks(&s, i + 1) != n {
                return 0;
            }
            return count;
        }
        match pair_from(input, &s, i) {
            Err(_) => {
                return 0;
            },
            Ok((colon, v, next)) => {
                proof {
                    let entry = Entry { key: s@.subrange(i as int, colon as int), value: v@ };
                    assert(seen.push(entry).drop_last() =~= seen);
                    seen = seen.push(entry);
                }
                if field_of(&s, i, colon).is_none() {
                    count += 1;
                }
                i = next;
            },
        }
    }
}

} // verus!
