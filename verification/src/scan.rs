//! Scanners over a line held as a vector of characters. Each takes a position
//! and returns what the grammar finds there.
use vstd::prelude::*;
use vstd::std_specs::iter::IteratorSpec;
use vstd::string::StrSliceExecFns;
use crate::grammar::{
    ascii_lower, decimal, digits_end, find, is_digit, lemma_digits_end, lower_seq, numeric_at,
    pair_at, quoted_at, recognized, skip_blanks, store, value_at,
};
use crate::model::{Entry, Field, HeaderInfo, ParseFailure, Value, ValueModel};

verus! {

/// The characters of a string, in order.
pub fn chars_of(input: &str) -> (v: Vec<char>)
    ensures
        v@ == input@,
{
    broadcast use vstd::string::group_string_axioms;

    let mut rest = input.chars();
    let mut v: Vec<char> = Vec::new();
    loop
        invariant
            v@ + rest.remaining() == input@,
            rest.decrease() is Some,
        decreases rest.decrease()->Some_0,
    {
        let ghost before = rest.remaining();
        match rest.next() {
            Some(c) => {
                v.push(c);
                assert(v@ + rest.remaining() =~= input@) by {
                    assert(rest.remaining() == before.drop_first());
                    assert(c == before[0]);
                }
            },
            None => {
                assert(v@ =~= input@);
                return v;
            },
        }
    }
}

/// The first position at or after `i` that holds no blank.
pub fn after_blanks(s: &Vec<char>, i: usize) -> (r: usize)
    requires
        i <= s.len(),
    ensures
        r == skip_blanks(s@, i as int),
        i <= r <= s.len(),
{
    let mut j: usize = i;
    while j < s.len() && (s[j] == ' ' || s[j] == '\t')
        invariant
            i <= j <= s.len(),
            skip_blanks(s@, i as int) == skip_blanks(s@, j as int),
        decreases s.len() - j,
    {
        j += 1;
    }
    j
}

/// The first position at or after `i` that holds no digit.
pub fn after_digits(s: &Vec<char>, i: usize) -> (r: usize)
    requires
        i <= s.len(),
    ensures
        r == digits_end(s@, i as int),
        i <= r <= s.len(),
{
    let mut j: usize = i;
    while j < s.len() && s[j] >= '0' && s[j] <= '9'
        invariant
            i <= j <= s.len(),
            digits_end(s@, i as int) == digits_end(s@, j as int),
        decreases s.len() - j,
    {
        j += 1;
    }
    j
}

/// The first position at or after `i` that holds `c`, or the length of `s`.
pub fn position_of(s: &Vec<char>, i: usize, c: char) -> (r: usize)
    requires
        i <= s.len(),
    ensures
        r == find(s@, i as int, c),
        i <= r <= s.len(),
{
    let mut j: usize = i;
    while j < s.len() && s[j] != c
        invariant
            i <= j <= s.len(),
            find(s@, i as int, c) == find(s@, j as int, c),
        decreases s.len() - j,
    {
        j += 1;
    }
    j
}

/// A run of digits denotes at least what any of its prefixes denotes.
pub proof fn lemma_decimal_grows(s: Seq<char>, from: int, mid: int, to: int)
    requires
        0 <= from <= mid <= to <= s.len(),
    ensures
        decimal(s.subrange(from, mid)) <= decimal(s.subrange(from, to)),
    decreases to - mid,
{
    if mid < to {
        lemma_decimal_grows(s, from, mid, to - 1);
        assert(s.subrange(from, to).drop_last() =~= s.subrange(from, to - 1));
    }
}

/// The number that the characters from `from` up to `to` denote as decimal
/// digits, or `None` where one of them is no digit or the number does not
/// fit in 64 bits.
pub fn decimal_of(s: &Vec<char>, from: usize, to: usize) -> (r: Option<u64>)
    requires
        from <= to <= s.len(),
    ensures
        r is Some <==> (forall|j: int| from <= j < to ==> is_digit(#[trigger] s@[j])) && decimal(
            s@.subrange(from as int, to as int),
        ) <= u64::MAX,
        r is Some ==> r.unwrap() == decimal(s@.subrange(from as int, to as int)),
{
    let mut acc: u64 = 0;
    let mut k: usize = from;
    assert(s@.subrange(from as int, from as int) =~= Seq::<char>::empty());
    while k < to
        invariant
            from <= k <= to <= s.len(),
            forall|j: int| from <= j < k ==> is_digit(#[trigger] s@[j]),
            acc == decimal(s@.subrange(from as int, k as int)),
        decreases to - k,
    {
        let c: char = s[k];
        if c < '0' || c > '9' {
            assert(!is_digit(s@[k as int]));
            return None;
        }
        let d: u64 = (c as u32 - '0' as u32) as u64;
        proof {
            assert(s@.subrange(from as int, k + 1).drop_last() =~= s@.subrange(
                from as int,
                k as int,
            ));
            assert(decimal(s@.subrange(from as int, k + 1)) == acc * 10 + d);
            lemma_decimal_grows(s@, from as int, k + 1, to as int);
        }
        if acc > 1844674407370955161u64 {
            return None;
        }
        let tens: u64 = acc * 10;
        if tens > u64::MAX - d {
            return None;
        }
        acc = tens + d;
        k += 1;
    }
    Some(acc)
}

/// Blanks, one or more digits, blanks, from position `i`.
pub fn numeric_from(s: &Vec<char>, i: usize) -> (r: Result<(u64, usize), ParseFailure>)
    requires
        i <= s.len(),
    ensures
        match r {
            Ok((n, next)) => numeric_at(s@, i as int) == Ok::<(u64, int), ParseFailure>(
                (n, next as int),
            ) && i < next <= s.len(),
            Err(e) => numeric_at(s@, i as int) == Err::<(u64, int), ParseFailure>(e),
        },
{
    let from = after_blanks(s, i);
    let to = after_digits(s, from);
    if to == from {
        return Err(ParseFailure::UnrecognizedValue);
    }
    proof {
        lemma_digits_end(s@, from as int);
    }
    match decimal_of(s, from, to) {
        None => Err(ParseFailure::NumericOverflow),
        Some(n) => Ok((n, after_blanks(s, to))),
    }
}

/// A quoted string from position `i`: the two ends of its text, and where
/// the line goes on.
pub fn quoted_from(s: &Vec<char>, i: usize) -> (r: Result<(usize, usize, usize), ParseFailure>)
    requires
        i <= s.len(),
    ensures
        match r {
            Ok((from, to, next)) => quoted_at(s@, i as int) == Ok::<(int, int, int), ParseFailure>(
                (from as int, to as int, next as int),
            ) && i < from <= to < next <= s.len(),
            Err(e) => quoted_at(s@, i as int) == Err::<(int, int, int), ParseFailure>(e),
        },
{
    if i >= s.len() || s[i] != '"' {
        return Err(ParseFailure::UnrecognizedValue);
    }
    let from = after_blanks(s, i + 1);
    let to = position_of(s, from, '"');
    if to >= s.len() {
        return Err(ParseFailure::UnrecognizedValue);
    }
    Ok((from, to, after_blanks(s, to + 1)))
}

/// A value from position `i`: a number, or else a quoted string.
pub fn value_from(input: &str, s: &Vec<char>, i: usize) -> (r: Result<(Value, usize), ParseFailure>)
    requires
        s@ == input@,
        i <= s.len(),
    ensures
        match r {
            Ok((v, next)) => value_at(s@, i as int) == Ok::<(ValueModel, int), ParseFailure>(
                (v@, next as int),
            ) && i < next <= s.len(),
            Err(e) => value_at(s@, i as int) == Err::<(ValueModel, int), ParseFailure>(e),
        },
{
    match numeric_from(s, i) {
        Ok((n, next)) => Ok((Value::Numeric(n), next)),
        Err(ParseFailure::NumericOverflow) => Err(ParseFailure::NumericOverflow),
        Err(_) => match quoted_from(s, i) {
            Ok((from, to, next)) => {
                let text = input.substring_char(from, to).to_owned();
                Ok((Value::String(text), next))
            },
            Err(e) => Err(e),
        },
    }
}

/// One pair from position `i`: where its colon stands, its value, and where
/// the line goes on. The key is what stands between `i` and the colon.
pub fn pair_from(input: &str, s: &Vec<char>, i: usize) -> (r: Result<
    (usize, Value, usize),
    ParseFailure,
>)
    requires
        s@ == input@,
        i <= s.len(),
    ensures
        match r {
            Ok((colon, v, next)) => pair_at(s@, i as int) == Ok::<(Entry, int), ParseFailure>(
                (Entry { key: s@.subrange(i as int, colon as int), value: v@ }, next as int),
            ) && i <= colon < next <= s.len(),
            Err(e) => pair_at(s@, i as int) == Err::<(Entry, int), ParseFailure>(e),
        },
{
    let colon = position_of(s, i, ':');
    if colon >= s.len() {
        return Err(ParseFailure::MissingDelimiter);
    }
    let at = after_blanks(s, colon + 1);
    match value_from(input, s, at) {
        Err(e) => Err(e),
        Ok((v, next)) => {
            if next < s.len() && s[next] == ',' {
                Ok((colon, v, after_blanks(s, next + 1)))
            } else {
                Ok((colon, v, next))
            }
        },
    }
}

/// The lower-case form of an ASCII capital; any other character is kept.
pub fn lower(c: char) -> (r: char)
    ensures
        r == ascii_lower(c),
{
    if c >= 'A' && c <= 'Z' {
        ((c as u8) + 32u8) as char
    } else {
        c
    }
}

/// Whether the characters from `from` up to `to` spell `word`, whatever the
/// case of their letters.
pub fn spells(s: &Vec<char>, from: usize, to: usize, word: &str) -> (r: bool)
    requires
        from <= to <= s.len(),
    ensures
        r == (lower_seq(s@.subrange(from as int, to as int)) == word@),
{
    let n = word.unicode_len();
    if to - from != n {
        return false;
    }
    let mut k: usize = 0;
    while k < n
        invariant
            k <= n,
            n == word@.len(),
            n == to - from,
            from <= to <= s.len(),
            forall|j: int| 0 <= j < k ==> ascii_lower(s@[from + j]) == #[trigger] word@[j],
        decreases n - k,
    {
        if lower(s[from + k]) != word.get_char(k) {
            assert(lower_seq(s@.subrange(from as int, to as int))[k as int] != word@[k as int]);
            return false;
        }
        k += 1;
    }
    assert(lower_seq(s@.subrange(from as int, to as int)) =~= word@);
    true
}

/// The field that the key from `from` up to `to` names, if any.
pub fn field_of(s: &Vec<char>, from: usize, to: usize) -> (r: Option<Field>)
    requires
        from <= to <= s.len(),
    ensures
        r == recognized(s@.subrange(from as int, to as int)),
{
    if spells(s, from, to, "pallet") {
        Some(Field::Pallet)
    } else if spells(s, from, to, "extrinsic") {
        Some(Field::Extrinsic)
    } else if spells(s, from, to, "steps") {
        Some(Field::Steps)
    } else if spells(s, from, to, "repeat") {
        Some(Field::Repeat)
    } else {
        None
    }
}

/// Stores one value in the record: under `field`, nowhere where the key
/// names no field; a value of the other kind is refused.
pub fn store_value(info: HeaderInfo, field: Option<Field>, value: Value) -> (r: Result<
    HeaderInfo,
    ParseFailure,
>)
    ensures
        match r {
            Ok(h) => store(info@, field, value@) == Ok::<_, ParseFailure>(h@),
            Err(e) => store(info@, field, value@) == Err::<crate::model::HeaderModel, _>(e),
        },
{
    let mut h = info;
    match (field, value) {
        (None, _) => {},
        (Some(Field::Pallet), Value::String(t)) => {
            h.pallet_name = t;
        },
        (Some(Field::Extrinsic), Value::String(t)) => {
            h.extrinsic = t;
        },
        (Some(Field::Steps), Value::Numeric(n)) => {
            h.steps = n;
        },
        (Some(Field::Repeat), Value::Numeric(n)) => {
            h.repeat = n;
        },
        _ => {
            return Err(ParseFailure::FieldTypeMismatch);
        },
    }
    Ok(h)
}

} // verus!
