//! What holds of every header, proved from the grammar.
use vstd::prelude::*;
use crate::grammar::{
    assign_all, decimal, digits_end, find, header_of, header_pairs, is_blank, is_digit, lower_seq,
    pair_at, pairs_from, recognized, skip_blanks, value_at,
};
use crate::header::is_outcome;
use crate::model::{Entry, Field, HeaderInfo, HeaderModel, ParseFailure, ValueModel};

verus! {

/// Every recognized key of the list carries a value of its own kind.
pub open spec fn well_typed(pairs: Seq<Entry>) -> bool {
    forall|j: int|
        0 <= j < pairs.len() && recognized(#[trigger] pairs[j].key) is Some ==> recognized(
            pairs[j].key,
        ).unwrap().kind() == pairs[j].value.kind()
}

/// No key of the list names the field `f`.
pub open spec fn absent(pairs: Seq<Entry>, f: Field) -> bool {
    forall|j: int| 0 <= j < pairs.len() ==> recognized(#[trigger] pairs[j].key) != Some(f)
}

/// A list of pairs gives a record exactly when each recognized key carries
/// a value of its own kind; the one failure is `FieldTypeMismatch`.
pub proof fn law_assignment_succeeds(pairs: Seq<Entry>)
    ensures
        assign_all(pairs) is Ok <==> well_typed(pairs),
        assign_all(pairs) is Err ==> assign_all(pairs) == Err::<HeaderModel, _>(
            ParseFailure::FieldTypeMismatch,
        ),
    decreases pairs.len(),
{
    if pairs.len() > 0 {
        let front = pairs.drop_last();
        law_assignment_succeeds(front);
        assert(forall|j: int| 0 <= j < front.len() ==> front[j] == pairs[j]);
        if well_typed(pairs) {
            assert(well_typed(front));
            assert(pairs[pairs.len() - 1] == pairs.last());
        }
        if assign_all(pairs) is Ok {
            assert forall|j: int|
                0 <= j < pairs.len() && recognized(#[trigger] pairs[j].key) is Some implies recognized(
                pairs[j].key,
            ).unwrap().kind() == pairs[j].value.kind() by {
                if j < front.len() {
                    assert(front[j] == pairs[j]);
                }
            }
        }
    }
}

/// The last pair that names a field decides what the record holds under it.
pub proof fn law_last_occurrence_wins(pairs: Seq<Entry>, k: int, f: Field)
    requires
        0 <= k < pairs.len(),
        recognized(pairs[k].key) == Some(f),
        forall|j: int| k < j < pairs.len() ==> recognized(#[trigger] pairs[j].key) != Some(f),
        assign_all(pairs) is Ok,
    ensures
        assign_all(pairs).unwrap().field(f) == pairs[k].value,
    decreases pairs.len(),
{
    let front = pairs.drop_last();
    if k < pairs.len() - 1 {
        assert(front[k] == pairs[k]);
        assert(forall|j: int| 0 <= j < front.len() ==> front[j] == pairs[j]);
        law_last_occurrence_wins(front, k, f);
        assert(recognized(pairs[pairs.len() - 1].key) != Some(f));
    }
}

/// A field that no pair names holds its default: zero, or the empty string.
pub proof fn law_absent_field_is_default(pairs: Seq<Entry>, f: Field)
    requires
        absent(pairs, f),
        assign_all(pairs) is Ok,
    ensures
        assign_all(pairs).unwrap().field(f) == HeaderModel::empty().field(f),
    decreases pairs.len(),
{
    if pairs.len() > 0 {
        let front = pairs.drop_last();
        assert(forall|j: int| 0 <= j < front.len() ==> front[j] == pairs[j]);
        law_absent_field_is_default(front, f);
        assert(recognized(pairs[pairs.len() - 1].key) != Some(f));
    }
}

/// In an accepted header, a field whose key does not occur holds its default.
pub proof fn law_missing_key_keeps_default(s: Seq<char>, f: Field)
    requires
        header_of(s) is Ok,
        absent(header_pairs(s).unwrap(), f),
    ensures
        header_of(s).unwrap().field(f) == HeaderModel::empty().field(f),
{
    law_absent_field_is_default(header_pairs(s).unwrap(), f);
}

/// A header of sound shape in which each of the four keys stands exactly
/// once, at the positions given, each with a value of its kind, is accepted,
/// and its record holds those four values.
pub proof fn law_each_key_once(s: Seq<char>, pallet: int, extrinsic: int, steps: int, repeat: int)
    requires
        header_pairs(s) is Ok,
        ({
            let pairs = header_pairs(s).unwrap();
            &&& 0 <= pallet < pairs.len()
            &&& 0 <= extrinsic < pairs.len()
            &&& 0 <= steps < pairs.len()
            &&& 0 <= repeat < pairs.len()
            &&& pairs[pallet].value is Text
            &&& pairs[extrinsic].value is Text
            &&& pairs[steps].value is Numeric
            &&& pairs[repeat].value is Numeric
            &&& forall|j: int|
                0 <= j < pairs.len() ==> (recognized(#[trigger] pairs[j].key) == Some(Field::Pallet)
                    <==> j == pallet)
            &&& forall|j: int|
                0 <= j < pairs.len() ==> (recognized(#[trigger] pairs[j].key) == Some(
                    Field::Extrinsic,
                ) <==> j == extrinsic)
            &&& forall|j: int|
                0 <= j < pairs.len() ==> (recognized(#[trigger] pairs[j].key) == Some(Field::Steps)
                    <==> j == steps)
            &&& forall|j: int|
                0 <= j < pairs.len() ==> (recognized(#[trigger] pairs[j].key) == Some(Field::Repeat)
                    <==> j == repeat)
        }),
    ensures
        header_of(s) == Ok::<_, ParseFailure>(
            (HeaderModel {
                repeat: header_pairs(s).unwrap()[repeat].value->Numeric_0,
                steps: header_pairs(s).unwrap()[steps].value->Numeric_0,
                pallet_name: header_pairs(s).unwrap()[pallet].value->Text_0,
                extrinsic: header_pairs(s).unwrap()[extrinsic].value->Text_0,
            }),
        ),
{
    let pairs = header_pairs(s).unwrap();
    assert(well_typed(pairs)) by {
        assert forall|j: int|
            0 <= j < pairs.len() && recognized(#[trigger] pairs[j].key) is Some implies recognized(
            pairs[j].key,
        ).unwrap().kind() == pairs[j].value.kind() by {
            match recognized(pairs[j].key).unwrap() {
                Field::Pallet => {
                    assert(j == pallet);
                },
                Field::Extrinsic => {
                    assert(j == extrinsic);
                },
                Field::Steps => {
                    assert(j == steps);
                },
                Field::Repeat => {
                    assert(j == repeat);
                },
            }
        }
    }
    law_assignment_succeeds(pairs);
    law_last_occurrence_wins(pairs, pallet, Field::Pallet);
    law_last_occurrence_wins(pairs, extrinsic, Field::Extrinsic);
    law_last_occurrence_wins(pairs, steps, Field::Steps);
    law_last_occurrence_wins(pairs, repeat, Field::Repeat);
}

/// Keys that differ only in the case of their ASCII letters name the same field.
pub proof fn law_key_case_is_ignored(a: Seq<char>, b: Seq<char>)
    requires
        lower_seq(a) == lower_seq(b),
    ensures
        recognized(a) == recognized(b),
{
}

/// A key names the field that its lower-case form names.
pub proof fn law_lowered_key_names_same_field(key: Seq<char>)
    ensures
        recognized(lower_seq(key)) == recognized(key),
{
    assert(lower_seq(lower_seq(key)) =~= lower_seq(key));
}

/// Two readings of one line agree: both fail in the same way, or both give
/// the same record.
pub proof fn law_reading_is_repeatable(
    s: Seq<char>,
    first: Result<(&str, HeaderInfo), ParseFailure>,
    second: Result<(&str, HeaderInfo), ParseFailure>,
)
    requires
        is_outcome(s, first),
        is_outcome(s, second),
    ensures
        first is Ok <==> second is Ok,
        first is Ok ==> first.unwrap().1@ == second.unwrap().1@ && first.unwrap().0@
            == second.unwrap().0@,
        first is Err ==> first->Err_0 == second->Err_0,
{
    if first is Ok {
        assert(first.unwrap().0@ =~= second.unwrap().0@);
    }
}

/// Every character from `a` up to `b` is a blank.
pub open spec fn all_blank(s: Seq<char>, a: int, b: int) -> bool {
    forall|j: int| a <= j < b ==> is_blank(#[trigger] s[j])
}

/// Every character from `a` up to `b` is a digit.
pub open spec fn all_digits(s: Seq<char>, a: int, b: int) -> bool {
    forall|j: int| a <= j < b ==> is_digit(#[trigger] s[j])
}

/// No character from `a` up to `b` is `c`.
pub open spec fn none_is(s: Seq<char>, a: int, b: int, c: char) -> bool {
    forall|j: int| a <= j < b ==> #[trigger] s[j] != c
}

/// A run of blanks that ends at `j` is skipped up to `j`, from each of its
/// positions.
pub proof fn law_blanks_are_skipped(s: Seq<char>, i: int, j: int)
    requires
        0 <= i <= j <= s.len(),
        all_blank(s, i, j),
        j < s.len() ==> !is_blank(s[j]),
    ensures
        skip_blanks(s, i) == j,
    decreases j - i,
{
    if i < j {
        assert(is_blank(s[i]));
        law_blanks_are_skipped(s, i + 1, j);
    }
}

/// A run of digits that ends at `j` is read up to `j`.
pub proof fn law_digits_are_read(s: Seq<char>, i: int, j: int)
    requires
        0 <= i <= j <= s.len(),
        all_digits(s, i, j),
        j < s.len() ==> !is_digit(s[j]),
    ensures
        digits_end(s, i) == j,
    decreases j - i,
{
    if i < j {
        assert(is_digit(s[i]));
        law_digits_are_read(s, i + 1, j);
    }
}

/// A character is found where it first stands.
pub proof fn law_first_is_found(s: Seq<char>, i: int, j: int, c: char)
    requires
        0 <= i <= j <= s.len(),
        none_is(s, i, j, c),
        j < s.len() ==> s[j] == c,
    ensures
        find(s, i, c) == j,
    decreases j - i,
{
    if i < j {
        assert(s[i] != c);
        law_first_is_found(s, i + 1, j, c);
    }
}

/// Digits between blanks are read as their number, whatever the blanks:
/// with blanks from `i`, digits from `from` up to `to` and blanks up to
/// `next`, the value at `i` is what the digits denote, and the text goes on
/// at `next`.
pub proof fn law_number_between_blanks(s: Seq<char>, i: int, from: int, to: int, next: int)
    requires
        0 <= i <= from < to <= next <= s.len(),
        all_blank(s, i, from),
        all_digits(s, from, to),
        to < s.len() ==> !is_digit(s[to]),
        all_blank(s, to, next),
        next < s.len() ==> !is_blank(s[next]),
        decimal(s.subrange(from, to)) <= u64::MAX,
    ensures
        value_at(s, i) == Ok::<_, ParseFailure>(
            (ValueModel::Numeric(decimal(s.subrange(from, to)) as u64), next),
        ),
{
    assert(is_digit(s[from]));
    law_blanks_are_skipped(s, i, from);
    law_digits_are_read(s, from, to);
    law_blanks_are_skipped(s, to, next);
}

/// A quoted string is read as its text, whatever the blanks after each of
/// its quotes: with a quote at `i`, blanks up to `from`, text without a
/// quote up to the quote at `to`, and blanks up to `next`, the value at `i`
/// is the text, and the line goes on at `next`.
pub proof fn law_text_between_blanks(s: Seq<char>, i: int, from: int, to: int, next: int)
    requires
        0 <= i < from <= to < next <= s.len(),
        s[i] == '"',
        all_blank(s, i + 1, from),
        !is_blank(s[from]),
        none_is(s, from, to, '"'),
        s[to] == '"',
        all_blank(s, to + 1, next),
        next < s.len() ==> !is_blank(s[next]),
    ensures
        value_at(s, i) == Ok::<_, ParseFailure>((ValueModel::Text(s.subrange(from, to)), next)),
{
    law_blanks_are_skipped(s, i + 1, from);
    law_first_is_found(s, from, to, '"');
    law_blanks_are_skipped(s, to + 1, next);
}

/// A pair holds its key as it stands and its value, whatever the blanks
/// between the colon and the value at `at`; a comma after the value is
/// taken with the blanks behind it.
pub proof fn law_pair_holds_key_and_value(
    s: Seq<char>,
    i: int,
    colon: int,
    at: int,
    value: ValueModel,
    next: int,
)
    requires
        0 <= i <= colon < at <= s.len(),
        none_is(s, i, colon, ':'),
        s[colon] == ':',
        all_blank(s, colon + 1, at),
        at < s.len() ==> !is_blank(s[at]),
        value_at(s, at) == Ok::<_, ParseFailure>((value, next)),
    ensures
        pair_at(s, i) == Ok::<_, ParseFailure>(
            (
                Entry { key: s.subrange(i, colon), value },
                if 0 <= next < s.len() && s[next] == ',' {
                    skip_blanks(s, next + 1)
                } else {
                    next
                },
            ),
        ),
{
    law_first_is_found(s, i, colon, ':');
    law_blanks_are_skipped(s, colon + 1, at);
}

/// Blanks behind the opening quote are passed over: the pairs are read
/// from the first character that is no blank.
pub proof fn law_header_opens(s: Seq<char>, start: int)
    requires
        1 <= start <= s.len(),
        s[0] == '"',
        all_blank(s, 1, start),
        start < s.len() ==> !is_blank(s[start]),
    ensures
        header_pairs(s) == pairs_from(s, start, Seq::empty()),
{
    law_blanks_are_skipped(s, 1, start);
}

/// Where a pair stands, it joins those read before it, and reading goes on
/// behind it.
pub proof fn law_header_goes_on(s: Seq<char>, i: int, seen: Seq<Entry>)
    requires
        0 <= i < s.len(),
        s[i] != '"',
        pair_at(s, i) is Ok,
    ensures
        pairs_from(s, i, seen) == pairs_from(
            s,
            pair_at(s, i).unwrap().1,
            seen.push(pair_at(s, i).unwrap().0),
        ),
{
}

/// A double quote behind at least one pair, with nothing but blanks after
/// it, closes the header: the pairs read so far are its pairs.
pub proof fn law_header_closes(s: Seq<char>, i: int, seen: Seq<Entry>)
    requires
        0 <= i < s.len(),
        s[i] == '"',
        seen.len() > 0,
        all_blank(s, i + 1, s.len() as int),
    ensures
        pairs_from(s, i, seen) == Ok::<_, ParseFailure>(seen),
{
    law_blanks_are_skipped(s, i + 1, s.len() as int);
}

} // verus!
