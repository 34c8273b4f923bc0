//! Headers as they are written: the text of a list of pairs with blanks
//! between them, and the proof that reading that text gives the pairs back.
use vstd::prelude::*;
use crate::grammar::{
    decimal, digits_end, find, header_of, header_pairs, is_blank, is_digit, lemma_digits_end, lemma_find,
    lemma_pair_advances, lemma_skip_blanks, lemma_value_advances, numeric_at, pair_at, pairs_from,
    quoted_at, skip_blanks, string_at, value_at,
};
use crate::grammar::recognized;
use crate::laws::{
    all_blank, all_digits, law_blanks_are_skipped, law_each_key_once, law_header_closes,
    law_number_between_blanks, law_pair_holds_key_and_value, law_text_between_blanks, none_is,
};
use crate::model::{Entry, Field, HeaderModel, ParseFailure, ValueModel};

verus! {

/// A value as it is written.
pub enum Written {
    /// A run of digits.
    Number(Seq<char>),
    /// A quoted string: the blanks behind its opening quote, and its text.
    Text(Seq<char>, Seq<char>),
}

/// A pair as it is written.
pub struct Item {
    pub key: Seq<char>,
    /// The blanks behind the colon.
    pub gap: Seq<char>,
    pub value: Written,
    /// The blanks behind the value.
    pub tail: Seq<char>,
    /// Whether a comma closes the pair.
    pub comma: bool,
    /// The blanks behind the comma.
    pub after: Seq<char>,
}

/// A text of blanks only.
pub open spec fn blanks(w: Seq<char>) -> bool {
    all_blank(w, 0, w.len() as int)
}

/// A character with which a key can start and be told from what stands
/// before it: no blank, quote, comma or digit.
pub open spec fn starts_key(c: char) -> bool {
    !is_blank(c) && c != '"' && c != ',' && !is_digit(c)
}

impl Written {
    /// Digits that fit in 64 bits, or a text without a quote that starts
    /// with no blank.
    pub open spec fn sound(self) -> bool {
        match self {
            Written::Number(d) => d.len() > 0 && all_digits(d, 0, d.len() as int) && decimal(d)
                <= u64::MAX,
            Written::Text(inner, t) => blanks(inner) && none_is(t, 0, t.len() as int, '"') && (
            t.len() == 0 || !is_blank(t[0])),
        }
    }

    /// The characters of the value.
    pub open spec fn text(self) -> Seq<char> {
        match self {
            Written::Number(d) => d,
            Written::Text(inner, t) => seq!['"'] + inner + t + seq!['"'],
        }
    }

    /// The value that is meant.
    pub open spec fn meant(self) -> ValueModel {
        match self {
            Written::Number(d) => ValueModel::Numeric(decimal(d) as u64),
            Written::Text(_, t) => ValueModel::Text(t),
        }
    }
}

impl Item {
    /// A key without a colon that starts as a key can, a sound value, and
    /// blanks where blanks are meant.
    pub open spec fn sound(self) -> bool {
        &&& self.key.len() > 0
        &&& starts_key(self.key[0])
        &&& none_is(self.key, 0, self.key.len() as int, ':')
        &&& blanks(self.gap)
        &&& self.value.sound()
        &&& blanks(self.tail)
        &&& blanks(self.after)
        &&& (!self.comma ==> self.after.len() == 0)
    }

    /// What closes the pair: a comma with blanks, or nothing.
    pub open spec fn close(self) -> Seq<char> {
        if self.comma {
            seq![','] + self.after
        } else {
            Seq::empty()
        }
    }

    /// The characters of the pair.
    pub open spec fn text(self) -> Seq<char> {
        self.key + seq![':'] + self.gap + self.value.text() + self.tail + self.close()
    }

    /// The pair that is meant.
    pub open spec fn meant(self) -> Entry {
        Entry { key: self.key, value: self.value.meant() }
    }
}

/// The characters of a list of pairs.
pub open spec fn items_text(items: Seq<Item>) -> Seq<char>
    decreases items.len(),
{
    if items.len() == 0 {
        Seq::empty()
    } else {
        items[0].text() + items_text(items.drop_first())
    }
}

/// The pairs that a list of written pairs means.
pub open spec fn items_meant(items: Seq<Item>) -> Seq<Entry> {
    Seq::new(items.len(), |j: int| items[j].meant())
}

/// Every pair of the list is sound.
pub open spec fn items_sound(items: Seq<Item>) -> bool {
    forall|j: int| 0 <= j < items.len() ==> (#[trigger] items[j]).sound()
}

/// The characters of a header: a quote, blanks, the pairs, a quote, blanks.
pub open spec fn header_text(lead: Seq<char>, items: Seq<Item>, trail: Seq<char>) -> Seq<char> {
    seq!['"'] + lead + (items_text(items) + (seq!['"'] + trail))
}

proof fn lemma_skip_blanks_shift(s: Seq<char>, k: int, i: int)
    requires
        0 <= k <= i <= s.len(),
    ensures
        skip_blanks(s, i) == skip_blanks(s.skip(k), i - k) + k,
    decreases s.len() - i,
{
    if i < s.len() {
        assert(s.skip(k)[i - k] == s[i]);
        if is_blank(s[i]) {
            lemma_skip_blanks_shift(s, k, i + 1);
        }
    }
}

proof fn lemma_digits_end_shift(s: Seq<char>, k: int, i: int)
    requires
        0 <= k <= i <= s.len(),
    ensures
        digits_end(s, i) == digits_end(s.skip(k), i - k) + k,
    decreases s.len() - i,
{
    if i < s.len() {
        assert(s.skip(k)[i - k] == s[i]);
        if is_digit(s[i]) {
            lemma_digits_end_shift(s, k, i + 1);
        }
    }
}

proof fn lemma_find_shift(s: Seq<char>, k: int, i: int, c: char)
    requires
        0 <= k <= i <= s.len(),
    ensures
        find(s, i, c) == find(s.skip(k), i - k, c) + k,
    decreases s.len() - i,
{
    if i < s.len() {
        assert(s.skip(k)[i - k] == s[i]);
        if s[i] != c {
            lemma_find_shift(s, k, i + 1, c);
        }
    }
}

/// What is read from a position, with each position in it moved by `k`.
pub open spec fn moved<T>(r: Result<(T, int), ParseFailure>, k: int) -> Result<
    (T, int),
    ParseFailure,
> {
    match r {
        Ok((v, next)) => Ok((v, next + k)),
        Err(e) => Err(e),
    }
}

proof fn lemma_numeric_shift(s: Seq<char>, k: int, i: int)
    requires
        0 <= k <= i <= s.len(),
    ensures
        numeric_at(s, i) == moved(numeric_at(s.skip(k), i - k), k),
{
    let t = s.skip(k);
    lemma_skip_blanks_shift(s, k, i);
    lemma_skip_blanks(s, i);
    let from = skip_blanks(s, i);
    lemma_digits_end_shift(s, k, from);
    lemma_digits_end(s, from);
    let to = digits_end(s, from);
    lemma_skip_blanks_shift(s, k, to);
    assert(s.subrange(from, to) =~= t.subrange(from - k, to - k));
}

proof fn lemma_string_shift(s: Seq<char>, k: int, i: int)
    requires
        0 <= k <= i <= s.len(),
    ensures
        string_at(s, i) == moved(string_at(s.skip(k), i - k), k),
{
    let t = s.skip(k);
    if i < s.len() {
        assert(t[i - k] == s[i]);
        if s[i] == '"' {
            lemma_skip_blanks_shift(s, k, i + 1);
            lemma_skip_blanks(s, i + 1);
            let from = skip_blanks(s, i + 1);
            lemma_find_shift(s, k, from, '"');
            lemma_find(s, from, '"');
            let to = find(s, from, '"');
            if to < s.len() {
                lemma_skip_blanks_shift(s, k, to + 1);
                assert(s.subrange(from, to) =~= t.subrange(from - k, to - k));
            }
        }
    }
}

proof fn lemma_value_shift(s: Seq<char>, k: int, i: int)
    requires
        0 <= k <= i <= s.len(),
    ensures
        value_at(s, i) == moved(value_at(s.skip(k), i - k), k),
{
    lemma_numeric_shift(s, k, i);
    lemma_string_shift(s, k, i);
}

proof fn lemma_pair_shift(s: Seq<char>, k: int, i: int)
    requires
        0 <= k <= i <= s.len(),
    ensures
        pair_at(s, i) == moved(pair_at(s.skip(k), i - k), k),
{
    let t = s.skip(k);
    lemma_find_shift(s, k, i, ':');
    lemma_find(s, i, ':');
    let colon = find(s, i, ':');
    if colon < s.len() {
        lemma_skip_blanks_shift(s, k, colon + 1);
        lemma_skip_blanks(s, colon + 1);
        let at = skip_blanks(s, colon + 1);
        lemma_value_shift(s, k, at);
        assert(s.subrange(i, colon) =~= t.subrange(i - k, colon - k));
        if value_at(s, at) is Ok {
            lemma_value_advances(s, at);
            let next = value_at(s, at).unwrap().1;
            if next < s.len() {
                assert(t[next - k] == s[next]);
                lemma_skip_blanks_shift(s, k, next + 1);
            }
        }
    }
}

/// The pairs read from a position depend only on the text from there on.
pub proof fn lemma_pairs_shift(s: Seq<char>, k: int, i: int, seen: Seq<Entry>)
    requires
        0 <= k <= i <= s.len(),
    ensures
        pairs_from(s, i, seen) == pairs_from(s.skip(k), i - k, seen),
    decreases s.len() - i,
{
    let t = s.skip(k);
    if i < s.len() {
        assert(t[i - k] == s[i]);
        if s[i] == '"' {
            lemma_skip_blanks_shift(s, k, i + 1);
        } else {
            lemma_pair_shift(s, k, i);
            if pair_at(s, i) is Ok {
                lemma_pair_advances(s, i);
                let next = pair_at(s, i).unwrap().1;
                lemma_pairs_shift(s, k, next, seen.push(pair_at(s, i).unwrap().0));
            }
        }
    }
}

/// A sound pair, written before a text that starts as a key can or with
/// the closing quote, is read as the pair that is meant, and the text
/// goes on right behind it.
pub proof fn law_written_pair_is_read(it: Item, rest: Seq<char>)
    requires
        it.sound(),
        rest.len() > 0,
        rest[0] == '"' || starts_key(rest[0]),
    ensures
        pair_at(it.text() + rest, 0) == Ok::<_, ParseFailure>((it.meant(), it.text().len() as int)),
{
    let s = it.text() + rest;
    let colon = it.key.len() as int;
    let at = colon + 1 + it.gap.len();
    let vlen = it.value.text().len() as int;
    let to = at + vlen;
    let next = to + it.tail.len();
    let end = it.text().len() as int;
    assert(end == next + it.close().len());
    assert(forall|j: int| 0 <= j < colon ==> s[j] == it.key[j]);
    assert(s[colon] == ':');
    assert(forall|j: int| colon + 1 <= j < at ==> s[j] == it.gap[j - colon - 1]);
    assert(forall|j: int| at <= j < to ==> s[j] == it.value.text()[j - at]);
    assert(forall|j: int| to <= j < next ==> s[j] == it.tail[j - to]);
    assert(forall|j: int| next <= j < end ==> s[j] == it.close()[j - next]);
    assert(s[end] == rest[0]);
    assert(s.subrange(0, colon) =~= it.key);
    assert(s[at] == it.value.text()[0]);
    assert(!is_blank(s[next]));
    match it.value {
        Written::Number(d) => {
            assert(s.subrange(at, to) =~= d);
            assert(!is_digit(s[to]));
            law_number_between_blanks(s, at, at, to, next);
        },
        Written::Text(inner, t) => {
            let from = at + 1 + inner.len();
            let quote = from + t.len();
            assert(quote + 1 == to);
            assert(forall|j: int| at + 1 <= j < from ==> s[j] == inner[j - at - 1]);
            assert(forall|j: int| from <= j < quote ==> s[j] == t[j - from]);
            assert(s[quote] == '"');
            assert(s.subrange(from, quote) =~= t);
            law_text_between_blanks(s, at, from, quote, next);
        },
    }
    law_pair_holds_key_and_value(s, 0, colon, at, it.value.meant(), next);
    if it.comma {
        assert(s[next] == ',');
        law_blanks_are_skipped(s, next + 1, end);
    } else {
        assert(s[next] == rest[0]);
    }
}

/// The text of a sound pair starts with the first character of its key.
proof fn lemma_item_starts(it: Item)
    requires
        it.sound(),
    ensures
        it.text().len() > 0,
        it.text()[0] == it.key[0],
        starts_key(it.text()[0]),
{
}

/// The text of a list of pairs is the text of the first before that of
/// the others.
proof fn lemma_items_split(items: Seq<Item>, close: Seq<char>)
    requires
        items.len() > 0,
    ensures
        items_text(items) + close == items[0].text() + (items_text(items.drop_first()) + close),
{
    let head = items[0].text();
    let tail = items_text(items.drop_first());
    assert((head + tail) + close =~= head + (tail + close));
}

/// The text of a list of sound pairs starts as a key can.
proof fn lemma_items_start(items: Seq<Item>)
    requires
        items.len() > 0,
        items_sound(items),
    ensures
        items_text(items).len() > 0,
        starts_key(items_text(items)[0]),
{
    assert(items[0].sound());
    lemma_item_starts(items[0]);
    let head = items[0].text();
    let tail = items_text(items.drop_first());
    assert((head + tail)[0] == head[0]);
}

/// The pairs meant by a list are the one meant by the first before those
/// meant by the others.
proof fn lemma_meant_split(items: Seq<Item>, seen: Seq<Entry>)
    requires
        items.len() > 0,
    ensures
        seen.push(items[0].meant()) + items_meant(items.drop_first()) == seen + items_meant(items),
{
    let later = items.drop_first();
    assert(forall|j: int| 0 <= j < later.len() ==> later[j] == items[j + 1]);
    assert(seen.push(items[0].meant()) + items_meant(later) =~= seen + items_meant(items));
}

/// Where a pair is read from the start of a text, the pairs of the text
/// are that pair and the pairs of what stands behind it.
proof fn lemma_read_one(
    head: Seq<char>,
    rest: Seq<char>,
    e: Entry,
    seen: Seq<Entry>,
)
    requires
        head.len() > 0,
        head[0] != '"',
        pair_at(head + rest, 0) == Ok::<_, ParseFailure>((e, head.len() as int)),
    ensures
        pairs_from(head + rest, 0, seen) == pairs_from(rest, 0, seen.push(e)),
{
    let s = head + rest;
    let n = head.len() as int;
    assert(s[0] == head[0]);
    lemma_pairs_shift(s, n, n, seen.push(e));
    assert(s.skip(n) =~= rest);
}

/// The closing quote with blanks behind it ends the pairs read before.
proof fn lemma_read_close(trail: Seq<char>, seen: Seq<Entry>)
    requires
        blanks(trail),
        seen.len() > 0,
    ensures
        pairs_from(seq!['"'] + trail, 0, seen) == Ok::<_, ParseFailure>(seen),
{
    let s = seq!['"'] + trail;
    assert(forall|j: int| 1 <= j < s.len() ==> s[j] == trail[j - 1]);
    law_header_closes(s, 0, seen);
}

/// Sound pairs, written one behind the other before the closing quote and
/// blanks, are read as the pairs that are meant, behind those read before.
pub proof fn law_written_pairs_are_read(items: Seq<Item>, trail: Seq<char>, seen: Seq<Entry>)
    requires
        items_sound(items),
        blanks(trail),
        items.len() + seen.len() > 0,
    ensures
        pairs_from(items_text(items) + (seq!['"'] + trail), 0, seen) == Ok::<_, ParseFailure>(
            seen + items_meant(items),
        ),
    decreases items.len(),
{
    let close = seq!['"'] + trail;
    if items.len() == 0 {
        assert(items_text(items) + close =~= close);
        lemma_read_close(trail, seen);
        assert(seen + items_meant(items) =~= seen);
    } else {
        let it = items[0];
        let later = items.drop_first();
        let rest = items_text(later) + close;
        assert(it.sound());
        assert(items_sound(later)) by {
            assert(forall|j: int| 0 <= j < later.len() ==> later[j] == items[j + 1]);
        }
        lemma_items_split(items, close);
        assert(rest.len() > 0 && (rest[0] == '"' || starts_key(rest[0]))) by {
            if later.len() > 0 {
                lemma_items_start(later);
                assert(rest[0] == items_text(later)[0]);
            } else {
                assert(rest[0] == '"');
            }
        }
        law_written_pair_is_read(it, rest);
        lemma_item_starts(it);
        lemma_read_one(it.text(), rest, it.meant(), seen);
        law_written_pairs_are_read(later, trail, seen.push(it.meant()));
        lemma_meant_split(items, seen);
    }
}

/// A header written from sound pairs is read as the pairs that are meant,
/// whatever blanks stand behind its quotes, its colons, its values and its
/// commas.
pub proof fn law_written_header_is_read(lead: Seq<char>, items: Seq<Item>, trail: Seq<char>)
    requires
        blanks(lead),
        blanks(trail),
        items.len() > 0,
        items_sound(items),
    ensures
        header_pairs(header_text(lead, items, trail)) == Ok::<_, ParseFailure>(items_meant(items)),
{
    let body = items_text(items) + (seq!['"'] + trail);
    let s = header_text(lead, items, trail);
    let start = 1 + lead.len() as int;
    lemma_items_start(items);
    assert(s[0] == '"');
    assert(forall|j: int| 1 <= j < start ==> s[j] == lead[j - 1]);
    assert(s[start] == body[0]);
    assert(body[0] == items_text(items)[0]);
    law_blanks_are_skipped(s, 1, start);
    lemma_pairs_shift(s, start, start, Seq::empty());
    assert(s.skip(start) =~= body);
    law_written_pairs_are_read(items, trail, Seq::empty());
    assert(Seq::<Entry>::empty() + items_meant(items) =~= items_meant(items));
}

/// The key of the pair written at `j` names the field `f`, and no other
/// key of the list does.
pub open spec fn names_once(items: Seq<Item>, j: int, f: Field) -> bool {
    &&& 0 <= j < items.len()
    &&& forall|i: int|
        0 <= i < items.len() ==> (recognized(#[trigger] items[i].key) == Some(f) <==> i == j)
}

/// A header written from sound pairs in which each of the four keys stands
/// exactly once, in whatever case and order and among whatever other keys
/// and blanks, with a string for the pallet and the extrinsic and digits for
/// the steps and the repetitions, is read as the record of those four values.
pub proof fn law_written_record_is_read(
    lead: Seq<char>,
    items: Seq<Item>,
    trail: Seq<char>,
    pallet: int,
    extrinsic: int,
    steps: int,
    repeat: int,
)
    requires
        blanks(lead),
        blanks(trail),
        items_sound(items),
        names_once(items, pallet, Field::Pallet),
        names_once(items, extrinsic, Field::Extrinsic),
        names_once(items, steps, Field::Steps),
        names_once(items, repeat, Field::Repeat),
        items[pallet].value is Text,
        items[extrinsic].value is Text,
        items[steps].value is Number,
        items[repeat].value is Number,
    ensures
        header_of(header_text(lead, items, trail)) == Ok::<_, ParseFailure>(
            (HeaderModel {
                repeat: decimal(items[repeat].value->Number_0) as u64,
                steps: decimal(items[steps].value->Number_0) as u64,
                pallet_name: items[pallet].value->Text_1,
                extrinsic: items[extrinsic].value->Text_1,
            }),
        ),
{
    let s = header_text(lead, items, trail);
    law_written_header_is_read(lead, items, trail);
    let pairs = header_pairs(s).unwrap();
    assert(pairs == items_meant(items));
    assert(forall|j: int| 0 <= j < pairs.len() ==> pairs[j] == items[j].meant());
    assert(forall|j: int| 0 <= j < pairs.len() ==> (#[trigger] pairs[j]).key == items[j].key);
    law_each_key_once(s, pallet, extrinsic, steps, repeat);
}

} // verus!
