//! Replacement tables: ordered mappings from a key to its replacement.
//!
//! A table keeps its entries in ascending order of their keys, compared
//! character by character, and holds each key once. The stages that match
//! literal keys apply the entries longest key first.

use vstd::prelude::*;
use crate::chars::{byte_length, to_chars};

verus! {

/// Whether `a` comes before `b` in the order of the table: at the first
/// place where they differ `a` has the smaller character, or `a` ends there
/// and `b` goes on.
pub open spec fn key_before(a: Seq<char>, b: Seq<char>) -> bool
    decreases a.len(),
{
    if b.len() == 0 {
        false
    } else if a.len() == 0 {
        true
    } else if a[0] != b[0] {
        a[0] < b[0]
    } else {
        key_before(a.drop_first(), b.drop_first())
    }
}

/// Whether the keys of `entries` ascend strictly from each entry to the
/// next.
pub open spec fn ascending(entries: Seq<(Seq<char>, Seq<char>)>) -> bool {
    forall|i: int|
        0 <= i < entries.len() - 1 ==> key_before((#[trigger] entries[i]).0, entries[i + 1].0)
}

/// `entries` with `value` stored under `key`: in place of the entry that
/// had the key, or else before the first entry whose key comes after it.
pub open spec fn inserted(
    entries: Seq<(Seq<char>, Seq<char>)>,
    key: Seq<char>,
    value: Seq<char>,
) -> Seq<(Seq<char>, Seq<char>)>
    decreases entries.len(),
{
    if entries.len() == 0 {
        seq![(key, value)]
    } else if entries[0].0 == key {
        entries.update(0, (key, value))
    } else if key_before(key, entries[0].0) {
        seq![(key, value)] + entries
    } else {
        seq![entries[0]] + inserted(entries.drop_first(), key, value)
    }
}

/// `sorted` with `entry` put behind every entry whose key is at least as
/// long as its own.
pub open spec fn placed_by_length(
    sorted: Seq<(Seq<char>, Seq<char>)>,
    entry: (Seq<char>, Seq<char>),
) -> Seq<(Seq<char>, Seq<char>)>
    decreases sorted.len(),
{
    if sorted.len() == 0 {
        seq![entry]
    } else if byte_length(sorted[0].0) >= byte_length(entry.0) {
        seq![sorted[0]] + placed_by_length(sorted.drop_first(), entry)
    } else {
        seq![entry] + sorted
    }
}

/// The entries in the order in which they are applied: longer keys, by
/// their length in bytes, before shorter ones, and keys of one length in the
/// order of the table.
pub open spec fn longest_first(entries: Seq<(Seq<char>, Seq<char>)>) -> Seq<
    (Seq<char>, Seq<char>),
>
    decreases entries.len(),
{
    if entries.len() == 0 {
        entries
    } else {
        placed_by_length(longest_first(entries.drop_last()), entries.last())
    }
}

/// The views of a sequence of entries.
pub open spec fn pairs(entries: Seq<(String, String)>) -> Seq<(Seq<char>, Seq<char>)> {
    entries.map_values(|e: (String, String)| (e.0@, e.1@))
}

/// How two keys stand to each other.
#[derive(Debug, Clone, Copy, PartialEq, Eq, Structural)]
pub enum KeyOrder {
    /// The first key comes before the second.
    Before,
    /// The keys are equal.
    Same,
    /// The first key comes after the second.
    After,
}

/// Compares two keys character by character.
pub fn key_order(a: &str, b: &str) -> (out: KeyOrder)
    ensures
        out == KeyOrder::Before <==> key_before(a@, b@),
        out == KeyOrder::Same <==> a@ == b@,
        out == KeyOrder::After <==> key_before(b@, a@),
{
    let left = to_chars(a);
    let right = to_chars(b);
    let mut i: usize = 0;
    proof {
        assert(left@.skip(0) =~= left@);
        assert(right@.skip(0) =~= right@);
    }
    while i < left.len() && i < right.len()
        invariant
            i <= left.len(),
            i <= right.len(),
            left@ == a@,
            right@ == b@,
            left@.take(i as int) == right@.take(i as int),
            key_before(left@.skip(i as int), right@.skip(i as int)) == key_before(left@, right@),
            key_before(right@.skip(i as int), left@.skip(i as int)) == key_before(right@, left@),
        decreases left.len() - i,
    {
        let x = left[i];
        let y = right[i];
        if x != y {
            proof {
                assert(left@.skip(i as int)[0] == x);
                assert(right@.skip(i as int)[0] == y);
                assert(left@[i as int] != right@[i as int]);
            }
            if x < y {
                return KeyOrder::Before;
            } else {
                return KeyOrder::After;
            }
        }
        proof {
            assert(left@.skip(i as int).drop_first() =~= left@.skip(i + 1));
            assert(right@.skip(i as int).drop_first() =~= right@.skip(i + 1));
            assert(left@.take(i + 1) =~= left@.take(i as int).push(x));
            assert(right@.take(i + 1) =~= right@.take(i as int).push(y));
        }
        i += 1;
    }
    proof {
        assert(left@.take(left.len() as int) =~= left@);
        assert(right@.take(right.len() as int) =~= right@);
    }
    if i < right.len() {
        proof {
            assert(left@.skip(i as int).len() == 0);
            assert(left@.len() != right@.len());
        }
        KeyOrder::Before
    } else if i < left.len() {
        proof {
            assert(right@.skip(i as int).len() == 0);
            assert(left@.len() != right@.len());
        }
        KeyOrder::After
    } else {
        proof {
            assert(left@.skip(i as int).len() == 0);
            assert(right@.skip(i as int).len() == 0);
        }
        KeyOrder::Same
    }
}

/// An ordered mapping from keys to replacements.
#[derive(Debug)]
pub struct ReplacementTable {
    entries: Vec<(String, String)>,
}

impl View for ReplacementTable {
    type V = Seq<(Seq<char>, Seq<char>)>;

    closed spec fn view(&self) -> Seq<(Seq<char>, Seq<char>)> {
        pairs(self.entries@)
    }
}

/// Where `key` goes when `value` is stored under it: the place and whether
/// the key is there already.
proof fn lemma_inserted_at(
    entries: Seq<(Seq<char>, Seq<char>)>,
    key: Seq<char>,
    value: Seq<char>,
    p: int,
)
    requires
        0 <= p <= entries.len(),
        forall|j: int| 0 <= j < p ==> key_before((#[trigger] entries[j]).0, key),
        p == entries.len() || entries[p].0 == key || key_before(key, entries[p].0),
    ensures
        p < entries.len() && entries[p].0 == key ==> inserted(entries, key, value)
            == entries.update(p, (key, value)),
        !(p < entries.len() && entries[p].0 == key) ==> inserted(entries, key, value)
            == entries.take(p) + seq![(key, value)] + entries.skip(p),
    decreases p,
{
    if p == 0 {
        if entries.len() == 0 {
            assert(entries.take(0) + seq![(key, value)] + entries.skip(0) =~= seq![(key, value)]);
        } else if entries[0].0 == key {
        } else {
            assert(entries.take(0) + seq![(key, value)] + entries.skip(0) =~= seq![(key, value)]
                + entries);
        }
    } else {
        let rest = entries.drop_first();
        lemma_before_is_strict(entries[0].0, key);
        assert forall|j: int| 0 <= j < p - 1 implies key_before((#[trigger] rest[j]).0, key) by {
            assert(rest[j] == entries[j + 1]);
        }
        lemma_inserted_at(rest, key, value, p - 1);
        if p < entries.len() && entries[p].0 == key {
            assert(seq![entries[0]] + rest.update(p - 1, (key, value)) =~= entries.update(
                p,
                (key, value),
            ));
        } else {
            assert(seq![entries[0]] + (rest.take(p - 1) + seq![(key, value)] + rest.skip(p - 1))
                =~= entries.take(p) + seq![(key, value)] + entries.skip(p));
        }
    }
}

/// A key that comes before another is not equal to it and does not come
/// after it.
pub proof fn lemma_before_is_strict(a: Seq<char>, b: Seq<char>)
    requires
        key_before(a, b),
    ensures
        a != b,
        !key_before(b, a),
    decreases a.len(),
{
    if a.len() > 0 && b.len() > 0 && a[0] == b[0] {
        lemma_before_is_strict(a.drop_first(), b.drop_first());
        if a == b {
            assert(a.drop_first() == b.drop_first());
        }
    }
}

/// A key that comes before a second one comes before every key that the
/// second one comes before.
pub proof fn lemma_before_is_transitive(a: Seq<char>, b: Seq<char>, c: Seq<char>)
    requires
        key_before(a, b),
        key_before(b, c),
    ensures
        key_before(a, c),
    decreases a.len(),
{
    if a.len() > 0 && b.len() > 0 && c.len() > 0 {
        if a[0] == b[0] && b[0] == c[0] {
            lemma_before_is_transitive(a.drop_first(), b.drop_first(), c.drop_first());
        }
    }
}

/// A key that comes after the last key of a table is stored at its end.
pub proof fn lemma_inserted_last(
    entries: Seq<(Seq<char>, Seq<char>)>,
    key: Seq<char>,
    value: Seq<char>,
)
    requires
        ascending(entries),
        entries.len() > 0 ==> key_before(entries.last().0, key),
    ensures
        inserted(entries, key, value) == entries.push((key, value)),
        ascending(entries.push((key, value))),
{
    let n = entries.len() as int;
    assert forall|j: int| 0 <= j < n implies key_before((#[trigger] entries[j]).0, key) by {
        lemma_ascending_to_last(entries, j);
        if j < n - 1 {
            lemma_before_is_transitive(entries[j].0, entries.last().0, key);
        }
    }
    lemma_inserted_at(entries, key, value, n);
    assert(entries.take(n) + seq![(key, value)] + entries.skip(n) =~= entries.push((key, value)));
    let out = entries.push((key, value));
    assert forall|i: int| 0 <= i < out.len() - 1 implies key_before(
        (#[trigger] out[i]).0,
        out[i + 1].0,
    ) by {
        if i < n - 1 {
            assert(key_before(entries[i].0, entries[i + 1].0));
        }
    }
}

/// In a table, every key but the last comes before the last.
pub proof fn lemma_ascending_to_last(entries: Seq<(Seq<char>, Seq<char>)>, j: int)
    requires
        ascending(entries),
        0 <= j < entries.len(),
    ensures
        j < entries.len() - 1 ==> key_before(entries[j].0, entries.last().0),
    decreases entries.len() - j,
{
    if j < entries.len() - 2 {
        lemma_ascending_to_last(entries, j + 1);
        assert(key_before(entries[j].0, entries[j + 1].0));
        lemma_before_is_transitive(entries[j].0, entries[j + 1].0, entries.last().0);
    } else if j == entries.len() - 2 {
        assert(key_before(entries[j].0, entries[j + 1].0));
    }
}

/// Storing a value keeps the keys in ascending order.
pub proof fn lemma_inserted_ascending(
    entries: Seq<(Seq<char>, Seq<char>)>,
    key: Seq<char>,
    value: Seq<char>,
)
    requires
        ascending(entries),
    ensures
        ascending(inserted(entries, key, value)),
    decreases entries.len(),
{
    if entries.len() == 0 {
    } else if entries[0].0 == key {
        let out = entries.update(0, (key, value));
        assert forall|i: int| 0 <= i < out.len() - 1 implies key_before(
            (#[trigger] out[i]).0,
            out[i + 1].0,
        ) by {
            assert(key_before(entries[i].0, entries[i + 1].0));
        }
    } else if key_before(key, entries[0].0) {
        let out = seq![(key, value)] + entries;
        assert forall|i: int| 0 <= i < out.len() - 1 implies key_before(
            (#[trigger] out[i]).0,
            out[i + 1].0,
        ) by {
            if i > 0 {
                assert(key_before(entries[i - 1].0, entries[i].0));
            }
        }
    } else {
        let rest = entries.drop_first();
        assert forall|i: int| 0 <= i < rest.len() - 1 implies key_before(
            (#[trigger] rest[i]).0,
            rest[i + 1].0,
        ) by {
            assert(key_before(entries[i + 1].0, entries[i + 2].0));
        }
        lemma_inserted_ascending(rest, key, value);
        let tail = inserted(rest, key, value);
        let out = seq![entries[0]] + tail;
        lemma_total(entries[0].0, key);
        assert(tail.len() > 0);
        assert(tail[0].0 == key || tail[0] == rest[0]) by {
            if rest.len() > 0 && rest[0].0 != key && !key_before(key, rest[0].0) {
                assert(tail[0] == rest[0]);
            }
        }
        if rest.len() > 0 {
            assert(key_before(entries[0].0, entries[1].0));
        }
        assert forall|i: int| 0 <= i < out.len() - 1 implies key_before(
            (#[trigger] out[i]).0,
            out[i + 1].0,
        ) by {
            if i > 0 {
                assert(key_before(tail[i - 1].0, tail[i].0));
            }
        }
    }
}

/// Of two different keys one comes before the other.
pub proof fn lemma_total(a: Seq<char>, b: Seq<char>)
    ensures
        a == b || key_before(a, b) || key_before(b, a),
    decreases a.len(),
{
    if a.len() > 0 && b.len() > 0 {
        if a[0] == b[0] {
            lemma_total(a.drop_first(), b.drop_first());
            if a.drop_first() == b.drop_first() {
                assert(a =~= seq![a[0]] + a.drop_first());
                assert(b =~= seq![b[0]] + b.drop_first());
            }
        } else {
        }
    } else if a.len() == 0 && b.len() == 0 {
        assert(a =~= b);
    }
}

/// Where an entry goes when it is placed by the length of its key.
proof fn lemma_placed_at(
    sorted: Seq<(Seq<char>, Seq<char>)>,
    entry: (Seq<char>, Seq<char>),
    p: int,
)
    requires
        0 <= p <= sorted.len(),
        forall|j: int|
            0 <= j < p ==> byte_length((#[trigger] sorted[j]).0) >= byte_length(entry.0),
        p == sorted.len() || byte_length(sorted[p].0) < byte_length(entry.0),
    ensures
        placed_by_length(sorted, entry) == sorted.take(p) + seq![entry] + sorted.skip(p),
    decreases p,
{
    if p == 0 {
        assert(sorted.take(0) + seq![entry] + sorted.skip(0) =~= seq![entry] + sorted);
    } else {
        let rest = sorted.drop_first();
        assert(byte_length(sorted[0].0) >= byte_length(entry.0));
        assert forall|j: int| 0 <= j < p - 1 implies byte_length((#[trigger] rest[j]).0)
            >= byte_length(entry.0) by {
            assert(rest[j] == sorted[j + 1]);
        }
        lemma_placed_at(rest, entry, p - 1);
        assert(seq![sorted[0]] + (rest.take(p - 1) + seq![entry] + rest.skip(p - 1))
            =~= sorted.take(p) + seq![entry] + sorted.skip(p));
    }
}

/// How many entries at the start of `sorted` have a key at least as long
/// as that of `entry`.
pub open spec fn place_of(
    sorted: Seq<(Seq<char>, Seq<char>)>,
    entry: (Seq<char>, Seq<char>),
) -> int
    decreases sorted.len(),
{
    if sorted.len() > 0 && byte_length(sorted[0].0) >= byte_length(entry.0) {
        1 + place_of(sorted.drop_first(), entry)
    } else {
        0
    }
}

/// Whether the keys of `entries` get no longer from each entry to the next.
pub open spec fn descending(entries: Seq<(Seq<char>, Seq<char>)>) -> bool {
    forall|i: int, j: int|
        0 <= i <= j < entries.len() ==> byte_length((#[trigger] entries[i]).0) >= byte_length(
            (#[trigger] entries[j]).0,
        )
}

/// Placing an entry by the length of its key puts it into the sequence at
/// `place_of`, and moves nothing else.
pub proof fn lemma_placed_is_inserted(
    sorted: Seq<(Seq<char>, Seq<char>)>,
    entry: (Seq<char>, Seq<char>),
)
    ensures
        0 <= place_of(sorted, entry) <= sorted.len(),
        placed_by_length(sorted, entry) == sorted.insert(place_of(sorted, entry), entry),
        forall|j: int|
            0 <= j < place_of(sorted, entry) ==> byte_length((#[trigger] sorted[j]).0)
                >= byte_length(entry.0),
        place_of(sorted, entry) < sorted.len() ==> byte_length(
            sorted[place_of(sorted, entry)].0,
        ) < byte_length(entry.0),
    decreases sorted.len(),
{
    if sorted.len() > 0 && byte_length(sorted[0].0) >= byte_length(entry.0) {
        let rest = sorted.drop_first();
        lemma_placed_is_inserted(rest, entry);
        let p = place_of(rest, entry);
        assert(seq![sorted[0]] + rest.insert(p, entry) =~= sorted.insert(p + 1, entry));
        assert forall|j: int| 0 <= j < p + 1 implies byte_length((#[trigger] sorted[j]).0)
            >= byte_length(entry.0) by {
            if j > 0 {
                assert(sorted[j] == rest[j - 1]);
            }
        }
        if p + 1 < sorted.len() {
            assert(sorted[p + 1] == rest[p]);
        }
    } else if sorted.len() == 0 {
        assert(seq![entry] =~= sorted.insert(0, entry));
    } else {
        assert(seq![entry] + sorted =~= sorted.insert(0, entry));
    }
}

/// The entries in the order of their application are the entries of the
/// table, each as often as there: nothing is lost and nothing is added.
pub proof fn lemma_longest_first_is_a_permutation(entries: Seq<(Seq<char>, Seq<char>)>)
    ensures
        longest_first(entries).to_multiset() == entries.to_multiset(),
        longest_first(entries).len() == entries.len(),
    decreases entries.len(),
{
    if entries.len() > 0 {
        let before = entries.drop_last();
        lemma_longest_first_is_a_permutation(before);
        let sorted = longest_first(before);
        lemma_placed_is_inserted(sorted, entries.last());
        vstd::seq_lib::to_multiset_insert(sorted, place_of(sorted, entries.last()), entries.last());
        vstd::seq_lib::to_multiset_build(before, entries.last());
        assert(before.push(entries.last()) =~= entries);
    }
}

/// Every entry in the order of application is an entry of the table.
pub proof fn lemma_longest_first_members(entries: Seq<(Seq<char>, Seq<char>)>, i: int)
    requires
        0 <= i < longest_first(entries).len(),
    ensures
        entries.contains(longest_first(entries)[i]),
{
    let order = longest_first(entries);
    lemma_longest_first_is_a_permutation(entries);
    vstd::seq_lib::to_multiset_contains(order, order[i]);
    vstd::seq_lib::to_multiset_contains(entries, order[i]);
    assert(order.contains(order[i]));
}

/// In the order of their application, no entry has a longer key than the
/// one before it.
pub proof fn lemma_longest_first_descends(entries: Seq<(Seq<char>, Seq<char>)>)
    ensures
        descending(longest_first(entries)),
    decreases entries.len(),
{
    if entries.len() > 0 {
        let before = entries.drop_last();
        lemma_longest_first_descends(before);
        let sorted = longest_first(before);
        let entry = entries.last();
        lemma_placed_is_inserted(sorted, entry);
        let p = place_of(sorted, entry);
        let out = sorted.insert(p, entry);
        assert forall|i: int, j: int| 0 <= i <= j < out.len() implies byte_length(
            (#[trigger] out[i]).0,
        ) >= byte_length((#[trigger] out[j]).0) by {
            if i < p && j < p {
                assert(out[i] == sorted[i] && out[j] == sorted[j]);
            } else if i < p && j == p {
                assert(out[i] == sorted[i]);
            } else if i < p && j > p {
                assert(out[i] == sorted[i] && out[j] == sorted[j - 1]);
            } else if i == p && j > p {
                assert(out[j] == sorted[j - 1]);
                assert(byte_length(sorted[p].0) >= byte_length(sorted[j - 1].0));
            } else if i > p {
                assert(out[i] == sorted[i - 1] && out[j] == sorted[j - 1]);
            }
        }
    }
}

impl ReplacementTable {
    #[verifier::type_invariant]
    spec fn keys_ascend(self) -> bool {
        ascending(pairs(self.entries@))
    }

    /// A table without entries.
    pub fn new() -> (out: Self)
        ensures
            out@ == Seq::<(Seq<char>, Seq<char>)>::empty(),
    {
        let out = ReplacementTable { entries: Vec::new() };
        proof {
            assert(pairs(out.entries@) =~= Seq::<(Seq<char>, Seq<char>)>::empty());
        }
        out
    }

    /// The number of entries.
    pub fn len(&self) -> (n: usize)
        ensures
            n == self@.len(),
    {
        self.entries.len()
    }

    /// Whether the table has no entry.
    pub fn is_empty(&self) -> (b: bool)
        ensures
            b == (self@.len() == 0),
    {
        self.entries.len() == 0
    }

    /// The key of entry `i`.
    pub fn key(&self, i: usize) -> (out: &String)
        requires
            i < self@.len(),
        ensures
            out@ == self@[i as int].0,
    {
        &self.entries[i].0
    }

    /// The replacement of entry `i`.
    pub fn value(&self, i: usize) -> (out: &String)
        requires
            i < self@.len(),
        ensures
            out@ == self@[i as int].1,
    {
        &self.entries[i].1
    }

    /// The entries in the order in which they are applied: longest key
    /// first.
    pub fn longest_first(&self) -> (out: Vec<(String, String)>)
        ensures
            pairs(out@) == longest_first(self@),
    {
        let mut out: Vec<(String, String)> = Vec::new();
        let mut i: usize = 0;
        proof {
            assert(pairs(out@) =~= longest_first(self@.take(0)));
        }
        while i < self.entries.len()
            invariant
                i <= self.entries.len(),
                pairs(out@) == longest_first(self@.take(i as int)),
            decreases self.entries.len() - i,
        {
            let size = self.entries[i].0.as_str().len();
            let ghost entry = self@[i as int];
            let mut p: usize = 0;
            while p < out.len() && out[p].0.as_str().len() >= size
                invariant
                    p <= out.len(),
                    size == byte_length(entry.0),
                    forall|j: int|
                        0 <= j < p ==> byte_length((#[trigger] pairs(out@)[j]).0) >= byte_length(
                            entry.0,
                        ),
                decreases out.len() - p,
            {
                p += 1;
            }
            let copy = (self.entries[i].0.clone(), self.entries[i].1.clone());
            proof {
                let sorted = pairs(out@);
                lemma_placed_at(sorted, entry, p as int);
                assert(self@.take(i + 1).drop_last() =~= self@.take(i as int));
                assert(self@.take(i + 1).last() == entry);
                assert(pairs(out@.insert(p as int, copy)) =~= sorted.take(p as int) + seq![entry]
                    + sorted.skip(p as int));
            }
            out.insert(p, copy);
            i += 1;
        }
        proof {
            assert(self@.take(self.entries.len() as int) =~= self@);
        }
        out
    }

    /// Stores `value` under `key`. An entry that had the key gets the new
    /// value; a new key takes its place in the order of the keys.
    pub fn insert(&mut self, key: &str, value: &str)
        ensures
            final(self)@ == inserted(old(self)@, key@, value@),
    {
        proof {
            use_type_invariant(&*self);
        }
        let ghost before = pairs(self.entries@);
        let mut p: usize = 0;
        let mut same = false;
        while p < self.entries.len()
            invariant_except_break
                !same,
            invariant
                p <= self.entries.len(),
                pairs(self.entries@) == before,
                forall|j: int| 0 <= j < p ==> key_before((#[trigger] before[j]).0, key@),
            ensures
                p <= self.entries.len(),
                pairs(self.entries@) == before,
                forall|j: int| 0 <= j < p ==> key_before((#[trigger] before[j]).0, key@),
                same ==> p < before.len() && before[p as int].0 == key@,
                !same ==> p == before.len() || key_before(key@, before[p as int].0),
            decreases self.entries.len() - p,
        {
            match key_order(self.entries[p].0.as_str(), key) {
                KeyOrder::Before => {
                    p += 1;
                },
                KeyOrder::Same => {
                    same = true;
                    break ;
                },
                KeyOrder::After => {
                    break ;
                },
            }
        }
        proof {
            lemma_inserted_at(before, key@, value@, p as int);
            lemma_inserted_ascending(before, key@, value@);
            if p < before.len() && !same {
                lemma_before_is_strict(key@, before[p as int].0);
            }
        }
        let mut next: Vec<(String, String)> = Vec::new();
        let mut j: usize = 0;
        while j < p
            invariant
                j <= p <= self.entries.len(),
                pairs(self.entries@) == before,
                pairs(next@) =~= before.take(j as int),
            decreases p - j,
        {
            let copy = (self.entries[j].0.clone(), self.entries[j].1.clone());
            proof {
                assert(pairs(next@.push(copy)) =~= pairs(next@).push(before[j as int]));
            }
            next.push(copy);
            j += 1;
        }
        let entry = (key.to_owned(), value.to_owned());
        proof {
            assert(pairs(next@.push(entry)) =~= pairs(next@).push((key@, value@)));
        }
        next.push(entry);
        if same {
            j = p + 1;
        }
        let ghost from = j;
        while j < self.entries.len()
            invariant
                p <= from <= j <= self.entries.len(),
                pairs(self.entries@) == before,
                pairs(next@) =~= before.take(p as int).push((key@, value@)) + before.subrange(
                    from as int,
                    j as int,
                ),
            decreases self.entries.len() - j,
        {
            let copy = (self.entries[j].0.clone(), self.entries[j].1.clone());
            proof {
                assert(pairs(next@.push(copy)) =~= pairs(next@).push(before[j as int]));
            }
            next.push(copy);
            j += 1;
        }
        proof {
            if same {
                assert(pairs(next@) =~= before.update(p as int, (key@, value@)));
            } else {
                assert(pairs(next@) =~= before.take(p as int) + seq![(key@, value@)]
                    + before.skip(p as int));
            }
        }
        self.entries = next;
    }
}

} // verus!
