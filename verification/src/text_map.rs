//! A map keyed by strings that keeps its entries in the order of the keys.

use vstd::prelude::*;
use crate::text::{
    compare_chars, lemma_lex_lt_irreflexive, lemma_lex_lt_transitive, lex_lt, string_of, Order,
};

verus! {

/// Entries, each a key and a value, kept in the strict order of the keys.
pub struct TextMap<V> {
    pub entries: Vec<(Vec<char>, V)>,
}

/// The keys of a sequence of entries, in its order.
pub open spec fn key_seq<V>(entries: Seq<(Seq<char>, V)>) -> Seq<Seq<char>> {
    entries.map_values(|e: (Seq<char>, V)| e.0)
}

/// Whether the keys of the entries come in strict order, so that no key
/// occurs twice.
pub open spec fn sorted_entries<V>(entries: Seq<(Seq<char>, V)>) -> bool {
    forall|i: int, j: int|
        0 <= i < j < entries.len() ==> lex_lt((#[trigger] entries[i]).0, (#[trigger] entries[j]).0)
}

/// A place at which a key stands among the entries, if it stands at one.
pub open spec fn place_of<V>(entries: Seq<(Seq<char>, V)>, k: Seq<char>) -> int {
    choose|i: int| 0 <= i < entries.len() && (#[trigger] entries[i]).0 == k
}

/// The map that a sequence of entries stands for.
pub open spec fn map_of<V>(entries: Seq<(Seq<char>, V)>) -> Map<Seq<char>, V> {
    Map::new(
        |k: Seq<char>| exists|i: int| 0 <= i < entries.len() && (#[trigger] entries[i]).0 == k,
        |k: Seq<char>| entries[place_of(entries, k)].1,
    )
}

/// In sorted entries a key stands at one place only.
pub proof fn lemma_sorted_distinct<V>(entries: Seq<(Seq<char>, V)>, i: int, j: int)
    requires
        sorted_entries(entries),
        0 <= i < entries.len(),
        0 <= j < entries.len(),
        entries[i].0 == entries[j].0,
    ensures
        i == j,
{
    lemma_lex_lt_irreflexive(entries[i].0);
}

/// The map of sorted entries holds each entry.
pub proof fn lemma_map_of_entry<V>(entries: Seq<(Seq<char>, V)>, i: int)
    requires
        sorted_entries(entries),
        0 <= i < entries.len(),
    ensures
        map_of(entries).dom().contains(entries[i].0),
        map_of(entries)[entries[i].0] == entries[i].1,
{
    let k = entries[i].0;
    let j = place_of(entries, k);
    lemma_sorted_distinct(entries, i, j);
}

/// Two sorted listings of one map agree on their first `upto` entries.
proof fn lemma_listing_prefix<V>(a: Seq<(Seq<char>, V)>, b: Seq<(Seq<char>, V)>, upto: int)
    requires
        sorted_entries(a),
        sorted_entries(b),
        map_of(a) == map_of(b),
        0 <= upto <= a.len(),
    ensures
        upto <= b.len(),
        forall|k: int| 0 <= k < upto ==> a[k] == b[k],
    decreases upto,
{
    if upto > 0 {
        lemma_listing_prefix(a, b, upto - 1);
        let i = upto - 1;
        lemma_map_of_entry(a, i);
        assert(map_of(b).dom().contains(a[i].0));
        let j = place_of(b, a[i].0);
        assert(0 <= j < b.len() && b[j].0 == a[i].0);
        if j < i {
            assert(a[j] == b[j]);
            lemma_lex_lt_irreflexive(a[i].0);
        }
        assert(i < b.len());
        lemma_map_of_entry(b, i);
        assert(map_of(a).dom().contains(b[i].0));
        let m = place_of(a, b[i].0);
        assert(0 <= m < a.len() && a[m].0 == b[i].0);
        if m < i {
            assert(a[m] == b[m]);
            lemma_lex_lt_irreflexive(b[i].0);
        }
        if j > i {
            if m > i {
                lemma_lex_lt_transitive(b[i].0, b[j].0, a[m].0);
            }
            lemma_lex_lt_irreflexive(b[i].0);
        }
        assert(j == i);
        lemma_map_of_entry(b, i);
    }
}

/// A map has one sorted listing only: two sequences of entries in the strict
/// order of the keys that stand for the same map are the same sequence.
pub proof fn lemma_listing_unique<V>(a: Seq<(Seq<char>, V)>, b: Seq<(Seq<char>, V)>)
    requires
        sorted_entries(a),
        sorted_entries(b),
        map_of(a) == map_of(b),
    ensures
        a == b,
{
    lemma_listing_prefix(a, b, a.len() as int);
    lemma_listing_prefix(b, a, b.len() as int);
    assert(a =~= b);
}

impl<V> TextMap<V> {
    /// The entries as a sequence, in the order of the keys.
    pub open spec fn listing(&self) -> Seq<(Seq<char>, V)> {
        self.entries@.map_values(|e: (Vec<char>, V)| (e.0@, e.1))
    }

    /// The content as a map.
    pub open spec fn view(&self) -> Map<Seq<char>, V> {
        map_of(self.listing())
    }

    /// Whether the entries are in the strict order of their keys.
    pub open spec fn wf(&self) -> bool {
        sorted_entries(self.listing())
    }

    /// The empty map.
    pub fn new() -> (m: Self)
        ensures
            m.wf(),
            m.listing() == Seq::<(Seq<char>, V)>::empty(),
            m@ == Map::<Seq<char>, V>::empty(),
    {
        let m = TextMap { entries: Vec::new() };
        assert(m.listing() =~= Seq::<(Seq<char>, V)>::empty());
        assert(m@ =~= Map::<Seq<char>, V>::empty());
        m
    }

    /// The number of entries.
    pub fn len(&self) -> (n: usize)
        ensures
            n == self.listing().len(),
    {
        self.entries.len()
    }

    /// Where a key stands, or would stand: the number of keys before it, and
    /// whether the key at that place is the key itself.
    pub fn locate(&self, key: &Vec<char>) -> (r: (usize, bool))
        requires
            self.wf(),
        ensures
            r.0 <= self.listing().len(),
            forall|i: int| 0 <= i < r.0 ==> lex_lt((#[trigger] self.listing()[i]).0, key@),
            forall|i: int|
                r.0 <= i < self.listing().len() && !(r.1 && i == r.0) ==> lex_lt(
                    key@,
                    (#[trigger] self.listing()[i]).0,
                ),
            r.1 ==> r.0 < self.listing().len() && self.listing()[r.0 as int].0 == key@,
            r.1 <==> self@.dom().contains(key@),
    {
        let ghost list = self.listing();
        let mut lo: usize = 0;
        let mut hi: usize = self.entries.len();
        while lo < hi
            invariant
                lo <= hi <= self.entries.len(),
                list == self.listing(),
                sorted_entries(list),
                forall|i: int| 0 <= i < lo ==> lex_lt((#[trigger] list[i]).0, key@),
                forall|i: int| hi <= i < list.len() ==> lex_lt(key@, (#[trigger] list[i]).0),
            decreases hi - lo,
        {
            let mid = lo + (hi - lo) / 2;
            assert(list[mid as int].0 == self.entries@[mid as int].0@);
            match compare_chars(&self.entries[mid].0, key) {
                Order::Before => {
                    assert forall|i: int| 0 <= i < mid + 1 implies lex_lt(
                        (#[trigger] list[i]).0,
                        key@,
                    ) by {
                        if i < mid {
                            lemma_lex_lt_transitive(list[i].0, list[mid as int].0, key@);
                        }
                    }
                    lo = mid + 1;
                },
                Order::Same => {
                    assert forall|i: int| 0 <= i < mid implies lex_lt(
                        (#[trigger] list[i]).0,
                        key@,
                    ) by {}
                    assert forall|i: int| mid < i < list.len() implies lex_lt(
                        key@,
                        (#[trigger] list[i]).0,
                    ) by {}
                    return (mid, true);
                },
                Order::After => {
                    assert forall|i: int| mid <= i < list.len() implies lex_lt(
                        key@,
                        (#[trigger] list[i]).0,
                    ) by {
                        if i > mid {
                            lemma_lex_lt_transitive(key@, list[mid as int].0, list[i].0);
                        }
                    }
                    hi = mid;
                },
            }
        }
        proof {
            if self@.dom().contains(key@) {
                let i = choose|i: int| 0 <= i < list.len() && (#[trigger] list[i]).0 == key@;
                lemma_lex_lt_irreflexive(key@);
            }
        }
        (lo, false)
    }

    /// The value stored under a key, if there is one.
    pub fn get(&self, key: &Vec<char>) -> (r: Option<&V>)
        requires
            self.wf(),
        ensures
            r is Some <==> self@.dom().contains(key@),
            r is Some ==> *r->Some_0 == self@[key@],
    {
        let (pos, found) = self.locate(key);
        if found {
            proof {
                lemma_map_of_entry(self.listing(), pos as int);
            }
            Some(&self.entries[pos].1)
        } else {
            None
        }
    }

    /// Stores a value under a key, in place of the value that the key had, if
    /// it had one.
    pub fn insert(&mut self, key: Vec<char>, value: V)
        requires
            old(self).wf(),
        ensures
            final(self).wf(),
            final(self)@ == old(self)@.insert(key@, value),
    {
        let ghost before = self.listing();
        let (pos, found) = self.locate(&key);
        if found {
            self.entries[pos].1 = value;
            let ghost after = self.listing();
            assert(after =~= before.update(pos as int, (key@, value)));
            assert(sorted_entries(after)) by {
                assert forall|i: int, j: int| 0 <= i < j < after.len() implies lex_lt(
                    (#[trigger] after[i]).0,
                    (#[trigger] after[j]).0,
                ) by {
                    assert(after[i].0 == before[i].0);
                    assert(after[j].0 == before[j].0);
                }
            }
            assert(map_of(after) =~= map_of(before).insert(key@, value)) by {
                assert forall|k: Seq<char>| #[trigger]
                    map_of(after).dom().contains(k) <==> map_of(before).insert(
                        key@,
                        value,
                    ).dom().contains(k) by {
                    if map_of(after).dom().contains(k) {
                        let i = choose|i: int| 0 <= i < after.len() && (#[trigger] after[i]).0 == k;
                        assert(before[i].0 == k);
                    }
                    if map_of(before).dom().contains(k) {
                        let i = choose|i: int|
                            0 <= i < before.len() && (#[trigger] before[i]).0 == k;
                        assert(after[i].0 == k);
                    }
                    if k == key@ {
                        assert(after[pos as int].0 == k);
                    }
                }
                assert forall|k: Seq<char>| #[trigger]
                    map_of(after).dom().contains(k) implies map_of(after)[k] == map_of(
                    before,
                ).insert(key@, value)[k] by {
                    let i = choose|i: int| 0 <= i < after.len() && (#[trigger] after[i]).0 == k;
                    lemma_map_of_entry(after, i);
                    if k != key@ {
                        assert(before[i].0 == k);
                        lemma_map_of_entry(before, i);
                    } else {
                        lemma_sorted_distinct(after, i, pos as int);
                    }
                }
            }
        } else {
            self.entries.insert(pos, (key, value));
            let ghost after = self.listing();
            assert(after =~= before.insert(pos as int, (key@, value)));
            assert(sorted_entries(after)) by {
                assert forall|i: int, j: int| 0 <= i < j < after.len() implies lex_lt(
                    (#[trigger] after[i]).0,
                    (#[trigger] after[j]).0,
                ) by {
                    if i < pos {
                        assert(after[i] == before[i]);
                    } else if i > pos {
                        assert(after[i] == before[i - 1]);
                    }
                    if j < pos {
                        assert(after[j] == before[j]);
                    } else if j > pos {
                        assert(after[j] == before[j - 1]);
                    }
                }
            }
            assert(map_of(after) =~= map_of(before).insert(key@, value)) by {
                assert forall|k: Seq<char>| #[trigger]
                    map_of(after).dom().contains(k) <==> map_of(before).insert(
                        key@,
                        value,
                    ).dom().contains(k) by {
                    if map_of(after).dom().contains(k) {
                        let i = choose|i: int| 0 <= i < after.len() && (#[trigger] after[i]).0 == k;
                        if i < pos {
                            assert(before[i].0 == k);
                        } else if i > pos {
                            assert(before[i - 1].0 == k);
                        }
                    }
                    if map_of(before).dom().contains(k) {
                        let i = choose|i: int|
                            0 <= i < before.len() && (#[trigger] before[i]).0 == k;
                        if i < pos {
                            assert(after[i].0 == k);
                        } else {
                            assert(after[i + 1].0 == k);
                        }
                    }
                    if k == key@ {
                        assert(after[pos as int].0 == k);
                    }
                }
                assert forall|k: Seq<char>| #[trigger]
                    map_of(after).dom().contains(k) implies map_of(after)[k] == map_of(
                    before,
                ).insert(key@, value)[k] by {
                    let i = choose|i: int| 0 <= i < after.len() && (#[trigger] after[i]).0 == k;
                    lemma_map_of_entry(after, i);
                    if i < pos {
                        assert(before[i] == after[i]);
                        lemma_map_of_entry(before, i);
                        lemma_lex_lt_irreflexive(key@);
                    } else if i > pos {
                        assert(before[i - 1] == after[i]);
                        lemma_map_of_entry(before, i - 1);
                        lemma_lex_lt_irreflexive(key@);
                    }
                }
            }
        }
    }

    /// The entries, in the order of the keys, with each key as a string.
    pub fn into_entries(self) -> (list: Vec<(String, V)>)
        ensures
            list.len() == self.listing().len(),
            forall|i: int|
                0 <= i < list.len() ==> (#[trigger] list@[i]).0@ == self.listing()[i].0 && list@[i].1
                    == self.listing()[i].1,
    {
        let ghost listing = self.listing();
        let mut list: Vec<(String, V)> = Vec::new();
        for entry in it: self.entries.into_iter()
            invariant
                it.seq().len() == listing.len(),
                forall|i: int|
                    0 <= i < listing.len() ==> listing[i] == ((#[trigger] it.seq()[i]).0@, it.seq()[i].1),
                list.len() == it.index(),
                forall|i: int|
                    0 <= i < list.len() ==> (#[trigger] list@[i]).0@ == listing[i].0 && list@[i].1
                        == listing[i].1,
        {
            let key = string_of(&entry.0);
            list.push((key, entry.1));
        }
        list
    }
}

} // verus!
