//! A small table from keys to values, in which each key stands once.

use vstd::prelude::*;
use vstd::string::StringExecFns;

verus! {

/// Whether `key` is the key of one of `pairs`.
pub open spec fn has_key<V>(pairs: Seq<(Seq<char>, V)>, key: Seq<char>) -> bool {
    exists|i: int| 0 <= i < pairs.len() && (#[trigger] pairs[i]).0 == key
}

/// The position in `pairs` of a pair with the key `key`.
pub open spec fn position_of<V>(pairs: Seq<(Seq<char>, V)>, key: Seq<char>) -> int {
    choose|i: int| 0 <= i < pairs.len() && (#[trigger] pairs[i]).0 == key
}

/// Whether no two of `pairs` have the same key.
pub open spec fn distinct_keys<V>(pairs: Seq<(Seq<char>, V)>) -> bool {
    forall|i: int, j: int|
        0 <= i < j < pairs.len() ==> (#[trigger] pairs[i]).0 != (#[trigger] pairs[j]).0
}

/// The map that `pairs` lists.
pub open spec fn as_map<V>(pairs: Seq<(Seq<char>, V)>) -> Map<Seq<char>, V> {
    Map::new(|key: Seq<char>| has_key(pairs, key), |key: Seq<char>| pairs[position_of(pairs, key)].1)
}

/// `pairs` with `value` under `key`: in the place of the pair that had the
/// key, or at the end where none had it.
pub open spec fn with<V>(pairs: Seq<(Seq<char>, V)>, key: Seq<char>, value: V) -> Seq<
    (Seq<char>, V),
> {
    if has_key(pairs, key) {
        pairs.update(position_of(pairs, key), (key, value))
    } else {
        pairs.push((key, value))
    }
}

/// In a list with distinct keys, each pair is what the map has for its key.
pub proof fn lemma_as_map_at<V>(pairs: Seq<(Seq<char>, V)>, i: int)
    requires
        distinct_keys(pairs),
        0 <= i < pairs.len(),
    ensures
        as_map(pairs).contains_key(pairs[i].0),
        as_map(pairs)[pairs[i].0] == pairs[i].1,
        position_of(pairs, pairs[i].0) == i,
{
    let at = position_of(pairs, pairs[i].0);
    if at < i {
        assert(pairs[at].0 != pairs[i].0);
    } else if i < at {
        assert(pairs[i].0 != pairs[at].0);
    }
}

/// Putting a value under a key keeps the keys distinct, and what the list
/// then stands for is the map with that key set to that value.
pub proof fn lemma_with<V>(pairs: Seq<(Seq<char>, V)>, key: Seq<char>, value: V)
    requires
        distinct_keys(pairs),
    ensures
        distinct_keys(with(pairs, key, value)),
        as_map(with(pairs, key, value)) == as_map(pairs).insert(key, value),
{
    let after = with(pairs, key, value);
    let at = if has_key(pairs, key) {
        position_of(pairs, key)
    } else {
        pairs.len() as int
    };
    assert(after.len() > at && after[at] == (key, value));
    assert forall|i: int| 0 <= i < after.len() && i != at implies after[i] == pairs[i]
        && pairs[i].0 != key by {
        if has_key(pairs, key) {
            assert(pairs[at].0 == key);
            if i < at {
                assert(pairs[i].0 != pairs[at].0);
            } else {
                assert(pairs[at].0 != pairs[i].0);
            }
        }
    }
    assert forall|i: int, j: int| 0 <= i < j < after.len() implies (#[trigger] after[i]).0 != (
    #[trigger] after[j]).0 by {
        if i != at && j != at {
            assert(pairs[i].0 != pairs[j].0);
        }
    }
    assert forall|k: Seq<char>| has_key(after, k) == (k == key || has_key(pairs, k)) by {
        if has_key(after, k) {
            let i = position_of(after, k);
            if i != at {
                assert(pairs[i].0 == k);
            }
        }
        if k == key {
            assert(after[at].0 == k);
        } else if has_key(pairs, k) {
            let i = position_of(pairs, k);
            assert(after[i].0 == k);
        }
    }
    assert forall|k: Seq<char>| has_key(after, k) implies as_map(after)[k] == as_map(
        pairs,
    ).insert(key, value)[k] by {
        let i = position_of(after, k);
        lemma_as_map_at(after, i);
        if i != at {
            lemma_as_map_at(pairs, i);
        }
    }
    assert(as_map(after) =~= as_map(pairs).insert(key, value));
}

/// A list without pairs stands for the empty map, and no other list does.
pub proof fn lemma_as_map_empty<V>(pairs: Seq<(Seq<char>, V)>)
    ensures
        pairs.len() == 0 <==> as_map(pairs) == Map::<Seq<char>, V>::empty(),
{
    if pairs.len() == 0 {
        assert(as_map(pairs) =~= Map::<Seq<char>, V>::empty());
    } else {
        assert(has_key(pairs, pairs[0].0));
        assert(as_map(pairs).contains_key(pairs[0].0));
    }
}

/// A list with distinct keys stands for a map with as many keys as the list
/// has pairs.
pub proof fn lemma_as_map_len<V>(pairs: Seq<(Seq<char>, V)>)
    requires
        distinct_keys(pairs),
    ensures
        as_map(pairs).dom().finite(),
        as_map(pairs).dom().len() == pairs.len(),
    decreases pairs.len(),
{
    if pairs.len() == 0 {
        lemma_as_map_empty(pairs);
        assert(as_map(pairs).dom() =~= Set::<Seq<char>>::empty());
    } else {
        let shorter = pairs.drop_last();
        let last = pairs.last();
        assert forall|i: int, j: int| 0 <= i < j < shorter.len() implies (
        #[trigger] shorter[i]).0 != (#[trigger] shorter[j]).0 by {
            assert(pairs[i].0 != pairs[j].0);
        }
        lemma_as_map_len(shorter);
        assert(!has_key(shorter, last.0)) by {
            if has_key(shorter, last.0) {
                let i = position_of(shorter, last.0);
                assert(pairs[i].0 != pairs[pairs.len() - 1].0);
            }
        }
        lemma_with(shorter, last.0, last.1);
        assert(with(shorter, last.0, last.1) == pairs);
        assert(as_map(pairs).dom() =~= as_map(shorter).dom().insert(last.0));
    }
}

/// `pairs` with `f` applied to each value.
pub open spec fn map_pairs<V, W>(pairs: Seq<(Seq<char>, V)>, f: spec_fn(V) -> W) -> Seq<
    (Seq<char>, W),
> {
    Seq::new(pairs.len(), |i: int| (pairs[i].0, f(pairs[i].1)))
}

/// Applying a function to each value keeps the keys, and what the list then
/// stands for is the map with the function applied to each value.
pub proof fn lemma_map_pairs<V, W>(pairs: Seq<(Seq<char>, V)>, f: spec_fn(V) -> W)
    requires
        distinct_keys(pairs),
    ensures
        distinct_keys(map_pairs(pairs, f)),
        forall|key: Seq<char>| has_key(map_pairs(pairs, f), key) == has_key(pairs, key),
        forall|key: Seq<char>|
            has_key(pairs, key) ==> position_of(map_pairs(pairs, f), key) == position_of(
                pairs,
                key,
            ),
        as_map(map_pairs(pairs, f)) == as_map(pairs).map_values(f),
{
    let mapped = map_pairs(pairs, f);
    assert forall|i: int, j: int| 0 <= i < j < mapped.len() implies (#[trigger] mapped[i]).0 != (
    #[trigger] mapped[j]).0 by {
        assert(pairs[i].0 != pairs[j].0);
    }
    assert forall|key: Seq<char>| has_key(mapped, key) == has_key(pairs, key) by {
        if has_key(mapped, key) {
            assert(pairs[position_of(mapped, key)].0 == key);
        }
        if has_key(pairs, key) {
            assert(mapped[position_of(pairs, key)].0 == key);
        }
    }
    assert forall|key: Seq<char>| has_key(pairs, key) implies position_of(mapped, key)
        == position_of(pairs, key) && as_map(mapped)[key] == f(as_map(pairs)[key]) by {
        let i = position_of(pairs, key);
        assert(mapped[i].0 == key);
        lemma_as_map_at(mapped, i);
        lemma_as_map_at(pairs, i);
    }
    assert(as_map(mapped) =~= as_map(pairs).map_values(f));
}

/// Putting a value under a key and then applying a function to each value
/// is applying the function first and then putting its result under the
/// key.
pub proof fn lemma_map_pairs_with<V, W>(
    pairs: Seq<(Seq<char>, V)>,
    f: spec_fn(V) -> W,
    key: Seq<char>,
    value: V,
)
    requires
        distinct_keys(pairs),
    ensures
        map_pairs(with(pairs, key, value), f) == with(map_pairs(pairs, f), key, f(value)),
{
    lemma_map_pairs(pairs, f);
    assert(map_pairs(with(pairs, key, value), f) =~= with(map_pairs(pairs, f), key, f(value)));
}

/// A table from keys to values. It lists its pairs in the order in which
/// their keys first came.
pub struct Table<V> {
    entries: Vec<(String, V)>,
}

/// The pairs of `entries`, each key as the text that it holds.
pub open spec fn pairs_of<V>(entries: Seq<(String, V)>) -> Seq<(Seq<char>, V)> {
    Seq::new(entries.len(), |i: int| (entries[i].0@, entries[i].1))
}

impl<V> Table<V> {
    /// The pairs of the table, in their order.
    pub closed spec fn pairs(&self) -> Seq<(Seq<char>, V)> {
        pairs_of(self.entries@)
    }

    /// No key stands twice.
    pub open spec fn wf(&self) -> bool {
        distinct_keys(self.pairs())
    }

    /// The map that the table stands for.
    pub open spec fn map(&self) -> Map<Seq<char>, V> {
        as_map(self.pairs())
    }

    /// A table without keys.
    pub fn new() -> (table: Table<V>)
        ensures
            table.wf(),
            table.pairs() == Seq::<(Seq<char>, V)>::empty(),
            table.map() == Map::<Seq<char>, V>::empty(),
    {
        let table = Table { entries: Vec::new() };
        assert(table.pairs() == Seq::<(Seq<char>, V)>::empty());
        proof {
            lemma_as_map_empty(table.pairs());
        }
        table
    }

    /// The number of keys.
    pub fn len(&self) -> (n: usize)
        ensures
            n == self.pairs().len(),
            self.wf() ==> n == self.map().dom().len(),
    {
        proof {
            if self.wf() {
                lemma_as_map_len(self.pairs());
            }
        }
        self.entries.len()
    }

    /// Whether the table has no key.
    pub fn is_empty(&self) -> (r: bool)
        ensures
            r == (self.pairs().len() == 0),
            r == (self.map() == Map::<Seq<char>, V>::empty()),
    {
        proof {
            lemma_as_map_empty(self.pairs());
        }
        self.entries.len() == 0
    }

    /// The position of the pair with the key `key`, if there is one.
    pub fn position(&self, key: &String) -> (at: Option<usize>)
        requires
            self.wf(),
        ensures
            at is Some == has_key(self.pairs(), key@),
            at matches Some(i) ==> i == position_of(self.pairs(), key@) && i < self.pairs().len(),
    {
        let mut i: usize = 0;
        while i < self.entries.len()
            invariant
                i <= self.entries.len(),
                self.wf(),
                forall|j: int| 0 <= j < i ==> (#[trigger] self.pairs()[j]).0 != key@,
            decreases self.entries.len() - i,
        {
            assert(self.pairs()[i as int].0 == self.entries@[i as int].0@);
            if self.entries[i].0 == *key {
                proof {
                    lemma_as_map_at(self.pairs(), i as int);
                }
                return Some(i);
            }
            i += 1;
        }
        None
    }

    /// The value under `key`, if there is one.
    pub fn get(&self, key: &str) -> (value: Option<&V>)
        requires
            self.wf(),
        ensures
            value is Some == self.map().contains_key(key@),
            value matches Some(v) ==> *v == self.map()[key@],
    {
        match self.position(&String::from_str(key)) {
            Some(i) => Some(&self.entries[i].1),
            None => None,
        }
    }

    /// Puts `value` under `key`; a value that stood under `key` is gone.
    pub fn insert(&mut self, key: String, value: V)
        requires
            old(self).wf(),
        ensures
            final(self).wf(),
            final(self).pairs() == with(old(self).pairs(), key@, value),
            final(self).map() == old(self).map().insert(key@, value),
    {
        proof {
            lemma_with(self.pairs(), key@, value);
        }
        let ghost before = self.pairs();
        match self.position(&key) {
            Some(i) => {
                self.entries.set(i, (key, value));
                assert(self.pairs() == before.update(i as int, (key@, value)));
            },
            None => {
                self.entries.push((key, value));
                assert(self.pairs() == before.push((key@, value)));
            },
        }
    }

    /// The pairs of the table, in their order.
    pub fn entries(&self) -> (entries: &Vec<(String, V)>)
        ensures
            pairs_of(entries@) == self.pairs(),
    {
        &self.entries
    }
}

} // verus!
