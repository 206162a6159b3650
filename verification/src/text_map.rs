//! A small map keyed by text, kept as a list of pairs.

use vstd::prelude::*;
use crate::text::{Order, compare_text};

verus! {

/// The map a list of (key, value) pairs stands for.
pub open spec fn pairs_map<V>(e: Seq<(String, V)>) -> Map<Seq<char>, V> {
    Map::new(
        |k: Seq<char>| exists|i: int| 0 <= i < e.len() && #[trigger] e[i].0@ == k,
        |k: Seq<char>| e[choose|i: int| 0 <= i < e.len() && #[trigger] e[i].0@ == k].1,
    )
}

/// No key occurs twice.
pub open spec fn keys_distinct<V>(e: Seq<(String, V)>) -> bool {
    forall|i: int, j: int|
        0 <= i < e.len() && 0 <= j < e.len() && i != j ==> #[trigger] e[i].0@ != #[trigger] e[j].0@
}

proof fn lemma_pairs_map_at<V>(e: Seq<(String, V)>, i: int)
    requires
        keys_distinct(e),
        0 <= i < e.len(),
    ensures
        pairs_map(e).contains_key(e[i].0@),
        pairs_map(e)[e[i].0@] == e[i].1,
{
    let k = e[i].0@;
    assert(e[i].0@ == k);
    let j = choose|j: int| 0 <= j < e.len() && #[trigger] e[j].0@ == k;
    assert(i == j);
}

/// A map from texts to values.
pub struct TextMap<V> {
    entries: Vec<(String, V)>,
}

impl<V> View for TextMap<V> {
    type V = Map<Seq<char>, V>;

    closed spec fn view(&self) -> Map<Seq<char>, V> {
        pairs_map(self.entries@)
    }
}

impl<V> TextMap<V> {
    #[verifier::type_invariant]
    closed spec fn keys_unique(&self) -> bool {
        keys_distinct(self.entries@)
    }

    /// The empty map.
    pub fn new() -> (r: TextMap<V>)
        ensures
            r@ == Map::<Seq<char>, V>::empty(),
    {
        let r = TextMap { entries: Vec::new() };
        assert(r@ =~= Map::<Seq<char>, V>::empty());
        r
    }

    fn position(&self, key: &str) -> (r: Option<usize>)
        ensures
            match r {
                Some(i) => i < self.entries.len() && self.entries@[i as int].0@ == key@,
                None => !self@.contains_key(key@),
            },
    {
        let mut i: usize = 0;
        while i < self.entries.len()
            invariant
                i <= self.entries.len(),
                forall|j: int| 0 <= j < i ==> #[trigger] self.entries@[j].0@ != key@,
            decreases self.entries.len() - i,
        {
            if compare_text(self.entries[i].0.as_str(), key) == Order::Equal {
                return Some(i);
            }
            i = i + 1;
        }
        None
    }

    /// The value stored under `key`, if any.
    pub fn get(&self, key: &str) -> (r: Option<&V>)
        ensures
            match r {
                Some(v) => self@.contains_key(key@) && *v == self@[key@],
                None => !self@.contains_key(key@),
            },
    {
        proof {
            use_type_invariant(self);
        }
        match self.position(key) {
            Some(i) => {
                proof {
                    lemma_pairs_map_at(self.entries@, i as int);
                }
                Some(&self.entries[i].1)
            },
            None => None,
        }
    }

    /// Stores `value` under `key`, replacing what was stored there.
    pub fn insert(&mut self, key: String, value: V)
        ensures
            final(self)@ == old(self)@.insert(key@, value),
    {
        proof {
            use_type_invariant(&*self);
        }
        let ghost k = key@;
        let ghost fv = value;
        let pos = self.position(key.as_str());
        let mut entries: Vec<(String, V)> = Vec::new();
        std::mem::swap(&mut entries, &mut self.entries);
        let ghost old_entries = entries@;
        let ghost before = pairs_map(old_entries);
        match pos {
            Some(i) => {
                entries.set(i, (key, value));
            },
            None => {
                entries.push((key, value));
            },
        }
        let ghost ne = entries@;
        proof {
            assert(keys_distinct(ne)) by {
                assert forall|a: int, b: int|
                    0 <= a < ne.len() && 0 <= b < ne.len() && a != b implies #[trigger] ne[a].0@
                        != #[trigger] ne[b].0@ by {
                    if a < old_entries.len() && b < old_entries.len() {
                        if pos is Some && a == pos->0 {
                            assert(ne[b] == old_entries[b]);
                            assert(old_entries[a].0@ == k);
                        } else if pos is Some && b == pos->0 {
                            assert(ne[a] == old_entries[a]);
                            assert(old_entries[b].0@ == k);
                        } else {
                            assert(ne[a] == old_entries[a]);
                            assert(ne[b] == old_entries[b]);
                        }
                    } else if a == old_entries.len() {
                        assert(ne[b] == old_entries[b]);
                        assert(!before.contains_key(k));
                        assert(old_entries[b].0@ != k);
                    } else {
                        assert(ne[a] == old_entries[a]);
                        assert(!before.contains_key(k));
                        assert(old_entries[a].0@ != k);
                    }
                }
            }
            assert(pairs_map(ne) =~= before.insert(k, fv)) by {
                assert forall|key2: Seq<char>|
                    #[trigger] pairs_map(ne).contains_key(key2) <==> before.insert(
                        k,
                        fv,
                    ).contains_key(key2) by {
                    if pairs_map(ne).contains_key(key2) {
                        let i = choose|i: int| 0 <= i < ne.len() && #[trigger] ne[i].0@ == key2;
                        if key2 != k {
                            assert(ne[i] == old_entries[i]);
                            assert(old_entries[i].0@ == key2);
                        }
                    }
                    if before.contains_key(key2) && key2 != k {
                        let i = choose|i: int|
                            0 <= i < old_entries.len() && #[trigger] old_entries[i].0@ == key2;
                        assert(ne[i] == old_entries[i]);
                        assert(ne[i].0@ == key2);
                    }
                    if key2 == k {
                        match pos {
                            Some(i) => assert(ne[i as int].0@ == key2),
                            None => assert(ne[old_entries.len() as int].0@ == key2),
                        }
                    }
                }
                assert forall|key2: Seq<char>| #[trigger]
                    pairs_map(ne).contains_key(key2) implies pairs_map(ne)[key2] == before.insert(
                    k,
                    fv,
                )[key2] by {
                    let i = choose|i: int| 0 <= i < ne.len() && #[trigger] ne[i].0@ == key2;
                    lemma_pairs_map_at(ne, i);
                    if key2 != k {
                        assert(ne[i] == old_entries[i]);
                        lemma_pairs_map_at(old_entries, i);
                    }
                }
            }
        }
        self.entries = entries;
    }
}

} // verus!
