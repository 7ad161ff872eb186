//! A small association table.
//!
//! Storage backends keep several maps keyed by 64-bit ids (stored jobs,
//! queue membership, runner bindings). This table backs such a map with a
//! vector of pairs whose keys are pairwise distinct, and exposes its
//! contents as a mathematical `Map` so the storage invariants can be stated
//! and proved over it.

use vstd::prelude::*;

verus! {

broadcast use vstd::set::group_set_axioms, vstd::map::group_map_axioms;

/// The keys of the pair sequence are pairwise distinct.
pub open spec fn distinct_keys<V>(s: Seq<(u64, V)>) -> bool {
    forall|i: int, j: int| 0 <= i < j < s.len() ==> s[i].0 != s[j].0
}

/// Some pair of the sequence carries this key.
pub open spec fn has_key<V>(s: Seq<(u64, V)>, key: u64) -> bool {
    exists|i: int| 0 <= i < s.len() && s[i].0 == key
}

/// No two keys of the map carry the same value.
pub open spec fn injective_values(m: Map<u64, u64>) -> bool {
    forall|a: u64, b: u64|
        #[trigger] m.dom().contains(a) && #[trigger] m.dom().contains(b) && a != b ==> m[a] != m[b]
}

/// The map a pair sequence denotes; later pairs win, though with distinct
/// keys the order never matters.
pub open spec fn pairs_map<V>(s: Seq<(u64, V)>) -> Map<u64, V>
    decreases s.len(),
{
    if s.len() == 0 {
        Map::empty()
    } else {
        pairs_map(s.drop_last()).insert(s.last().0, s.last().1)
    }
}

/// A key is in the denoted map exactly when some pair carries it.
pub proof fn lemma_map_contains<V>(s: Seq<(u64, V)>, key: u64)
    ensures
        pairs_map(s).dom().contains(key) <==> has_key(s, key),
    decreases s.len(),
{
    if s.len() > 0 {
        lemma_map_contains(s.drop_last(), key);
        if s.last().0 == key {
            assert(s[s.len() - 1].0 == key);
        } else {
            if has_key(s, key) {
                let i = choose|i: int| 0 <= i < s.len() && s[i].0 == key;
                assert(s.drop_last()[i] == s[i]);
            }
            if has_key(s.drop_last(), key) {
                let i = choose|i: int| 0 <= i < s.drop_last().len() && s.drop_last()[i].0 == key;
                assert(s[i].0 == key);
            }
        }
    }
}

/// With distinct keys, the pair at any index gives the map's value at its key.
pub proof fn lemma_map_index<V>(s: Seq<(u64, V)>, i: int)
    requires
        distinct_keys(s),
        0 <= i < s.len(),
    ensures
        pairs_map(s).dom().contains(s[i].0),
        pairs_map(s)[s[i].0] == s[i].1,
    decreases s.len(),
{
    if i < s.len() - 1 {
        assert(distinct_keys(s.drop_last())) by {
            assert(forall|p: int, q: int|
                0 <= p < q < s.drop_last().len() ==> s.drop_last()[p] == s[p] && s.drop_last()[q]
                    == s[q]);
        }
        assert(s.drop_last()[i] == s[i]);
        lemma_map_index(s.drop_last(), i);
        assert(s.last().0 != s[i].0);
    }
}

/// Appending a pair with a key inserts it into the denoted map.
pub proof fn lemma_map_push<V>(s: Seq<(u64, V)>, key: u64, value: V)
    ensures
        pairs_map(s.push((key, value))) == pairs_map(s).insert(key, value),
{
    assert(s.push((key, value)).drop_last() =~= s);
    assert(s.push((key, value)).last() == (key, value));
}

/// Replacing the value at an index overwrites that key in the denoted map.
pub proof fn lemma_map_update<V>(s: Seq<(u64, V)>, i: int, value: V)
    requires
        distinct_keys(s),
        0 <= i < s.len(),
    ensures
        pairs_map(s.update(i, (s[i].0, value))) == pairs_map(s).insert(s[i].0, value),
    decreases s.len(),
{
    let k = s[i].0;
    let t = s.update(i, (k, value));
    assert(distinct_keys(s.drop_last())) by {
        assert(forall|p: int, q: int|
            0 <= p < q < s.drop_last().len() ==> s.drop_last()[p] == s[p] && s.drop_last()[q]
                == s[q]);
    }
    if i == s.len() - 1 {
        assert(t.drop_last() =~= s.drop_last());
        assert(t.last() == (k, value));
        assert(pairs_map(s.drop_last()).insert(k, s[i].1).insert(k, value) =~= pairs_map(
            s.drop_last(),
        ).insert(k, value));
    } else {
        assert(t.drop_last() =~= s.drop_last().update(i, (k, value)));
        assert(s.drop_last()[i] == s[i]);
        lemma_map_update(s.drop_last(), i, value);
        let lk = s.last().0;
        let lv = s.last().1;
        assert(t.last() == (lk, lv));
        assert(lk != k);
        assert(pairs_map(s.drop_last()).insert(k, value).insert(lk, lv) =~= pairs_map(
            s.drop_last(),
        ).insert(lk, lv).insert(k, value));
    }
}

/// Removing the pair at an index removes its key from the denoted map.
pub proof fn lemma_map_remove<V>(s: Seq<(u64, V)>, i: int)
    requires
        distinct_keys(s),
        0 <= i < s.len(),
    ensures
        pairs_map(s.remove(i)) == pairs_map(s).remove(s[i].0),
    decreases s.len(),
{
    let k = s[i].0;
    assert(distinct_keys(s.drop_last())) by {
        assert(forall|p: int, q: int|
            0 <= p < q < s.drop_last().len() ==> s.drop_last()[p] == s[p] && s.drop_last()[q]
                == s[q]);
    }
    if i == s.len() - 1 {
        assert(s.remove(i) =~= s.drop_last());
        lemma_map_contains(s.drop_last(), k);
        if has_key(s.drop_last(), k) {
            let j = choose|j: int| 0 <= j < s.drop_last().len() && s.drop_last()[j].0 == k;
            assert(s[j].0 == s[i].0);
            assert(false);
        }
        assert(pairs_map(s.drop_last()).insert(k, s.last().1).remove(k) =~= pairs_map(
            s.drop_last(),
        ));
    } else {
        assert(s.remove(i).drop_last() =~= s.drop_last().remove(i));
        assert(s.drop_last()[i] == s[i]);
        lemma_map_remove(s.drop_last(), i);
        let lk = s.last().0;
        let lv = s.last().1;
        assert(s.remove(i).last() == s[s.len() - 1]);
        assert(lk != k);
        assert(pairs_map(s.drop_last()).remove(k).insert(lk, lv) =~= pairs_map(
            s.drop_last(),
        ).insert(lk, lv).remove(k));
    }
}

/// An association table from ids to values, with its contents visible as a
/// `Map`.
pub struct Table<V> {
    pub entries: Vec<(u64, V)>,
}

impl<V> View for Table<V> {
    type V = Map<u64, V>;

    open spec fn view(&self) -> Map<u64, V> {
        pairs_map(self.entries@)
    }
}

impl<V> Table<V> {
    /// Keys are pairwise distinct, so the vector and the map agree
    /// pointwise.
    pub open spec fn wf(self) -> bool {
        distinct_keys(self.entries@)
    }

    pub fn new() -> (r: Self)
        ensures
            r@ == Map::<u64, V>::empty(),
            r.wf(),
            r.entries@.len() == 0,
    {
        Table { entries: Vec::new() }
    }

    /// The index of the pair carrying `key`, if one does.
    fn find(&self, key: u64) -> (r: Option<usize>)
        ensures
            match r {
                Some(i) => i < self.entries@.len() && self.entries@[i as int].0 == key,
                None => !has_key(self.entries@, key),
            },
    {
        let n = self.entries.len();
        let mut i: usize = 0;
        while i < n
            invariant
                i <= n,
                n == self.entries@.len(),
                forall|j: int| 0 <= j < i ==> self.entries@[j].0 != key,
            decreases n - i,
        {
            if self.entries[i].0 == key {
                return Some(i);
            }
            i = i + 1;
        }
        None
    }

    /// Whether the table holds the key.
    pub fn contains(&self, key: u64) -> (r: bool)
        ensures
            r == self@.dom().contains(key),
    {
        proof {
            lemma_map_contains(self.entries@, key);
        }
        self.find(key).is_some()
    }

    /// The value under `key`, if the table holds it.
    pub fn get(&self, key: u64) -> (r: Option<&V>)
        requires
            self.wf(),
        ensures
            match r {
                Some(v) => self@.dom().contains(key) && *v == self@[key],
                None => !self@.dom().contains(key),
            },
    {
        proof {
            lemma_map_contains(self.entries@, key);
        }
        match self.find(key) {
            Some(i) => {
                proof {
                    lemma_map_index(self.entries@, i as int);
                }
                Some(&self.entries[i].1)
            },
            None => None,
        }
    }

    /// Bind `key` to `value`, overwriting any earlier binding.
    pub fn insert(&mut self, key: u64, value: V)
        requires
            old(self).wf(),
        ensures
            final(self)@ == old(self)@.insert(key, value),
            final(self).wf(),
    {
        match self.find(key) {
            Some(i) => {
                proof {
                    lemma_map_update(self.entries@, i as int, value);
                }
                self.entries[i] = (key, value);
                assert(distinct_keys(self.entries@)) by {
                    assert(forall|p: int|
                        0 <= p < self.entries@.len() && p != i ==> self.entries@[p] == old(
                            self,
                        ).entries@[p]);
                }
            },
            None => {
                proof {
                    lemma_map_push(self.entries@, key, value);
                }
                self.entries.push((key, value));
                assert(distinct_keys(self.entries@)) by {
                    assert(forall|p: int|
                        0 <= p < old(self).entries@.len() ==> self.entries@[p] == old(
                            self,
                        ).entries@[p]);
                }
            },
        }
    }

    /// Drop the binding of `key`, handing back the value it had.
    pub fn remove(&mut self, key: u64) -> (r: Option<V>)
        requires
            old(self).wf(),
        ensures
            final(self)@ == old(self)@.remove(key),
            final(self).wf(),
            match r {
                Some(v) => old(self)@.dom().contains(key) && v == old(self)@[key],
                None => !old(self)@.dom().contains(key),
            },
    {
        proof {
            lemma_map_contains(self.entries@, key);
        }
        match self.find(key) {
            Some(i) => {
                proof {
                    lemma_map_index(self.entries@, i as int);
                    lemma_map_remove(self.entries@, i as int);
                }
                let pair = self.entries.remove(i);
                assert(distinct_keys(self.entries@)) by {
                    assert(forall|p: int|
                        0 <= p < self.entries@.len() ==> self.entries@[p] == if p < i {
                            old(self).entries@[p]
                        } else {
                            old(self).entries@[p + 1]
                        });
                }
                Some(pair.1)
            },
            None => {
                proof {
                    assert(old(self)@.remove(key) =~= old(self)@);
                }
                None
            },
        }
    }

    /// How many pairs the table holds.
    pub fn entry_count(&self) -> (r: usize)
        ensures
            r == self.entries@.len(),
    {
        self.entries.len()
    }

    /// The pair at an index, for scans.
    pub fn entry_at(&self, i: usize) -> (r: &(u64, V))
        requires
            i < self.entries@.len(),
        ensures
            *r == self.entries@[i as int],
    {
        &self.entries[i]
    }

    /// Every pair of a well-formed table is visible in its map.
    pub proof fn lemma_entry_in_map(self, i: int)
        requires
            self.wf(),
            0 <= i < self.entries@.len(),
        ensures
            self@.dom().contains(self.entries@[i].0),
            self@[self.entries@[i].0] == self.entries@[i].1,
    {
        lemma_map_index(self.entries@, i);
    }

    /// Every key of a well-formed table's map comes from some pair.
    pub proof fn lemma_key_in_entries(self, key: u64)
        requires
            self@.dom().contains(key),
        ensures
            has_key(self.entries@, key),
    {
        lemma_map_contains(self.entries@, key);
    }
}

impl Table<u64> {
    /// Whether some binding carries this value.
    pub fn contains_value(&self, value: u64) -> (r: bool)
        requires
            self.wf(),
        ensures
            r == exists|k: u64| #[trigger] self@.dom().contains(k) && self@[k] == value,
    {
        let n = self.entries.len();
        let mut i: usize = 0;
        while i < n
            invariant
                i <= n,
                n == self.entries@.len(),
                self.wf(),
                forall|j: int| 0 <= j < i ==> self.entries@[j].1 != value,
            decreases n - i,
        {
            if self.entries[i].1 == value {
                proof {
                    lemma_map_index(self.entries@, i as int);
                    let witness = self.entries@[i as int].0;
                    assert(self@.dom().contains(witness) && self@[witness] == value);
                }
                return true;
            }
            i = i + 1;
        }
        proof {
            assert forall|k: u64| #[trigger] self@.dom().contains(k) implies self@[k] != value by {
                lemma_map_contains(self.entries@, k);
                let j = choose|j: int|
                    0 <= j < self.entries@.len() && self.entries@[j].0 == k;
                lemma_map_index(self.entries@, j);
            }
        }
        false
    }

    /// Drop the binding that carries `value`; with values pairwise distinct
    /// there is at most one.
    pub fn remove_value(&mut self, value: u64)
        requires
            old(self).wf(),
            injective_values(old(self)@),
        ensures
            final(self).wf(),
            final(self)@ == Map::<u64, u64>::new(
                |k: u64| old(self)@.dom().contains(k) && old(self)@[k] != value,
                |k: u64| old(self)@[k],
            ),
    {
        let ghost target = Map::<u64, u64>::new(
            |k: u64| old(self)@.dom().contains(k) && old(self)@[k] != value,
            |k: u64| old(self)@[k],
        );
        let n = self.entries.len();
        let mut i: usize = 0;
        while i < n
            invariant
                i <= n,
                n == self.entries@.len(),
                self.entries@ == old(self).entries@,
                distinct_keys(self.entries@),
                injective_values(old(self)@),
                target == Map::<u64, u64>::new(
                    |k: u64| old(self)@.dom().contains(k) && old(self)@[k] != value,
                    |k: u64| old(self)@[k],
                ),
                forall|j: int| 0 <= j < i ==> self.entries@[j].1 != value,
            decreases n - i,
        {
            if self.entries[i].1 == value {
                proof {
                    lemma_map_index(self.entries@, i as int);
                    lemma_map_remove(self.entries@, i as int);
                }
                let ghost bound = self.entries@[i as int].0;
                self.entries.remove(i);
                proof {
                    assert(distinct_keys(self.entries@)) by {
                        assert(forall|p: int|
                            0 <= p < self.entries@.len() ==> self.entries@[p] == if p < i {
                                old(self).entries@[p]
                            } else {
                                old(self).entries@[p + 1]
                            });
                    }
                    assert(old(self)@[bound] == value);
                    assert(self@ == old(self)@.remove(bound));
                    assert forall|k: u64|
                        #![auto]
                        self@.dom().contains(k) == target.dom().contains(k) by {
                        if old(self)@.dom().contains(k) && k != bound {
                            assert(old(self)@.dom().contains(bound));
                            assert(old(self)@[k] != value);
                        }
                    }
                    assert forall|k: u64|
                        #![auto]
                        self@.dom().contains(k) implies self@[k] == target[k] by {}
                    assert(self@ =~= target);
                }
                return ;
            }
            i = i + 1;
        }
        proof {
            assert forall|k: u64| #[trigger] old(self)@.dom().contains(k) implies old(self)@[k]
                != value by {
                lemma_map_contains(old(self).entries@, k);
                let j = choose|j: int|
                    0 <= j < old(self).entries@.len() && old(self).entries@[j].0 == k;
                lemma_map_index(old(self).entries@, j);
            }
            assert(self@ =~= target);
        }
    }
}

} // verus!
