//! Keyed storage for one component or resource type within one world.
//!
//! A `Store` holds at most one plain value per key. For a component type the
//! keys are that world's entity identifiers; for the resource table the keys
//! are resource type tags, so holding at most one value per key is exactly
//! the singleton discipline resources need.

use vstd::prelude::*;

verus! {

/// No two entries share a key.
pub open spec fn unique_keys(s: Seq<(u64, u64)>) -> bool {
    forall|i: int, j: int| 0 <= i < j < s.len() ==> (#[trigger] s[i]).0 != (#[trigger] s[j]).0
}

/// The mathematical map an entry sequence denotes; a later entry for a key
/// overrides an earlier one, which cannot happen when the keys are unique.
pub open spec fn entries_map(s: Seq<(u64, u64)>) -> Map<u64, u64>
    decreases s.len(),
{
    if s.len() == 0 {
        Map::empty()
    } else {
        entries_map(s.drop_last()).insert(s.last().0, s.last().1)
    }
}

/// A key is in the map exactly when some entry carries it.
pub proof fn lemma_entries_map_contains(s: Seq<(u64, u64)>, k: u64)
    ensures
        entries_map(s).contains_key(k) <==> exists|i: int|
            0 <= i < s.len() && (#[trigger] s[i]).0 == k,
    decreases s.len(),
{
    if s.len() > 0 {
        lemma_entries_map_contains(s.drop_last(), k);
        if s.last().0 == k {
            assert(s[s.len() - 1].0 == k);
        } else if entries_map(s).contains_key(k) {
            let i = choose|i: int| 0 <= i < s.drop_last().len() && (#[trigger] s.drop_last()[i]).0
                == k;
            assert(s[i].0 == k);
        } else if exists|i: int| 0 <= i < s.len() && (#[trigger] s[i]).0 == k {
            let i = choose|i: int| 0 <= i < s.len() && (#[trigger] s[i]).0 == k;
            assert(i < s.len() - 1);
            assert(s.drop_last()[i].0 == k);
        }
    }
}

/// With unique keys, the entry at position `i` gives the map's value at its
/// key.
pub proof fn lemma_entries_map_value(s: Seq<(u64, u64)>, i: int)
    requires
        unique_keys(s),
        0 <= i < s.len(),
    ensures
        entries_map(s).contains_key(s[i].0),
        entries_map(s)[s[i].0] == s[i].1,
    decreases s.len(),
{
    if i < s.len() - 1 {
        assert(s.drop_last()[i] == s[i]);
        lemma_entries_map_value(s.drop_last(), i);
        assert(s[s.len() - 1].0 != s[i].0);
    }
}

/// Storage for one synchronized type in one world: at most one plain value
/// per key.
pub struct Store {
    /// The entries, each a key paired with the stored value.
    pub entries: Vec<(u64, u64)>,
}

impl Store {
    /// The contents as a mathematical map from key to value.
    pub open spec fn as_map(self) -> Map<u64, u64> {
        entries_map(self.entries@)
    }

    /// Each key appears at most once.
    pub open spec fn wf(self) -> bool {
        unique_keys(self.entries@)
    }

    /// An empty store.
    pub fn new() -> (r: Store)
        ensures
            r.wf(),
            r.as_map() == Map::<u64, u64>::empty(),
            r.entries@.len() == 0,
    {
        Store { entries: Vec::new() }
    }

    /// How many keys hold a value.
    pub fn len(&self) -> (r: usize)
        ensures
            r == self.entries@.len(),
    {
        self.entries.len()
    }

    /// The value stored under `k`, if any.
    pub fn get(&self, k: u64) -> (r: Option<u64>)
        requires
            self.wf(),
        ensures
            r == if self.as_map().contains_key(k) {
                Some(self.as_map()[k])
            } else {
                None::<u64>
            },
    {
        let n = self.entries.len();
        let mut i: usize = 0;
        while i < n
            invariant
                self.wf(),
                n == self.entries@.len(),
                i <= n,
                forall|j: int| 0 <= j < i ==> (#[trigger] self.entries@[j]).0 != k,
            decreases n - i,
        {
            if self.entries[i].0 == k {
                proof {
                    lemma_entries_map_value(self.entries@, i as int);
                }
                return Some(self.entries[i].1);
            }
            i += 1;
        }
        proof {
            lemma_entries_map_contains(self.entries@, k);
        }
        None
    }

    /// Stores `v` under `k`, overwriting in place when `k` already holds a
    /// value and appending a fresh entry otherwise. Keys stay unique, so at
    /// most one value per key ever exists.
    pub fn insert(&mut self, k: u64, v: u64)
        requires
            old(self).wf(),
        ensures
            final(self).wf(),
            final(self).as_map() == old(self).as_map().insert(k, v),
    {
        let n = self.entries.len();
        let mut i: usize = 0;
        while i < n
            invariant
                self == old(self),
                self.wf(),
                n == self.entries@.len(),
                i <= n,
                forall|j: int| 0 <= j < i ==> (#[trigger] self.entries@[j]).0 != k,
            decreases n - i,
        {
            if self.entries[i].0 == k {
                self.entries[i] = (k, v);
                proof {
                    Self::lemma_update_entry(old(self).entries@, i as int, k, v);
                }
                return ;
            }
            i += 1;
        }
        self.entries.push((k, v));
        proof {
            assert(self.entries@.drop_last() =~= old(self).entries@);
            assert forall|p: int, q: int| 0 <= p < q < self.entries@.len() implies (
            #[trigger] self.entries@[p]).0 != (#[trigger] self.entries@[q]).0 by {
                if q == self.entries@.len() - 1 {
                    assert(old(self).entries@[p].0 != k);
                }
            }
        }
    }

    /// A well-formed store holds at most one entry per key, so at most one
    /// value of a given resource type exists per world, however many sync
    /// passes have run: every operation here and every sync pass preserves
    /// well-formedness.
    pub proof fn lemma_at_most_one_entry(self, i: int, j: int)
        requires
            self.wf(),
            0 <= i < self.entries@.len(),
            0 <= j < self.entries@.len(),
            self.entries@[i].0 == self.entries@[j].0,
        ensures
            i == j,
    {
    }

    /// Overwriting the entry at `i`, whose key is `k`, with `(k, v)` keeps
    /// the keys unique and updates the denoted map at `k` alone.
    proof fn lemma_update_entry(s: Seq<(u64, u64)>, i: int, k: u64, v: u64)
        requires
            unique_keys(s),
            0 <= i < s.len(),
            s[i].0 == k,
        ensures
            unique_keys(s.update(i, (k, v))),
            entries_map(s.update(i, (k, v))) == entries_map(s).insert(k, v),
        decreases s.len(),
    {
        let s2 = s.update(i, (k, v));
        assert(unique_keys(s2));
        if i == s.len() - 1 {
            assert(s2.drop_last() =~= s.drop_last());
        } else {
            assert(s2.drop_last() =~= s.drop_last().update(i, (k, v)));
            lemma_entries_map_value(s, i);
            Self::lemma_update_entry(s.drop_last(), i, k, v);
            assert(s2.last() == s.last());
            assert(s.last().0 != k);
            assert(entries_map(s2) =~= entries_map(s).insert(k, v));
        }
    }
}

} // verus!
