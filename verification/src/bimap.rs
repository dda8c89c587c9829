//! Bijective mapping between the entity identifiers of world A and world B.
//!
//! Every entity that exists in both worlds at once has exactly one entry;
//! an entity present in only one world has none. Sync rules only read the
//! bimap; insertion and removal belong to the entity creation and
//! destruction code outside this subsystem.

use std::collections::HashMap;
use vstd::prelude::*;

verus! {

broadcast use vstd::std_specs::hash::group_hash_axioms;

/// `fwd` and `rev` are inverse mappings of one another: `fwd` sends `x` to
/// `y` exactly when `rev` sends `y` back to `x`.
pub open spec fn inverse_maps(fwd: Map<u64, u64>, rev: Map<u64, u64>) -> bool {
    &&& forall|x: u64| #[trigger] fwd.contains_key(x) ==> rev.contains_pair(fwd[x], x)
    &&& forall|y: u64| #[trigger] rev.contains_key(y) ==> fwd.contains_pair(rev[y], y)
}

/// Being inverse mappings is symmetric in the two directions.
pub proof fn lemma_inverse_symmetric(fwd: Map<u64, u64>, rev: Map<u64, u64>)
    requires
        inverse_maps(fwd, rev),
    ensures
        inverse_maps(rev, fwd),
{
}

/// A pair of inverse maps is bijective: no two keys of `fwd` share a value.
pub proof fn lemma_inverse_injective(fwd: Map<u64, u64>, rev: Map<u64, u64>, x1: u64, x2: u64)
    requires
        inverse_maps(fwd, rev),
        fwd.contains_key(x1),
        fwd.contains_key(x2),
        fwd[x1] == fwd[x2],
    ensures
        x1 == x2,
{
    assert(rev.contains_pair(fwd[x1], x1));
    assert(rev.contains_pair(fwd[x2], x2));
}

/// One-to-one mapping between world-A entity identifiers (the left side)
/// and world-B entity identifiers (the right side), with constant-time
/// lookup in both directions.
pub struct EntityBimap {
    /// Left-to-right direction: A-side identifier to B-side identifier.
    pub a_to_b: HashMap<u64, u64>,
    /// Right-to-left direction: B-side identifier to A-side identifier.
    pub b_to_a: HashMap<u64, u64>,
}

impl EntityBimap {
    /// The left-to-right mapping, as a mathematical map.
    pub open spec fn left(self) -> Map<u64, u64> {
        self.a_to_b@
    }

    /// The right-to-left mapping, as a mathematical map.
    pub open spec fn right(self) -> Map<u64, u64> {
        self.b_to_a@
    }

    /// The two directions agree pair for pair, which makes the mapping
    /// one-to-one.
    pub open spec fn wf(self) -> bool {
        inverse_maps(self.left(), self.right())
    }

    /// An empty bimap.
    pub fn new() -> (r: EntityBimap)
        ensures
            r.wf(),
            r.left() == Map::<u64, u64>::empty(),
            r.right() == Map::<u64, u64>::empty(),
    {
        EntityBimap { a_to_b: HashMap::new(), b_to_a: HashMap::new() }
    }

    /// How many entity pairs are mapped.
    pub fn len(&self) -> (r: usize)
        ensures
            r == self.left().dom().len(),
    {
        self.a_to_b.len()
    }

    /// The B-side identifier paired with the A-side identifier `a`, if any.
    pub fn get_by_left(&self, a: u64) -> (r: Option<u64>)
        ensures
            r == if self.left().contains_key(a) {
                Some(self.left()[a])
            } else {
                None::<u64>
            },
    {
        match self.a_to_b.get(&a) {
            Some(b) => Some(*b),
            None => None,
        }
    }

    /// The A-side identifier paired with the B-side identifier `b`, if any.
    pub fn get_by_right(&self, b: u64) -> (r: Option<u64>)
        ensures
            r == if self.right().contains_key(b) {
                Some(self.right()[b])
            } else {
                None::<u64>
            },
    {
        match self.b_to_a.get(&b) {
            Some(a) => Some(*a),
            None => None,
        }
    }

    /// Records that the A-side entity `a` and the B-side entity `b` are the
    /// same logical entity. Refused, leaving the bimap unchanged, when either
    /// identifier is already paired: that keeps the mapping one-to-one.
    pub fn insert(&mut self, a: u64, b: u64) -> (r: bool)
        requires
            old(self).wf(),
        ensures
            final(self).wf(),
            r == (!old(self).left().contains_key(a) && !old(self).right().contains_key(b)),
            r ==> final(self).left() == old(self).left().insert(a, b)
                && final(self).right() == old(self).right().insert(b, a),
            !r ==> final(self).left() == old(self).left()
                && final(self).right() == old(self).right(),
    {
        if self.a_to_b.contains_key(&a) || self.b_to_a.contains_key(&b) {
            return false;
        }
        self.a_to_b.insert(a, b);
        self.b_to_a.insert(b, a);
        proof {
            let fwd = self.a_to_b@;
            let rev = self.b_to_a@;
            assert forall|x: u64| #[trigger] fwd.contains_key(x) implies rev.contains_pair(
                fwd[x],
                x,
            ) by {
                if x != a {
                    assert(old(self).left().contains_key(x));
                    assert(old(self).right().contains_pair(old(self).left()[x], x));
                }
            }
            assert forall|y: u64| #[trigger] rev.contains_key(y) implies fwd.contains_pair(
                rev[y],
                y,
            ) by {
                if y != b {
                    assert(old(self).right().contains_key(y));
                    assert(old(self).left().contains_pair(old(self).right()[y], y));
                }
            }
        }
        true
    }

    /// Removes the pair whose A-side identifier is `a`, returning its B-side
    /// identifier; used when that entity is destroyed in either world.
    pub fn remove_by_left(&mut self, a: u64) -> (r: Option<u64>)
        requires
            old(self).wf(),
        ensures
            final(self).wf(),
            r == if old(self).left().contains_key(a) {
                Some(old(self).left()[a])
            } else {
                None::<u64>
            },
            final(self).left() == old(self).left().remove(a),
            match r {
                Some(b) => final(self).right() == old(self).right().remove(b),
                None => final(self).right() == old(self).right(),
            },
    {
        let removed = self.a_to_b.remove(&a);
        match removed {
            Some(b) => {
                self.b_to_a.remove(&b);
                proof {
                    Self::lemma_remove_pair_keeps_inverse(
                        old(self).left(),
                        old(self).right(),
                        a,
                        b,
                    );
                }
                Some(b)
            },
            None => {
                proof {
                    assert(self.a_to_b@ =~= old(self).left());
                }
                None
            },
        }
    }

    /// Removes the pair whose B-side identifier is `b`, returning its A-side
    /// identifier; used when that entity is destroyed in either world.
    pub fn remove_by_right(&mut self, b: u64) -> (r: Option<u64>)
        requires
            old(self).wf(),
        ensures
            final(self).wf(),
            r == if old(self).right().contains_key(b) {
                Some(old(self).right()[b])
            } else {
                None::<u64>
            },
            final(self).right() == old(self).right().remove(b),
            match r {
                Some(a) => final(self).left() == old(self).left().remove(a),
                None => final(self).left() == old(self).left(),
            },
    {
        let removed = self.b_to_a.remove(&b);
        match removed {
            Some(a) => {
                self.a_to_b.remove(&a);
                proof {
                    Self::lemma_remove_pair_keeps_inverse(
                        old(self).right(),
                        old(self).left(),
                        b,
                        a,
                    );
                }
                Some(a)
            },
            None => {
                proof {
                    assert(self.b_to_a@ =~= old(self).right());
                }
                None
            },
        }
    }

    /// Removing one pair from both directions of an inverse pair of maps
    /// leaves them inverse.
    proof fn lemma_remove_pair_keeps_inverse(fwd: Map<u64, u64>, rev: Map<u64, u64>, x: u64, y: u64)
        requires
            inverse_maps(fwd, rev),
            fwd.contains_pair(x, y),
        ensures
            inverse_maps(fwd.remove(x), rev.remove(y)),
    {
        let fwd2 = fwd.remove(x);
        let rev2 = rev.remove(y);
        assert forall|p: u64| #[trigger] fwd2.contains_key(p) implies rev2.contains_pair(
            fwd2[p],
            p,
        ) by {
            assert(rev.contains_pair(fwd[p], p));
            if fwd[p] == y {
                assert(rev.contains_pair(y, x));
                assert(p == x);
            }
        }
        assert forall|q: u64| #[trigger] rev2.contains_key(q) implies fwd2.contains_pair(
            rev2[q],
            q,
        ) by {
            assert(fwd.contains_pair(rev[q], q));
            if rev[q] == x {
                assert(fwd.contains_pair(x, y));
                assert(q == y);
            }
        }
    }
}

} // verus!
