//! Reconciliation of component stores and resource slots.
//!
//! Component payloads without entity references, and resource payloads, are
//! mirrored by one uniform copy rule, applied the same way in either
//! direction. For a whole component store the driver walks every entity of
//! the authoritative side, translates the entity identifier through the
//! bimap, and reconciles that entity's snapshots; entities with no
//! counterpart in the other world are skipped, since creating entities is
//! owned by code outside this subsystem.

use crate::bimap::inverse_maps;
use crate::bimap::EntityBimap;
use crate::store::Store;
use crate::Direction;
use vstd::prelude::*;

verus! {

/// The destination slot after a copy reconciliation with `src`
/// authoritative: the source value when there is one, the untouched
/// destination otherwise.
pub open spec fn copy_target(src: Option<u64>, dst: Option<u64>) -> Option<u64> {
    match src {
        None => dst,
        Some(v) => Some(v),
    }
}

/// The uniform copy rule for a component or resource type whose payload
/// embeds no entity references: the authoritative side's value, if any, is
/// carried across unchanged, in either direction.
///
/// As with the camera rule, an existing target value is updated in place and
/// `(None, None)` is returned; a missing target value is handed back in that
/// side's slot of the returned pair for the driver to insert; a missing
/// authoritative value changes nothing.
pub fn reconcile_copy(direction: Direction, a: &mut Option<u64>, b: &mut Option<u64>) -> (pair: (
    Option<u64>,
    Option<u64>,
))
    ensures
        match direction {
            Direction::AToB => {
                &&& *final(a) == *old(a)
                &&& pair.0 is None
                &&& (*old(b)) is None ==> *final(b) == *old(b)
                &&& pair.1 is Some ==> (*old(b)) is None && (*old(a)) is Some
                &&& crate::committed(*final(b), pair.1) == copy_target(*old(a), *old(b))
            },
            Direction::BToA => {
                &&& *final(b) == *old(b)
                &&& pair.1 is None
                &&& (*old(a)) is None ==> *final(a) == *old(a)
                &&& pair.0 is Some ==> (*old(a)) is None && (*old(b)) is Some
                &&& crate::committed(*final(a), pair.0) == copy_target(*old(b), *old(a))
            },
        },
{
    match direction {
        Direction::AToB => {
            let v = match a {
                Some(v) => *v,
                None => {
                    return (None, None);
                },
            };
            match b {
                Some(dst) => {
                    *dst = v;
                    (None, None)
                },
                None => (None, Some(v)),
            }
        },
        Direction::BToA => {
            let v = match b {
                Some(v) => *v,
                None => {
                    return (None, None);
                },
            };
            match a {
                Some(dst) => {
                    *dst = v;
                    (None, None)
                },
                None => (Some(v), None),
            }
        },
    }
}

/// The destination store's contents after the source store is mirrored into
/// it, where `rev` sends destination identifiers back to source identifiers.
/// Every mapped source entity's value lands under the translated key; the
/// rest of the destination is untouched.
pub open spec fn store_sync(rev: Map<u64, u64>, src: Map<u64, u64>, dst: Map<u64, u64>) -> Map<
    u64,
    u64,
> {
    dst.union_prefer_right(
        Map::new(
            |t: u64| rev.contains_key(t) && src.contains_key(rev[t]),
            |t: u64| src[rev[t]],
        ),
    )
}

/// Mirroring an empty source changes nothing.
pub proof fn lemma_store_sync_empty(rev: Map<u64, u64>, dst: Map<u64, u64>)
    ensures
        store_sync(rev, Map::empty(), dst) == dst,
{
    assert(store_sync(rev, Map::empty(), dst) =~= dst);
}

/// Adding one source entry moves the whole mirror by exactly that entry:
/// a mapped key lands translated in the destination, an unmapped key is
/// skipped.
pub proof fn lemma_store_sync_insert(
    fwd: Map<u64, u64>,
    rev: Map<u64, u64>,
    src: Map<u64, u64>,
    dst: Map<u64, u64>,
    e: u64,
    v: u64,
)
    requires
        inverse_maps(fwd, rev),
    ensures
        fwd.contains_key(e) ==> store_sync(rev, src.insert(e, v), dst) == store_sync(
            rev,
            src,
            dst,
        ).insert(fwd[e], v),
        !fwd.contains_key(e) ==> store_sync(rev, src.insert(e, v), dst) == store_sync(
            rev,
            src,
            dst,
        ),
{
    if fwd.contains_key(e) {
        assert(rev.contains_pair(fwd[e], e));
        assert forall|t: u64| true implies !(rev.contains_key(t) && rev[t] == e && t != fwd[e]) by {
            if rev.contains_key(t) && rev[t] == e {
                assert(fwd.contains_pair(rev[t], t));
            }
        }
        assert(store_sync(rev, src.insert(e, v), dst) =~= store_sync(rev, src, dst).insert(
            fwd[e],
            v,
        ));
    } else {
        assert forall|t: u64| rev.contains_key(t) implies rev[t] != e by {
            assert(fwd.contains_pair(rev[t], t));
        }
        assert(store_sync(rev, src.insert(e, v), dst) =~= store_sync(rev, src, dst));
    }
}

/// For every entity pair in the bimap, the value the source store holds for
/// the source-side entity lands in the mirror under the destination-side
/// entity.
pub proof fn lemma_store_sync_maps(
    fwd: Map<u64, u64>,
    rev: Map<u64, u64>,
    src: Map<u64, u64>,
    dst: Map<u64, u64>,
    a: u64,
)
    requires
        inverse_maps(fwd, rev),
        fwd.contains_key(a),
        src.contains_key(a),
    ensures
        store_sync(rev, src, dst).contains_pair(fwd[a], src[a]),
{
    assert(rev.contains_pair(fwd[a], a));
}

/// A destination key that no mapped source entity translates to keeps its
/// value, and none of the destination's keys is lost.
pub proof fn lemma_store_sync_frame(
    rev: Map<u64, u64>,
    src: Map<u64, u64>,
    dst: Map<u64, u64>,
    t: u64,
)
    ensures
        dst.contains_key(t) ==> store_sync(rev, src, dst).contains_key(t),
        !(rev.contains_key(t) && src.contains_key(rev[t])) ==> (store_sync(
            rev,
            src,
            dst,
        ).contains_key(t) <==> dst.contains_key(t)) && (dst.contains_key(t) ==> store_sync(
            rev,
            src,
            dst,
        )[t] == dst[t]),
{
}

/// Mirroring the same source twice is the same as mirroring it once.
pub proof fn lemma_store_sync_idempotent(rev: Map<u64, u64>, src: Map<u64, u64>, dst: Map<u64, u64>)
    ensures
        store_sync(rev, src, store_sync(rev, src, dst)) == store_sync(rev, src, dst),
{
    assert(store_sync(rev, src, store_sync(rev, src, dst)) =~= store_sync(rev, src, dst));
}

/// Mirroring a value across and back restores it: for an entity pair
/// `(a, b)`, the value stored under `a` lands under `b`, and mirroring the
/// result in the opposite direction puts the very same value back under `a`.
pub proof fn lemma_store_sync_round_trip(
    fwd: Map<u64, u64>,
    rev: Map<u64, u64>,
    src: Map<u64, u64>,
    dst: Map<u64, u64>,
    back: Map<u64, u64>,
    a: u64,
)
    requires
        inverse_maps(fwd, rev),
        fwd.contains_key(a),
        src.contains_key(a),
    ensures
        store_sync(fwd, store_sync(rev, src, dst), back).contains_pair(a, src[a]),
{
    let b = fwd[a];
    lemma_store_sync_maps(fwd, rev, src, dst, a);
    assert(rev.contains_pair(b, a));
    lemma_store_sync_maps(rev, fwd, store_sync(rev, src, dst), back, b);
}

/// Mirrors the authoritative component store into the destination store,
/// reconciling each entity that the bimap pairs with a counterpart; entities
/// without a counterpart are skipped. For direction A to B the source store
/// is world A's and identifiers translate left to right; for B to A the
/// other way round.
pub fn sync_component_store(
    direction: Direction,
    bimap: &EntityBimap,
    src: &Store,
    dst: &mut Store,
)
    requires
        bimap.wf(),
        src.wf(),
        old(dst).wf(),
    ensures
        final(dst).wf(),
        final(dst).as_map() == match direction {
            Direction::AToB => store_sync(bimap.right(), src.as_map(), old(dst).as_map()),
            Direction::BToA => store_sync(bimap.left(), src.as_map(), old(dst).as_map()),
        },
{
    let ghost fwd = match direction {
        Direction::AToB => bimap.left(),
        Direction::BToA => bimap.right(),
    };
    let ghost rev = match direction {
        Direction::AToB => bimap.right(),
        Direction::BToA => bimap.left(),
    };
    let n = src.len();
    let mut i: usize = 0;
    proof {
        assert(src.entries@.take(0) =~= Seq::<(u64, u64)>::empty());
        lemma_store_sync_empty(rev, old(dst).as_map());
    }
    while i < n
        invariant
            bimap.wf(),
            src.wf(),
            dst.wf(),
            n == src.entries@.len(),
            i <= n,
            fwd == match direction {
                Direction::AToB => bimap.left(),
                Direction::BToA => bimap.right(),
            },
            rev == match direction {
                Direction::AToB => bimap.right(),
                Direction::BToA => bimap.left(),
            },
            dst.as_map() == store_sync(
                rev,
                crate::store::entries_map(src.entries@.take(i as int)),
                old(dst).as_map(),
            ),
        decreases n - i,
    {
        let entry = src.entries[i];
        let ghost prefix = crate::store::entries_map(src.entries@.take(i as int));
        proof {
            assert(src.entries@.take(i + 1).drop_last() =~= src.entries@.take(i as int));
            assert(src.entries@.take(i + 1).last() == entry);
            lemma_store_sync_insert(fwd, rev, prefix, old(dst).as_map(), entry.0, entry.1);
        }
        let translated = match direction {
            Direction::AToB => bimap.get_by_left(entry.0),
            Direction::BToA => bimap.get_by_right(entry.0),
        };
        if let Some(t) = translated {
            let mut src_slot = Some(entry.1);
            let mut dst_slot = dst.get(t);
            let emitted = match direction {
                Direction::AToB => {
                    let pair = reconcile_copy(direction, &mut src_slot, &mut dst_slot);
                    pair.1
                },
                Direction::BToA => {
                    let pair = reconcile_copy(direction, &mut dst_slot, &mut src_slot);
                    pair.0
                },
            };
            if let Some(x) = emitted {
                dst.insert(t, x);
            } else if let Some(x) = dst_slot {
                dst.insert(t, x);
            }
        }
        i += 1;
    }
    proof {
        assert(src.entries@.take(n as int) =~= src.entries@);
    }
}

/// The destination resource table after the resource tagged `tag` is
/// mirrored into it: the authoritative side's value, if any, lands under the
/// tag; every other tag is untouched.
pub open spec fn res_sync(tag: u64, src: Map<u64, u64>, dst: Map<u64, u64>) -> Map<u64, u64> {
    if src.contains_key(tag) {
        dst.insert(tag, src[tag])
    } else {
        dst
    }
}

/// Mirroring the same resource twice is the same as mirroring it once.
pub proof fn lemma_res_sync_idempotent(tag: u64, src: Map<u64, u64>, dst: Map<u64, u64>)
    ensures
        res_sync(tag, src, res_sync(tag, src, dst)) == res_sync(tag, src, dst),
{
    if src.contains_key(tag) {
        assert(res_sync(tag, src, res_sync(tag, src, dst)) =~= res_sync(tag, src, dst));
    }
}

/// Reconciles one singleton resource between the two worlds' resource
/// tables, with the direction choosing the authoritative table.
pub fn sync_resource_slot(direction: Direction, tag: u64, src: &Store, dst: &mut Store)
    requires
        src.wf(),
        old(dst).wf(),
    ensures
        final(dst).wf(),
        final(dst).as_map() == res_sync(tag, src.as_map(), old(dst).as_map()),
{
    let mut src_slot = src.get(tag);
    let mut dst_slot = dst.get(tag);
    let emitted = match direction {
        Direction::AToB => {
            let pair = reconcile_copy(direction, &mut src_slot, &mut dst_slot);
            pair.1
        },
        Direction::BToA => {
            let pair = reconcile_copy(direction, &mut dst_slot, &mut src_slot);
            pair.0
        },
    };
    if let Some(x) = emitted {
        dst.insert(tag, x);
    } else if src_slot.is_some() {
        if let Some(x) = dst_slot {
            dst.insert(tag, x);
        }
    }
}

} // verus!
