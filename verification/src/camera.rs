//! The active-camera component and its reconciliation rule.
//!
//! `ActiveCamera` holds a single optional entity reference, so it shows the
//! general pattern for components whose fields point at entities: the
//! reference must be translated through the entity bimap before it is written
//! into the other world, because each world has its own identifier space.

use crate::bimap::EntityBimap;
use crate::Direction;
use crate::SyncError;
use vstd::prelude::*;

verus! {

/// A component selecting which entity carries the camera in use, or none.
/// Both worlds have a value of this shape; the identifier inside is always
/// in the identifier space of the world the value lives in.
#[derive(Clone, Copy, Debug, PartialEq, Eq)]
pub struct ActiveCamera {
    /// The camera entity, in the owning world's identifier space.
    pub entity: Option<u64>,
}

impl Default for ActiveCamera {
    /// A camera component selecting no entity.
    fn default() -> (r: ActiveCamera)
        ensures
            r.entity is None,
    {
        ActiveCamera { entity: None }
    }
}

/// Translates one optional entity reference through the mapping `m` into the
/// other world's identifier space. The outer `None` means the reference
/// dangles: the entity has no counterpart on the other side.
pub open spec fn translate_ref(m: Map<u64, u64>, e: Option<u64>) -> Option<Option<u64>> {
    match e {
        None => Some(None),
        Some(id) => if m.contains_key(id) {
            Some(Some(m[id]))
        } else {
            None
        },
    }
}

/// The destination camera slot after reconciling `src` into `dst` with the
/// source side authoritative, where `m` maps source identifiers to
/// destination identifiers. `None` means the source reference dangles and
/// the reconciliation fails; an absent source leaves the destination alone.
pub open spec fn synced_camera(
    m: Map<u64, u64>,
    src: Option<ActiveCamera>,
    dst: Option<ActiveCamera>,
) -> Option<Option<ActiveCamera>> {
    match src {
        None => Some(dst),
        Some(c) => match translate_ref(m, c.entity) {
            None => None,
            Some(t) => Some(Some(ActiveCamera { entity: t })),
        },
    }
}

/// For every entity pair `(a, b)` in the bimap, a camera referring to the
/// A-side entity `a` reconciles, A-side authoritative, into a camera
/// referring to the B-side entity `b`, whatever the other side held; and the
/// opposite direction translates a camera referring to `b` back into one
/// referring to `a`: the two directions are exact inverses.
pub proof fn lemma_camera_translation_correct(
    fwd: Map<u64, u64>,
    rev: Map<u64, u64>,
    a: u64,
    b: u64,
    dst1: Option<ActiveCamera>,
    dst2: Option<ActiveCamera>,
)
    requires
        crate::bimap::inverse_maps(fwd, rev),
        fwd.contains_pair(a, b),
    ensures
        synced_camera(fwd, Some(ActiveCamera { entity: Some(a) }), dst1) == Some(
            Some(ActiveCamera { entity: Some(b) }),
        ),
        synced_camera(rev, Some(ActiveCamera { entity: Some(b) }), dst2) == Some(
            Some(ActiveCamera { entity: Some(a) }),
        ),
{
    assert(rev.contains_pair(b, a));
}

/// A camera whose reference translates at all translates back to the very
/// value it started from: reconciling across and back restores it.
pub proof fn lemma_camera_round_trip(
    fwd: Map<u64, u64>,
    rev: Map<u64, u64>,
    cam: ActiveCamera,
    dst1: Option<ActiveCamera>,
    dst2: Option<ActiveCamera>,
)
    requires
        crate::bimap::inverse_maps(fwd, rev),
        synced_camera(fwd, Some(cam), dst1) is Some,
    ensures
        match synced_camera(fwd, Some(cam), dst1) {
            Some(c1) => synced_camera(rev, c1, dst2) == Some(Some(cam)),
            None => false,
        },
{
    match cam.entity {
        None => {
        },
        Some(a) => {
            assert(fwd.contains_key(a));
            assert(rev.contains_pair(fwd[a], a));
        },
    }
}

/// Reconciles the two worlds' active-camera slots for one sync invocation,
/// with the direction choosing the authoritative side.
///
/// The authoritative snapshot's entity reference is translated through the
/// bimap. When the target side already holds a value it is updated in place
/// and the returned pair is `(None, None)`: no write needs to be committed.
/// When the target side holds none, the freshly constructed value is handed
/// back in that side's slot of the pair for the driver to insert; the slot
/// itself is not touched. When the authoritative side holds no snapshot,
/// nothing changes. A reference to an entity absent from the bimap dangles:
/// the error is returned and neither slot is touched.
pub fn reconcile_active_camera(
    direction: Direction,
    bimap: &EntityBimap,
    a: &mut Option<ActiveCamera>,
    b: &mut Option<ActiveCamera>,
) -> (r: Result<(Option<ActiveCamera>, Option<ActiveCamera>), SyncError>)
    ensures
        match direction {
            Direction::AToB => match r {
                Ok(pair) => {
                    &&& *final(a) == *old(a)
                    &&& pair.0 is None
                    &&& (*old(b)) is None ==> *final(b) == *old(b)
                    &&& pair.1 is Some ==> (*old(b)) is None && (*old(a)) is Some
                    &&& Some(crate::committed(*final(b), pair.1)) == synced_camera(
                        bimap.left(),
                        *old(a),
                        *old(b),
                    )
                },
                Err(e) => {
                    &&& synced_camera(bimap.left(), *old(a), *old(b)) is None
                    &&& e == SyncError::DanglingReference
                    &&& *final(a) == *old(a)
                    &&& *final(b) == *old(b)
                },
            },
            Direction::BToA => match r {
                Ok(pair) => {
                    &&& *final(b) == *old(b)
                    &&& pair.1 is None
                    &&& (*old(a)) is None ==> *final(a) == *old(a)
                    &&& pair.0 is Some ==> (*old(a)) is None && (*old(b)) is Some
                    &&& Some(crate::committed(*final(a), pair.0)) == synced_camera(
                        bimap.right(),
                        *old(b),
                        *old(a),
                    )
                },
                Err(e) => {
                    &&& synced_camera(bimap.right(), *old(b), *old(a)) is None
                    &&& e == SyncError::DanglingReference
                    &&& *final(a) == *old(a)
                    &&& *final(b) == *old(b)
                },
            },
        },
{
    match direction {
        Direction::AToB => {
            let src = match a {
                Some(c) => *c,
                None => {
                    return Ok((None, None));
                },
            };
            let translated = match src.entity {
                None => None,
                Some(id) => match bimap.get_by_left(id) {
                    Some(t) => Some(t),
                    None => {
                        return Err(SyncError::DanglingReference);
                    },
                },
            };
            match b {
                Some(dst) => {
                    dst.entity = translated;
                    Ok((None, None))
                },
                None => Ok((None, Some(ActiveCamera { entity: translated }))),
            }
        },
        Direction::BToA => {
            let src = match b {
                Some(c) => *c,
                None => {
                    return Ok((None, None));
                },
            };
            let translated = match src.entity {
                None => None,
                Some(id) => match bimap.get_by_right(id) {
                    Some(t) => Some(t),
                    None => {
                        return Err(SyncError::DanglingReference);
                    },
                },
            };
            match a {
                Some(dst) => {
                    dst.entity = translated;
                    Ok((None, None))
                },
                None => Ok((Some(ActiveCamera { entity: translated }), None)),
            }
        },
    }
}

} // verus!
