//! Synchronization bridge between two parallel entity-component-system
//! worlds, here called world A and world B.
//!
//! Components and resources written in one world must be mirrored into the
//! other every frame. Entity identifiers are private to each world, so a
//! bijective entity bimap translates references across the two identifier
//! spaces. A registry of per-component and per-resource reconciliation rules
//! is built once at setup time; a driver then applies the registered rules in
//! order, once per sync pass, for a chosen direction.

use vstd::prelude::*;

pub mod bimap;
pub mod camera;
pub mod laws;
pub mod registry;
pub mod store;
pub mod sync;
pub mod world;

verus! {

/// Which side of the bridge is authoritative for one sync invocation.
#[derive(Clone, Copy, Debug, PartialEq, Eq, Structural)]
pub enum Direction {
    /// World A is authoritative; writes flow into world B.
    AToB,
    /// World B is authoritative; writes flow into world A.
    BToA,
}

/// The value a slot holds after the driver commits a rule's outcome: a value
/// handed back by the rule is inserted, while `None` in the outcome means the
/// slot already holds whatever the rule left there.
pub open spec fn committed<T>(slot: Option<T>, emitted: Option<T>) -> Option<T> {
    match emitted {
        Some(v) => Some(v),
        None => slot,
    }
}

/// A failure that a sync pass surfaces to its caller, which decides whether
/// to abort the frame.
#[derive(Clone, Copy, Debug, PartialEq, Eq, Structural)]
pub enum SyncError {
    /// A component field refers to an entity that has no bimap entry, so the
    /// reference cannot be translated into the other world.
    DanglingReference,
}

} // verus!
