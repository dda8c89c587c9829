//! The synchronized slice of one world's state.
//!
//! The duck-typed, type-erased storages of the two engines are modeled by a
//! static table: one `Store` per synchronized component type, keyed by that
//! world's entity identifiers, one resource table keyed by a resource type
//! tag, and the active-camera slot. Component and resource payloads are held
//! as plain values; their internals do not matter to the bridge, only which
//! keys hold which value.

use crate::camera::ActiveCamera;
use crate::store::Store;
use vstd::prelude::*;

verus! {

/// How many component types are synchronized.
pub const NUM_COMPONENT_KINDS: usize = 10;

/// Type tag of one synchronized component type: the per-entity data both
/// worlds must agree on. None of these payloads embeds entity references,
/// so they are mirrored by the uniform copy rule.
#[derive(Clone, Copy, Debug, PartialEq, Eq, Structural)]
pub enum ComponentKind {
    /// A sprite to draw for the entity.
    SpriteRender,
    /// A bounding sphere for visibility culling.
    BoundingSphere,
    /// A camera projection.
    Camera,
    /// Marks the entity as transparent for draw ordering.
    Transparent,
    /// A color tint applied to the entity.
    Tint,
    /// A light source.
    Light,
    /// Per-entity debug line geometry.
    DebugLines,
    /// Skinning joint matrices.
    JointTransforms,
    /// A handle to a material asset.
    MaterialHandle,
    /// A handle to a mesh asset.
    MeshHandle,
}

impl ComponentKind {
    /// The position of this component type in a world's component table.
    pub open spec fn as_int(self) -> int {
        match self {
            ComponentKind::SpriteRender => 0,
            ComponentKind::BoundingSphere => 1,
            ComponentKind::Camera => 2,
            ComponentKind::Transparent => 3,
            ComponentKind::Tint => 4,
            ComponentKind::Light => 5,
            ComponentKind::DebugLines => 6,
            ComponentKind::JointTransforms => 7,
            ComponentKind::MaterialHandle => 8,
            ComponentKind::MeshHandle => 9,
        }
    }

    /// The position of this component type in a world's component table.
    pub fn index(self) -> (r: usize)
        ensures
            r == self.as_int(),
            r < NUM_COMPONENT_KINDS,
    {
        match self {
            ComponentKind::SpriteRender => 0,
            ComponentKind::BoundingSphere => 1,
            ComponentKind::Camera => 2,
            ComponentKind::Transparent => 3,
            ComponentKind::Tint => 4,
            ComponentKind::Light => 5,
            ComponentKind::DebugLines => 6,
            ComponentKind::JointTransforms => 7,
            ComponentKind::MaterialHandle => 8,
            ComponentKind::MeshHandle => 9,
        }
    }
}

/// Type tag of one synchronized singleton resource: engine-wide state that
/// must exist identically in both worlds. Payload internals are opaque to
/// the bridge; only presence and value identity matter.
#[derive(Clone, Copy, Debug, PartialEq, Eq, Structural)]
pub enum ResourceKind {
    /// The material asset storage.
    MaterialStorage,
    /// The mesh asset storage.
    MeshStorage,
    /// The texture asset storage.
    TextureStorage,
    /// The sprite-sheet asset storage.
    SpriteSheetStorage,
    /// The asset hot-reload strategy.
    HotReloadStrategy,
    /// The render queue identifier of the backend.
    QueueId,
    /// The visibility culling results.
    Visibility,
    /// The fallback material.
    MaterialDefaults,
    /// The asset loader handle.
    Loader,
    /// The backend factory.
    Factory,
    /// The engine-wide debug line buffer.
    DebugLines,
}

impl ResourceKind {
    /// The key under which this resource type is stored in a world's
    /// resource table.
    pub open spec fn as_u64(self) -> u64 {
        match self {
            ResourceKind::MaterialStorage => 0,
            ResourceKind::MeshStorage => 1,
            ResourceKind::TextureStorage => 2,
            ResourceKind::SpriteSheetStorage => 3,
            ResourceKind::HotReloadStrategy => 4,
            ResourceKind::QueueId => 5,
            ResourceKind::Visibility => 6,
            ResourceKind::MaterialDefaults => 7,
            ResourceKind::Loader => 8,
            ResourceKind::Factory => 9,
            ResourceKind::DebugLines => 10,
        }
    }

    /// The key under which this resource type is stored in a world's
    /// resource table.
    pub fn tag(self) -> (r: u64)
        ensures
            r == self.as_u64(),
    {
        match self {
            ResourceKind::MaterialStorage => 0,
            ResourceKind::MeshStorage => 1,
            ResourceKind::TextureStorage => 2,
            ResourceKind::SpriteSheetStorage => 3,
            ResourceKind::HotReloadStrategy => 4,
            ResourceKind::QueueId => 5,
            ResourceKind::Visibility => 6,
            ResourceKind::MaterialDefaults => 7,
            ResourceKind::Loader => 8,
            ResourceKind::Factory => 9,
            ResourceKind::DebugLines => 10,
        }
    }
}

/// The mathematical value of one world's synchronized state.
#[verifier::ext_equal]
pub struct WorldModel {
    /// The active-camera slot.
    pub camera: Option<ActiveCamera>,
    /// One map per component type, from entity identifier to payload,
    /// indexed by `ComponentKind::as_int`.
    pub components: Seq<Map<u64, u64>>,
    /// The resource table, from resource type tag to payload.
    pub resources: Map<u64, u64>,
}

/// The synchronized slice of one world: the active-camera slot, one store
/// per component type, and the resource table.
pub struct WorldState {
    /// The active-camera slot.
    pub camera: Option<ActiveCamera>,
    /// One store per component type, indexed by `ComponentKind::index`.
    pub components: Vec<Store>,
    /// The resource table, keyed by `ResourceKind::tag`.
    pub resources: Store,
}

impl WorldState {
    /// The world's state as a mathematical value.
    pub open spec fn model(self) -> WorldModel {
        WorldModel {
            camera: self.camera,
            components: Seq::new(
                self.components@.len() as nat,
                |i: int| self.components@[i].as_map(),
            ),
            resources: self.resources.as_map(),
        }
    }

    /// Every component type has its store, and every store keeps its keys
    /// unique.
    pub open spec fn wf(self) -> bool {
        &&& self.components@.len() == NUM_COMPONENT_KINDS
        &&& forall|i: int|
            0 <= i < self.components@.len() ==> (#[trigger] self.components@[i]).wf()
        &&& self.resources.wf()
    }

    /// A world with storage declared for every synchronized component and
    /// resource type, all of it empty, and no active camera.
    pub fn new() -> (r: WorldState)
        ensures
            r.wf(),
            r.model().camera is None,
            r.model().components.len() == NUM_COMPONENT_KINDS,
            forall|i: int|
                0 <= i < NUM_COMPONENT_KINDS ==> #[trigger] r.model().components[i] == Map::<
                    u64,
                    u64,
                >::empty(),
            r.model().resources == Map::<u64, u64>::empty(),
    {
        let mut components: Vec<Store> = Vec::new();
        let mut i: usize = 0;
        while i < NUM_COMPONENT_KINDS
            invariant
                i <= NUM_COMPONENT_KINDS,
                components@.len() == i,
                forall|j: int|
                    0 <= j < i ==> (#[trigger] components@[j]).wf() && components@[j].as_map()
                        == Map::<u64, u64>::empty(),
            decreases NUM_COMPONENT_KINDS - i,
        {
            components.push(Store::new());
            i += 1;
        }
        WorldState { camera: None, components, resources: Store::new() }
    }

    /// The value this world holds for one component type on one entity.
    pub fn component(&self, kind: ComponentKind, entity: u64) -> (r: Option<u64>)
        requires
            self.wf(),
        ensures
            r == if self.model().components[kind.as_int()].contains_key(entity) {
                Some(self.model().components[kind.as_int()][entity])
            } else {
                None::<u64>
            },
    {
        self.components[kind.index()].get(entity)
    }

    /// Stores a component value for one entity in this world, overwriting
    /// any value that entity already had.
    pub fn set_component(&mut self, kind: ComponentKind, entity: u64, value: u64)
        requires
            old(self).wf(),
        ensures
            final(self).wf(),
            final(self).camera == old(self).camera,
            final(self).model().resources == old(self).model().resources,
            final(self).model().components == old(self).model().components.update(
                kind.as_int(),
                old(self).model().components[kind.as_int()].insert(entity, value),
            ),
    {
        let k = kind.index();
        self.components[k].insert(entity, value);
        proof {
            assert(self.model().components =~= old(self).model().components.update(
                kind.as_int(),
                old(self).model().components[kind.as_int()].insert(entity, value),
            ));
        }
    }

    /// The value this world holds for one resource type, if any.
    pub fn resource(&self, kind: ResourceKind) -> (r: Option<u64>)
        requires
            self.wf(),
        ensures
            r == if self.model().resources.contains_key(kind.as_u64()) {
                Some(self.model().resources[kind.as_u64()])
            } else {
                None::<u64>
            },
    {
        self.resources.get(kind.tag())
    }

    /// Stores a resource value in this world, overwriting any value that
    /// resource type already had: the type keeps a single value.
    pub fn set_resource(&mut self, kind: ResourceKind, value: u64)
        requires
            old(self).wf(),
        ensures
            final(self).wf(),
            final(self).camera == old(self).camera,
            final(self).model().components == old(self).model().components,
            final(self).model().resources == old(self).model().resources.insert(
                kind.as_u64(),
                value,
            ),
    {
        self.resources.insert(kind.tag(), value);
        proof {
            assert(self.model().components =~= old(self).model().components);
        }
    }
}

} // verus!
