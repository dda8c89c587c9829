//! The sync registry and the driver that runs it.
//!
//! `Syncer::prepare` is the one-time setup step: it inserts the resources
//! that must exist from the first frame and appends every reconciliation
//! rule, in a fixed order, to the registry. `Syncer::sync_pass` is the
//! driver: once per sync point it walks the registry in registration order
//! and applies each rule for the chosen direction, committing every outcome.

use crate::bimap::EntityBimap;
use crate::camera::reconcile_active_camera;
use crate::camera::synced_camera;
use crate::camera::ActiveCamera;
use crate::sync::res_sync;
use crate::sync::store_sync;
use crate::sync::sync_component_store;
use crate::sync::sync_resource_slot;
use crate::world::ComponentKind;
use crate::world::ResourceKind;
use crate::world::WorldModel;
use crate::world::WorldState;
use crate::Direction;
use crate::SyncError;
use vstd::prelude::*;

verus! {

/// One registered reconciliation rule: the named camera rule, the uniform
/// copy rule for one component type, or the copy rule for one resource type.
#[derive(Clone, Copy, Debug, PartialEq, Eq, Structural)]
pub enum SyncRule {
    /// The active-camera rule, which translates the entity reference inside
    /// the component through the bimap.
    ActiveCameraRule,
    /// The uniform copy rule for one component type.
    Component(ComponentKind),
    /// The copy rule for one singleton resource type.
    Resource(ResourceKind),
}

/// What has become of the destination world part-way through a pass:
/// whether every rule so far succeeded, and the destination state as it
/// stands.
#[verifier::ext_equal]
pub struct RunOutcome {
    /// No rule has failed so far.
    pub ok: bool,
    /// The destination world's state.
    pub dst: WorldModel,
}

/// Both worlds after a whole pass in one direction.
#[verifier::ext_equal]
pub struct PassOutcome {
    /// Every rule succeeded.
    pub ok: bool,
    /// World A's state after the pass.
    pub wa: WorldModel,
    /// World B's state after the pass.
    pub wb: WorldModel,
}

/// The one step a single rule performs on the destination world, for the
/// direction whose source-to-destination entity translation is `fwd` and
/// whose reverse translation is `rev`. The step fails exactly when the
/// camera rule meets a dangling entity reference, in which case the
/// destination is left as it stands.
pub open spec fn rule_step(
    rule: SyncRule,
    fwd: Map<u64, u64>,
    rev: Map<u64, u64>,
    src: WorldModel,
    dst: WorldModel,
) -> RunOutcome {
    match rule {
        SyncRule::ActiveCameraRule => match synced_camera(fwd, src.camera, dst.camera) {
            None => RunOutcome { ok: false, dst },
            Some(c) => RunOutcome {
                ok: true,
                dst: WorldModel {
                    camera: c,
                    components: dst.components,
                    resources: dst.resources,
                },
            },
        },
        SyncRule::Component(kind) => RunOutcome {
            ok: true,
            dst: WorldModel {
                camera: dst.camera,
                components: dst.components.update(
                    kind.as_int(),
                    store_sync(rev, src.components[kind.as_int()], dst.components[kind.as_int()]),
                ),
                resources: dst.resources,
            },
        },
        SyncRule::Resource(kind) => RunOutcome {
            ok: true,
            dst: WorldModel {
                camera: dst.camera,
                components: dst.components,
                resources: res_sync(kind.as_u64(), src.resources, dst.resources),
            },
        },
    }
}

/// The destination world after the rules run in order against the source
/// world, stopping at the first failing rule.
pub open spec fn run_rules(
    rules: Seq<SyncRule>,
    fwd: Map<u64, u64>,
    rev: Map<u64, u64>,
    src: WorldModel,
    dst: WorldModel,
) -> RunOutcome
    decreases rules.len(),
{
    if rules.len() == 0 {
        RunOutcome { ok: true, dst }
    } else {
        let s = rule_step(rules[0], fwd, rev, src, dst);
        if !s.ok {
            s
        } else {
            run_rules(rules.drop_first(), fwd, rev, src, s.dst)
        }
    }
}

/// Both worlds after one sync pass of the given rules in the given
/// direction: the authoritative world is read only, the other receives the
/// mirrored state. `left` maps A-side to B-side identifiers and `right` the
/// reverse.
pub open spec fn apply_rules(
    rules: Seq<SyncRule>,
    direction: Direction,
    left: Map<u64, u64>,
    right: Map<u64, u64>,
    wa: WorldModel,
    wb: WorldModel,
) -> PassOutcome {
    match direction {
        Direction::AToB => {
            let s = run_rules(rules, left, right, wa, wb);
            PassOutcome { ok: s.ok, wa: wa, wb: s.dst }
        },
        Direction::BToA => {
            let s = run_rules(rules, right, left, wb, wa);
            PassOutcome { ok: s.ok, wa: s.dst, wb: wb }
        },
    }
}

/// Appending a rule to a pass runs the pass and then, if it succeeded, the
/// one extra rule.
pub proof fn lemma_run_rules_snoc(
    rules: Seq<SyncRule>,
    r: SyncRule,
    fwd: Map<u64, u64>,
    rev: Map<u64, u64>,
    src: WorldModel,
    dst: WorldModel,
)
    ensures
        ({
            let s = run_rules(rules, fwd, rev, src, dst);
            let w = run_rules(rules.push(r), fwd, rev, src, dst);
            &&& !s.ok ==> w == s
            &&& s.ok ==> w == rule_step(r, fwd, rev, src, s.dst)
        }),
    decreases rules.len(),
{
    if rules.len() == 0 {
        assert(rules.push(r)[0] == r);
        assert(rules.push(r).drop_first() =~= Seq::<SyncRule>::empty());
        let t = rule_step(r, fwd, rev, src, dst);
        if t.ok {
            assert(run_rules(Seq::<SyncRule>::empty(), fwd, rev, src, t.dst) == RunOutcome {
                ok: true,
                dst: t.dst,
            });
            assert(run_rules(rules.push(r), fwd, rev, src, dst) =~= t);
        }
    } else {
        assert(rules.push(r)[0] == rules[0]);
        assert(rules.push(r).drop_first() =~= rules.drop_first().push(r));
        let s = rule_step(rules[0], fwd, rev, src, dst);
        if s.ok {
            lemma_run_rules_snoc(rules.drop_first(), r, fwd, rev, src, s.dst);
        }
    }
}

/// Once a prefix of the pass has failed, the rest of the rules change
/// nothing: the pass stops where the prefix stopped.
pub proof fn lemma_run_rules_fail_stops(
    rules: Seq<SyncRule>,
    i: int,
    fwd: Map<u64, u64>,
    rev: Map<u64, u64>,
    src: WorldModel,
    dst: WorldModel,
)
    requires
        0 <= i <= rules.len(),
        !run_rules(rules.take(i), fwd, rev, src, dst).ok,
    ensures
        run_rules(rules, fwd, rev, src, dst) == run_rules(rules.take(i), fwd, rev, src, dst),
    decreases rules.len(),
{
    assert(i != 0);
    assert(rules.take(i)[0] == rules[0]);
    let s = rule_step(rules[0], fwd, rev, src, dst);
    if s.ok {
        assert(rules.take(i).drop_first() =~= rules.drop_first().take(i - 1));
        lemma_run_rules_fail_stops(rules.drop_first(), i - 1, fwd, rev, src, s.dst);
    }
}

/// Applies one rule to the two worlds for one direction, exactly as
/// `rule_step` describes, committing any returned outcome. Fails only when
/// the camera rule meets a dangling entity reference, leaving both worlds as
/// they stand.
fn apply_rule_exec(
    rule: SyncRule,
    direction: Direction,
    bimap: &EntityBimap,
    world_a: &mut WorldState,
    world_b: &mut WorldState,
) -> (r: Result<(), SyncError>)
    requires
        bimap.wf(),
        old(world_a).wf(),
        old(world_b).wf(),
    ensures
        final(world_a).wf(),
        final(world_b).wf(),
        ({
            let s = match direction {
                Direction::AToB => rule_step(
                    rule,
                    bimap.left(),
                    bimap.right(),
                    old(world_a).model(),
                    old(world_b).model(),
                ),
                Direction::BToA => rule_step(
                    rule,
                    bimap.right(),
                    bimap.left(),
                    old(world_b).model(),
                    old(world_a).model(),
                ),
            };
            &&& (r is Ok <==> s.ok)
            &&& r is Err ==> r == Err::<(), SyncError>(SyncError::DanglingReference)
            &&& match direction {
                Direction::AToB => {
                    &&& final(world_a).model() == old(world_a).model()
                    &&& final(world_b).model() == s.dst
                },
                Direction::BToA => {
                    &&& final(world_b).model() == old(world_b).model()
                    &&& final(world_a).model() == s.dst
                },
            }
        }),
{
    match rule {
        SyncRule::ActiveCameraRule => {
            let res = reconcile_active_camera(
                direction,
                bimap,
                &mut world_a.camera,
                &mut world_b.camera,
            );
            match res {
                Ok(pair) => {
                    match direction {
                        Direction::AToB => {
                            if let Some(v) = pair.1 {
                                world_b.camera = Some(v);
                            }
                            proof {
                                let s = rule_step(
                                    rule,
                                    bimap.left(),
                                    bimap.right(),
                                    old(world_a).model(),
                                    old(world_b).model(),
                                );
                                assert(world_b.model() =~~= s.dst);
                                assert(world_a.model() =~~= old(world_a).model());
                            }
                        },
                        Direction::BToA => {
                            if let Some(v) = pair.0 {
                                world_a.camera = Some(v);
                            }
                            proof {
                                let s = rule_step(
                                    rule,
                                    bimap.right(),
                                    bimap.left(),
                                    old(world_b).model(),
                                    old(world_a).model(),
                                );
                                assert(world_a.model() =~~= s.dst);
                                assert(world_b.model() =~~= old(world_b).model());
                            }
                        },
                    }
                    Ok(())
                },
                Err(e) => {
                    proof {
                        assert(world_a.model() =~~= old(world_a).model());
                        assert(world_b.model() =~~= old(world_b).model());
                    }
                    Err(e)
                },
            }
        },
        SyncRule::Component(kind) => {
            let k = kind.index();
            match direction {
                Direction::AToB => {
                    sync_component_store(
                        direction,
                        bimap,
                        &world_a.components[k],
                        &mut world_b.components[k],
                    );
                    proof {
                        let s = rule_step(
                            rule,
                            bimap.left(),
                            bimap.right(),
                            old(world_a).model(),
                            old(world_b).model(),
                        );
                        assert(world_b.model() =~~= s.dst);
                        assert(world_a.model() =~~= old(world_a).model());
                    }
                },
                Direction::BToA => {
                    sync_component_store(
                        direction,
                        bimap,
                        &world_b.components[k],
                        &mut world_a.components[k],
                    );
                    proof {
                        let s = rule_step(
                            rule,
                            bimap.right(),
                            bimap.left(),
                            old(world_b).model(),
                            old(world_a).model(),
                        );
                        assert(world_a.model() =~~= s.dst);
                        assert(world_b.model() =~~= old(world_b).model());
                    }
                },
            }
            Ok(())
        },
        SyncRule::Resource(kind) => {
            let t = kind.tag();
            match direction {
                Direction::AToB => {
                    sync_resource_slot(direction, t, &world_a.resources, &mut world_b.resources);
                    proof {
                        let s = rule_step(
                            rule,
                            bimap.left(),
                            bimap.right(),
                            old(world_a).model(),
                            old(world_b).model(),
                        );
                        assert(world_b.model() =~~= s.dst);
                        assert(world_a.model() =~~= old(world_a).model());
                    }
                },
                Direction::BToA => {
                    sync_resource_slot(direction, t, &world_b.resources, &mut world_a.resources);
                    proof {
                        let s = rule_step(
                            rule,
                            bimap.right(),
                            bimap.left(),
                            old(world_b).model(),
                            old(world_a).model(),
                        );
                        assert(world_a.model() =~~= s.dst);
                        assert(world_b.model() =~~= old(world_b).model());
                    }
                },
            }
            Ok(())
        },
    }
}

/// The registry of reconciliation rules for the bridge, built once by
/// `prepare` and applied every sync point by `sync_pass`.
pub struct Syncer {
    /// The registered rules, in registration order.
    pub registry: Vec<SyncRule>,
}

/// The registration order `prepare` produces: the camera rule, then the
/// component copy rules, then the resource copy rules. Some component types
/// are registered more than once; the idempotence law shows a repeated
/// registration of the same rule is harmless.
pub open spec fn prepared_registry() -> Seq<SyncRule> {
    seq![
        SyncRule::ActiveCameraRule,
        SyncRule::Component(ComponentKind::SpriteRender),
        SyncRule::Component(ComponentKind::BoundingSphere),
        SyncRule::Component(ComponentKind::Camera),
        SyncRule::Component(ComponentKind::Transparent),
        SyncRule::Component(ComponentKind::Tint),
        SyncRule::Component(ComponentKind::Light),
        SyncRule::Component(ComponentKind::DebugLines),
        SyncRule::Component(ComponentKind::JointTransforms),
        SyncRule::Component(ComponentKind::MaterialHandle),
        SyncRule::Component(ComponentKind::MeshHandle),
        SyncRule::Component(ComponentKind::BoundingSphere),
        SyncRule::Component(ComponentKind::MaterialHandle),
        SyncRule::Component(ComponentKind::MeshHandle),
        SyncRule::Resource(ResourceKind::MaterialStorage),
        SyncRule::Resource(ResourceKind::MeshStorage),
        SyncRule::Resource(ResourceKind::TextureStorage),
        SyncRule::Resource(ResourceKind::SpriteSheetStorage),
        SyncRule::Resource(ResourceKind::HotReloadStrategy),
        SyncRule::Resource(ResourceKind::QueueId),
        SyncRule::Resource(ResourceKind::Visibility),
        SyncRule::Resource(ResourceKind::MaterialDefaults),
        SyncRule::Resource(ResourceKind::Loader),
        SyncRule::Resource(ResourceKind::Factory),
        SyncRule::Resource(ResourceKind::DebugLines),
    ]
}

impl Syncer {
    /// A syncer with nothing registered yet.
    pub fn new() -> (r: Syncer)
        ensures
            r.registry@ == Seq::<SyncRule>::empty(),
    {
        let r = Syncer { registry: Vec::new() };
        proof {
            assert(r.registry@ =~= Seq::<SyncRule>::empty());
        }
        r
    }

    /// The one-time setup step, run before the frame loop starts: makes sure
    /// world B holds an active-camera value from the first frame (storage for
    /// every synchronized type exists in both worlds by construction), and
    /// appends every component and resource rule to the registry in the fixed
    /// registration order.
    pub fn prepare(&mut self, world_a: &mut WorldState, world_b: &mut WorldState)
        requires
            old(self).registry@.len() == 0,
        ensures
            final(self).registry@ == prepared_registry(),
            *final(world_a) == *old(world_a),
            final(world_b).camera == Some(ActiveCamera { entity: None::<u64> }),
            final(world_b).components == old(world_b).components,
            final(world_b).resources == old(world_b).resources,
    {
        world_b.camera = Some(ActiveCamera::default());

        self.registry.push(SyncRule::ActiveCameraRule);

        self.registry.push(SyncRule::Component(ComponentKind::SpriteRender));
        self.registry.push(SyncRule::Component(ComponentKind::BoundingSphere));
        self.registry.push(SyncRule::Component(ComponentKind::Camera));
        self.registry.push(SyncRule::Component(ComponentKind::Transparent));
        self.registry.push(SyncRule::Component(ComponentKind::Tint));
        self.registry.push(SyncRule::Component(ComponentKind::Light));
        self.registry.push(SyncRule::Component(ComponentKind::DebugLines));
        self.registry.push(SyncRule::Component(ComponentKind::JointTransforms));
        self.registry.push(SyncRule::Component(ComponentKind::MaterialHandle));
        self.registry.push(SyncRule::Component(ComponentKind::MeshHandle));
        self.registry.push(SyncRule::Component(ComponentKind::BoundingSphere));
        self.registry.push(SyncRule::Component(ComponentKind::MaterialHandle));
        self.registry.push(SyncRule::Component(ComponentKind::MeshHandle));

        self.registry.push(SyncRule::Resource(ResourceKind::MaterialStorage));
        self.registry.push(SyncRule::Resource(ResourceKind::MeshStorage));
        self.registry.push(SyncRule::Resource(ResourceKind::TextureStorage));
        self.registry.push(SyncRule::Resource(ResourceKind::SpriteSheetStorage));
        self.registry.push(SyncRule::Resource(ResourceKind::HotReloadStrategy));
        self.registry.push(SyncRule::Resource(ResourceKind::QueueId));
        self.registry.push(SyncRule::Resource(ResourceKind::Visibility));
        self.registry.push(SyncRule::Resource(ResourceKind::MaterialDefaults));
        self.registry.push(SyncRule::Resource(ResourceKind::Loader));
        self.registry.push(SyncRule::Resource(ResourceKind::Factory));
        self.registry.push(SyncRule::Resource(ResourceKind::DebugLines));

        proof {
            assert(self.registry@ =~= prepared_registry());
        }
    }

    /// One sync pass: applies every registered rule in registration order,
    /// for the chosen direction, mirroring the authoritative world into the
    /// other. On a dangling entity reference the pass stops at the failing
    /// rule, leaves both worlds as that rule found them, and surfaces the
    /// error to the caller, which decides whether to abort the frame.
    pub fn sync_pass(
        &self,
        direction: Direction,
        bimap: &EntityBimap,
        world_a: &mut WorldState,
        world_b: &mut WorldState,
    ) -> (r: Result<(), SyncError>)
        requires
            bimap.wf(),
            old(world_a).wf(),
            old(world_b).wf(),
        ensures
            final(world_a).wf(),
            final(world_b).wf(),
            ({
                let s = apply_rules(
                    self.registry@,
                    direction,
                    bimap.left(),
                    bimap.right(),
                    old(world_a).model(),
                    old(world_b).model(),
                );
                &&& final(world_a).model() == s.wa
                &&& final(world_b).model() == s.wb
                &&& (r is Ok <==> s.ok)
                &&& r is Err ==> r == Err::<(), SyncError>(SyncError::DanglingReference)
            }),
    {
        let ghost fwd = match direction {
            Direction::AToB => bimap.left(),
            Direction::BToA => bimap.right(),
        };
        let ghost rev = match direction {
            Direction::AToB => bimap.right(),
            Direction::BToA => bimap.left(),
        };
        let ghost src0 = match direction {
            Direction::AToB => old(world_a).model(),
            Direction::BToA => old(world_b).model(),
        };
        let ghost dst0 = match direction {
            Direction::AToB => old(world_b).model(),
            Direction::BToA => old(world_a).model(),
        };
        let n = self.registry.len();
        let mut i: usize = 0;
        proof {
            assert(self.registry@.take(0) =~= Seq::<SyncRule>::empty());
        }
        while i < n
            invariant
                bimap.wf(),
                world_a.wf(),
                world_b.wf(),
                n == self.registry@.len(),
                i <= n,
                fwd == match direction {
                    Direction::AToB => bimap.left(),
                    Direction::BToA => bimap.right(),
                },
                rev == match direction {
                    Direction::AToB => bimap.right(),
                    Direction::BToA => bimap.left(),
                },
                src0 == match direction {
                    Direction::AToB => old(world_a).model(),
                    Direction::BToA => old(world_b).model(),
                },
                dst0 == match direction {
                    Direction::AToB => old(world_b).model(),
                    Direction::BToA => old(world_a).model(),
                },
                match direction {
                    Direction::AToB => world_a.model() == src0,
                    Direction::BToA => world_b.model() == src0,
                },
                ({
                    let s = run_rules(self.registry@.take(i as int), fwd, rev, src0, dst0);
                    &&& s.ok
                    &&& s.dst == match direction {
                        Direction::AToB => world_b.model(),
                        Direction::BToA => world_a.model(),
                    }
                }),
            decreases n - i,
        {
            let rule = self.registry[i];
            proof {
                assert(self.registry@.take(i + 1) =~= self.registry@.take(i as int).push(rule));
                lemma_run_rules_snoc(self.registry@.take(i as int), rule, fwd, rev, src0, dst0);
            }
            let step = apply_rule_exec(rule, direction, bimap, world_a, world_b);
            match step {
                Ok(()) => {},
                Err(e) => {
                    proof {
                        lemma_run_rules_fail_stops(self.registry@, i + 1, fwd, rev, src0, dst0);
                    }
                    return Err(e);
                },
            }
            i += 1;
        }
        proof {
            assert(self.registry@.take(n as int) =~= self.registry@);
        }
        Ok(())
    }
}

} // verus!
