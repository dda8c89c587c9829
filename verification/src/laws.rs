//! Laws of the synchronization pass.
//!
//! Sync is deterministic: re-running a pass without new input produces the
//! same, already-consistent result. This module makes that precise. A rule
//! "holds" of a source and destination world when applying it would change
//! nothing; a successful pass establishes every registered rule and a pass
//! over a world where every rule holds is a no-op, which together give
//! idempotence. The same machinery yields the round-trip and
//! asymmetric-existence laws.

use crate::bimap::inverse_maps;
use crate::bimap::lemma_inverse_symmetric;
use crate::camera::synced_camera;
use crate::registry::apply_rules;
use crate::registry::rule_step;
use crate::registry::run_rules;
use crate::registry::RunOutcome;
use crate::registry::SyncRule;
use crate::sync::lemma_store_sync_frame;
use crate::sync::lemma_store_sync_idempotent;
use crate::sync::lemma_store_sync_maps;
use crate::sync::res_sync;
use crate::sync::store_sync;
use crate::world::ComponentKind;
use crate::world::WorldModel;
use crate::world::NUM_COMPONENT_KINDS;
use crate::Direction;
use vstd::prelude::*;

verus! {

/// The world model has one component map per component type.
pub open spec fn model_shaped(w: WorldModel) -> bool {
    w.components.len() == NUM_COMPONENT_KINDS
}

/// Every component type tag indexes into a well-shaped component table.
pub proof fn lemma_component_kind_range(kind: ComponentKind)
    ensures
        0 <= kind.as_int() < NUM_COMPONENT_KINDS,
{
}

/// The rule already holds between the source and destination worlds:
/// applying it would succeed and change nothing. This is the
/// "already consistent" state a completed pass leaves behind.
pub open spec fn rule_holds(
    rule: SyncRule,
    fwd: Map<u64, u64>,
    rev: Map<u64, u64>,
    src: WorldModel,
    dst: WorldModel,
) -> bool {
    match rule {
        SyncRule::ActiveCameraRule => synced_camera(fwd, src.camera, dst.camera) == Some(
            dst.camera,
        ),
        SyncRule::Component(kind) => store_sync(
            rev,
            src.components[kind.as_int()],
            dst.components[kind.as_int()],
        ) == dst.components[kind.as_int()],
        SyncRule::Resource(kind) => res_sync(kind.as_u64(), src.resources, dst.resources)
            == dst.resources,
    }
}

/// A successful rule step leaves a state of which the rule holds.
proof fn lemma_rule_step_establishes(
    rule: SyncRule,
    fwd: Map<u64, u64>,
    rev: Map<u64, u64>,
    src: WorldModel,
    dst: WorldModel,
)
    requires
        inverse_maps(fwd, rev),
        model_shaped(dst),
        rule_step(rule, fwd, rev, src, dst).ok,
    ensures
        rule_holds(rule, fwd, rev, src, rule_step(rule, fwd, rev, src, dst).dst),
{
    let out = rule_step(rule, fwd, rev, src, dst).dst;
    match rule {
        SyncRule::ActiveCameraRule => {
        },
        SyncRule::Component(kind) => {
            let k = kind.as_int();
            lemma_component_kind_range(kind);
            assert(out.components[k] == store_sync(rev, src.components[k], dst.components[k]));
            lemma_store_sync_idempotent(rev, src.components[k], dst.components[k]);
        },
        SyncRule::Resource(kind) => {
            let t = kind.as_u64();
            if src.resources.contains_key(t) {
                assert(res_sync(t, src.resources, out.resources) =~= out.resources);
            }
        },
    }
}

/// A rule that holds is left holding by any other successful rule step:
/// distinct rules touch distinct parts of the destination, and a repeated
/// rule re-establishes itself.
proof fn lemma_rule_step_preserves(
    held: SyncRule,
    applied: SyncRule,
    fwd: Map<u64, u64>,
    rev: Map<u64, u64>,
    src: WorldModel,
    dst: WorldModel,
)
    requires
        inverse_maps(fwd, rev),
        model_shaped(dst),
        rule_holds(held, fwd, rev, src, dst),
        rule_step(applied, fwd, rev, src, dst).ok,
    ensures
        rule_holds(held, fwd, rev, src, rule_step(applied, fwd, rev, src, dst).dst),
{
    if held == applied {
        lemma_rule_step_establishes(applied, fwd, rev, src, dst);
    } else {
        let out = rule_step(applied, fwd, rev, src, dst).dst;
        match (held, applied) {
            (SyncRule::Component(k0), SyncRule::Component(k1)) => {
                lemma_component_kind_range(k0);
                lemma_component_kind_range(k1);
                assert(k0.as_int() != k1.as_int());
                assert(out.components[k0.as_int()] == dst.components[k0.as_int()]);
            },
            (SyncRule::Resource(k0), SyncRule::Resource(k1)) => {
                let t0 = k0.as_u64();
                let t1 = k1.as_u64();
                assert(t0 != t1);
                if src.resources.contains_key(t0) {
                    let v = src.resources[t0];
                    assert(dst.resources.insert(t0, v) == dst.resources);
                    assert(dst.resources.insert(t0, v).contains_key(t0));
                    assert(dst.resources.contains_pair(t0, v));
                    assert(res_sync(t0, src.resources, out.resources) =~= out.resources);
                }
            },
            _ => {
            },
        }
    }
}

/// A rule step on a state of which the rule already holds succeeds and
/// changes nothing.
proof fn lemma_rule_step_noop(
    rule: SyncRule,
    fwd: Map<u64, u64>,
    rev: Map<u64, u64>,
    src: WorldModel,
    dst: WorldModel,
)
    requires
        model_shaped(dst),
        rule_holds(rule, fwd, rev, src, dst),
    ensures
        rule_step(rule, fwd, rev, src, dst) == (RunOutcome { ok: true, dst }),
{
    match rule {
        SyncRule::ActiveCameraRule => {
            assert(rule_step(rule, fwd, rev, src, dst).dst =~~= dst);
        },
        SyncRule::Component(kind) => {
            let k = kind.as_int();
            lemma_component_kind_range(kind);
            assert(dst.components.update(k, dst.components[k]) =~= dst.components);
            assert(rule_step(rule, fwd, rev, src, dst).dst =~~= dst);
        },
        SyncRule::Resource(_) => {
            assert(rule_step(rule, fwd, rev, src, dst).dst =~~= dst);
        },
    }
}

/// A run of rules keeps the component table's shape.
proof fn lemma_run_rules_shaped(
    rules: Seq<SyncRule>,
    fwd: Map<u64, u64>,
    rev: Map<u64, u64>,
    src: WorldModel,
    dst: WorldModel,
)
    requires
        model_shaped(dst),
    ensures
        model_shaped(run_rules(rules, fwd, rev, src, dst).dst),
    decreases rules.len(),
{
    if rules.len() > 0 {
        let s = rule_step(rules[0], fwd, rev, src, dst);
        if s.ok {
            lemma_run_rules_shaped(rules.drop_first(), fwd, rev, src, s.dst);
        }
    }
}

/// A rule that holds before a successful run still holds after it.
proof fn lemma_run_rules_preserve(
    rules: Seq<SyncRule>,
    held: SyncRule,
    fwd: Map<u64, u64>,
    rev: Map<u64, u64>,
    src: WorldModel,
    dst: WorldModel,
)
    requires
        inverse_maps(fwd, rev),
        model_shaped(dst),
        rule_holds(held, fwd, rev, src, dst),
        run_rules(rules, fwd, rev, src, dst).ok,
    ensures
        rule_holds(held, fwd, rev, src, run_rules(rules, fwd, rev, src, dst).dst),
    decreases rules.len(),
{
    if rules.len() > 0 {
        let s = rule_step(rules[0], fwd, rev, src, dst);
        lemma_rule_step_preserves(held, rules[0], fwd, rev, src, dst);
        lemma_run_rules_preserve(rules.drop_first(), held, fwd, rev, src, s.dst);
    }
}

/// After a successful run, every rule of the run holds of the result.
proof fn lemma_run_rules_establish_all(
    rules: Seq<SyncRule>,
    j: int,
    fwd: Map<u64, u64>,
    rev: Map<u64, u64>,
    src: WorldModel,
    dst: WorldModel,
)
    requires
        inverse_maps(fwd, rev),
        model_shaped(dst),
        run_rules(rules, fwd, rev, src, dst).ok,
        0 <= j < rules.len(),
    ensures
        rule_holds(rules[j], fwd, rev, src, run_rules(rules, fwd, rev, src, dst).dst),
    decreases rules.len(),
{
    let s = rule_step(rules[0], fwd, rev, src, dst);
    if j == 0 {
        lemma_rule_step_establishes(rules[0], fwd, rev, src, dst);
        lemma_run_rules_preserve(rules.drop_first(), rules[0], fwd, rev, src, s.dst);
    } else {
        assert(rules.drop_first()[j - 1] == rules[j]);
        lemma_run_rules_establish_all(rules.drop_first(), j - 1, fwd, rev, src, s.dst);
    }
}

/// A run over a state of which every rule already holds succeeds and changes
/// nothing.
proof fn lemma_run_rules_noop(
    rules: Seq<SyncRule>,
    fwd: Map<u64, u64>,
    rev: Map<u64, u64>,
    src: WorldModel,
    dst: WorldModel,
)
    requires
        model_shaped(dst),
        forall|j: int| 0 <= j < rules.len() ==> rule_holds(#[trigger] rules[j], fwd, rev, src, dst),
    ensures
        run_rules(rules, fwd, rev, src, dst) == (RunOutcome { ok: true, dst }),
    decreases rules.len(),
{
    if rules.len() > 0 {
        lemma_rule_step_noop(rules[0], fwd, rev, src, dst);
        assert(forall|j: int|
            0 <= j < rules.drop_first().len() ==> rule_holds(
                #[trigger] rules.drop_first()[j],
                fwd,
                rev,
                src,
                dst,
            ));
        lemma_run_rules_noop(rules.drop_first(), fwd, rev, src, dst);
    }
}

/// Idempotence: a successful sync pass leaves the worlds in a state a second
/// pass of the same rules, in the same direction, with the same bimap and no
/// intervening mutation, reproduces exactly — including succeeding.
pub proof fn lemma_sync_pass_idempotent(
    rules: Seq<SyncRule>,
    direction: Direction,
    left: Map<u64, u64>,
    right: Map<u64, u64>,
    wa: WorldModel,
    wb: WorldModel,
)
    requires
        inverse_maps(left, right),
        model_shaped(wa),
        model_shaped(wb),
        apply_rules(rules, direction, left, right, wa, wb).ok,
    ensures
        ({
            let s = apply_rules(rules, direction, left, right, wa, wb);
            apply_rules(rules, direction, left, right, s.wa, s.wb) == s
        }),
{
    lemma_inverse_symmetric(left, right);
    let fwd = match direction {
        Direction::AToB => left,
        Direction::BToA => right,
    };
    let rev = match direction {
        Direction::AToB => right,
        Direction::BToA => left,
    };
    let src = match direction {
        Direction::AToB => wa,
        Direction::BToA => wb,
    };
    let dst = match direction {
        Direction::AToB => wb,
        Direction::BToA => wa,
    };
    let out = run_rules(rules, fwd, rev, src, dst).dst;
    lemma_run_rules_shaped(rules, fwd, rev, src, dst);
    assert forall|j: int| 0 <= j < rules.len() implies rule_holds(
        #[trigger] rules[j],
        fwd,
        rev,
        src,
        out,
    ) by {
        lemma_run_rules_establish_all(rules, j, fwd, rev, src, dst);
    }
    lemma_run_rules_noop(rules, fwd, rev, src, out);
    let s = apply_rules(rules, direction, left, right, wa, wb);
    assert(apply_rules(rules, direction, left, right, s.wa, s.wb) =~= s);
}

/// Asymmetric existence: after a successful pass from A to B whose rules
/// mirror the component type `kind`, every A-side component value of a
/// bimap-paired entity stands in B under the paired entity — inserted where
/// B had none, overwritten where it had one — while world A is untouched and
/// no B-side entry of that type is lost.
pub proof fn lemma_asymmetric_creation(
    rules: Seq<SyncRule>,
    left: Map<u64, u64>,
    right: Map<u64, u64>,
    wa: WorldModel,
    wb: WorldModel,
    kind: ComponentKind,
    a: u64,
)
    requires
        inverse_maps(left, right),
        model_shaped(wa),
        model_shaped(wb),
        rules.contains(SyncRule::Component(kind)),
        apply_rules(rules, Direction::AToB, left, right, wa, wb).ok,
        left.contains_key(a),
        wa.components[kind.as_int()].contains_key(a),
    ensures
        ({
            let s = apply_rules(rules, Direction::AToB, left, right, wa, wb);
            &&& s.wa == wa
            &&& s.wb.components[kind.as_int()].contains_pair(
                left[a],
                wa.components[kind.as_int()][a],
            )
            &&& forall|e: u64|
                wb.components[kind.as_int()].contains_key(e)
                    ==> s.wb.components[kind.as_int()].contains_key(e)
        }),
{
    let k = kind.as_int();
    lemma_component_kind_range(kind);
    let out = run_rules(rules, left, right, wa, wb).dst;
    let j = choose|j: int| 0 <= j < rules.len() && rules[j] == SyncRule::Component(kind);
    lemma_run_rules_establish_all(rules, j, left, right, wa, wb);
    assert(store_sync(right, wa.components[k], out.components[k]) == out.components[k]);
    lemma_store_sync_maps(left, right, wa.components[k], out.components[k], a);
    assert forall|e: u64| wb.components[k].contains_key(e) implies out.components[k].contains_key(
        e,
    ) by {
        lemma_run_rules_component_no_loss(rules, k, e, left, right, wa, wb);
    }
}

/// No run of rules removes a component entry: mirroring only inserts and
/// overwrites.
proof fn lemma_run_rules_component_no_loss(
    rules: Seq<SyncRule>,
    k: int,
    e: u64,
    fwd: Map<u64, u64>,
    rev: Map<u64, u64>,
    src: WorldModel,
    dst: WorldModel,
)
    requires
        0 <= k < NUM_COMPONENT_KINDS,
        model_shaped(dst),
        run_rules(rules, fwd, rev, src, dst).ok,
        dst.components[k].contains_key(e),
    ensures
        run_rules(rules, fwd, rev, src, dst).dst.components[k].contains_key(e),
    decreases rules.len(),
{
    if rules.len() > 0 {
        let s = rule_step(rules[0], fwd, rev, src, dst);
        match rules[0] {
            SyncRule::Component(kind) => {
                if kind.as_int() == k {
                    lemma_store_sync_frame(rev, src.components[k], dst.components[k], e);
                }
            },
            _ => {
            },
        }
        lemma_run_rules_component_no_loss(rules.drop_first(), k, e, fwd, rev, src, s.dst);
    }
}

/// Round-trip identity: after a pass from A to B and a pass back from B to
/// A, each with the same bimap and rules that mirror the component type
/// `kind`, every bimap-paired entity's component value of that type in A is
/// the value it started with, bit for bit.
pub proof fn lemma_round_trip_restores(
    rules: Seq<SyncRule>,
    left: Map<u64, u64>,
    right: Map<u64, u64>,
    wa: WorldModel,
    wb: WorldModel,
    kind: ComponentKind,
    a: u64,
)
    requires
        inverse_maps(left, right),
        model_shaped(wa),
        model_shaped(wb),
        rules.contains(SyncRule::Component(kind)),
        apply_rules(rules, Direction::AToB, left, right, wa, wb).ok,
        ({
            let s1 = apply_rules(rules, Direction::AToB, left, right, wa, wb);
            apply_rules(rules, Direction::BToA, left, right, s1.wa, s1.wb).ok
        }),
        left.contains_key(a),
        wa.components[kind.as_int()].contains_key(a),
    ensures
        ({
            let s1 = apply_rules(rules, Direction::AToB, left, right, wa, wb);
            let s2 = apply_rules(rules, Direction::BToA, left, right, s1.wa, s1.wb);
            s2.wa.components[kind.as_int()].contains_pair(a, wa.components[kind.as_int()][a])
        }),
{
    let k = kind.as_int();
    lemma_component_kind_range(kind);
    lemma_inverse_symmetric(left, right);
    let b = left[a];
    let v = wa.components[k][a];
    let j = choose|j: int| 0 <= j < rules.len() && rules[j] == SyncRule::Component(kind);

    let wb1 = run_rules(rules, left, right, wa, wb).dst;
    lemma_run_rules_establish_all(rules, j, left, right, wa, wb);
    assert(store_sync(right, wa.components[k], wb1.components[k]) == wb1.components[k]);
    lemma_store_sync_maps(left, right, wa.components[k], wb1.components[k], a);
    assert(wb1.components[k].contains_pair(b, v));

    lemma_run_rules_shaped(rules, left, right, wa, wb);
    let wa2 = run_rules(rules, right, left, wb1, wa).dst;
    lemma_run_rules_establish_all(rules, j, right, left, wb1, wa);
    assert(store_sync(left, wb1.components[k], wa2.components[k]) == wa2.components[k]);
    assert(right.contains_pair(b, a));
    lemma_store_sync_maps(right, left, wb1.components[k], wa2.components[k], b);
    assert(wa2.components[k].contains_pair(a, v));
}

} // verus!
