//! Projectiles: independent entities that travel toward a target and trigger
//! their effect on arrival.

use vstd::prelude::*;
use crate::geom::{SPACE_LIMIT, dist2, dist2_spec};
use crate::world::{Ent, World, resolved_position, wf_ent};

verus! {

/// Core projectile state. A projectile is in flight until it reaches its
/// target; arrival triggers its effector and schedules its despawn.
#[derive(Clone, Copy, PartialEq, Eq, Structural, Debug)]
pub struct Projectile {
    pub reached_target: bool,
    /// Cleared at spawn; set by the initialisation step that copies team and
    /// target from the launching entity.
    pub initialised: bool,
}

impl Projectile {
    pub fn new() -> (p: Projectile)
        ensures
            p == (Projectile { reached_target: false, initialised: false }),
    {
        Projectile { reached_target: false, initialised: false }
    }
}

impl Default for Projectile {
    fn default() -> (p: Projectile)
        ensures
            p == (Projectile { reached_target: false, initialised: false }),
    {
        Projectile::new()
    }
}

/// A circular hit box: a projectile closer than this radius has arrived.
#[derive(Clone, Copy, PartialEq, Eq, Structural, Debug)]
pub struct CircularHitBox {
    pub radius: i64,
}

pub open spec fn wf_hitbox(h: CircularHitBox) -> bool {
    0 <= h.radius <= SPACE_LIMIT
}

/// What projectile initialisation leaves in one entity: a fresh projectile
/// copies team and current target from its launching entity (the
/// instigator). The attempt is made exactly once; if the launcher does not
/// resolve, the projectile keeps what it was spawned with — in particular
/// it stays team-less and is never hostile- or friendly-filtered.
pub open spec fn initialise_step(ents: Seq<Ent>, i: int) -> Ent {
    let e = ents[i];
    if e.alive && e.projectile is Some && !(e.projectile->0).initialised
        && e.instigator is Some {
        let p = Projectile { reached_target: (e.projectile->0).reached_target, initialised: true };
        let l = (e.instigator->0).0;
        if l < ents.len() && ents[l as int].alive && ents[l as int].target is Some {
            if ents[l as int].team is Some {
                Ent {
                    projectile: Some(p),
                    team: ents[l as int].team,
                    target: Some(ents[l as int].target->0),
                    ..e
                }
            } else {
                Ent { projectile: Some(p), target: Some(ents[l as int].target->0), ..e }
            }
        } else {
            Ent { projectile: Some(p), ..e }
        }
    } else {
        e
    }
}

/// Give every fresh projectile its launcher's team and target.
pub fn initialise_projectiles(w: &mut World)
    requires
        old(w).wf(),
    ensures
        final(w).wf(),
        final(w)@.len() == old(w)@.len(),
        forall|i: int| 0 <= i < final(w)@.len() ==> final(w)@[i] == initialise_step(old(w)@, i),
        final(w).fx@ == old(w).fx@,
{
    let ghost orig = w@;
    let n: usize = w.ents.len();
    let mut out: Vec<Ent> = Vec::new();
    let mut i: usize = 0;
    while i < n
        invariant
            w@ == orig,
            w.wf(),
            n == orig.len(),
            i <= n,
            out@.len() == i,
            forall|j: int| 0 <= j < i ==> out@[j] == initialise_step(orig, j),
            forall|j: int| 0 <= j < i ==> #[trigger] wf_ent(out@[j]),
        decreases n - i,
    {
        let e = w.ents[i];
        let mut upd = e;
        proof {
            assert(wf_ent(w@[i as int]));
        }
        if e.alive && e.projectile.is_some() && !e.projectile.unwrap().initialised
            && e.instigator.is_some() {
            upd.projectile = Some(Projectile {
                reached_target: e.projectile.unwrap().reached_target,
                initialised: true,
            });
            let l = e.instigator.unwrap().0;
            if l < n && w.ents[l].alive && w.ents[l].target.is_some() {
                if w.ents[l].team.is_some() {
                    upd.team = w.ents[l].team;
                }
                upd.target = Some(w.ents[l].target.unwrap());
            }
        }
        proof {
            assert(wf_ent(upd));
            assert(upd == initialise_step(orig, i as int));
        }
        out.push(upd);
        i = i + 1;
    }
    w.ents = out;
}

/// What the impact test leaves in one entity: a projectile still in flight
/// whose target resolves to a position and a hit box is flagged as arrived
/// once it is strictly inside the hit-box radius.
pub open spec fn reached_step(ents: Seq<Ent>, i: int) -> Ent {
    let e = ents[i];
    if e.alive && e.target is Some && e.pose is Some && e.projectile is Some
        && !(e.projectile->0).reached_target && (e.target->0).0 is Some {
        let t = (e.target->0).0->0;
        if t < ents.len() && ents[t as int].alive && ents[t as int].pose is Some
            && ents[t as int].hitbox is Some {
            let hb = ents[t as int].hitbox->0;
            let r2 = dist2_spec(ents[t as int].pose->0.position, e.pose->0.position);
            if r2 < hb.radius * hb.radius {
                Ent {
                    projectile: Some(Projectile { reached_target: true, initialised: (e.projectile->0).initialised }),
                    ..e
                }
            } else {
                e
            }
        } else {
            e
        }
    } else {
        e
    }
}

/// Flag every projectile that has come inside its target's hit box.
pub fn check_projectiles_reached_target(w: &mut World)
    requires
        old(w).wf(),
    ensures
        final(w).wf(),
        final(w)@.len() == old(w)@.len(),
        forall|i: int| 0 <= i < final(w)@.len() ==> final(w)@[i] == reached_step(old(w)@, i),
        final(w).fx@ == old(w).fx@,
{
    let ghost orig = w@;
    let n: usize = w.ents.len();
    let mut out: Vec<Ent> = Vec::new();
    let mut i: usize = 0;
    while i < n
        invariant
            w@ == orig,
            w.wf(),
            n == orig.len(),
            i <= n,
            out@.len() == i,
            forall|j: int| 0 <= j < i ==> out@[j] == reached_step(orig, j),
            forall|j: int| 0 <= j < i ==> #[trigger] wf_ent(out@[j]),
        decreases n - i,
    {
        let e = w.ents[i];
        let mut upd = e;
        proof {
            assert(wf_ent(w@[i as int]));
        }
        if e.alive && e.target.is_some() && e.pose.is_some() && e.projectile.is_some()
            && !e.projectile.unwrap().reached_target && e.target.unwrap().0.is_some() {
            let t = e.target.unwrap().0.unwrap();
            if t < n && w.ents[t].alive && w.ents[t].pose.is_some()
                && w.ents[t].hitbox.is_some() {
                proof {
                    assert(wf_ent(w@[t as int]));
                }
                let hb = w.ents[t].hitbox.unwrap();
                let r2: i64 = dist2(w.ents[t].pose.unwrap().position, e.pose.unwrap().position);
                proof {
                    assert(hb.radius * hb.radius <= 1_000_000_000_000
                        && hb.radius * hb.radius >= 0) by (nonlinear_arith)
                        requires
                            0 <= hb.radius <= 1_000_000,
                    ;
                }
                if r2 < hb.radius * hb.radius {
                    upd.projectile = Some(Projectile {
                        reached_target: true,
                        initialised: e.projectile.unwrap().initialised,
                    });
                }
            }
        }
        proof {
            assert(wf_ent(upd));
            assert(upd == reached_step(orig, i as int));
        }
        out.push(upd);
        i = i + 1;
    }
    w.ents = out;
}

/// What the homing update leaves in one entity: while the target resolves,
/// the steering destination follows its live position; once it does not,
/// the projectile loses steering and flies straight on its current heading.
pub open spec fn homing_step(ents: Seq<Ent>, i: int) -> Ent {
    let e = ents[i];
    if e.alive && e.homing && e.projectile is Some && e.target is Some
        && e.destination is Some && e.turn_speed is Some {
        match resolved_position(ents, (e.target->0).0) {
            Some(tp) => Ent { destination: Some(tp), ..e },
            None => Ent { destination: None, turn_speed: Some(0i64), ..e },
        }
    } else {
        e
    }
}

/// Steer every homing projectile toward its target's live position.
pub fn update_homing_projectile_position_target(w: &mut World)
    requires
        old(w).wf(),
    ensures
        final(w).wf(),
        final(w)@.len() == old(w)@.len(),
        forall|i: int| 0 <= i < final(w)@.len() ==> final(w)@[i] == homing_step(old(w)@, i),
        final(w).fx@ == old(w).fx@,
{
    let ghost orig = w@;
    let n: usize = w.ents.len();
    let mut out: Vec<Ent> = Vec::new();
    let mut i: usize = 0;
    while i < n
        invariant
            w@ == orig,
            w.wf(),
            n == orig.len(),
            i <= n,
            out@.len() == i,
            forall|j: int| 0 <= j < i ==> out@[j] == homing_step(orig, j),
            forall|j: int| 0 <= j < i ==> #[trigger] wf_ent(out@[j]),
        decreases n - i,
    {
        let e = w.ents[i];
        let mut upd = e;
        proof {
            assert(wf_ent(w@[i as int]));
        }
        if e.alive && e.homing && e.projectile.is_some() && e.target.is_some()
            && e.destination.is_some() && e.turn_speed.is_some() {
            let slot = e.target.unwrap().0;
            let mut resolved: Option<crate::geom::Vec3i> = None;
            if slot.is_some() {
                let t = slot.unwrap();
                if t < n && w.ents[t].alive && w.ents[t].pose.is_some() {
                    proof {
                        assert(wf_ent(w@[t as int]));
                    }
                    resolved = Some(w.ents[t].pose.unwrap().position);
                }
            }
            match resolved {
                Some(tp) => {
                    upd.destination = Some(tp);
                },
                None => {
                    upd.destination = None;
                    upd.turn_speed = Some(0);
                },
            }
        }
        proof {
            assert(wf_ent(upd));
            assert(upd == homing_step(orig, i as int));
        }
        out.push(upd);
        i = i + 1;
    }
    w.ents = out;
}

/// What the arrival trigger leaves in one entity: a projectile that reached
/// its target queues one application on its own effector.
pub open spec fn projectile_trigger_step(e: Ent) -> Ent {
    if e.alive && e.effector is Some && e.projectile is Some
        && (e.projectile->0).reached_target {
        Ent {
            effector: Some(crate::effects::Effector {
                kind: (e.effector->0).kind,
                number_to_apply: 1u16,
            }),
            ..e
        }
    } else {
        e
    }
}

/// Queue the impact effect of every projectile that has arrived.
pub fn projectiles_apply_effects(w: &mut World)
    requires
        old(w).wf(),
    ensures
        final(w).wf(),
        final(w)@.len() == old(w)@.len(),
        forall|i: int| 0 <= i < final(w)@.len() ==> final(w)@[i] == projectile_trigger_step(old(w)@[i]),
        final(w).fx@ == old(w).fx@,
{
    let ghost orig = w@;
    let n: usize = w.ents.len();
    let mut out: Vec<Ent> = Vec::new();
    let mut i: usize = 0;
    while i < n
        invariant
            w@ == orig,
            w.wf(),
            n == orig.len(),
            i <= n,
            out@.len() == i,
            forall|j: int| 0 <= j < i ==> out@[j] == projectile_trigger_step(orig[j]),
            forall|j: int| 0 <= j < i ==> #[trigger] wf_ent(out@[j]),
        decreases n - i,
    {
        let e = w.ents[i];
        let mut upd = e;
        proof {
            assert(wf_ent(w@[i as int]));
        }
        if e.alive && e.effector.is_some() && e.projectile.is_some()
            && e.projectile.unwrap().reached_target {
            upd.effector = Some(crate::effects::Effector {
                kind: e.effector.unwrap().kind,
                number_to_apply: 1,
            });
        }
        proof {
            assert(wf_ent(upd));
            assert(upd == projectile_trigger_step(orig[i as int]));
        }
        out.push(upd);
        i = i + 1;
    }
    w.ents = out;
}

/// What the projectile cleanup leaves in one entity: an arrived projectile
/// is removed, in the same tick that enqueued its impact effect.
pub open spec fn despawn_projectile_step(e: Ent) -> Ent {
    if e.alive && e.projectile is Some && (e.projectile->0).reached_target {
        Ent { alive: false, ..e }
    } else {
        e
    }
}

/// Remove every projectile that has delivered its impact.
pub fn despawn_projectiles(w: &mut World)
    requires
        old(w).wf(),
    ensures
        final(w).wf(),
        final(w)@.len() == old(w)@.len(),
        forall|i: int| 0 <= i < final(w)@.len() ==> final(w)@[i] == despawn_projectile_step(old(w)@[i]),
        final(w).fx@ == old(w).fx@,
{
    let ghost orig = w@;
    let n: usize = w.ents.len();
    let mut out: Vec<Ent> = Vec::new();
    let mut i: usize = 0;
    while i < n
        invariant
            w@ == orig,
            w.wf(),
            n == orig.len(),
            i <= n,
            out@.len() == i,
            forall|j: int| 0 <= j < i ==> out@[j] == despawn_projectile_step(orig[j]),
            forall|j: int| 0 <= j < i ==> #[trigger] wf_ent(out@[j]),
        decreases n - i,
    {
        let e = w.ents[i];
        let mut upd = e;
        proof {
            assert(wf_ent(w@[i as int]));
        }
        if e.alive && e.projectile.is_some() && e.projectile.unwrap().reached_target {
            upd.alive = false;
        }
        proof {
            assert(wf_ent(upd));
            assert(upd == despawn_projectile_step(orig[i as int]));
        }
        out.push(upd);
        i = i + 1;
    }
    w.ents = out;
}

} // verus!
