//! Aggression sources, retargeting timers and guard behavior.

use vstd::prelude::*;
use crate::geom::{Vec3i, SPACE_LIMIT, TIME_LIMIT, in_space, sat_sub, sat_sub_spec};
use crate::targets::Target;
use crate::world::{Ent, World, resolved_position, wf_ent};

verus! {

/// The widest aggression radius any agent is expected to use.
pub const MAX_AGGRO_RADIUS: i64 = 1000;

/// The radius, around the aggression source, inside which targets are sought.
#[derive(Clone, Copy, PartialEq, Eq, Structural, Debug)]
pub struct AggroRadius(pub i64);

/// The point from which the targeting radius is measured: the agent's own
/// position, or the position of a protected entity for guards.
#[derive(Clone, Copy, PartialEq, Eq, Structural, Debug)]
pub struct AggroLocation(pub Vec3i);

/// Periodically forces the agent to drop its target and pick afresh.
#[derive(Clone, Copy, PartialEq, Eq, Structural, Debug)]
pub struct RetargetBehavior {
    pub interval: i64,
    pub remaining_time: i64,
}

/// Marks an agent as guarding another entity: its aggression source follows
/// the protected entity's position.
#[derive(Clone, Copy, PartialEq, Eq, Structural, Debug)]
pub struct GuardBehavior {
    pub protected: usize,
}

pub open spec fn wf_aggro_radius(r: AggroRadius) -> bool {
    0 <= r.0 <= SPACE_LIMIT
}

pub open spec fn wf_aggro_location(l: AggroLocation) -> bool {
    in_space(l.0)
}

pub open spec fn wf_retarget(r: RetargetBehavior) -> bool {
    0 <= r.interval <= TIME_LIMIT && -TIME_LIMIT <= r.remaining_time <= TIME_LIMIT
}

/// What the aggression-source update leaves in one entity: guards copy the
/// protected entity's position (keeping the stale value when it no longer
/// resolves); independent agents copy their own position.
pub open spec fn aggro_source_step(ents: Seq<Ent>, i: int) -> Ent {
    let e = ents[i];
    if e.alive && e.aggro_location is Some {
        match e.guard {
            Some(g) => {
                match resolved_position(ents, Some(g.protected)) {
                    Some(p) => Ent { aggro_location: Some(AggroLocation(p)), ..e },
                    None => e,
                }
            },
            None => {
                match e.pose {
                    Some(pose) => Ent {
                        aggro_location: Some(AggroLocation(pose.position)),
                        ..e
                    },
                    None => e,
                }
            },
        }
    } else {
        e
    }
}

/// Refresh every agent's aggression source before targeting runs.
pub fn update_aggression_source(w: &mut World)
    requires
        old(w).wf(),
    ensures
        final(w).wf(),
        final(w)@.len() == old(w)@.len(),
        forall|i: int| 0 <= i < final(w)@.len() ==> final(w)@[i] == aggro_source_step(old(w)@, i),
        final(w).fx@ == old(w).fx@,
{
    let ghost orig = w@;
    let n: usize = w.ents.len();
    let mut out: Vec<Ent> = Vec::new();
    let mut i: usize = 0;
    while i < n
        invariant
            w@ == orig,
            w.wf(),
            n == orig.len(),
            i <= n,
            out@.len() == i,
            forall|j: int| 0 <= j < i ==> out@[j] == aggro_source_step(orig, j),
            forall|j: int| 0 <= j < i ==> #[trigger] wf_ent(out@[j]),
        decreases n - i,
    {
        let e = w.ents[i];
        let mut upd = e;
        if e.alive && e.aggro_location.is_some() {
            match e.guard {
                Some(g) => {
                    let p = g.protected;
                    if p < n && w.ents[p].alive && w.ents[p].pose.is_some() {
                        upd.aggro_location =
                            Some(AggroLocation(w.ents[p].pose.unwrap().position));
                    }
                },
                None => {
                    if e.pose.is_some() {
                        upd.aggro_location = Some(AggroLocation(e.pose.unwrap().position));
                    }
                },
            }
        }
        proof {
            assert(wf_ent(w@[i as int]));
            if e.alive && e.aggro_location is Some && e.guard is Some {
                let p = e.guard->Some_0.protected;
                if p < n && orig[p as int].alive && orig[p as int].pose is Some {
                    assert(wf_ent(orig[p as int]));
                }
            }
            assert(wf_ent(upd));
            assert(upd == aggro_source_step(orig, i as int));
        }
        out.push(upd);
        i = i + 1;
    }
    w.ents = out;
}

/// What one retargeting tick leaves in an entity: the countdown drops by
/// `dt`; on expiry it winds back to the configured interval and the target
/// slot is force-cleared, so the targeting engine reconsiders next tick.
pub open spec fn retarget_step(e: Ent, dt: i64) -> Ent {
    if e.alive && e.target is Some && e.retarget is Some {
        let r = e.retarget->0;
        let rem = sat_sub_spec(r.remaining_time, dt);
        if rem < 0 {
            Ent {
                retarget: Some(RetargetBehavior { interval: r.interval, remaining_time: r.interval }),
                target: Some(Target(None)),
                ..e
            }
        } else {
            Ent {
                retarget: Some(RetargetBehavior { interval: r.interval, remaining_time: rem as i64 }),
                ..e
            }
        }
    } else {
        e
    }
}

/// Tick every retargeting timer; expired timers clear the current target.
/// This is the one mechanism that lets an agent switch away from a target
/// that is still valid.
pub fn do_retargetting(w: &mut World, dt: i64)
    requires
        old(w).wf(),
        0 <= dt <= TIME_LIMIT,
    ensures
        final(w).wf(),
        final(w)@.len() == old(w)@.len(),
        forall|i: int| 0 <= i < final(w)@.len() ==> final(w)@[i] == retarget_step(old(w)@[i], dt),
        final(w).fx@ == old(w).fx@,
{
    let ghost orig = w@;
    let n: usize = w.ents.len();
    let mut out: Vec<Ent> = Vec::new();
    let mut i: usize = 0;
    while i < n
        invariant
            w@ == orig,
            w.wf(),
            n == orig.len(),
            i <= n,
            0 <= dt <= TIME_LIMIT,
            out@.len() == i,
            forall|j: int| 0 <= j < i ==> out@[j] == retarget_step(orig[j], dt),
            forall|j: int| 0 <= j < i ==> #[trigger] wf_ent(out@[j]),
        decreases n - i,
    {
        let e = w.ents[i];
        let mut upd = e;
        proof {
            assert(wf_ent(w@[i as int]));
        }
        if e.alive && e.target.is_some() && e.retarget.is_some() {
            let r = e.retarget.unwrap();
            let rem: i64 = sat_sub(r.remaining_time, dt);
            if rem < 0 {
                upd.retarget = Some(RetargetBehavior {
                    interval: r.interval,
                    remaining_time: r.interval,
                });
                upd.target = Some(Target(None));
            } else {
                upd.retarget = Some(RetargetBehavior {
                    interval: r.interval,
                    remaining_time: rem,
                });
            }
        }
        proof {
            assert(wf_ent(upd));
            assert(upd == retarget_step(orig[i as int], dt));
        }
        out.push(upd);
        i = i + 1;
    }
    w.ents = out;
}

} // verus!
