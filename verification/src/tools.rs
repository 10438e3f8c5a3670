//! Tools that can be fired at a target, gated by cooldown, range and cone.

use vstd::prelude::*;
use crate::geom::{Q16_ONE, SPACE_LIMIT, TIME_LIMIT, Vec3i, dot_spec, norm2_spec,
    in_delta_space, in_space, sat_sub, sat_sub_spec, vec_sub, vec_sub_spec, dist2};
use crate::world::{Ent, World, resolved_position, wf_ent};

verus! {

/// Cooldown timer for a tool. Ready when no time remains; the remaining time
/// may run below zero between shots (it saturates at `-TIME_LIMIT`).
#[derive(Clone, Copy, PartialEq, Eq, Structural, Debug)]
pub struct Cooldown {
    /// Time remaining on the cooldown, in milliseconds.
    pub remaining: i64,
    /// Total duration of the cooldown, in milliseconds.
    pub duration: i64,
}

pub open spec fn wf_cooldown(c: Cooldown) -> bool {
    -TIME_LIMIT <= c.remaining <= TIME_LIMIT && 0 <= c.duration <= TIME_LIMIT
}

impl Cooldown {
    /// A fresh cooldown starts fully wound up.
    pub fn new(duration: i64) -> (c: Cooldown)
        requires
            0 <= duration <= TIME_LIMIT,
        ensures
            c == (Cooldown { remaining: duration, duration }),
            wf_cooldown(c),
    {
        Cooldown { remaining: duration, duration }
    }

    /// Wind the cooldown back up to its full duration.
    pub fn reset(&mut self)
        requires
            wf_cooldown(*old(self)),
        ensures
            *final(self) == (Cooldown { remaining: old(self).duration, ..*old(self) }),
            wf_cooldown(*final(self)),
    {
        self.remaining = self.duration;
    }

    /// Is the cooldown ready?
    pub fn is_ready(&self) -> (r: bool)
        ensures
            r == (self.remaining <= 0),
    {
        self.remaining <= 0
    }
}

/// A tool that applies an effect to a target when fired.
#[derive(Clone, Copy, PartialEq, Eq, Structural, Debug)]
pub struct TargettedTool {
    /// Cosine of half the targeting cone angle, in Q16 fixed point.
    pub cone_cos_half: i64,
    /// The range at which the tool's effect can be applied, in world units.
    pub range: i64,
    /// True if the tool is prepared to fire.
    pub armed: bool,
    /// True if the tool is being fired this instant; consumed by the effector
    /// activation step and cleared there after exactly one read.
    pub firing: bool,
}

pub open spec fn wf_tool(t: TargettedTool) -> bool {
    -Q16_ONE <= t.cone_cos_half <= Q16_ONE && 0 <= t.range <= SPACE_LIMIT
}

/// The target direction `delta` lies within the cone whose half-angle has
/// cosine `c / Q16_ONE` around the axis `fwd`. Algebraic form of
/// `cos(angle(delta, fwd)) >= c / Q16_ONE`, squared so that only integers
/// appear; degenerate (zero-length) vectors never count as inside, so a
/// gated action fails closed.
pub open spec fn within_cone_spec(delta: Vec3i, fwd: Vec3i, c: i64) -> bool {
    let dot = dot_spec(delta, fwd);
    let d2 = norm2_spec(delta);
    let u2 = norm2_spec(fwd);
    d2 > 0 && u2 > 0 && {
        if dot >= 0 {
            c <= 0 || dot * dot * (Q16_ONE * Q16_ONE) >= c * c * d2 * u2
        } else {
            c < 0 && dot * dot * (Q16_ONE * Q16_ONE) <= c * c * d2 * u2
        }
    }
}

/// Decide the cone test on machine integers.
pub fn within_cone(delta: Vec3i, fwd: Vec3i, c: i64) -> (r: bool)
    requires
        in_delta_space(delta),
        in_space(fwd),
        -Q16_ONE <= c <= Q16_ONE,
    ensures
        r == within_cone_spec(delta, fwd, c),
{
    proof {
        assert(delta.x * fwd.x <= 2_000_000_000_000 && delta.x * fwd.x >= -2_000_000_000_000
            && delta.x * delta.x <= 4_000_000_000_000 && delta.x * delta.x >= 0
            && fwd.x * fwd.x <= 1_000_000_000_000 && fwd.x * fwd.x >= 0) by (nonlinear_arith)
            requires
                -2_000_000 <= delta.x <= 2_000_000,
                -1_000_000 <= fwd.x <= 1_000_000,
        ;
        assert(delta.y * fwd.y <= 2_000_000_000_000 && delta.y * fwd.y >= -2_000_000_000_000
            && delta.y * delta.y <= 4_000_000_000_000 && delta.y * delta.y >= 0
            && fwd.y * fwd.y <= 1_000_000_000_000 && fwd.y * fwd.y >= 0) by (nonlinear_arith)
            requires
                -2_000_000 <= delta.y <= 2_000_000,
                -1_000_000 <= fwd.y <= 1_000_000,
        ;
        assert(delta.z * fwd.z <= 2_000_000_000_000 && delta.z * fwd.z >= -2_000_000_000_000
            && delta.z * delta.z <= 4_000_000_000_000 && delta.z * delta.z >= 0
            && fwd.z * fwd.z <= 1_000_000_000_000 && fwd.z * fwd.z >= 0) by (nonlinear_arith)
            requires
                -2_000_000 <= delta.z <= 2_000_000,
                -1_000_000 <= fwd.z <= 1_000_000,
        ;
    }
    let dot: i64 = delta.x * fwd.x + delta.y * fwd.y + delta.z * fwd.z;
    let d2: i64 = delta.x * delta.x + delta.y * delta.y + delta.z * delta.z;
    let u2: i64 = fwd.x * fwd.x + fwd.y * fwd.y + fwd.z * fwd.z;
    if d2 <= 0 || u2 <= 0 {
        return false;
    }
    proof {
        assert(dot * dot <= 36_000_000_000_000_000_000_000_000
            && dot * dot >= 0) by (nonlinear_arith)
            requires
                -6_000_000_000_000 <= dot <= 6_000_000_000_000,
        ;
        assert(c * c <= 4_294_967_296 && c * c >= 0) by (nonlinear_arith)
            requires
                -65536 <= c <= 65536,
        ;
    }
    let dd: i128 = (dot as i128) * (dot as i128);
    let lhs: i128 = dd * 4_294_967_296i128;
    let c2: i128 = (c as i128) * (c as i128);
    proof {
        assert(c2 * (d2 as i128) <= 51_539_607_552_000_000_000_000
            && c2 * (d2 as i128) >= 0) by (nonlinear_arith)
            requires
                0 <= c2 <= 4_294_967_296,
                0 < d2 <= 12_000_000_000_000,
        ;
        assert(c2 * (d2 as i128) * (u2 as i128)
            <= 154_618_822_656_000_000_000_000_000_000_000_000
            && c2 * (d2 as i128) * (u2 as i128) >= 0) by (nonlinear_arith)
            requires
                0 <= c2 * (d2 as i128) <= 51_539_607_552_000_000_000_000,
                0 < u2 <= 3_000_000_000_000,
        ;
    }
    let rhs: i128 = c2 * (d2 as i128) * (u2 as i128);
    proof {
        assert(lhs == dot * dot * (Q16_ONE * Q16_ONE));
        assert(rhs == c * c * d2 * u2) by (nonlinear_arith)
            requires
                rhs == ((c as i128) * (c as i128)) * (d2 as i128) * (u2 as i128),
        ;
    }
    if dot >= 0 {
        c <= 0 || lhs >= rhs
    } else {
        c < 0 && lhs <= rhs
    }
}

/// What one cooldown tick leaves in an entity.
pub open spec fn cooldown_step(e: Ent, dt: i64) -> Ent {
    if e.alive && e.cooldown is Some {
        let c = e.cooldown->0;
        Ent {
            cooldown: Some(Cooldown {
                remaining: sat_sub_spec(c.remaining, dt) as i64,
                duration: c.duration,
            }),
            ..e
        }
    } else {
        e
    }
}

/// Decrease every cooldown by the tick delta; they may run negative.
pub fn update_cooldowns(w: &mut World, dt: i64)
    requires
        old(w).wf(),
        0 <= dt <= TIME_LIMIT,
    ensures
        final(w).wf(),
        final(w)@.len() == old(w)@.len(),
        forall|i: int| 0 <= i < final(w)@.len() ==> final(w)@[i] == cooldown_step(old(w)@[i], dt),
        final(w).fx@ == old(w).fx@,
{
    let ghost orig = w@;
    let n: usize = w.ents.len();
    let mut out: Vec<Ent> = Vec::new();
    let mut i: usize = 0;
    while i < n
        invariant
            w@ == orig,
            w.wf(),
            n == orig.len(),
            i <= n,
            0 <= dt <= TIME_LIMIT,
            out@.len() == i,
            forall|j: int| 0 <= j < i ==> out@[j] == cooldown_step(orig[j], dt),
            forall|j: int| 0 <= j < i ==> #[trigger] wf_ent(out@[j]),
        decreases n - i,
    {
        let e = w.ents[i];
        let mut upd = e;
        proof {
            assert(wf_ent(w@[i as int]));
        }
        if e.alive && e.cooldown.is_some() {
            let c = e.cooldown.unwrap();
            upd.cooldown = Some(Cooldown {
                remaining: sat_sub(c.remaining, dt),
                duration: c.duration,
            });
        }
        proof {
            assert(wf_ent(upd));
            assert(upd == cooldown_step(orig[i as int], dt));
        }
        out.push(upd);
        i = i + 1;
    }
    w.ents = out;
}

/// What the firing decision leaves in one entity. Fire eligibility, in
/// order: a target is present, the tool is armed, the cooldown is ready,
/// the target's position resolves (otherwise skip silently without touching
/// the target reference), the target is within range, and the target lies
/// within the weapon cone. On success the tool fires for this instant and
/// the cooldown rewinds.
pub open spec fn fire_step(ents: Seq<Ent>, i: int) -> Ent {
    let e = ents[i];
    if e.alive && e.cooldown is Some && e.tool is Some && e.target is Some && e.pose is Some
        && (e.target->0).0 is Some && e.tool->0.armed && e.cooldown->0.remaining <= 0 {
        match resolved_position(ents, (e.target->0).0) {
            Some(tp) => {
                let own = e.pose->0;
                let delta = vec_sub_spec(tp, own.position);
                if norm2_spec(delta) > e.tool->0.range * e.tool->0.range {
                    e
                } else if !within_cone_spec(delta, own.forward, e.tool->0.cone_cos_half) {
                    e
                } else {
                    Ent {
                        tool: Some(TargettedTool { firing: true, ..e.tool->0 }),
                        cooldown: Some(Cooldown {
                            remaining: e.cooldown->0.duration,
                            duration: e.cooldown->0.duration,
                        }),
                        ..e
                    }
                }
            },
            None => e,
        }
    } else {
        e
    }
}

/// Decide, for every armed tool, whether it fires at its target this tick.
pub fn fire_targetted_tools(w: &mut World)
    requires
        old(w).wf(),
    ensures
        final(w).wf(),
        final(w)@.len() == old(w)@.len(),
        forall|i: int| 0 <= i < final(w)@.len() ==> final(w)@[i] == fire_step(old(w)@, i),
        final(w).fx@ == old(w).fx@,
{
    let ghost orig = w@;
    let n: usize = w.ents.len();
    let mut out: Vec<Ent> = Vec::new();
    let mut i: usize = 0;
    while i < n
        invariant
            w@ == orig,
            w.wf(),
            n == orig.len(),
            i <= n,
            out@.len() == i,
            forall|j: int| 0 <= j < i ==> out@[j] == fire_step(orig, j),
            forall|j: int| 0 <= j < i ==> #[trigger] wf_ent(out@[j]),
        decreases n - i,
    {
        let e = w.ents[i];
        let mut upd = e;
        proof {
            assert(wf_ent(w@[i as int]));
        }
        if e.alive && e.cooldown.is_some() && e.tool.is_some() && e.target.is_some()
            && e.pose.is_some() {
            let tool = e.tool.unwrap();
            let cd = e.cooldown.unwrap();
            let slot = e.target.unwrap().0;
            if slot.is_some() && tool.armed && cd.remaining <= 0 {
                let t = slot.unwrap();
                if t < n && w.ents[t].alive && w.ents[t].pose.is_some() {
                    let tp = w.ents[t].pose.unwrap().position;
                    proof {
                        assert(wf_ent(w@[t as int]));
                    }
                    let own = e.pose.unwrap();
                    let delta = vec_sub(tp, own.position);
                    let r2: i64 = dist2(tp, own.position);
                    proof {
                        assert(r2 == norm2_spec(delta));
                        assert(tool.range * tool.range <= 1_000_000_000_000
                            && tool.range * tool.range >= 0) by (nonlinear_arith)
                            requires
                                0 <= tool.range <= 1_000_000,
                        ;
                    }
                    if r2 <= tool.range * tool.range
                        && within_cone(delta, own.forward, tool.cone_cos_half) {
                        upd.tool = Some(TargettedTool { firing: true, ..tool });
                        upd.cooldown = Some(Cooldown {
                            remaining: cd.duration,
                            duration: cd.duration,
                        });
                    }
                }
            }
        }
        proof {
            assert(wf_ent(upd));
            assert(upd == fire_step(orig, i as int));
        }
        out.push(upd);
        i = i + 1;
    }
    w.ents = out;
}

/// What effector activation leaves in one entity: a firing tool queues one
/// effect application, and the firing flag is cleared after this single
/// downstream read.
pub open spec fn activate_step(e: Ent) -> Ent {
    if e.alive && e.effector is Some && e.tool is Some {
        let eff = e.effector->0;
        Ent {
            effector: Some(crate::effects::Effector {
                kind: eff.kind,
                number_to_apply: if e.tool->0.firing { 1u16 } else { eff.number_to_apply },
            }),
            tool: Some(TargettedTool { firing: false, ..e.tool->0 }),
            ..e
        }
    } else {
        e
    }
}

/// Turn this tick's firing decisions into pending effect applications.
pub fn tools_activate_effectors(w: &mut World)
    requires
        old(w).wf(),
    ensures
        final(w).wf(),
        final(w)@.len() == old(w)@.len(),
        forall|i: int| 0 <= i < final(w)@.len() ==> final(w)@[i] == activate_step(old(w)@[i]),
        final(w).fx@ == old(w).fx@,
{
    let ghost orig = w@;
    let n: usize = w.ents.len();
    let mut out: Vec<Ent> = Vec::new();
    let mut i: usize = 0;
    while i < n
        invariant
            w@ == orig,
            w.wf(),
            n == orig.len(),
            i <= n,
            out@.len() == i,
            forall|j: int| 0 <= j < i ==> out@[j] == activate_step(orig[j]),
            forall|j: int| 0 <= j < i ==> #[trigger] wf_ent(out@[j]),
        decreases n - i,
    {
        let e = w.ents[i];
        let mut upd = e;
        proof {
            assert(wf_ent(w@[i as int]));
        }
        if e.alive && e.effector.is_some() && e.tool.is_some() {
            let eff = e.effector.unwrap();
            let tool = e.tool.unwrap();
            upd.effector = Some(crate::effects::Effector {
                kind: eff.kind,
                number_to_apply: if tool.firing { 1 } else { eff.number_to_apply },
            });
            upd.tool = Some(TargettedTool { firing: false, ..tool });
        }
        proof {
            assert(wf_ent(upd));
            assert(upd == activate_step(orig[i as int]));
        }
        out.push(upd);
        i = i + 1;
    }
    w.ents = out;
}

} // verus!
