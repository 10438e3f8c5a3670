//! Health, and the mortality state machine from health depletion to removal.

use vstd::prelude::*;
use crate::geom::{STAT_LIMIT, TIME_LIMIT};
use crate::rng::draw_range;
use crate::world::{Ent, World, wf_ent};

verus! {

/// Current health. It may fall below zero when damage overshoots; it
/// saturates at `-STAT_LIMIT`, far below any death threshold.
#[derive(Clone, Copy, PartialEq, Eq, Structural, Debug)]
pub struct Health(pub i64);

/// Health ceiling; always positive so health fractions are meaningful.
#[derive(Clone, Copy, PartialEq, Eq, Structural, Debug)]
pub struct MaxHealth(pub i64);

pub open spec fn wf_health(h: Health) -> bool {
    -STAT_LIMIT <= h.0 <= STAT_LIMIT
}

pub open spec fn wf_max_health(m: MaxHealth) -> bool {
    1 <= m.0 <= STAT_LIMIT
}

/// The transitional state between health depletion and removal. The entity
/// is doomed: these are its death throes.
#[derive(Clone, Copy, PartialEq, Eq, Structural, Debug)]
pub struct Dieing {
    /// Death-throes time left, in milliseconds; runs negative at the end.
    pub remaining_time: i64,
    /// Set once the throes are over; observable for one full tick.
    pub dead: bool,
    /// Set on the tick after `dead`; the cleanup pass then removes the entity.
    pub dispose: bool,
}

pub open spec fn wf_dieing(d: Dieing) -> bool {
    -TIME_LIMIT <= d.remaining_time <= TIME_LIMIT
        && (d.dispose ==> d.dead)
}

/// The death-throes roll made on the transition into `Dieing`: a three-in-ten
/// chance of instantaneous death, otherwise a uniform delay in [1000, 4000)
/// milliseconds. `bucket` is a uniform draw below ten, `delay` a uniform draw
/// in [1000, 4000). Instantaneous death sets `dead` in the same transition;
/// `dispose` is never set here.
pub open spec fn death_roll_spec(bucket: u64, delay: u64) -> Dieing {
    if bucket < 3 {
        Dieing { remaining_time: 0, dead: true, dispose: false }
    } else {
        Dieing { remaining_time: delay as i64, dead: false, dispose: false }
    }
}

/// Build the `Dieing` state for an entity whose health just ran out.
pub fn death_roll(bucket: u64, delay: u64) -> (d: Dieing)
    requires
        bucket < 10,
        1000 <= delay < 4000,
    ensures
        d == death_roll_spec(bucket, delay),
        wf_dieing(d),
        !d.dispose,
        d.dead ==> d.remaining_time == 0,
{
    if bucket < 3 {
        Dieing { remaining_time: 0, dead: true, dispose: false }
    } else {
        Dieing { remaining_time: delay as i64, dead: false, dispose: false }
    }
}

/// One tick of the death-throes countdown: the remaining time drops by `dt`;
/// once it is negative, `dead` is set first, and only a later tick may set
/// `dispose`.
pub open spec fn dieing_step(d: Dieing, dt: i64) -> Dieing {
    let rem = if d.remaining_time - dt >= -TIME_LIMIT { d.remaining_time - dt } else { -TIME_LIMIT as int };
    if rem < 0 {
        if !d.dead {
            Dieing { remaining_time: rem as i64, dead: true, dispose: d.dispose }
        } else {
            Dieing { remaining_time: rem as i64, dead: true, dispose: true }
        }
    } else {
        Dieing { remaining_time: rem as i64, dead: d.dead, dispose: d.dispose }
    }
}

/// Disposal always happens strictly after death became observable: a single
/// countdown step never turns `dispose` on unless `dead` already was on when
/// the step began, and the step that sets `dead` leaves `dispose` unchanged.
pub proof fn lemma_mortality_delay_ordering(d: Dieing, dt: i64)
    requires
        wf_dieing(d),
        0 <= dt <= TIME_LIMIT,
    ensures
        dieing_step(d, dt).dispose && !d.dispose ==> d.dead,
        !d.dead ==> dieing_step(d, dt).dispose == d.dispose,
{
}

/// What one mortality-countdown tick leaves in an entity.
pub open spec fn update_dieing_step(e: Ent, dt: i64) -> Ent {
    if e.alive && e.dieing is Some {
        Ent { dieing: Some(dieing_step(e.dieing->0, dt)), ..e }
    } else {
        e
    }
}

/// Advance every death-throes countdown: the remaining time falls, `dead`
/// is set when it first runs negative, and `dispose` only on a later tick.
pub fn update_dieing(w: &mut World, dt: i64)
    requires
        old(w).wf(),
        0 <= dt <= TIME_LIMIT,
    ensures
        final(w).wf(),
        final(w)@.len() == old(w)@.len(),
        forall|i: int| 0 <= i < final(w)@.len() ==> final(w)@[i] == update_dieing_step(old(w)@[i], dt),
        final(w).fx@ == old(w).fx@,
{
    let ghost orig = w@;
    let n: usize = w.ents.len();
    let mut out: Vec<Ent> = Vec::new();
    let mut i: usize = 0;
    while i < n
        invariant
            w@ == orig,
            w.wf(),
            n == orig.len(),
            i <= n,
            0 <= dt <= TIME_LIMIT,
            out@.len() == i,
            forall|j: int| 0 <= j < i ==> out@[j] == update_dieing_step(orig[j], dt),
            forall|j: int| 0 <= j < i ==> #[trigger] wf_ent(out@[j]),
        decreases n - i,
    {
        let e = w.ents[i];
        let mut upd = e;
        proof {
            assert(wf_ent(w@[i as int]));
        }
        if e.alive && e.dieing.is_some() {
            let d = e.dieing.unwrap();
            let rem: i64 = crate::geom::sat_sub(d.remaining_time, dt);
            let nd = if rem < 0 {
                if !d.dead {
                    Dieing { remaining_time: rem, dead: true, dispose: d.dispose }
                } else {
                    Dieing { remaining_time: rem, dead: true, dispose: true }
                }
            } else {
                Dieing { remaining_time: rem, dead: d.dead, dispose: d.dispose }
            };
            upd.dieing = Some(nd);
        }
        proof {
            assert(wf_ent(upd));
            assert(upd == update_dieing_step(orig[i as int], dt));
        }
        out.push(upd);
        i = i + 1;
    }
    w.ents = out;
}

/// A mortal entity out of health, not yet in its death throes.
pub open spec fn dying_trigger(e: Ent) -> bool {
    e.alive && e.mortal && e.dieing is None && e.health is Some && (e.health->0).0 <= 0
}

/// Start the death throes of every mortal entity whose health ran out. The
/// rolled delay is random, so the contract promises only that some in-range
/// roll shaped the new state; `death_roll_spec` pins the state for each
/// roll.
pub fn check_for_dieing_entities(w: &mut World)
    requires
        old(w).wf(),
    ensures
        final(w).wf(),
        final(w)@.len() == old(w)@.len(),
        forall|i: int|
            0 <= i < final(w)@.len() && dying_trigger(old(w)@[i]) ==> exists|b: u64, d: u64|
                b < 10 && 1000 <= d < 4000 && final(w)@[i] == (Ent {
                    dieing: Some(#[trigger] death_roll_spec(b, d)),
                    ..old(w)@[i]
                }),
        forall|i: int|
            0 <= i < final(w)@.len() && !dying_trigger(old(w)@[i]) ==> final(w)@[i] == old(w)@[i],
        final(w).fx@ == old(w).fx@,
{
    let ghost orig = w@;
    let n: usize = w.ents.len();
    let mut out: Vec<Ent> = Vec::new();
    let mut i: usize = 0;
    while i < n
        invariant
            w@ == orig,
            w.wf(),
            n == orig.len(),
            i <= n,
            out@.len() == i,
            forall|j: int|
                0 <= j < i && dying_trigger(orig[j]) ==> exists|b: u64, d: u64|
                    b < 10 && 1000 <= d < 4000 && out@[j] == (Ent {
                        dieing: Some(#[trigger] death_roll_spec(b, d)),
                        ..orig[j]
                    }),
            forall|j: int| 0 <= j < i && !dying_trigger(orig[j]) ==> out@[j] == orig[j],
            forall|j: int| 0 <= j < i ==> #[trigger] wf_ent(out@[j]),
        decreases n - i,
    {
        let e = w.ents[i];
        let mut upd = e;
        proof {
            assert(wf_ent(w@[i as int]));
        }
        if e.alive && e.mortal && e.dieing.is_none() && e.health.is_some()
            && e.health.unwrap().0 <= 0 {
            let bucket: u64 = draw_range(0, 10);
            let delay: u64 = draw_range(1000, 4000);
            let d = death_roll(bucket, delay);
            upd.dieing = Some(d);
            proof {
                assert(upd == (Ent { dieing: Some(death_roll_spec(bucket, delay)), ..orig[i as int] }));
            }
        }
        proof {
            assert(wf_ent(upd));
        }
        out.push(upd);
        i = i + 1;
    }
    w.ents = out;
}

/// What the deferred cleanup pass leaves in one entity: anything whose
/// death throes reached `dispose` is removed.
pub open spec fn dispose_step(e: Ent) -> Ent {
    if e.alive && e.dieing is Some && (e.dieing->0).dispose {
        Ent { alive: false, ..e }
    } else {
        e
    }
}

/// Remove every entity whose death throes are complete.
pub fn dispose_dieing(w: &mut World)
    requires
        old(w).wf(),
    ensures
        final(w).wf(),
        final(w)@.len() == old(w)@.len(),
        forall|i: int| 0 <= i < final(w)@.len() ==> final(w)@[i] == dispose_step(old(w)@[i]),
        final(w).fx@ == old(w).fx@,
{
    let ghost orig = w@;
    let n: usize = w.ents.len();
    let mut out: Vec<Ent> = Vec::new();
    let mut i: usize = 0;
    while i < n
        invariant
            w@ == orig,
            w.wf(),
            n == orig.len(),
            i <= n,
            out@.len() == i,
            forall|j: int| 0 <= j < i ==> out@[j] == dispose_step(orig[j]),
            forall|j: int| 0 <= j < i ==> #[trigger] wf_ent(out@[j]),
        decreases n - i,
    {
        let e = w.ents[i];
        let mut upd = e;
        proof {
            assert(wf_ent(w@[i as int]));
        }
        if e.alive && e.dieing.is_some() && e.dieing.unwrap().dispose {
            upd.alive = false;
        }
        proof {
            assert(wf_ent(upd));
            assert(upd == dispose_step(orig[i as int]));
        }
        out.push(upd);
        i = i + 1;
    }
    w.ents = out;
}

} // verus!
