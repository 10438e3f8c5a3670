//! Finite lifetimes for transient entities.

use vstd::prelude::*;
use crate::geom::{TIME_LIMIT, sat_sub, sat_sub_spec};
use crate::world::{Ent, World, wf_ent};

verus! {

/// An entity with a finite lifetime before expiration, in milliseconds.
#[derive(Clone, Copy, PartialEq, Eq, Structural, Debug)]
pub struct Lifetime {
    pub remaining: i64,
}

pub open spec fn wf_lifetime(l: Lifetime) -> bool {
    -TIME_LIMIT <= l.remaining <= TIME_LIMIT
}

/// What one lifetime tick leaves in an entity. Entities tagged expired on
/// an earlier pass are removed now (the deferred cleanup); a running
/// lifetime drops by `dt` and, once spent, tags the entity expired and
/// sheds the countdown.
///
/// Boundary choice, deliberately: expiry fires when no time remains
/// (`remaining <= 0`), not only when the countdown is strictly negative.
/// Under exact integer time a countdown can land exactly on zero — for a
/// two-second lifetime ticked twenty times at a tenth of a second — and
/// zero remaining time means the lifetime is spent; only there does this
/// differ from expiring strictly below zero.
pub open spec fn lifetime_step(e: Ent, dt: i64) -> Ent {
    if e.alive {
        let swept = e.expired;
        match e.lifetime {
            Some(l) => {
                let rem = sat_sub_spec(l.remaining, dt);
                if rem <= 0 {
                    Ent { alive: !swept, lifetime: None, expired: true, ..e }
                } else {
                    Ent {
                        alive: !swept,
                        lifetime: Some(Lifetime { remaining: rem as i64 }),
                        ..e
                    }
                }
            },
            None => Ent { alive: !swept, ..e },
        }
    } else {
        e
    }
}

/// Advance every finite lifetime, tag the spent ones, and sweep entities
/// tagged on an earlier pass. A projectile that times out this way never
/// triggers its effect: nothing here touches effectors.
pub fn update_lifetimes(w: &mut World, dt: i64)
    requires
        old(w).wf(),
        0 <= dt <= TIME_LIMIT,
    ensures
        final(w).wf(),
        final(w)@.len() == old(w)@.len(),
        forall|i: int| 0 <= i < final(w)@.len() ==> final(w)@[i] == lifetime_step(old(w)@[i], dt),
        final(w).fx@ == old(w).fx@,
{
    let ghost orig = w@;
    let n: usize = w.ents.len();
    let mut out: Vec<Ent> = Vec::new();
    let mut i: usize = 0;
    while i < n
        invariant
            w@ == orig,
            w.wf(),
            n == orig.len(),
            i <= n,
            0 <= dt <= TIME_LIMIT,
            out@.len() == i,
            forall|j: int| 0 <= j < i ==> out@[j] == lifetime_step(orig[j], dt),
            forall|j: int| 0 <= j < i ==> #[trigger] wf_ent(out@[j]),
        decreases n - i,
    {
        let e = w.ents[i];
        let mut upd = e;
        proof {
            assert(wf_ent(w@[i as int]));
        }
        if e.alive {
            if e.expired {
                upd.alive = false;
            }
            if e.lifetime.is_some() {
                let rem: i64 = sat_sub(e.lifetime.unwrap().remaining, dt);
                if rem <= 0 {
                    upd.lifetime = None;
                    upd.expired = true;
                } else {
                    upd.lifetime = Some(Lifetime { remaining: rem });
                }
            }
        }
        proof {
            assert(wf_ent(upd));
            assert(upd == lifetime_step(orig[i as int], dt));
        }
        out.push(upd);
        i = i + 1;
    }
    w.ents = out;
}

} // verus!
