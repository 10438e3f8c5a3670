//! Damage payloads and the record of when an entity was last hurt.

use vstd::prelude::*;
use crate::geom::{STAT_LIMIT, TIME_LIMIT};
use crate::mortal::Health;
use crate::world::{Ent, World, wf_ent};

verus! {

/// The amount of damage an effect will deal; never negative.
#[derive(Clone, Copy, PartialEq, Eq, Structural, Debug)]
pub struct Damage(pub i64);

impl Damage {
    pub fn new(damage: i64) -> (d: Damage)
        requires
            0 <= damage <= STAT_LIMIT,
        ensures
            d == Damage(damage),
    {
        Damage(damage)
    }
}

/// Milliseconds since damage was last dealt to this entity; reset to zero by
/// the damage stage and advanced by the presentation layer.
#[derive(Clone, Copy, PartialEq, Eq, Structural, Debug)]
pub struct LastDamageTimer(pub i64);

pub open spec fn wf_damage(d: Damage) -> bool {
    0 <= d.0 <= STAT_LIMIT
}

pub open spec fn wf_last_damage_timer(t: LastDamageTimer) -> bool {
    0 <= t.0 <= TIME_LIMIT
}

/// Health loss saturating at `-STAT_LIMIT`, far below the death threshold:
/// the damage stage only ever lowers health.
pub open spec fn sat_damage_spec(h: i64, d: i64) -> int {
    if h - d >= -STAT_LIMIT {
        h - d
    } else {
        -STAT_LIMIT as int
    }
}

/// Whether effect entity `i` deals its damage this tick: a live effect
/// with a positive damage payload whose attack was not voided — only a
/// miss voids damage; a blocked attack still applies what the shield left
/// over, while fully absorbed damage reaches this stage with nothing left
/// and has no further effect, not even on the last-damaged clock — and
/// whose target resolves to a health pool.
pub open spec fn damage_applies(ents: Seq<Ent>, i: int) -> bool {
    let e = ents[i];
    e.alive && e.is_effect && e.target is Some && e.damage is Some && e.attack is Some
        && !((e.attack->0).result is Miss) && (e.damage->0).0 > 0 && (e.target->0).0 is Some && {
        let t = (e.target->0).0->0;
        t < ents.len() && ents[t as int].alive && ents[t as int].health is Some
            && ents[t as int].last_damage_timer is Some
    }
}

/// The world after effect `i` has applied its damage: the target's health
/// drops by the payload and its last-damaged clock restarts.
pub open spec fn damage_apply_one(ents: Seq<Ent>, i: int) -> Seq<Ent> {
    if damage_applies(ents, i) {
        let e = ents[i];
        let t = (e.target->0).0->0;
        let tgt = ents[t as int];
        let nh = sat_damage_spec((tgt.health->0).0, (e.damage->0).0);
        ents.update(t as int, Ent {
            health: Some(Health(nh as i64)),
            last_damage_timer: Some(LastDamageTimer(0)),
            ..tgt
        })
    } else {
        ents
    }
}

/// The world after the first `k` entities have applied their damage, in
/// entity order: later applications see the health earlier ones left.
pub open spec fn damage_fold(ents: Seq<Ent>, k: int) -> Seq<Ent>
    decreases k,
{
    if k <= 0 {
        ents
    } else {
        damage_apply_one(damage_fold(ents, k - 1), k - 1)
    }
}

proof fn lemma_damage_fold_len(ents: Seq<Ent>, k: int)
    ensures
        damage_fold(ents, k).len() == ents.len(),
    decreases k,
{
    if k > 0 {
        lemma_damage_fold_len(ents, k - 1);
    }
}

/// One damage application never raises any health: the stage only
/// subtracts a non-negative payload.
pub proof fn lemma_damage_never_heals(ents: Seq<Ent>, i: int, j: int)
    requires
        0 <= i < ents.len(),
        0 <= j < ents.len(),
        forall|k: int| 0 <= k < ents.len() ==> #[trigger] wf_ent(ents[k]),
        ents[j].health is Some,
    ensures
        damage_apply_one(ents, i)[j].health is Some,
        (damage_apply_one(ents, i)[j].health->0).0 <= (ents[j].health->0).0,
{
    if damage_applies(ents, i) {
        let e = ents[i];
        let t = (e.target->0).0->0;
        assert(wf_ent(ents[t as int]));
        assert(wf_ent(ents[i]));
    }
}

/// Across a whole damage pass no health ever rises.
pub proof fn lemma_damage_fold_never_heals(ents: Seq<Ent>, k: int, j: int)
    requires
        k <= ents.len(),
        0 <= j < ents.len(),
        forall|m: int| 0 <= m < ents.len() ==> #[trigger] wf_ent(ents[m]),
        ents[j].health is Some,
        forall|m: int| 0 <= m < damage_fold(ents, k).len()
            ==> #[trigger] wf_ent(damage_fold(ents, k)[m]),
    ensures
        damage_fold(ents, k)[j].health is Some,
        (damage_fold(ents, k)[j].health->0).0 <= (ents[j].health->0).0,
    decreases k,
{
    if k > 0 {
        lemma_damage_fold_len(ents, k - 1);
        lemma_damage_fold_wf(ents, k - 1);
        lemma_damage_fold_never_heals(ents, k - 1, j);
        lemma_damage_never_heals(damage_fold(ents, k - 1), k - 1, j);
    }
}

/// The payload of a resolved attack is applied in full: whenever the
/// damage stage reaches a target — a blocked attack with residual damage
/// among them — the target's health falls by exactly the remaining
/// payload, and its last-damaged clock restarts. The one input left out
/// is the machine saturation floor: health already so low that the
/// subtraction would pass `-STAT_LIMIT`.
pub proof fn lemma_residual_damage_applied(ents: Seq<Ent>, i: int)
    requires
        0 <= i < ents.len(),
        damage_applies(ents, i),
        ({
            let t = ((ents[i].target->0).0->0) as int;
            (ents[t].health->0).0 - (ents[i].damage->0).0 >= -STAT_LIMIT
        }),
    ensures
        ({
            let t = ((ents[i].target->0).0->0) as int;
            let after = damage_apply_one(ents, i);
            after[t].health == Some(Health(((ents[t].health->0).0 - (ents[i].damage->0).0) as i64))
                && after[t].last_damage_timer == Some(LastDamageTimer(0))
        }),
{
}

/// Well-formedness survives each damage application.
pub proof fn lemma_damage_apply_one_wf(ents: Seq<Ent>, i: int)
    requires
        0 <= i < ents.len(),
        forall|m: int| 0 <= m < ents.len() ==> #[trigger] wf_ent(ents[m]),
    ensures
        forall|m: int| 0 <= m < damage_apply_one(ents, i).len()
            ==> #[trigger] wf_ent(damage_apply_one(ents, i)[m]),
{
    if damage_applies(ents, i) {
        let e = ents[i];
        let t = (e.target->0).0->0;
        assert(wf_ent(ents[t as int]));
        assert(wf_ent(ents[i]));
        let after = damage_apply_one(ents, i);
        assert forall|m: int| 0 <= m < after.len() implies #[trigger] wf_ent(after[m]) by {
            if m != t {
                assert(after[m] == ents[m]);
                assert(wf_ent(ents[m]));
            }
        }
    }
}

/// Well-formedness survives a whole damage pass.
pub proof fn lemma_damage_fold_wf(ents: Seq<Ent>, k: int)
    requires
        k <= ents.len(),
        forall|m: int| 0 <= m < ents.len() ==> #[trigger] wf_ent(ents[m]),
    ensures
        forall|m: int| 0 <= m < damage_fold(ents, k).len()
            ==> #[trigger] wf_ent(damage_fold(ents, k)[m]),
    decreases k,
{
    if k > 0 {
        lemma_damage_fold_len(ents, k - 1);
        lemma_damage_fold_wf(ents, k - 1);
        lemma_damage_apply_one_wf(damage_fold(ents, k - 1), k - 1);
    }
}

/// Apply every live effect's damage payload to its target, in entity
/// order. Only a miss voids damage; blocked attacks deal their remainder.
pub fn apply_damage(w: &mut World)
    requires
        old(w).wf(),
    ensures
        final(w).wf(),
        final(w)@.len() == old(w)@.len(),
        final(w)@ == damage_fold(old(w)@, old(w)@.len() as int),
        final(w).fx@ == old(w).fx@,
{
    let ghost orig = w@;
    let n: usize = w.ents.len();
    proof {
        lemma_damage_fold_len(orig, n as int);
    }
    let mut i: usize = 0;
    while i < n
        invariant
            n == orig.len(),
            i <= n,
            w@.len() == n,
            w@ == damage_fold(orig, i as int),
            forall|m: int| 0 <= m < n ==> #[trigger] wf_ent(w@[m]),
            w.fx@ == old(w).fx@,
        decreases n - i,
    {
        let ghost pre = w@;
        let e = w.ents[i];
        if e.alive && e.is_effect && e.target.is_some() && e.damage.is_some()
            && e.attack.is_some()
            && !(e.attack.unwrap().result == crate::attack::AttackResult::Miss)
            && e.damage.unwrap().0 > 0 && e.target.unwrap().0.is_some() {
            let t = e.target.unwrap().0.unwrap();
            if t < n && w.ents[t].alive && w.ents[t].health.is_some()
                && w.ents[t].last_damage_timer.is_some() {
                proof {
                    assert(wf_ent(pre[t as int]));
                    assert(wf_ent(pre[i as int]));
                }
                let tgt = w.ents[t];
                let h: i64 = tgt.health.unwrap().0;
                let d: i64 = e.damage.unwrap().0;
                let nh: i64 = if h - d >= -STAT_LIMIT { h - d } else { -STAT_LIMIT };
                let mut upd = tgt;
                upd.health = Some(Health(nh));
                upd.last_damage_timer = Some(LastDamageTimer(0));
                w.ents.set(t, upd);
                proof {
                    assert(damage_applies(pre, i as int));
                    assert(w@ == damage_apply_one(pre, i as int));
                }
            } else {
                proof {
                    assert(!damage_applies(pre, i as int));
                }
            }
        } else {
            proof {
                assert(!damage_applies(pre, i as int));
            }
        }
        proof {
            assert(w@ == damage_apply_one(pre, i as int));
            assert(w@ == damage_fold(orig, i + 1));
        }
        i = i + 1;
    }
}

} // verus!
