//! The fixed-tick schedule: every combat stage, in its declared order.
//!
//! Each `*_pass` function states one stage over the whole world, and
//! `tick_spec` states the whole tick as their composition in strict stage
//! order. The two random stages — the hit rolls and the death-throes
//! rolls — are parameters of that composition: `tick`'s contract says the
//! world it leaves equals the composition for *some* in-range draws,
//! exactly as the two stages' own contracts do.

use vstd::prelude::*;
use crate::aggression::{aggro_source_step, retarget_step};
use crate::damage::damage_fold;
use crate::effects::{clear_effector_step, remove_effect_step, spawned_blocks};
use crate::evasion::{evasion_rating_step, miss_roll_applies, miss_step};
use crate::geom::TIME_LIMIT;
use crate::lifetime::lifetime_step;
use crate::mortal::{death_roll_spec, dispose_step, dying_trigger, update_dieing_step};
use crate::projectile::{despawn_projectile_step, homing_step, initialise_step,
    projectile_trigger_step, reached_step};
use crate::shields::{shield_events_fold, shield_fold};
use crate::targeting::find_step;
use crate::targets::inherit_step;
use crate::tools::{activate_step, cooldown_step, fire_step};
use crate::world::{Ent, FxEvent, World};

verus! {

pub open spec fn aggro_pass(ents: Seq<Ent>) -> Seq<Ent> {
    Seq::new(ents.len(), |i: int| aggro_source_step(ents, i))
}

pub open spec fn retarget_pass(ents: Seq<Ent>, dt: i64) -> Seq<Ent> {
    Seq::new(ents.len(), |i: int| retarget_step(ents[i], dt))
}

pub open spec fn targeting_pass(ents: Seq<Ent>) -> Seq<Ent> {
    Seq::new(ents.len(), |i: int| find_step(ents, i))
}

pub open spec fn inherit_pass(ents: Seq<Ent>) -> Seq<Ent> {
    Seq::new(ents.len(), |i: int| inherit_step(ents, i))
}

pub open spec fn cooldown_pass(ents: Seq<Ent>, dt: i64) -> Seq<Ent> {
    Seq::new(ents.len(), |i: int| cooldown_step(ents[i], dt))
}

pub open spec fn fire_pass(ents: Seq<Ent>) -> Seq<Ent> {
    Seq::new(ents.len(), |i: int| fire_step(ents, i))
}

pub open spec fn activate_pass(ents: Seq<Ent>) -> Seq<Ent> {
    Seq::new(ents.len(), |i: int| activate_step(ents[i]))
}

pub open spec fn initialise_pass(ents: Seq<Ent>) -> Seq<Ent> {
    Seq::new(ents.len(), |i: int| initialise_step(ents, i))
}

pub open spec fn impact_pass(ents: Seq<Ent>) -> Seq<Ent> {
    Seq::new(ents.len(), |i: int| reached_step(ents, i))
}

pub open spec fn homing_pass(ents: Seq<Ent>) -> Seq<Ent> {
    Seq::new(ents.len(), |i: int| homing_step(ents, i))
}

pub open spec fn trigger_pass(ents: Seq<Ent>) -> Seq<Ent> {
    Seq::new(ents.len(), |i: int| projectile_trigger_step(ents[i]))
}

/// The effect-spawning pass: pending counts cleared, instances appended.
pub open spec fn spawn_pass(ents: Seq<Ent>) -> Seq<Ent> {
    Seq::new(ents.len(), |i: int| clear_effector_step(ents, i)) + spawned_blocks(
        ents,
        ents.len() as int,
    )
}

pub open spec fn rating_pass(ents: Seq<Ent>) -> Seq<Ent> {
    Seq::new(ents.len(), |i: int| evasion_rating_step(ents[i]))
}

/// The hit-roll pass for one fixed sequence of Q16 draws.
pub open spec fn miss_pass(ents: Seq<Ent>, draws: Seq<u64>) -> Seq<Ent> {
    Seq::new(
        ents.len(),
        |i: int| if miss_roll_applies(ents, i) {
            miss_step(ents, i, draws[i])
        } else {
            ents[i]
        },
    )
}

pub open spec fn despawn_pass(ents: Seq<Ent>) -> Seq<Ent> {
    Seq::new(ents.len(), |i: int| despawn_projectile_step(ents[i]))
}

pub open spec fn dieing_pass(ents: Seq<Ent>, dt: i64) -> Seq<Ent> {
    Seq::new(ents.len(), |i: int| update_dieing_step(ents[i], dt))
}

/// The death-throes pass for one fixed sequence of (bucket, delay) rolls.
pub open spec fn death_pass(ents: Seq<Ent>, rolls: Seq<(u64, u64)>) -> Seq<Ent> {
    Seq::new(
        ents.len(),
        |i: int| if dying_trigger(ents[i]) {
            Ent { dieing: Some(death_roll_spec(rolls[i].0, rolls[i].1)), ..ents[i] }
        } else {
            ents[i]
        },
    )
}

pub open spec fn lifetime_pass(ents: Seq<Ent>, dt: i64) -> Seq<Ent> {
    Seq::new(ents.len(), |i: int| lifetime_step(ents[i], dt))
}

pub open spec fn sweep_pass(ents: Seq<Ent>) -> Seq<Ent> {
    Seq::new(ents.len(), |i: int| remove_effect_step(ents[i]))
}

pub open spec fn dispose_pass(ents: Seq<Ent>) -> Seq<Ent> {
    Seq::new(ents.len(), |i: int| dispose_step(ents[i]))
}

/// One full tick as a function of the pre-state, the tick delta, and the
/// draws the two random stages consumed: every stage of the strict order,
/// composed. This is the reference the `tick` contract holds its body to.
pub open spec fn tick_spec(
    ents: Seq<Ent>,
    fx: Seq<FxEvent>,
    dt: i64,
    hit_draws: Seq<u64>,
    death_rolls: Seq<(u64, u64)>,
) -> (Seq<Ent>, Seq<FxEvent>) {
    let w1 = aggro_pass(ents);
    let w2 = retarget_pass(w1, dt);
    let w3 = targeting_pass(w2);
    let w4 = inherit_pass(w3);
    let w5 = cooldown_pass(w4, dt);
    let w6 = fire_pass(w5);
    let w7 = activate_pass(w6);
    let w8 = initialise_pass(w7);
    let w9 = impact_pass(w8);
    let w10 = homing_pass(w9);
    let w11 = trigger_pass(w10);
    let w12 = spawn_pass(w11);
    let w13 = rating_pass(w12);
    let w14 = miss_pass(w13, hit_draws);
    let w15 = shield_fold(w14, w14.len() as int);
    let fx15 = fx + shield_events_fold(w14, w14.len() as int);
    let w16 = damage_fold(w15, w15.len() as int);
    let w17 = despawn_pass(w16);
    let w18 = dieing_pass(w17, dt);
    let w19 = death_pass(w18, death_rolls);
    let w20 = lifetime_pass(w19, dt);
    let w21 = sweep_pass(w20);
    let w22 = dispose_pass(w21);
    (w22, fx15)
}

/// The post-state of a tick: the `tick_spec` composition for some in-range
/// draws — one Q16 hit draw and one (bucket, delay) death roll per slot of
/// the post-tick world.
pub open spec fn tick_rel(
    pre: Seq<Ent>,
    pre_fx: Seq<FxEvent>,
    dt: i64,
    post: Seq<Ent>,
    post_fx: Seq<FxEvent>,
) -> bool {
    exists|hit_draws: Seq<u64>, death_rolls: Seq<(u64, u64)>|
        #![trigger tick_spec(pre, pre_fx, dt, hit_draws, death_rolls)]
        {
            &&& hit_draws.len() == post.len()
            &&& death_rolls.len() == post.len()
            &&& forall|i: int| 0 <= i < hit_draws.len() ==> #[trigger] hit_draws[i] < 65536
            &&& forall|i: int|
                0 <= i < death_rolls.len() ==> (#[trigger] death_rolls[i]).0 < 10 && 1000
                    <= death_rolls[i].1 < 4000
            &&& tick_spec(pre, pre_fx, dt, hit_draws, death_rolls) == (post, post_fx)
        }
}

/// Run one full combat tick over the world, in strict stage order:
/// aggression-source update, retarget countdown, targeting, target
/// inheritance, cooldowns, firing decision, effector activation, the
/// projectile lifecycle (initialisation, impact test, homing update,
/// effect trigger), effect spawning, the resolution chain (evasion ratings,
/// hit rolls, shield absorption, damage), projectile cleanup, the
/// mortality machine, lifetimes, and finally the disposal passes. The
/// world it leaves is the `tick_spec` composition of exactly these stages,
/// for some in-range random draws; all state mutated here is committed
/// before the next tick reads anything.
#[verifier::rlimit(100)]
pub fn tick(w: &mut World, dt: i64)
    requires
        old(w).wf(),
        0 <= dt <= TIME_LIMIT,
    ensures
        final(w).wf(),
        final(w)@.len() >= old(w)@.len(),
        final(w).fx@.len() >= old(w).fx@.len(),
        tick_rel(old(w)@, old(w).fx@, dt, final(w)@, final(w).fx@),
{
    let ghost w0 = w@;
    let ghost fx0 = w.fx@;
    crate::aggression::update_aggression_source(w);
    proof {
        assert(w@ =~= aggro_pass(w0));
    }
    let ghost w1 = w@;
    crate::aggression::do_retargetting(w, dt);
    proof {
        assert(w@ =~= retarget_pass(w1, dt));
    }
    let ghost w2 = w@;
    crate::targeting::find_targets(w);
    proof {
        assert(w@ =~= targeting_pass(w2));
    }
    let ghost w3 = w@;
    crate::targets::copy_targets_from_parents(w);
    proof {
        assert(w@ =~= inherit_pass(w3));
    }
    let ghost w4 = w@;
    crate::tools::update_cooldowns(w, dt);
    proof {
        assert(w@ =~= cooldown_pass(w4, dt));
    }
    let ghost w5 = w@;
    crate::tools::fire_targetted_tools(w);
    proof {
        assert(w@ =~= fire_pass(w5));
    }
    let ghost w6 = w@;
    crate::tools::tools_activate_effectors(w);
    proof {
        assert(w@ =~= activate_pass(w6));
    }
    let ghost w7 = w@;
    crate::projectile::initialise_projectiles(w);
    proof {
        assert(w@ =~= initialise_pass(w7));
    }
    let ghost w8 = w@;
    crate::projectile::check_projectiles_reached_target(w);
    proof {
        assert(w@ =~= impact_pass(w8));
    }
    let ghost w9 = w@;
    crate::projectile::update_homing_projectile_position_target(w);
    proof {
        assert(w@ =~= homing_pass(w9));
    }
    let ghost w10 = w@;
    crate::projectile::projectiles_apply_effects(w);
    proof {
        assert(w@ =~= trigger_pass(w10));
    }
    let ghost w11 = w@;
    crate::effects::apply_effects(w);
    proof {
        assert forall|j: int| 0 <= j < w@.len() implies w@[j] == spawn_pass(w11)[j] by {
            if j >= w11.len() {
                assert(w@[j] == w@.subrange(w11.len() as int, w@.len() as int)[j - w11.len()]);
            }
        }
        assert(w@ =~= spawn_pass(w11));
    }
    let ghost w12 = w@;
    crate::evasion::calculate_evasion_ratings(w);
    proof {
        assert(w@ =~= rating_pass(w12));
    }
    let ghost w13 = w@;
    crate::evasion::determine_missed_attacks(w);
    let ghost w14 = w@;
    let ghost hit_draws = Seq::new(
        w13.len(),
        |i: int| if miss_roll_applies(w13, i) {
            choose|d: u64| d < 65536 && w14[i] == #[trigger] miss_step(w13, i, d)
        } else {
            0u64
        },
    );
    proof {
        assert forall|i: int| 0 <= i < hit_draws.len() implies #[trigger] hit_draws[i]
            < 65536 by {
            if miss_roll_applies(w13, i) {
                assert(exists|d: u64| d < 65536 && w14[i] == #[trigger] miss_step(w13, i, d));
            }
        }
        assert forall|i: int| 0 <= i < w14.len() implies w14[i] == miss_pass(w13, hit_draws)[
            i
        ] by {
            if miss_roll_applies(w13, i) {
                assert(exists|d: u64| d < 65536 && w14[i] == #[trigger] miss_step(w13, i, d));
            }
        }
        assert(w14 =~= miss_pass(w13, hit_draws));
    }
    crate::shields::shield_absorb_damage(w);
    proof {
        assert(w@ == shield_fold(w14, w14.len() as int));
        assert(w.fx@ == fx0 + shield_events_fold(w14, w14.len() as int));
    }
    let ghost w15 = w@;
    crate::damage::apply_damage(w);
    proof {
        assert(w@ == damage_fold(w15, w15.len() as int));
    }
    let ghost w16 = w@;
    crate::projectile::despawn_projectiles(w);
    proof {
        assert(w@ =~= despawn_pass(w16));
    }
    let ghost w17 = w@;
    crate::mortal::update_dieing(w, dt);
    proof {
        assert(w@ =~= dieing_pass(w17, dt));
    }
    let ghost w18 = w@;
    crate::mortal::check_for_dieing_entities(w);
    let ghost w19 = w@;
    let ghost death_rolls = Seq::new(
        w18.len(),
        |i: int| if dying_trigger(w18[i]) {
            choose|b: u64, d: u64|
                b < 10 && 1000 <= d < 4000 && w19[i] == (Ent {
                    dieing: Some(#[trigger] death_roll_spec(b, d)),
                    ..w18[i]
                })
        } else {
            (0u64, 1000u64)
        },
    );
    proof {
        assert forall|i: int|
            0 <= i < death_rolls.len() implies (#[trigger] death_rolls[i]).0 < 10 && 1000
            <= death_rolls[i].1 < 4000 by {
            if dying_trigger(w18[i]) {
                assert(exists|b: u64, d: u64|
                    b < 10 && 1000 <= d < 4000 && w19[i] == (Ent {
                        dieing: Some(#[trigger] death_roll_spec(b, d)),
                        ..w18[i]
                    }));
            }
        }
        assert forall|i: int| 0 <= i < w19.len() implies w19[i] == death_pass(w18, death_rolls)[
            i
        ] by {
            if dying_trigger(w18[i]) {
                assert(exists|b: u64, d: u64|
                    b < 10 && 1000 <= d < 4000 && w19[i] == (Ent {
                        dieing: Some(#[trigger] death_roll_spec(b, d)),
                        ..w18[i]
                    }));
            }
        }
        assert(w19 =~= death_pass(w18, death_rolls));
    }
    crate::lifetime::update_lifetimes(w, dt);
    proof {
        assert(w@ =~= lifetime_pass(w19, dt));
    }
    let ghost w20 = w@;
    crate::effects::remove_old_effects(w);
    proof {
        assert(w@ =~= sweep_pass(w20));
    }
    let ghost w21 = w@;
    crate::mortal::dispose_dieing(w);
    proof {
        assert(w@ =~= dispose_pass(w21));
        assert(tick_spec(w0, fx0, dt, hit_draws, death_rolls) == (w@, w.fx@));
        assert(hit_draws.len() == w@.len());
        assert(death_rolls.len() == w@.len());
        assert(tick_rel(w0, fx0, dt, w@, w.fx@));
    }
}

/// Hand this tick's visual events to the presentation layer, leaving the
/// queue empty for the next tick.
pub fn drain_fx(w: &mut World) -> (r: Vec<FxEvent>)
    requires
        old(w).wf(),
    ensures
        final(w).wf(),
        r@ == old(w).fx@,
        final(w).fx@ == Seq::<FxEvent>::empty(),
        final(w)@ == old(w)@,
{
    let mut out: Vec<FxEvent> = Vec::new();
    core::mem::swap(&mut w.fx, &mut out);
    out
}

} // verus!
