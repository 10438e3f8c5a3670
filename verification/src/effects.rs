//! Effects that can be applied to entities, and the effector that spawns
//! them. Effect creation is the sole origin of attack/damage-bearing
//! entities.

use vstd::prelude::*;
use crate::attack::{Attack, AttackResult};
use crate::category;
use crate::category::AgentCategory;
use crate::damage::{Damage, LastDamageTimer};
use crate::evasion::Evasion;
use crate::geom::{Pose, Vec3i, Q16_ONE, wf_pose, in_space};
use crate::lifetime::Lifetime;
use crate::mortal::{Health, MaxHealth};
use crate::projectile::Projectile;
use crate::targets::Target;
use crate::world::{Ent, World, wf_ent};

verus! {

/// Pose of the effect source, snapshotted at spawn time.
#[derive(Clone, Copy, PartialEq, Eq, Structural, Debug)]
pub struct SourceTransform(pub Pose);

/// The location where an effect is applied.
#[derive(Clone, Copy, PartialEq, Eq, Structural, Debug)]
pub struct EffectLocation(pub Vec3i);

/// The root entity credited as the cause of a chain of spawned effects.
#[derive(Clone, Copy, PartialEq, Eq, Structural, Debug)]
pub struct Instigator(pub usize);

/// The effectiveness of an effect, in Q16 fixed point; effects start at one.
#[derive(Clone, Copy, PartialEq, Eq, Structural, Debug)]
pub struct Effectiveness(pub i64);

impl Default for Effectiveness {
    /// Effects start fully effective.
    fn default() -> (e: Effectiveness)
        ensures
            e.0 == Q16_ONE,
    {
        Effectiveness(Q16_ONE)
    }
}

/// The closed set of effects a tool or projectile can produce. Each kind
/// stands for one spawn recipe, resolved by a single function, instead of a
/// stored factory pointer.
#[derive(Clone, Copy, PartialEq, Eq, Structural, Debug)]
pub enum EffectKind {
    /// Frigate beam: accuracy 3, damage 20.
    PulseLaser,
    /// Fighter beam: accuracy 2, damage 2.
    SmallPulseLaser,
    /// Warhead carried by a rocket: accuracy 10, damage 15.
    SmallRocket,
    /// Launches a homing rocket projectile instead of a bare attack.
    RocketLauncher,
}

/// Materialises pending effect instances for its entity.
#[derive(Clone, Copy, PartialEq, Eq, Structural, Debug)]
pub struct Effector {
    /// Which effect the spawn step produces.
    pub kind: EffectKind,
    /// Number of applications to apply this simulation step.
    pub number_to_apply: u16,
}

impl Effector {
    pub fn new(kind: EffectKind) -> (e: Effector)
        ensures
            e == (Effector { kind, number_to_apply: 0 }),
    {
        Effector { kind, number_to_apply: 0 }
    }
}

pub open spec fn wf_effectiveness(e: Effectiveness) -> bool {
    0 <= e.0 <= Q16_ONE
}

pub open spec fn wf_source_transform(s: SourceTransform) -> bool {
    wf_pose(s.0)
}

pub open spec fn wf_effect_location(l: EffectLocation) -> bool {
    in_space(l.0)
}

/// The entity each effect kind produces, before the effector attaches the
/// shared fields. The three attack kinds make a transient effect instance;
/// the launcher makes a homing rocket that carries its own warhead
/// effector, eight seconds of flight time, and a sliver of health.
pub open spec fn effect_recipe_spec(kind: EffectKind) -> Ent {
    match kind {
        EffectKind::PulseLaser => Ent {
            attack: Some(Attack { accuracy: 3, result: AttackResult::Hit }),
            damage: Some(Damage(20)),
            is_effect: true,
            ..Ent::empty_spec()
        },
        EffectKind::SmallPulseLaser => Ent {
            attack: Some(Attack { accuracy: 2, result: AttackResult::Hit }),
            damage: Some(Damage(2)),
            is_effect: true,
            ..Ent::empty_spec()
        },
        EffectKind::SmallRocket => Ent {
            attack: Some(Attack { accuracy: 10, result: AttackResult::Hit }),
            damage: Some(Damage(15)),
            is_effect: true,
            ..Ent::empty_spec()
        },
        EffectKind::RocketLauncher => Ent {
            projectile: Some(Projectile { reached_target: false, initialised: false }),
            homing: true,
            health: Some(Health(5)),
            max_health: Some(MaxHealth(5)),
            last_damage_timer: Some(LastDamageTimer(10_000)),
            category: Some(AgentCategory(category::MISSILE)),
            mortal: true,
            lifetime: Some(Lifetime { remaining: 8_000 }),
            effector: Some(Effector { kind: EffectKind::SmallRocket, number_to_apply: 0 }),
            evasion: Some(Evasion { base: 2, movement_bonus: 0, total: 0 }),
            turn_speed: Some(0i64),
            max_turn_speed: Some(10i64),
            speed: Some(0i64),
            destination: Some(Vec3i { x: 0, y: 0, z: 0 }),
            ..Ent::empty_spec()
        },
    }
}

/// Build the entity for one effect kind.
pub fn effect_recipe(kind: EffectKind) -> (e: Ent)
    ensures
        e == effect_recipe_spec(kind),
        wf_ent(e),
{
    let mut e = Ent::empty();
    match kind {
        EffectKind::PulseLaser => {
            e.attack = Some(Attack { accuracy: 3, result: AttackResult::Hit });
            e.damage = Some(Damage(20));
            e.is_effect = true;
        },
        EffectKind::SmallPulseLaser => {
            e.attack = Some(Attack { accuracy: 2, result: AttackResult::Hit });
            e.damage = Some(Damage(2));
            e.is_effect = true;
        },
        EffectKind::SmallRocket => {
            e.attack = Some(Attack { accuracy: 10, result: AttackResult::Hit });
            e.damage = Some(Damage(15));
            e.is_effect = true;
        },
        EffectKind::RocketLauncher => {
            e.projectile = Some(Projectile { reached_target: false, initialised: false });
            e.homing = true;
            e.health = Some(Health(5));
            e.max_health = Some(MaxHealth(5));
            e.last_damage_timer = Some(LastDamageTimer(10_000));
            e.category = Some(AgentCategory(category::MISSILE));
            e.mortal = true;
            e.lifetime = Some(Lifetime { remaining: 8_000 });
            e.effector = Some(Effector { kind: EffectKind::SmallRocket, number_to_apply: 0 });
            e.evasion = Some(Evasion { base: 2, movement_bonus: 0, total: 0 });
            e.turn_speed = Some(0);
            e.max_turn_speed = Some(10);
            e.speed = Some(0);
            e.destination = Some(Vec3i { x: 0, y: 0, z: 0 });
        },
    }
    e
}

/// Whether entity `i` spawns effects this tick: it is placed, holds a
/// present target and a pending effector count.
pub open spec fn effector_active(ents: Seq<Ent>, i: int) -> bool {
    let e = ents[i];
    0 <= i < ents.len() && e.alive && e.target is Some && (e.target->0).0 is Some
        && e.pose is Some && e.effector is Some && (e.effector->0).number_to_apply > 0
}

/// The one effect instance effector `i` spawns: the recipe entity carrying
/// the resolved target, the root instigator (an entity that was itself
/// instigated back-propagates its own root, otherwise it is the root), a
/// snapshot of the spawner's pose, default effectiveness, and — when the
/// target currently resolves — the target's position for effect placement.
pub open spec fn effect_instance(ents: Seq<Ent>, i: int) -> Ent {
    let e = ents[i];
    let te = (e.target->0).0->0;
    let root = match e.instigator {
        Some(inst) => inst.0,
        None => i as usize,
    };
    let base = effect_recipe_spec((e.effector->0).kind);
    let located = if te < ents.len() && ents[te as int].alive && ents[te as int].pose is Some {
        Ent {
            effect_location: Some(EffectLocation((ents[te as int].pose->0).position)),
            ..base
        }
    } else {
        base
    };
    Ent {
        target: Some(Target(Some(te))),
        instigator: Some(Instigator(root)),
        source_transform: Some(SourceTransform(e.pose->0)),
        effectiveness: Some(Effectiveness(Q16_ONE)),
        ..located
    }
}

/// What the spawn stage leaves in slot `i`: the pending count is per-tick
/// state, so every live effector's count falls to zero — also when nothing
/// could be spawned because the target slot is empty or the pose is
/// missing. Everything else is untouched.
pub open spec fn clear_effector_step(ents: Seq<Ent>, i: int) -> Ent {
    let e = ents[i];
    if 0 <= i < ents.len() && e.alive && e.effector is Some
        && (e.effector->0).number_to_apply > 0 {
        Ent {
            effector: Some(Effector { kind: (e.effector->0).kind, number_to_apply: 0u16 }),
            ..e
        }
    } else {
        e
    }
}

/// The block of identical instances effector `i` appends.
pub open spec fn spawn_block(ents: Seq<Ent>, i: int) -> Seq<Ent> {
    if effector_active(ents, i) {
        Seq::new(((ents[i].effector->0).number_to_apply) as nat, |k: int| effect_instance(ents, i))
    } else {
        Seq::<Ent>::empty()
    }
}

/// Every instance appended by the first `k` effectors, in entity order.
pub open spec fn spawned_blocks(ents: Seq<Ent>, k: int) -> Seq<Ent>
    decreases k,
{
    if k <= 0 {
        Seq::<Ent>::empty()
    } else {
        spawned_blocks(ents, k - 1) + spawn_block(ents, k - 1)
    }
}

/// Materialise every pending effect application. This is the sole creation
/// point of attack- and damage-bearing entities: each active effector
/// appends its instances at the end of the world, where the resolution
/// chain of this same tick finds them, and its pending count falls to
/// zero.
#[verifier::rlimit(100)]
pub fn apply_effects(w: &mut World)
    requires
        old(w).wf(),
    ensures
        final(w).wf(),
        final(w)@.len() == old(w)@.len() + spawned_blocks(old(w)@, old(w)@.len() as int).len(),
        forall|j: int| 0 <= j < old(w)@.len() ==> final(w)@[j] == clear_effector_step(old(w)@, j),
        final(w)@.subrange(old(w)@.len() as int, final(w)@.len() as int)
            == spawned_blocks(old(w)@, old(w)@.len() as int),
        final(w).fx@ == old(w).fx@,
{
    let ghost orig = w@;
    let n: usize = w.ents.len();
    let mut i: usize = 0;
    while i < n
        invariant
            n == orig.len(),
            i <= n,
            w@.len() == n + spawned_blocks(orig, i as int).len(),
            forall|j: int| 0 <= j < i ==> w@[j] == clear_effector_step(orig, j),
            forall|j: int| i <= j < n ==> w@[j] == orig[j],
            w@.subrange(n as int, w@.len() as int) == spawned_blocks(orig, i as int),
            forall|m: int| 0 <= m < w@.len() ==> #[trigger] wf_ent(w@[m]),
            w.fx@ == old(w).fx@,
        decreases n - i,
    {
        let ghost pre = w@;
        let e = w.ents[i];
        proof {
            assert(wf_ent(w@[i as int]));
            assert(e == orig[i as int]);
        }
        if e.alive && e.effector.is_some() && e.effector.unwrap().number_to_apply > 0 {
            let eff = e.effector.unwrap();
            // the pending count is per-tick state: it falls to zero even
            // when no instance can be spawned this pass
            let mut upd = e;
            upd.effector = Some(Effector { kind: eff.kind, number_to_apply: 0 });
            w.ents.set(i, upd);
            proof {
                assert(wf_ent(upd));
                assert(w@[i as int] == clear_effector_step(orig, i as int));
            }
            if !(e.target.is_some() && e.target.unwrap().0.is_some() && e.pose.is_some()) {
                proof {
                    assert(!effector_active(orig, i as int));
                    assert(spawned_blocks(orig, i + 1) =~= spawned_blocks(orig, i as int));
                }
                i = i + 1;
                continue;
            }
            proof {
                assert(effector_active(orig, i as int));
            }
            let te = e.target.unwrap().0.unwrap();
            let root: usize = match e.instigator {
                Some(inst) => inst.0,
                None => i,
            };
            let base = effect_recipe(eff.kind);
            let mut inst = base;
            if te < n && w.ents[te].alive && w.ents[te].pose.is_some() {
                proof {
                    if (te as int) < (i as int) || te == i {
                        assert(w@[te as int] == clear_effector_step(orig, te as int));
                    } else {
                        assert(w@[te as int] == orig[te as int]);
                    }
                    assert(w@[te as int].alive == orig[te as int].alive);
                    assert(w@[te as int].pose == orig[te as int].pose);
                    assert(wf_ent(w@[te as int]));
                }
                inst.effect_location = Some(EffectLocation(w.ents[te].pose.unwrap().position));
            }
            inst.target = Some(Target(Some(te)));
            inst.instigator = Some(Instigator(root));
            inst.source_transform = Some(SourceTransform(e.pose.unwrap()));
            inst.effectiveness = Some(Effectiveness(Q16_ONE));
            proof {
                assert(inst == effect_instance(orig, i as int));
                assert(wf_ent(inst));
            }
            let count: u16 = eff.number_to_apply;
            let mut c: u16 = 0;
            proof {
                assert(w@.subrange(n as int, w@.len() as int)
                    =~= spawned_blocks(orig, i as int) + Seq::new(0nat, |k: int| effect_instance(orig, i as int)));
            }
            while c < count
                invariant
                    c <= count,
                    n == orig.len(),
                    i < n,
                    w@.len() == n + spawned_blocks(orig, i as int).len() + c as int,
                    forall|j: int| 0 <= j < i ==> w@[j] == clear_effector_step(orig, j),
                    w@[i as int] == clear_effector_step(orig, i as int),
                    effector_active(orig, i as int),
                    forall|j: int| i < j < n ==> w@[j] == orig[j],
                    w@.subrange(n as int, w@.len() as int) == spawned_blocks(orig, i as int)
                        + Seq::new(c as nat, |k: int| effect_instance(orig, i as int)),
                    inst == effect_instance(orig, i as int),
                    wf_ent(inst),
                    forall|m: int| 0 <= m < w@.len() ==> #[trigger] wf_ent(w@[m]),
                    w.fx@ == old(w).fx@,
                decreases count - c,
            {
                let ghost before = w@;
                w.ents.push(inst);
                proof {
                    assert(w@ == before.push(inst));
                    assert(w@.subrange(n as int, w@.len() as int)
                        =~= before.subrange(n as int, before.len() as int).push(inst));
                    assert((spawned_blocks(orig, i as int)
                        + Seq::new(c as nat, |k: int| effect_instance(orig, i as int))).push(inst)
                        =~= spawned_blocks(orig, i as int)
                        + Seq::new((c + 1) as nat, |k: int| effect_instance(orig, i as int)));
                }
                c = c + 1;
            }
            proof {
                assert(spawn_block(orig, i as int)
                    =~= Seq::new(count as nat, |k: int| effect_instance(orig, i as int)));
                assert(w@.subrange(n as int, w@.len() as int)
                    =~= spawned_blocks(orig, i as int) + spawn_block(orig, i as int));
                assert(w@.subrange(n as int, w@.len() as int) == spawned_blocks(orig, i + 1));
            }
        } else {
            proof {
                assert(!effector_active(orig, i as int));
                assert(w@[i as int] == clear_effector_step(orig, i as int));
                assert(spawned_blocks(orig, i + 1) =~= spawned_blocks(orig, i as int));
            }
        }
        i = i + 1;
    }
}

/// What the cleanup of transient effects leaves in one entity: every
/// effect instance is removed, unconditionally, after one resolution pass.
pub open spec fn remove_effect_step(e: Ent) -> Ent {
    if e.alive && e.is_effect {
        Ent { alive: false, ..e }
    } else {
        e
    }
}

/// Delete old effect entities.
pub fn remove_old_effects(w: &mut World)
    requires
        old(w).wf(),
    ensures
        final(w).wf(),
        final(w)@.len() == old(w)@.len(),
        forall|i: int| 0 <= i < final(w)@.len() ==> final(w)@[i] == remove_effect_step(old(w)@[i]),
        final(w).fx@ == old(w).fx@,
{
    let ghost orig = w@;
    let n: usize = w.ents.len();
    let mut out: Vec<Ent> = Vec::new();
    let mut i: usize = 0;
    while i < n
        invariant
            w@ == orig,
            w.wf(),
            n == orig.len(),
            i <= n,
            out@.len() == i,
            forall|j: int| 0 <= j < i ==> out@[j] == remove_effect_step(orig[j]),
            forall|j: int| 0 <= j < i ==> #[trigger] wf_ent(out@[j]),
        decreases n - i,
    {
        let e = w.ents[i];
        let mut upd = e;
        proof {
            assert(wf_ent(w@[i as int]));
        }
        if e.alive && e.is_effect {
            upd.alive = false;
        }
        proof {
            assert(wf_ent(upd));
            assert(upd == remove_effect_step(orig[i as int]));
        }
        out.push(upd);
        i = i + 1;
    }
    w.ents = out;
}

} // verus!
