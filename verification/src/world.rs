//! The combat world: a flat store of entities addressed by index.
//!
//! Entity handles are weak: a despawned entity keeps its slot but is no
//! longer alive, so stale references simply fail to resolve. The host
//! engine owns everything else (rendering, movement integration, input) and
//! exchanges plain values with this store once per fixed tick.

use vstd::prelude::*;
use crate::aggression::{AggroLocation, AggroRadius, GuardBehavior, RetargetBehavior,
    wf_aggro_location, wf_aggro_radius, wf_retarget};
use crate::attack::{Attack, wf_attack};
use crate::category::{AgentCategory, TargetingOrders};
use crate::damage::{Damage, LastDamageTimer, wf_damage, wf_last_damage_timer};
use crate::effects::{EffectLocation, Effectiveness, Effector, Instigator, SourceTransform,
    wf_effect_location, wf_effectiveness, wf_source_transform};
use crate::evasion::{Evasion, wf_evasion};
use crate::geom::{Pose, Vec3i, STAT_LIMIT, wf_pose, in_space};
use crate::lifetime::{Lifetime, wf_lifetime};
use crate::mortal::{Dieing, Health, MaxHealth, wf_dieing, wf_health, wf_max_health};
use crate::projectile::{CircularHitBox, Projectile, wf_hitbox};
use crate::shields::{Shield, wf_shield};
use crate::targets::Target;
use crate::tools::{Cooldown, TargettedTool, wf_cooldown, wf_tool};

verus! {

/// The team an entity is assigned to.
#[derive(Clone, Copy, PartialEq, Eq, Structural, Debug)]
pub struct Team(pub i32);

/// A fire-and-forget request to the presentation layer; this subsystem
/// never waits for or reads back a result.
#[derive(Clone, Copy, PartialEq, Eq, Structural, Debug)]
pub enum FxEvent {
    /// A shield soaked damage: where, and how wide the bubble is.
    ShieldImpact { location: Vec3i, radius: i64 },
}

/// One entity: a slot of optional components. Absent components simply make
/// the entity invisible to the stages that need them.
#[derive(Clone, Copy, PartialEq, Debug)]
pub struct Ent {
    /// False once despawned; dead slots never resolve.
    pub alive: bool,
    /// Position and facing, provided by the host's movement layer.
    pub pose: Option<Pose>,
    pub team: Option<Team>,
    pub category: Option<AgentCategory>,
    pub health: Option<Health>,
    pub max_health: Option<MaxHealth>,
    pub aggro_location: Option<AggroLocation>,
    pub aggro_radius: Option<AggroRadius>,
    pub orders: Option<TargetingOrders>,
    /// The target slot; `Some(Target(None))` is an empty but present slot.
    pub target: Option<Target>,
    pub guard: Option<GuardBehavior>,
    pub retarget: Option<RetargetBehavior>,
    /// Marks that this entity copies the target chosen by its parent.
    pub inherit_target: bool,
    pub parent: Option<usize>,
    pub cooldown: Option<Cooldown>,
    pub tool: Option<TargettedTool>,
    pub effector: Option<Effector>,
    pub instigator: Option<Instigator>,
    pub source_transform: Option<SourceTransform>,
    pub effect_location: Option<EffectLocation>,
    pub effectiveness: Option<Effectiveness>,
    pub attack: Option<Attack>,
    pub damage: Option<Damage>,
    pub last_damage_timer: Option<LastDamageTimer>,
    /// Marks a transient effect instance, removed after one resolution pass.
    pub is_effect: bool,
    pub projectile: Option<Projectile>,
    pub homing: bool,
    pub hitbox: Option<CircularHitBox>,
    pub shield: Option<Shield>,
    pub evasion: Option<Evasion>,
    /// Current turn rate, from the movement layer.
    pub turn_speed: Option<i64>,
    pub max_turn_speed: Option<i64>,
    pub speed: Option<i64>,
    /// Steering destination; absent when the entity has lost steering.
    pub destination: Option<Vec3i>,
    /// Marks that this entity can die.
    pub mortal: bool,
    pub dieing: Option<Dieing>,
    pub lifetime: Option<Lifetime>,
    /// Marks that the lifetime ran out; swept by the next cleanup pass.
    pub expired: bool,
}

pub open spec fn wf_scalar(s: Option<i64>) -> bool {
    match s {
        Some(v) => -STAT_LIMIT <= v <= STAT_LIMIT,
        None => true,
    }
}

/// Well-formedness of one entity: every present component is in bounds.
pub open spec fn wf_ent(e: Ent) -> bool {
    &&& match e.pose { Some(p) => wf_pose(p), None => true }
    &&& match e.health { Some(h) => wf_health(h), None => true }
    &&& match e.max_health { Some(m) => wf_max_health(m), None => true }
    &&& match e.aggro_location { Some(l) => wf_aggro_location(l), None => true }
    &&& match e.aggro_radius { Some(r) => wf_aggro_radius(r), None => true }
    &&& match e.retarget { Some(r) => wf_retarget(r), None => true }
    &&& match e.cooldown { Some(c) => wf_cooldown(c), None => true }
    &&& match e.tool { Some(t) => wf_tool(t), None => true }
    &&& match e.source_transform { Some(s) => wf_source_transform(s), None => true }
    &&& match e.effect_location { Some(l) => wf_effect_location(l), None => true }
    &&& match e.effectiveness { Some(v) => wf_effectiveness(v), None => true }
    &&& match e.attack { Some(a) => wf_attack(a), None => true }
    &&& match e.damage { Some(d) => wf_damage(d), None => true }
    &&& match e.last_damage_timer { Some(t) => wf_last_damage_timer(t), None => true }
    &&& match e.hitbox { Some(h) => wf_hitbox(h), None => true }
    &&& match e.shield { Some(s) => wf_shield(s), None => true }
    &&& match e.evasion { Some(v) => wf_evasion(v), None => true }
    &&& match e.dieing { Some(d) => wf_dieing(d), None => true }
    &&& match e.lifetime { Some(l) => wf_lifetime(l), None => true }
    &&& wf_scalar(e.turn_speed)
    &&& wf_scalar(e.max_turn_speed)
    &&& wf_scalar(e.speed)
    &&& match e.speed { Some(s) => s >= 0, None => true }
    &&& match e.destination { Some(d) => in_space(d), None => true }
}

impl Ent {
    /// A live entity with no components at all; callers fill in what the
    /// entity needs.
    pub fn empty() -> (e: Ent)
        ensures
            e == Ent::empty_spec(),
            wf_ent(e),
    {
        Ent {
            alive: true,
            pose: None,
            team: None,
            category: None,
            health: None,
            max_health: None,
            aggro_location: None,
            aggro_radius: None,
            orders: None,
            target: None,
            guard: None,
            retarget: None,
            inherit_target: false,
            parent: None,
            cooldown: None,
            tool: None,
            effector: None,
            instigator: None,
            source_transform: None,
            effect_location: None,
            effectiveness: None,
            attack: None,
            damage: None,
            last_damage_timer: None,
            is_effect: false,
            projectile: None,
            homing: false,
            hitbox: None,
            shield: None,
            evasion: None,
            turn_speed: None,
            max_turn_speed: None,
            speed: None,
            destination: None,
            mortal: false,
            dieing: None,
            lifetime: None,
            expired: false,
        }
    }

    pub open spec fn empty_spec() -> Ent {
        Ent {
            alive: true,
            pose: None,
            team: None,
            category: None,
            health: None,
            max_health: None,
            aggro_location: None,
            aggro_radius: None,
            orders: None,
            target: None,
            guard: None,
            retarget: None,
            inherit_target: false,
            parent: None,
            cooldown: None,
            tool: None,
            effector: None,
            instigator: None,
            source_transform: None,
            effect_location: None,
            effectiveness: None,
            attack: None,
            damage: None,
            last_damage_timer: None,
            is_effect: false,
            projectile: None,
            homing: false,
            hitbox: None,
            shield: None,
            evasion: None,
            turn_speed: None,
            max_turn_speed: None,
            speed: None,
            destination: None,
            mortal: false,
            dieing: None,
            lifetime: None,
            expired: false,
        }
    }
}

/// The position a target reference resolves to, if the referenced entity is
/// still alive and placed; everything downstream treats `None` as "no
/// target" and degrades gracefully.
pub open spec fn resolved_position(ents: Seq<Ent>, slot: Option<usize>) -> Option<Vec3i> {
    match slot {
        Some(id) => {
            if id < ents.len() && ents[id as int].alive && ents[id as int].pose is Some {
                Some(ents[id as int].pose->0.position)
            } else {
                None
            }
        },
        None => None,
    }
}

/// The world: every combat entity, and the visual events emitted this tick.
pub struct World {
    pub ents: Vec<Ent>,
    pub fx: Vec<FxEvent>,
}

impl World {
    pub open spec fn view(&self) -> Seq<Ent> {
        self.ents@
    }

    pub open spec fn wf(&self) -> bool {
        forall|i: int| 0 <= i < self.ents@.len() ==> #[trigger] wf_ent(self.ents@[i])
    }

    pub fn new() -> (w: World)
        ensures
            w@ == Seq::<Ent>::empty(),
            w.fx@ == Seq::<FxEvent>::empty(),
            w.wf(),
    {
        World { ents: Vec::new(), fx: Vec::new() }
    }

    /// Add an entity; its index is its handle.
    pub fn spawn(&mut self, e: Ent) -> (id: usize)
        requires
            old(self).wf(),
            wf_ent(e),
        ensures
            final(self).wf(),
            final(self)@ == old(self)@.push(e),
            id == old(self)@.len(),
            final(self).fx@ == old(self).fx@,
    {
        let id: usize = self.ents.len();
        self.ents.push(e);
        id
    }

    /// Read an entity by handle.
    pub fn get(&self, id: usize) -> (e: Ent)
        requires
            id < self@.len(),
        ensures
            e == self@[id as int],
    {
        self.ents[id]
    }

    pub fn len(&self) -> (n: usize)
        ensures
            n == self@.len(),
    {
        self.ents.len()
    }
}

} // verus!
