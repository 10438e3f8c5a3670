//! End-to-end checks of the combat pipeline on concrete worlds.

use combat_sim::aggression::{AggroLocation, AggroRadius, GuardBehavior, RetargetBehavior};
use combat_sim::attack::{Attack, AttackResult};
use combat_sim::category::{AgentCategory, TargetingOrders, FIGHTER, FRIGATE, MISSILE};
use combat_sim::damage::{Damage, LastDamageTimer};
use combat_sim::effects::{EffectKind, Effector};
use combat_sim::evasion::{hit_chance_q16, resolve_attack_roll, Evasion};
use combat_sim::geom::{dist2, isqrt, sat_sub, Pose, Vec3i};
use combat_sim::lifetime::Lifetime;
use combat_sim::mortal::{death_roll, Dieing, Health, MaxHealth};
use combat_sim::projectile::{CircularHitBox, Projectile};
use combat_sim::schedule::{drain_fx, tick};
use combat_sim::shields::Shield;
use combat_sim::spatial::get_cell_coordinates;
use combat_sim::targets::Target;
use combat_sim::tools::{within_cone, Cooldown, TargettedTool};
use combat_sim::world::{Ent, FxEvent, Team, World};

fn at(x: i64, y: i64) -> Vec3i {
    Vec3i { x, y, z: 0 }
}

fn pose_at(x: i64, y: i64) -> Pose {
    Pose {
        position: at(x, y),
        forward: Vec3i { x: 0, y: 1, z: 0 },
    }
}

fn candidate(x: i64, y: i64, team: i32, cat: u32) -> Ent {
    let mut e = Ent::empty();
    e.pose = Some(pose_at(x, y));
    e.team = Some(Team(team));
    e.category = Some(AgentCategory(cat));
    e.health = Some(Health(100));
    e.max_health = Some(MaxHealth(100));
    e
}

fn hostile_agent(radius: i64, preferred: u32, discouraged: u32) -> Ent {
    let mut e = Ent::empty();
    e.pose = Some(pose_at(0, 0));
    e.team = Some(Team(1));
    e.aggro_location = Some(AggroLocation(at(0, 0)));
    e.aggro_radius = Some(AggroRadius(radius));
    e.orders = Some(TargetingOrders {
        preferred: AgentCategory(preferred),
        discouraged: AgentCategory(discouraged),
        target_same_team: false,
    });
    e.target = Some(Target(None));
    e
}

#[test]
fn preferred_candidate_wins_over_closer_discouraged() {
    // radius 100, one preferred candidate at distance 50, one discouraged at
    // distance 30: scores 2500/5 = 500 against 900*5 = 4500, so the
    // farther, preferred candidate is selected.
    let mut w = World::new();
    let agent = w.spawn(hostile_agent(100, FIGHTER, FRIGATE));
    let far = w.spawn(candidate(50, 0, 2, FIGHTER));
    let _near = w.spawn(candidate(30, 0, 2, FRIGATE));
    combat_sim::targeting::find_targets(&mut w);
    assert_eq!(w.get(agent).target, Some(Target(Some(far))));
}

#[test]
fn candidates_outside_radius_are_never_chosen() {
    let mut w = World::new();
    let agent = w.spawn(hostile_agent(100, 0, 0));
    let _far = w.spawn(candidate(101, 0, 2, FIGHTER));
    let _farther = w.spawn(candidate(0, 2000, 2, FIGHTER));
    combat_sim::targeting::find_targets(&mut w);
    assert_eq!(w.get(agent).target, Some(Target(None)));
}

#[test]
fn team_filter_rejects_allies_for_hostile_orders() {
    let mut w = World::new();
    let agent = w.spawn(hostile_agent(100, 0, 0));
    let _ally = w.spawn(candidate(10, 0, 1, FIGHTER));
    let enemy = w.spawn(candidate(90, 0, 2, FIGHTER));
    combat_sim::targeting::find_targets(&mut w);
    assert_eq!(w.get(agent).target, Some(Target(Some(enemy))));
}

#[test]
fn support_orders_prefer_weakest_ally() {
    let mut w = World::new();
    let mut agent = hostile_agent(100, 0, 0);
    agent.orders = Some(TargetingOrders {
        preferred: AgentCategory(0),
        discouraged: AgentCategory(0),
        target_same_team: true,
    });
    let a = w.spawn(agent);
    let mut healthy = candidate(10, 0, 1, FIGHTER);
    healthy.health = Some(Health(90));
    let _h = w.spawn(healthy);
    let mut wounded = candidate(50, 0, 1, FIGHTER);
    wounded.health = Some(Health(20));
    let wid = w.spawn(wounded);
    combat_sim::targeting::find_targets(&mut w);
    assert_eq!(w.get(a).target, Some(Target(Some(wid))));
}

#[test]
fn sticky_target_is_kept_until_cleared() {
    let mut w = World::new();
    let mut agent = hostile_agent(100, 0, 0);
    agent.target = Some(Target(Some(7)));
    let a = w.spawn(agent);
    let _near = w.spawn(candidate(10, 0, 2, FIGHTER));
    combat_sim::targeting::find_targets(&mut w);
    assert_eq!(w.get(a).target, Some(Target(Some(7))));
}

#[test]
fn retarget_timer_clears_target_on_expiry() {
    let mut w = World::new();
    let mut agent = hostile_agent(100, 0, 0);
    agent.target = Some(Target(Some(3)));
    agent.retarget = Some(RetargetBehavior {
        interval: 500,
        remaining_time: 80,
    });
    let a = w.spawn(agent);
    combat_sim::aggression::do_retargetting(&mut w, 100);
    assert_eq!(w.get(a).target, Some(Target(None)));
    assert_eq!(w.get(a).retarget.unwrap().remaining_time, 500);
}

#[test]
fn guard_follows_protected_entity() {
    let mut w = World::new();
    let mut ward = Ent::empty();
    ward.pose = Some(pose_at(400, -200));
    let ward_id = w.spawn(ward);
    let mut guard = hostile_agent(100, 0, 0);
    guard.guard = Some(GuardBehavior { protected: ward_id });
    let g = w.spawn(guard);
    combat_sim::aggression::update_aggression_source(&mut w);
    assert_eq!(w.get(g).aggro_location, Some(AggroLocation(at(400, -200))));
}

#[test]
fn inherited_target_tracks_parent() {
    let mut w = World::new();
    let mut hull = Ent::empty();
    hull.target = Some(Target(Some(9)));
    let hull_id = w.spawn(hull);
    let mut mount = Ent::empty();
    mount.inherit_target = true;
    mount.parent = Some(hull_id);
    mount.target = Some(Target(None));
    let m = w.spawn(mount);
    combat_sim::targets::copy_targets_from_parents(&mut w);
    assert_eq!(w.get(m).target, Some(Target(Some(9))));
}

#[test]
fn cell_coordinates_floor_toward_negative_infinity() {
    assert_eq!(get_cell_coordinates(at(49, 50)), (0, 1));
    assert_eq!(get_cell_coordinates(at(-1, -50)), (-1, -1));
    assert_eq!(get_cell_coordinates(at(-51, 99)), (-2, 1));
}

#[test]
fn fire_gate_requires_range_and_cone() {
    let mut w = World::new();
    let mut target = Ent::empty();
    target.pose = Some(pose_at(0, 50));
    let t = w.spawn(target);
    let mut shooter = Ent::empty();
    shooter.pose = Some(pose_at(0, 0));
    shooter.target = Some(Target(Some(t)));
    shooter.cooldown = Some(Cooldown {
        remaining: 0,
        duration: 600,
    });
    shooter.tool = Some(TargettedTool {
        cone_cos_half: 64800, // cos of about 0.15 radians, in Q16
        range: 80,
        armed: true,
        firing: false,
    });
    let s = w.spawn(shooter);
    combat_sim::tools::fire_targetted_tools(&mut w);
    let tool = w.get(s).tool.unwrap();
    assert!(tool.firing);
    assert_eq!(w.get(s).cooldown.unwrap().remaining, 600);
}

#[test]
fn fire_gate_fails_closed_outside_cone() {
    let mut w = World::new();
    let mut target = Ent::empty();
    target.pose = Some(pose_at(50, 0)); // 90 degrees off the forward axis
    let t = w.spawn(target);
    let mut shooter = Ent::empty();
    shooter.pose = Some(pose_at(0, 0));
    shooter.target = Some(Target(Some(t)));
    shooter.cooldown = Some(Cooldown {
        remaining: 0,
        duration: 600,
    });
    shooter.tool = Some(TargettedTool {
        cone_cos_half: 64800,
        range: 80,
        armed: true,
        firing: false,
    });
    let s = w.spawn(shooter);
    combat_sim::tools::fire_targetted_tools(&mut w);
    assert!(!w.get(s).tool.unwrap().firing);
    assert_eq!(w.get(s).cooldown.unwrap().remaining, 0);
}

#[test]
fn cone_test_on_axis_and_degenerate() {
    let fwd = Vec3i { x: 0, y: 1, z: 0 };
    assert!(within_cone(at(0, 10), fwd, 64800));
    assert!(!within_cone(at(10, 0), fwd, 64800));
    // a zero-length direction never counts as inside: fails closed
    assert!(!within_cone(at(0, 0), fwd, -65536));
}

#[test]
fn activation_consumes_firing_flag() {
    let mut w = World::new();
    let mut e = Ent::empty();
    e.tool = Some(TargettedTool {
        cone_cos_half: 0,
        range: 10,
        armed: true,
        firing: true,
    });
    e.effector = Some(Effector::new(EffectKind::SmallPulseLaser));
    let id = w.spawn(e);
    combat_sim::tools::tools_activate_effectors(&mut w);
    assert_eq!(w.get(id).effector.unwrap().number_to_apply, 1);
    assert!(!w.get(id).tool.unwrap().firing);
}

#[test]
fn effector_spawns_effect_with_payload_and_instigator() {
    let mut w = World::new();
    let mut victim = Ent::empty();
    victim.pose = Some(pose_at(70, 0));
    let v = w.spawn(victim);
    let mut gun = Ent::empty();
    gun.pose = Some(pose_at(0, 0));
    gun.target = Some(Target(Some(v)));
    gun.effector = Some(Effector {
        kind: EffectKind::PulseLaser,
        number_to_apply: 1,
    });
    let g = w.spawn(gun);
    combat_sim::effects::apply_effects(&mut w);
    assert_eq!(w.len(), 3);
    let fx = w.get(2);
    assert!(fx.is_effect);
    assert_eq!(fx.target, Some(Target(Some(v))));
    assert_eq!(fx.instigator.map(|i| i.0), Some(g));
    assert_eq!(fx.damage, Some(Damage(20)));
    assert_eq!(fx.attack.map(|a| a.accuracy), Some(3));
    assert_eq!(fx.attack.map(|a| a.result), Some(AttackResult::Hit));
    assert_eq!(fx.effect_location.map(|l| l.0), Some(at(70, 0)));
    assert_eq!(w.get(g).effector.unwrap().number_to_apply, 0);
}

#[test]
fn pending_count_is_per_tick_state_even_without_a_target() {
    // an empty target slot spawns nothing, but the pending count is
    // per-tick state and still falls to zero
    let mut w = World::new();
    let mut gun = Ent::empty();
    gun.pose = Some(pose_at(0, 0));
    gun.target = Some(Target(None));
    gun.effector = Some(Effector {
        kind: EffectKind::PulseLaser,
        number_to_apply: 1,
    });
    let g = w.spawn(gun);
    combat_sim::effects::apply_effects(&mut w);
    assert_eq!(w.len(), 1);
    assert_eq!(w.get(g).effector.unwrap().number_to_apply, 0);
}

#[test]
fn fully_absorbed_damage_has_no_further_effect() {
    // the shield soaks everything: the attack proceeds to the damage stage
    // with nothing left, so neither health nor the last-damaged clock moves
    let mut w = World::new();
    let mut target = Ent::empty();
    target.pose = Some(pose_at(0, 0));
    target.shield = Some(Shield {
        health: 80,
        radius: 10,
    });
    target.health = Some(Health(100));
    target.last_damage_timer = Some(LastDamageTimer(700));
    let t = w.spawn(target);
    let mut attack = Ent::empty();
    attack.is_effect = true;
    attack.target = Some(Target(Some(t)));
    attack.damage = Some(Damage(50));
    attack.attack = Some(Attack::new(3));
    attack.source_transform = Some(combat_sim::effects::SourceTransform(pose_at(100, 0)));
    attack.effect_location = Some(combat_sim::effects::EffectLocation(at(0, 0)));
    let a = w.spawn(attack);
    combat_sim::shields::shield_absorb_damage(&mut w);
    assert_eq!(w.get(t).shield.unwrap().health, 30);
    assert_eq!(w.get(a).damage, Some(Damage(0)));
    assert_eq!(w.get(a).attack.unwrap().result, AttackResult::Blocked);
    combat_sim::damage::apply_damage(&mut w);
    assert_eq!(w.get(t).health, Some(Health(100)));
    assert_eq!(w.get(t).last_damage_timer, Some(LastDamageTimer(700)));
}

#[test]
fn instigator_root_is_propagated_through_chains() {
    let mut w = World::new();
    let mut victim = Ent::empty();
    victim.pose = Some(pose_at(10, 0));
    let v = w.spawn(victim);
    let mut rocket = Ent::empty();
    rocket.pose = Some(pose_at(0, 0));
    rocket.target = Some(Target(Some(v)));
    rocket.instigator = Some(combat_sim::effects::Instigator(42));
    rocket.effector = Some(Effector {
        kind: EffectKind::SmallRocket,
        number_to_apply: 1,
    });
    w.spawn(rocket);
    combat_sim::effects::apply_effects(&mut w);
    let fx = w.get(2);
    assert_eq!(fx.instigator.map(|i| i.0), Some(42));
}

#[test]
fn shield_absorbs_and_blocks_then_damage_applies_remainder() {
    // shield health 30 against incoming damage 50 from outside the radius:
    // the shield empties, the payload keeps 20, the attack is blocked, and
    // the damage stage still subtracts the remaining 20 from target health.
    let mut w = World::new();
    let mut target = Ent::empty();
    target.pose = Some(pose_at(0, 0));
    target.shield = Some(Shield {
        health: 30,
        radius: 10,
    });
    target.health = Some(Health(100));
    target.last_damage_timer = Some(LastDamageTimer(500));
    let t = w.spawn(target);
    let mut attack = Ent::empty();
    attack.is_effect = true;
    attack.target = Some(Target(Some(t)));
    attack.damage = Some(Damage(50));
    attack.attack = Some(Attack::new(3));
    attack.source_transform = Some(combat_sim::effects::SourceTransform(pose_at(100, 0)));
    attack.effect_location = Some(combat_sim::effects::EffectLocation(at(0, 0)));
    let a = w.spawn(attack);
    combat_sim::shields::shield_absorb_damage(&mut w);
    assert_eq!(w.get(t).shield.unwrap().health, 0);
    assert_eq!(w.get(a).damage, Some(Damage(20)));
    assert_eq!(w.get(a).attack.unwrap().result, AttackResult::Blocked);
    // the recorded hit point moved to the shield surface toward the source
    assert_eq!(w.get(a).effect_location.map(|l| l.0), Some(at(10, 0)));
    combat_sim::damage::apply_damage(&mut w);
    assert_eq!(w.get(t).health, Some(Health(80)));
    assert_eq!(w.get(t).last_damage_timer, Some(LastDamageTimer(0)));
    let events = drain_fx(&mut w);
    assert_eq!(
        events,
        vec![FxEvent::ShieldImpact {
            location: at(0, 0),
            radius: 10
        }]
    );
}

#[test]
fn point_blank_attack_bypasses_shield() {
    let mut w = World::new();
    let mut target = Ent::empty();
    target.pose = Some(pose_at(0, 0));
    target.shield = Some(Shield {
        health: 30,
        radius: 50,
    });
    target.health = Some(Health(100));
    target.last_damage_timer = Some(LastDamageTimer(0));
    let t = w.spawn(target);
    let mut attack = Ent::empty();
    attack.is_effect = true;
    attack.target = Some(Target(Some(t)));
    attack.damage = Some(Damage(50));
    attack.attack = Some(Attack::new(3));
    // launched from inside the shield bubble
    attack.source_transform = Some(combat_sim::effects::SourceTransform(pose_at(20, 0)));
    attack.effect_location = Some(combat_sim::effects::EffectLocation(at(0, 0)));
    let a = w.spawn(attack);
    combat_sim::shields::shield_absorb_damage(&mut w);
    assert_eq!(w.get(t).shield.unwrap().health, 30);
    assert_eq!(w.get(a).attack.unwrap().result, AttackResult::Hit);
    assert_eq!(w.get(a).damage, Some(Damage(50)));
    combat_sim::damage::apply_damage(&mut w);
    assert_eq!(w.get(t).health, Some(Health(50)));
}

#[test]
fn missed_attacks_void_damage() {
    let mut w = World::new();
    let mut target = Ent::empty();
    target.health = Some(Health(100));
    target.last_damage_timer = Some(LastDamageTimer(0));
    let t = w.spawn(target);
    let mut attack = Ent::empty();
    attack.is_effect = true;
    attack.target = Some(Target(Some(t)));
    attack.damage = Some(Damage(50));
    attack.attack = Some(Attack {
        accuracy: 3,
        result: AttackResult::Miss,
    });
    w.spawn(attack);
    combat_sim::damage::apply_damage(&mut w);
    assert_eq!(w.get(t).health, Some(Health(100)));
}

#[test]
fn hit_chance_matches_the_exponential() {
    // exp(-1) in Q16 is about 24109; the Q32 kernel rounds down to 24108
    assert_eq!(hit_chance_q16(3, 3), 24108);
    assert_eq!(hit_chance_q16(2, 3), 33647);
    assert_eq!(hit_chance_q16(6, 3), 8869);
    // zero evasion: certain hit; zero accuracy: all-but-certain miss
    assert_eq!(hit_chance_q16(0, 5), 65536);
    assert_eq!(hit_chance_q16(5, 0), 0);
}

#[test]
fn hit_chance_is_monotone_in_samples() {
    let accuracies = [1i64, 2, 3, 10, 200];
    let evasions = [0i64, 1, 2, 3, 6, 50, 1000];
    for &a in accuracies.iter() {
        for win in evasions.windows(2) {
            assert!(hit_chance_q16(win[1], a) <= hit_chance_q16(win[0], a));
        }
    }
    for &e in evasions.iter() {
        for win in accuracies.windows(2) {
            assert!(hit_chance_q16(e, win[0]) <= hit_chance_q16(e, win[1]));
        }
    }
}

#[test]
fn attack_roll_only_turns_hits_into_misses() {
    assert_eq!(
        resolve_attack_roll(AttackResult::Hit, 0, 1),
        AttackResult::Miss
    );
    assert_eq!(
        resolve_attack_roll(AttackResult::Hit, 65536, 65535),
        AttackResult::Hit
    );
    assert_eq!(
        resolve_attack_roll(AttackResult::Blocked, 0, 65535),
        AttackResult::Blocked
    );
    assert_eq!(
        resolve_attack_roll(AttackResult::Miss, 65536, 0),
        AttackResult::Miss
    );
}

#[test]
fn zero_evasion_target_is_always_hit() {
    let mut w = World::new();
    let mut target = Ent::empty();
    target.evasion = Some(Evasion {
        base: 0,
        movement_bonus: 0,
        total: 0,
    });
    let t = w.spawn(target);
    let mut attack = Ent::empty();
    attack.target = Some(Target(Some(t)));
    attack.attack = Some(Attack::new(3));
    let a = w.spawn(attack);
    combat_sim::evasion::determine_missed_attacks(&mut w);
    assert_eq!(w.get(a).attack.unwrap().result, AttackResult::Hit);
}

#[test]
fn evasion_rating_formula() {
    let mut w = World::new();
    let mut e = Ent::empty();
    e.evasion = Some(Evasion {
        base: 2,
        movement_bonus: 0,
        total: 0,
    });
    e.turn_speed = Some(-10);
    e.max_turn_speed = Some(10);
    e.speed = Some(100);
    let id = w.spawn(e);
    combat_sim::evasion::calculate_evasion_ratings(&mut w);
    let ev = w.get(id).evasion.unwrap();
    // (|-10| + |10|) * 100 / 800 = 2
    assert_eq!(ev.movement_bonus, 2);
    assert_eq!(ev.total, 4);
}

#[test]
fn projectile_initialises_from_launcher() {
    let mut w = World::new();
    let mut launcher = Ent::empty();
    launcher.team = Some(Team(5));
    launcher.target = Some(Target(Some(77)));
    let l = w.spawn(launcher);
    let mut rocket = Ent::empty();
    rocket.projectile = Some(Projectile::new());
    rocket.instigator = Some(combat_sim::effects::Instigator(l));
    let r = w.spawn(rocket);
    combat_sim::projectile::initialise_projectiles(&mut w);
    assert_eq!(w.get(r).team, Some(Team(5)));
    assert_eq!(w.get(r).target, Some(Target(Some(77))));
    assert!(w.get(r).projectile.unwrap().initialised);
}

#[test]
fn projectile_impact_triggers_effector_and_despawn() {
    let mut w = World::new();
    let mut victim = Ent::empty();
    victim.pose = Some(pose_at(3, 0));
    victim.hitbox = Some(CircularHitBox { radius: 8 });
    let v = w.spawn(victim);
    let mut rocket = Ent::empty();
    rocket.pose = Some(pose_at(0, 0));
    rocket.target = Some(Target(Some(v)));
    rocket.projectile = Some(Projectile {
        reached_target: false,
        initialised: true,
    });
    rocket.effector = Some(Effector::new(EffectKind::SmallRocket));
    let r = w.spawn(rocket);
    combat_sim::projectile::check_projectiles_reached_target(&mut w);
    assert!(w.get(r).projectile.unwrap().reached_target);
    combat_sim::projectile::projectiles_apply_effects(&mut w);
    assert_eq!(w.get(r).effector.unwrap().number_to_apply, 1);
    combat_sim::projectile::despawn_projectiles(&mut w);
    assert!(!w.get(r).alive);
}

#[test]
fn homing_projectile_loses_steering_with_its_target() {
    let mut w = World::new();
    let mut rocket = Ent::empty();
    rocket.homing = true;
    rocket.projectile = Some(Projectile {
        reached_target: false,
        initialised: true,
    });
    rocket.target = Some(Target(Some(99))); // dangling reference
    rocket.destination = Some(at(1, 1));
    rocket.turn_speed = Some(7);
    let r = w.spawn(rocket);
    combat_sim::projectile::update_homing_projectile_position_target(&mut w);
    assert_eq!(w.get(r).destination, None);
    assert_eq!(w.get(r).turn_speed, Some(0));
}

#[test]
fn timed_out_projectile_is_removed_without_any_effect() {
    // lifetime 2.0 s, tick delta 0.1 s: after 20 ticks no time remains and
    // the projectile is tagged; the next cleanup pass removes it. Its
    // effector never fires, so no effect instance is ever created.
    let mut w = World::new();
    let mut victim = Ent::empty();
    victim.pose = Some(pose_at(5000, 0));
    victim.hitbox = Some(CircularHitBox { radius: 8 });
    let _v = w.spawn(victim);
    let mut rocket = Ent::empty();
    rocket.pose = Some(pose_at(0, 0));
    rocket.target = Some(Target(Some(0)));
    rocket.projectile = Some(Projectile {
        reached_target: false,
        initialised: true,
    });
    rocket.effector = Some(Effector::new(EffectKind::SmallRocket));
    rocket.lifetime = Some(Lifetime { remaining: 2000 });
    let r = w.spawn(rocket);
    for _ in 0..20 {
        tick(&mut w, 100);
    }
    assert_eq!(w.len(), 2); // no effect instance was ever spawned
    assert!(w.get(r).expired);
    assert_eq!(w.get(r).effector.unwrap().number_to_apply, 0);
    tick(&mut w, 100);
    assert!(!w.get(r).alive);
    assert_eq!(w.len(), 2);
}

#[test]
fn instant_death_roll_is_dead_at_once_and_disposed_a_tick_later() {
    // a roll in the three-in-ten bucket: dead in the same transition, and
    // the next countdown tick — never the same one — sets dispose.
    let d = death_roll(2, 1500);
    assert_eq!(
        d,
        Dieing {
            remaining_time: 0,
            dead: true,
            dispose: false
        }
    );
    let mut w = World::new();
    let mut e = Ent::empty();
    e.mortal = true;
    e.health = Some(Health(0));
    e.dieing = Some(d);
    let id = w.spawn(e);
    combat_sim::mortal::update_dieing(&mut w, 100);
    let after = w.get(id).dieing.unwrap();
    assert!(after.dead && after.dispose);
    combat_sim::mortal::dispose_dieing(&mut w);
    assert!(!w.get(id).alive);
}

#[test]
fn slow_death_roll_counts_down_before_dying() {
    let d = death_roll(7, 1500);
    assert_eq!(
        d,
        Dieing {
            remaining_time: 1500,
            dead: false,
            dispose: false
        }
    );
    let mut w = World::new();
    let mut e = Ent::empty();
    e.dieing = Some(d);
    let id = w.spawn(e);
    for _ in 0..15 {
        combat_sim::mortal::update_dieing(&mut w, 100);
    }
    // fifteen ticks spend the delay exactly; not yet negative, not yet dead
    assert!(!w.get(id).dieing.unwrap().dead);
    combat_sim::mortal::update_dieing(&mut w, 100);
    let once = w.get(id).dieing.unwrap();
    assert!(once.dead && !once.dispose);
    combat_sim::mortal::update_dieing(&mut w, 100);
    assert!(w.get(id).dieing.unwrap().dispose);
}

#[test]
fn transient_effects_are_swept_every_tick() {
    let mut w = World::new();
    let mut e = Ent::empty();
    e.is_effect = true;
    let id = w.spawn(e);
    combat_sim::effects::remove_old_effects(&mut w);
    assert!(!w.get(id).alive);
}

#[test]
fn cooldowns_fall_and_saturate() {
    let mut w = World::new();
    let mut e = Ent::empty();
    e.cooldown = Some(Cooldown {
        remaining: 50,
        duration: 600,
    });
    let id = w.spawn(e);
    combat_sim::tools::update_cooldowns(&mut w, 100);
    assert_eq!(w.get(id).cooldown.unwrap().remaining, -50);
    assert_eq!(sat_sub(-1_000_000_000, 100), -1_000_000_000);
}

#[test]
fn helper_arithmetic_matches_the_models() {
    assert_eq!(isqrt(0), 0);
    assert_eq!(isqrt(99), 9);
    assert_eq!(isqrt(100), 10);
    assert_eq!(dist2(at(3, 4), at(0, 0)), 25);
}

#[test]
fn full_tick_resolves_a_laser_duel() {
    // two hostile fighters in range and cone of each other, zero evasion:
    // after one tick both have fired, both effects resolved, and both took
    // exactly the pulse-laser damage.
    let mut w = World::new();
    let mut a = candidate(0, 0, 1, FIGHTER);
    a.pose = Some(Pose {
        position: at(0, 0),
        forward: Vec3i { x: 0, y: 1, z: 0 },
    });
    a.aggro_location = Some(AggroLocation(at(0, 0)));
    a.aggro_radius = Some(AggroRadius(1000));
    a.orders = Some(TargetingOrders {
        preferred: AgentCategory(0),
        discouraged: AgentCategory(0),
        target_same_team: false,
    });
    a.target = Some(Target(None));
    a.cooldown = Some(Cooldown {
        remaining: 0,
        duration: 600,
    });
    a.tool = Some(TargettedTool {
        cone_cos_half: 0,
        range: 500,
        armed: true,
        firing: false,
    });
    a.effector = Some(Effector::new(EffectKind::PulseLaser));
    a.evasion = Some(Evasion {
        base: 0,
        movement_bonus: 0,
        total: 0,
    });
    a.last_damage_timer = Some(LastDamageTimer(900));
    a.mortal = true;
    let mut b = a.clone();
    b.pose = Some(Pose {
        position: at(0, 60),
        forward: Vec3i { x: 0, y: -1, z: 0 },
    });
    b.aggro_location = Some(AggroLocation(at(0, 60)));
    b.team = Some(Team(2));
    let ida = w.spawn(a);
    let idb = w.spawn(b);
    tick(&mut w, 100);
    // targeting found each other, the tools fired, and the spawned effects
    // were resolved by the same tick's chain, then swept
    assert_eq!(w.get(ida).target, Some(Target(Some(idb))));
    assert_eq!(w.get(idb).target, Some(Target(Some(ida))));
    assert_eq!(w.len(), 4);
    assert!(!w.get(2).alive && !w.get(3).alive);
    assert_eq!(w.get(ida).health, Some(Health(80)));
    assert_eq!(w.get(idb).health, Some(Health(80)));
    assert_eq!(w.get(ida).last_damage_timer, Some(LastDamageTimer(0)));
    // cooldowns were rewound on firing
    assert_eq!(w.get(ida).cooldown.unwrap().remaining, 600);
}

#[test]
fn rocket_launcher_spawns_a_homing_missile() {
    let mut w = World::new();
    let mut victim = Ent::empty();
    victim.pose = Some(pose_at(100, 0));
    let v = w.spawn(victim);
    let mut frigate = Ent::empty();
    frigate.pose = Some(pose_at(0, 0));
    frigate.team = Some(Team(1));
    frigate.target = Some(Target(Some(v)));
    frigate.effector = Some(Effector {
        kind: EffectKind::RocketLauncher,
        number_to_apply: 1,
    });
    let f = w.spawn(frigate);
    combat_sim::effects::apply_effects(&mut w);
    assert_eq!(w.len(), 3);
    let rocket = w.get(2);
    assert!(!rocket.is_effect); // a projectile outlives the tick
    assert!(rocket.homing);
    assert_eq!(rocket.projectile.map(|p| p.initialised), Some(false));
    assert_eq!(rocket.category, Some(AgentCategory(MISSILE)));
    assert_eq!(rocket.lifetime, Some(Lifetime { remaining: 8000 }));
    assert_eq!(rocket.instigator.map(|i| i.0), Some(f));
    // the next tick adopts the launcher's team and current target
    combat_sim::projectile::initialise_projectiles(&mut w);
    assert_eq!(w.get(2).team, Some(Team(1)));
    assert_eq!(w.get(2).target, Some(Target(Some(v))));
}
