//! Shields: a health pool that absorbs damage from attacks launched outside
//! its radius.

use vstd::prelude::*;
use vstd::arithmetic::div_mod::{lemma_div_is_ordered, lemma_div_pos_is_pos,
    lemma_div_multiples_vanish};
use vstd::arithmetic::mul::lemma_mul_inequality;
use crate::attack::{Attack, AttackResult};
use crate::damage::Damage;
use crate::effects::EffectLocation;
use crate::geom::{SPACE_LIMIT, STAT_LIMIT, Vec3i, norm2_spec, vec_sub_spec, vec_sub, sq,
    in_space, is_isqrt, isqrt_spec, isqrt, div_floor, dist2};
use crate::world::{Ent, FxEvent, World, wf_ent};

verus! {

/// A shield around an entity. Attacks originating inside the radius bypass
/// it entirely; its health never runs below zero.
#[derive(Clone, Copy, PartialEq, Eq, Structural, Debug)]
pub struct Shield {
    pub health: i64,
    pub radius: i64,
}

pub open spec fn wf_shield(s: Shield) -> bool {
    0 <= s.health <= STAT_LIMIT && 0 <= s.radius <= SPACE_LIMIT
}

/// An integer square root exists for every non-negative integer.
pub proof fn lemma_isqrt_exists(n: int)
    requires
        0 <= n,
    ensures
        is_isqrt(n, isqrt_spec(n)),
    decreases n,
{
    if n == 0 {
        assert(is_isqrt(0, 0));
    } else {
        lemma_isqrt_exists(n - 1);
        let r = isqrt_spec(n - 1);
        if (r + 1) * (r + 1) <= n {
            assert((r + 1) + 1 >= 1);
            assert((r + 2) * (r + 2) > (r + 1) * (r + 1)) by (nonlinear_arith)
                requires
                    r >= 0,
            ;
            assert(n <= (r + 1) * (r + 1) + 1);
            assert((r + 1) * (r + 1) + 1 <= (r + 2) * (r + 2)) by (nonlinear_arith)
                requires
                    r >= 0,
            ;
            assert(is_isqrt(n, r + 1));
        } else {
            assert(is_isqrt(n, r));
        }
        assert(is_isqrt(n, isqrt_spec(n)));
    }
}

/// Whether the shield stage looks at effect entity `i` at all: a live
/// attack still in the hit state, with a damage payload, a source
/// snapshot, a recorded hit location, and a target that resolves to a
/// shielded, placed entity.
pub open spec fn shield_applies(ents: Seq<Ent>, i: int) -> bool {
    let e = ents[i];
    0 <= i < ents.len() && e.alive && e.damage is Some && e.target is Some && e.source_transform is Some
        && e.effect_location is Some && e.attack is Some && (e.attack->0).result is Hit
        && (e.target->0).0 is Some && {
        let t = (e.target->0).0->0;
        t < ents.len() && ents[t as int].alive && ents[t as int].shield is Some
            && ents[t as int].pose is Some
    }
}

/// Whether the shield actually absorbs from effect `i`: the attack's source
/// lies on or outside the shield radius (a point-blank attack from inside
/// the bubble bypasses it entirely) and there is something to absorb.
pub open spec fn shield_blocks(ents: Seq<Ent>, i: int) -> bool {
    shield_applies(ents, i) && {
        let e = ents[i];
        let t = (e.target->0).0->0;
        let sh = ents[t as int].shield->0;
        let src = ((e.source_transform->0).0).position;
        let hit = (e.effect_location->0).0;
        let d2 = norm2_spec(vec_sub_spec(src, hit));
        let dmg = (e.damage->0).0;
        let absorbed = if sh.health <= dmg { sh.health as int } else { dmg as int };
        d2 >= sh.radius * sh.radius && absorbed > 0
    }
}

/// The hit location moved out to the shield surface along the approach
/// vector, for downstream visual effects: each component moves from the
/// hit point toward the source by `radius / |delta|` of the separation.
pub open spec fn relocated_hit(hit: Vec3i, delta: Vec3i, radius: int, d2: int) -> Vec3i {
    if d2 > 0 {
        let s = isqrt_spec(d2);
        Vec3i {
            x: (hit.x + delta.x * radius / s) as i64,
            y: (hit.y + delta.y * radius / s) as i64,
            z: (hit.z + delta.z * radius / s) as i64,
        }
    } else {
        hit
    }
}

/// One component of the relocation offset stays between zero and the full
/// separation, because the shield radius is at most the distance.
proof fn lemma_offset_convex(dc: int, radius: int, s: int, d2: int)
    requires
        0 <= radius,
        radius * radius <= d2,
        is_isqrt(d2, s),
        d2 > 0,
        dc * dc <= d2,
    ensures
        dc >= 0 ==> 0 <= dc * radius / s <= dc,
        dc < 0 ==> dc <= dc * radius / s <= 0,
{
    assert(s >= 1) by (nonlinear_arith)
        requires
            is_isqrt(d2, s),
            d2 > 0,
    ;
    assert(radius <= s) by (nonlinear_arith)
        requires
            0 <= radius,
            radius * radius <= d2,
            d2 < (s + 1) * (s + 1),
            0 <= s,
    ;
    if dc >= 0 {
        lemma_mul_inequality(radius, s, dc);
        assert(dc * radius == radius * dc && dc * s == s * dc) by (nonlinear_arith);
        assert(0 <= dc * radius) by (nonlinear_arith)
            requires
                0 <= dc,
                0 <= radius,
        ;
        lemma_div_pos_is_pos(dc * radius, s);
        lemma_div_is_ordered(dc * radius, dc * s, s);
        lemma_div_multiples_vanish(dc, s);
        assert(s * dc == dc * s) by (nonlinear_arith);
    } else {
        lemma_mul_inequality(radius, s, -dc);
        assert(dc * s <= dc * radius <= 0) by (nonlinear_arith)
            requires
                dc < 0,
                0 <= radius <= s,
        ;
        lemma_div_is_ordered(dc * s, dc * radius, s);
        lemma_div_is_ordered(dc * radius, 0, s);
        lemma_div_multiples_vanish(dc, s);
        assert(s * dc == dc * s) by (nonlinear_arith);
        assert(0int / s == 0);
    }
}

/// The relocated hit point stays in bounded space: each component lands
/// between the recorded hit point and the attack source.
proof fn lemma_relocated_in_space(hit: Vec3i, src: Vec3i, radius: int, d2: int)
    requires
        in_space(hit),
        in_space(src),
        0 <= radius,
        radius * radius <= d2,
        d2 == norm2_spec(vec_sub_spec(src, hit)),
    ensures
        in_space(relocated_hit(hit, vec_sub_spec(src, hit), radius, d2)),
{
    let delta = vec_sub_spec(src, hit);
    if d2 > 0 {
        lemma_isqrt_exists(d2);
        let s = isqrt_spec(d2);
        assert(sq(delta.x as int) >= 0 && sq(delta.y as int) >= 0 && sq(delta.z as int) >= 0)
            by (nonlinear_arith);
        lemma_offset_convex(delta.x as int, radius, s, d2);
        lemma_offset_convex(delta.y as int, radius, s, d2);
        lemma_offset_convex(delta.z as int, radius, s, d2);
    }
}

/// The world after effect `i` has been tested against its target's shield:
/// on a block, the shield loses the absorbed amount, the damage payload
/// keeps only the remainder, the hit point moves to the shield surface and
/// the attack is marked blocked. Fully absorbed damage still reaches the
/// damage stage, where it has no further effect.
pub open spec fn shield_apply_one(ents: Seq<Ent>, i: int) -> Seq<Ent> {
    if shield_blocks(ents, i) {
        let e = ents[i];
        let t = (e.target->0).0->0;
        let tgt = ents[t as int];
        let sh = tgt.shield->0;
        let src = ((e.source_transform->0).0).position;
        let hit = (e.effect_location->0).0;
        let delta = vec_sub_spec(src, hit);
        let d2 = norm2_spec(delta);
        let dmg = (e.damage->0).0;
        let absorbed = if sh.health <= dmg { sh.health as int } else { dmg as int };
        let e2 = Ent {
            damage: Some(Damage((dmg - absorbed) as i64)),
            effect_location: Some(EffectLocation(relocated_hit(hit, delta, sh.radius as int, d2))),
            attack: Some(Attack {
                accuracy: (e.attack->0).accuracy,
                result: AttackResult::Blocked,
            }),
            ..e
        };
        let ents1 = ents.update(i, e2);
        let base = ents1[t as int];
        ents1.update(t as int, Ent {
            shield: Some(Shield { health: (sh.health - absorbed) as i64, radius: sh.radius }),
            ..base
        })
    } else {
        ents
    }
}

/// The visual event effect `i` emits, from the same pre-step state.
pub open spec fn shield_event_one(ents: Seq<Ent>, i: int) -> Option<FxEvent> {
    if shield_blocks(ents, i) {
        let e = ents[i];
        let t = (e.target->0).0->0;
        Some(FxEvent::ShieldImpact {
            location: (ents[t as int].pose->0).position,
            radius: (ents[t as int].shield->0).radius,
        })
    } else {
        None
    }
}

/// The world after the first `k` entities were tested against shields, in
/// entity order: later attacks see the shield health earlier ones left.
pub open spec fn shield_fold(ents: Seq<Ent>, k: int) -> Seq<Ent>
    decreases k,
{
    if k <= 0 {
        ents
    } else {
        shield_apply_one(shield_fold(ents, k - 1), k - 1)
    }
}

/// The visual events emitted by the first `k` entities, in order.
pub open spec fn shield_events_fold(ents: Seq<Ent>, k: int) -> Seq<FxEvent>
    decreases k,
{
    if k <= 0 {
        Seq::<FxEvent>::empty()
    } else {
        let prev = shield_events_fold(ents, k - 1);
        match shield_event_one(shield_fold(ents, k - 1), k - 1) {
            Some(ev) => prev.push(ev),
            None => prev,
        }
    }
}

pub proof fn lemma_shield_fold_len(ents: Seq<Ent>, k: int)
    ensures
        shield_fold(ents, k).len() == ents.len(),
    decreases k,
{
    if k > 0 {
        lemma_shield_fold_len(ents, k - 1);
    }
}

/// One shield application keeps every entity well formed; in particular
/// the absorbed amount is clamped so the shield never runs negative and
/// the damage payload never does either.
pub proof fn lemma_shield_apply_one_wf(ents: Seq<Ent>, i: int)
    requires
        0 <= i < ents.len(),
        forall|m: int| 0 <= m < ents.len() ==> #[trigger] wf_ent(ents[m]),
    ensures
        forall|m: int| 0 <= m < shield_apply_one(ents, i).len()
            ==> #[trigger] wf_ent(shield_apply_one(ents, i)[m]),
{
    if shield_blocks(ents, i) {
        let e = ents[i];
        let t = (e.target->0).0->0;
        assert(wf_ent(ents[t as int]));
        assert(wf_ent(ents[i]));
        let tgt = ents[t as int];
        let sh = tgt.shield->0;
        let src = ((e.source_transform->0).0).position;
        let hit = (e.effect_location->0).0;
        let d2 = norm2_spec(vec_sub_spec(src, hit));
        lemma_relocated_in_space(hit, src, sh.radius as int, d2);
        let after = shield_apply_one(ents, i);
        assert forall|m: int| 0 <= m < after.len() implies #[trigger] wf_ent(after[m]) by {
            if m != t && m != i {
                assert(after[m] == ents[m]);
                assert(wf_ent(ents[m]));
            }
        }
    }
}

pub proof fn lemma_shield_fold_wf(ents: Seq<Ent>, k: int)
    requires
        k <= ents.len(),
        forall|m: int| 0 <= m < ents.len() ==> #[trigger] wf_ent(ents[m]),
    ensures
        forall|m: int| 0 <= m < shield_fold(ents, k).len()
            ==> #[trigger] wf_ent(shield_fold(ents, k)[m]),
    decreases k,
{
    if k > 0 {
        lemma_shield_fold_len(ents, k - 1);
        lemma_shield_fold_wf(ents, k - 1);
        lemma_shield_apply_one_wf(shield_fold(ents, k - 1), k - 1);
    }
}

/// One shield application never raises a shield's health and never drives
/// it negative: it loses exactly the absorbed amount, which is clamped to
/// what it still has.
pub proof fn lemma_shield_never_negative(ents: Seq<Ent>, i: int, j: int)
    requires
        0 <= i < ents.len(),
        0 <= j < ents.len(),
        forall|m: int| 0 <= m < ents.len() ==> #[trigger] wf_ent(ents[m]),
        ents[j].shield is Some,
    ensures
        shield_apply_one(ents, i)[j].shield is Some,
        0 <= (shield_apply_one(ents, i)[j].shield->0).health
            <= (ents[j].shield->0).health,
{
    assert(wf_ent(ents[j]));
    if shield_blocks(ents, i) {
        let e = ents[i];
        let t = (e.target->0).0->0;
        assert(wf_ent(ents[t as int]));
        assert(wf_ent(ents[i]));
        let after = shield_apply_one(ents, i);
        if j == t {
            assert(after[j].shield is Some);
        } else if j == i {
            assert(after[j].shield == ents[j].shield);
        } else {
            assert(after[j] == ents[j]);
        }
    }
}

/// Test every live attack against its target's shield, in entity order,
/// and emit a shield-impact event for every block.
#[verifier::rlimit(100)]
pub fn shield_absorb_damage(w: &mut World)
    requires
        old(w).wf(),
    ensures
        final(w).wf(),
        final(w)@.len() == old(w)@.len(),
        final(w)@ == shield_fold(old(w)@, old(w)@.len() as int),
        final(w).fx@ == old(w).fx@ + shield_events_fold(old(w)@, old(w)@.len() as int),
{
    let ghost orig = w@;
    let n: usize = w.ents.len();
    proof {
        lemma_shield_fold_len(orig, n as int);
        assert(w.fx@ == old(w).fx@ + shield_events_fold(orig, 0));
    }
    let mut i: usize = 0;
    while i < n
        invariant
            n == orig.len(),
            i <= n,
            w@.len() == n,
            w@ == shield_fold(orig, i as int),
            forall|m: int| 0 <= m < n ==> #[trigger] wf_ent(w@[m]),
            w.fx@ == old(w).fx@ + shield_events_fold(orig, i as int),
        decreases n - i,
    {
        let ghost pre = w@;
        let e = w.ents[i];
        let mut blocked: bool = false;
        if e.alive && e.damage.is_some() && e.target.is_some() && e.source_transform.is_some()
            && e.effect_location.is_some() && e.attack.is_some()
            && e.attack.unwrap().result == AttackResult::Hit
            && e.target.unwrap().0.is_some() {
            let t = e.target.unwrap().0.unwrap();
            if t < n && w.ents[t].alive && w.ents[t].shield.is_some()
                && w.ents[t].pose.is_some() {
                proof {
                    assert(wf_ent(pre[t as int]));
                    assert(wf_ent(pre[i as int]));
                }
                let tgt = w.ents[t];
                let sh = tgt.shield.unwrap();
                let src = e.source_transform.unwrap().0.position;
                let hit = e.effect_location.unwrap().0;
                let delta = vec_sub(src, hit);
                let d2: i64 = dist2(src, hit);
                proof {
                    assert(d2 == norm2_spec(delta));
                    assert(0 <= sh.radius * sh.radius <= 1_000_000_000_000) by (nonlinear_arith)
                        requires
                            0 <= sh.radius <= 1_000_000,
                    ;
                }
                let dmg: i64 = e.damage.unwrap().0;
                let absorbed: i64 = if sh.health <= dmg { sh.health } else { dmg };
                if d2 >= sh.radius * sh.radius && absorbed > 0 {
                    blocked = true;
                    proof {
                        assert(shield_blocks(pre, i as int));
                    }
                    // move the recorded hit point out to the shield surface
                    let new_hit: Vec3i = if d2 > 0 {
                        let s: i64 = isqrt(d2);
                        proof {
                            lemma_isqrt_exists(d2 as int);
                            assert(1 <= s && s <= 3_464_102) by (nonlinear_arith)
                                requires
                                    (s as int) * (s as int) <= d2 as int,
                                    (d2 as int) < (s as int + 1) * (s as int + 1),
                                    0 <= s,
                                    0 < d2 <= 12_000_000_000_000,
                            ;
                            assert(sq(delta.x as int) >= 0 && sq(delta.y as int) >= 0
                                && sq(delta.z as int) >= 0) by (nonlinear_arith);
                            lemma_offset_convex(delta.x as int, sh.radius as int, s as int, d2 as int);
                            lemma_offset_convex(delta.y as int, sh.radius as int, s as int, d2 as int);
                            lemma_offset_convex(delta.z as int, sh.radius as int, s as int, d2 as int);
                            assert(-4_000_000_000_000 <= delta.x * sh.radius <= 4_000_000_000_000
                                && -4_000_000_000_000 <= delta.y * sh.radius <= 4_000_000_000_000
                                && -4_000_000_000_000 <= delta.z * sh.radius <= 4_000_000_000_000)
                                by (nonlinear_arith)
                                requires
                                    -2_000_000 <= delta.x <= 2_000_000,
                                    -2_000_000 <= delta.y <= 2_000_000,
                                    -2_000_000 <= delta.z <= 2_000_000,
                                    0 <= sh.radius <= 1_000_000,
                            ;
                        }
                        Vec3i {
                            x: hit.x + div_floor(delta.x * sh.radius, s),
                            y: hit.y + div_floor(delta.y * sh.radius, s),
                            z: hit.z + div_floor(delta.z * sh.radius, s),
                        }
                    } else {
                        hit
                    };
                    proof {
                        assert(new_hit == relocated_hit(hit, delta, sh.radius as int, d2 as int));
                    }
                    let mut e2 = e;
                    e2.damage = Some(Damage(dmg - absorbed));
                    e2.effect_location = Some(EffectLocation(new_hit));
                    e2.attack = Some(Attack {
                        accuracy: e.attack.unwrap().accuracy,
                        result: AttackResult::Blocked,
                    });
                    w.ents.set(i, e2);
                    let base = w.ents[t];
                    let mut t2 = base;
                    t2.shield = Some(Shield { health: sh.health - absorbed, radius: sh.radius });
                    w.ents.set(t, t2);
                    w.fx.push(FxEvent::ShieldImpact {
                        location: tgt.pose.unwrap().position,
                        radius: sh.radius,
                    });
                    proof {
                        lemma_relocated_in_space(hit, src, sh.radius as int, d2 as int);
                        assert(w@ == shield_apply_one(pre, i as int));
                        assert(shield_event_one(pre, i as int)
                            == Some(FxEvent::ShieldImpact {
                                location: (pre[t as int].pose->0).position,
                                radius: (pre[t as int].shield->0).radius,
                            }));
                    }
                }
            }
        }
        proof {
            if !blocked {
                assert(!shield_blocks(pre, i as int));
            }
            assert(w@ == shield_apply_one(pre, i as int));
            assert(w@ == shield_fold(orig, i + 1));
            assert(w.fx@ == old(w).fx@ + shield_events_fold(orig, i + 1));
        }
        i = i + 1;
    }
}

} // verus!