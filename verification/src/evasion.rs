//! Evasion ratings and the hit roll. Fast-moving entities are harder to hit.
//!
//! The hit chance against an evading target is `exp(-evasion / accuracy)`.
//! In Q16 fixed point this is computed as `(1 - x/2^16)^(2^16)` with
//! `x = evasion/accuracy` in Q16 — the classical limit form of the
//! exponential — by sixteen Q16 squarings. The approximation is proved
//! monotone: more evasion never raises the chance, more accuracy never
//! lowers it.

use vstd::prelude::*;
use vstd::arithmetic::div_mod::{lemma_div_is_ordered, lemma_div_is_ordered_by_denominator,
    lemma_div_pos_is_pos};
use crate::attack::AttackResult;
use crate::world::{Ent, World, wf_ent};
use crate::geom::STAT_LIMIT;

verus! {

/// Divides the turn-rate contribution to the movement bonus.
pub const TURN_EVASION_FACTOR: i64 = 2;
/// Divides the speed contribution to the movement bonus.
pub const SPEED_EVASION_FACTOR: i64 = 200;

/// Highest evasion total a well-formed entity can carry: the largest
/// movement bonus plus the largest base rating.
pub const EVASION_LIMIT: i64 = 4_000_000_000;

/// An entity that can evade incoming attacks.
#[derive(Clone, Copy, PartialEq, Eq, Structural, Debug)]
pub struct Evasion {
    /// The base evasion rating for the entity.
    pub base: i64,
    /// The bonus evasion rating due to movement, recomputed every tick.
    pub movement_bonus: i64,
    /// The total evasion rating.
    pub total: i64,
}

impl Evasion {
    pub fn new(base: i64) -> (e: Evasion)
        requires
            0 <= base <= STAT_LIMIT,
        ensures
            e == (Evasion { base, movement_bonus: 0, total: 0 }),
    {
        Evasion { base, movement_bonus: 0, total: 0 }
    }
}

pub open spec fn wf_evasion(e: Evasion) -> bool {
    0 <= e.base <= STAT_LIMIT
        && 0 <= e.movement_bonus <= EVASION_LIMIT
        && 0 <= e.total <= EVASION_LIMIT
}

pub open spec fn abs_spec(x: i64) -> int {
    if x >= 0 { x as int } else { -(x as int) }
}

/// The movement bonus earned from turning and linear speed: the sum of the
/// current and maximal turn rates, halved, scaled by the linear speed and
/// divided by the two evasion factors — collected into one integer division
/// by `2 * TURN_EVASION_FACTOR * SPEED_EVASION_FACTOR = 800`.
pub open spec fn movement_bonus_spec(turn: i64, max_turn: i64, speed: i64) -> int {
    (abs_spec(turn) + abs_spec(max_turn)) * speed / 800
}

/// One Q32 squaring: the fixed-point product of `b` with itself. The
/// chance kernel works in Q32 so that fractional evasion-to-accuracy
/// ratios keep their resolution through the squarings.
pub open spec fn q32_square(b: int) -> int {
    b * b / 4294967296
}

/// `k` successive Q32 squarings of `b`.
pub open spec fn q32_pow_iter(b: int, k: nat) -> int
    decreases k,
{
    if k == 0 {
        b
    } else {
        q32_pow_iter(q32_square(b), (k - 1) as nat)
    }
}

/// The hit chance of an attack with the given accuracy against the given
/// evasion total, in Q16: zero evasion is a certain hit; zero accuracy
/// against positive evasion an all-but-certain miss; otherwise the
/// exponential `exp(-evasion/accuracy)`, approximated in Q32 by its limit
/// form `(1 - x/2^32)^(2^16)` and rounded down to Q16.
pub open spec fn hit_chance_spec(evasion: i64, accuracy: i64) -> int {
    if evasion <= 0 {
        65536
    } else if accuracy <= 0 {
        0
    } else {
        let x = evasion * 65536 / (accuracy as int);
        let b0 = if x >= 4294967296 { 0 } else { 4294967296 - x };
        q32_pow_iter(b0, 16) / 65536
    }
}

proof fn lemma_q32_square_bounds(b: int)
    requires
        0 <= b <= 4294967296,
    ensures
        0 <= q32_square(b) <= b,
        q32_square(b) <= 4294967296,
{
    assert(0 <= b * b <= b * 4294967296) by (nonlinear_arith)
        requires
            0 <= b <= 4294967296,
    ;
    lemma_div_pos_is_pos(b * b, 4294967296);
    lemma_div_is_ordered(b * b, b * 4294967296, 4294967296);
    assert(b * 4294967296 / 4294967296 == b) by (nonlinear_arith);
}

proof fn lemma_q32_square_monotone(a: int, b: int)
    requires
        0 <= a <= b <= 4294967296,
    ensures
        q32_square(a) <= q32_square(b),
{
    assert(a * a <= b * b) by (nonlinear_arith)
        requires
            0 <= a <= b,
    ;
    lemma_div_is_ordered(a * a, b * b, 4294967296);
}

proof fn lemma_q32_pow_iter_bounds(b: int, k: nat)
    requires
        0 <= b <= 4294967296,
    ensures
        0 <= q32_pow_iter(b, k) <= 4294967296,
    decreases k,
{
    if k > 0 {
        lemma_q32_square_bounds(b);
        lemma_q32_pow_iter_bounds(q32_square(b), (k - 1) as nat);
    }
}

proof fn lemma_q32_pow_iter_monotone(a: int, b: int, k: nat)
    requires
        0 <= a <= b <= 4294967296,
    ensures
        q32_pow_iter(a, k) <= q32_pow_iter(b, k),
    decreases k,
{
    if k > 0 {
        lemma_q32_square_bounds(a);
        lemma_q32_square_bounds(b);
        lemma_q32_square_monotone(a, b);
        lemma_q32_pow_iter_monotone(q32_square(a), q32_square(b), (k - 1) as nat);
    }
}

/// Unfold one squaring from the right of the iteration.
proof fn lemma_q32_pow_iter_snoc(b: int, k: nat)
    requires
        0 <= b <= 4294967296,
    ensures
        q32_pow_iter(b, k + 1) == q32_square(q32_pow_iter(b, k)),
    decreases k,
{
    if k == 0 {
        assert(q32_pow_iter(b, 1) == q32_pow_iter(q32_square(b), 0));
    } else {
        lemma_q32_square_bounds(b);
        lemma_q32_pow_iter_snoc(q32_square(b), (k - 1) as nat);
        assert(q32_pow_iter(b, k + 1) == q32_pow_iter(q32_square(b), k));
        assert(q32_pow_iter(b, k) == q32_pow_iter(q32_square(b), (k - 1) as nat));
    }
}

/// A hit chance is a Q16 probability.
pub proof fn lemma_hit_chance_bounds(evasion: i64, accuracy: i64)
    ensures
        0 <= hit_chance_spec(evasion, accuracy) <= 65536,
{
    if evasion > 0 && accuracy > 0 {
        let x = evasion * 65536 / (accuracy as int);
        let b0: int = if x >= 4294967296 { 0 } else { 4294967296 - x };
        assert(evasion * 65536 >= 0) by (nonlinear_arith)
            requires
                evasion > 0,
        ;
        lemma_div_pos_is_pos(evasion * 65536, accuracy as int);
        lemma_q32_pow_iter_bounds(b0, 16);
        lemma_div_pos_is_pos(q32_pow_iter(b0, 16), 65536);
        lemma_div_is_ordered(q32_pow_iter(b0, 16), 4294967296, 65536);
    }
}

/// Raising the evasion total, with accuracy fixed, never raises the hit
/// chance.
pub proof fn lemma_hit_chance_monotone_evasion(e1: i64, e2: i64, accuracy: i64)
    requires
        0 <= e1 <= e2,
    ensures
        hit_chance_spec(e2, accuracy) <= hit_chance_spec(e1, accuracy),
{
    lemma_hit_chance_bounds(e1, accuracy);
    lemma_hit_chance_bounds(e2, accuracy);
    if e1 > 0 && accuracy > 0 {
        let a = accuracy as int;
        let x1 = e1 * 65536 / a;
        let x2 = e2 * 65536 / a;
        assert(e1 * 65536 <= e2 * 65536) by (nonlinear_arith)
            requires
                e1 <= e2,
        ;
        lemma_div_is_ordered(e1 * 65536, e2 * 65536, a);
        let b1: int = if x1 >= 4294967296 { 0 } else { 4294967296 - x1 };
        let b2: int = if x2 >= 4294967296 { 0 } else { 4294967296 - x2 };
        assert(e1 * 65536 >= 0) by (nonlinear_arith)
            requires
                e1 > 0,
        ;
        lemma_div_pos_is_pos(e1 * 65536, a);
        assert(0 <= b2 <= b1 <= 4294967296);
        lemma_q32_pow_iter_monotone(b2, b1, 16);
        lemma_q32_pow_iter_bounds(b1, 16);
        lemma_q32_pow_iter_bounds(b2, 16);
        lemma_div_is_ordered(q32_pow_iter(b2, 16), q32_pow_iter(b1, 16), 65536);
    }
}

/// Raising the accuracy, with the evasion total fixed, never lowers the hit
/// chance.
pub proof fn lemma_hit_chance_monotone_accuracy(evasion: i64, a1: i64, a2: i64)
    requires
        0 <= a1 <= a2,
    ensures
        hit_chance_spec(evasion, a1) <= hit_chance_spec(evasion, a2),
{
    lemma_hit_chance_bounds(evasion, a1);
    lemma_hit_chance_bounds(evasion, a2);
    if evasion > 0 && a1 > 0 {
        let x1 = evasion * 65536 / (a1 as int);
        let x2 = evasion * 65536 / (a2 as int);
        assert(evasion * 65536 >= 0) by (nonlinear_arith)
            requires
                evasion > 0,
        ;
        lemma_div_is_ordered_by_denominator(evasion * 65536, a1 as int, a2 as int);
        let b1: int = if x1 >= 4294967296 { 0 } else { 4294967296 - x1 };
        let b2: int = if x2 >= 4294967296 { 0 } else { 4294967296 - x2 };
        lemma_div_pos_is_pos(evasion * 65536, a2 as int);
        assert(0 <= b1 <= b2 <= 4294967296);
        lemma_q32_pow_iter_monotone(b1, b2, 16);
        lemma_q32_pow_iter_bounds(b1, 16);
        lemma_q32_pow_iter_bounds(b2, 16);
        lemma_div_is_ordered(q32_pow_iter(b1, 16), q32_pow_iter(b2, 16), 65536);
    }
}

/// Compute the Q16 hit chance.
pub fn hit_chance_q16(evasion: i64, accuracy: i64) -> (r: i64)
    requires
        0 <= evasion <= EVASION_LIMIT,
        0 <= accuracy <= STAT_LIMIT,
    ensures
        r == hit_chance_spec(evasion, accuracy),
        0 <= r <= 65536,
{
    proof {
        lemma_hit_chance_bounds(evasion, accuracy);
    }
    if evasion <= 0 {
        return 65536;
    }
    if accuracy <= 0 {
        return 0;
    }
    proof {
        assert(0 <= evasion * 65536 <= 262_144_000_000_000) by (nonlinear_arith)
            requires
                0 < evasion <= 4_000_000_000,
        ;
        lemma_div_pos_is_pos(evasion * 65536, accuracy as int);
        lemma_div_is_ordered(evasion * 65536, 262_144_000_000_000, accuracy as int);
    }
    let x: i64 = evasion * 65536 / accuracy;
    let ghost b0: int = if x >= 4294967296 { 0 } else { 4294967296 - x };
    let mut b: i64 = if x >= 4294967296 { 0 } else { 4294967296 - x };
    let mut k: usize = 0;
    while k < 16
        invariant
            0 <= b0 <= 4294967296,
            0 <= b <= 4294967296,
            k <= 16,
            b == q32_pow_iter(b0, k as nat),
        decreases 16 - k,
    {
        proof {
            lemma_q32_pow_iter_snoc(b0, k as nat);
            lemma_q32_square_bounds(b as int);
        }
        let wide: i128 = (b as i128) * (b as i128) / 4294967296;
        proof {
            assert((b as i128) * (b as i128) == (b as int) * (b as int)) by (nonlinear_arith);
        }
        b = wide as i64;
        k = k + 1;
    }
    proof {
        lemma_div_pos_is_pos(b as int, 65536);
        lemma_div_is_ordered(b as int, 4294967296, 65536);
    }
    b / 65536
}

/// One attack roll: a uniform Q16 draw above the hit chance turns a hit
/// into a miss; attacks already resolved to non-hit states are terminal for
/// the tick and left unchanged.
pub open spec fn attack_roll_spec(result: AttackResult, chance: int, draw: u64) -> AttackResult {
    if result is Hit && draw > chance {
        AttackResult::Miss
    } else {
        result
    }
}

/// A higher hit chance never turns more draws into misses: any draw that
/// misses under the higher chance also misses under the lower one, so
/// raising the chance can only raise the probability of hitting.
pub proof fn lemma_attack_roll_monotone(c1: int, c2: int, draw: u64)
    requires
        c1 <= c2,
    ensures
        attack_roll_spec(AttackResult::Hit, c2, draw) is Miss
            ==> attack_roll_spec(AttackResult::Hit, c1, draw) is Miss,
{
}

/// Resolve one attack roll on machine integers.
pub fn resolve_attack_roll(result: AttackResult, chance: i64, draw: u64) -> (r: AttackResult)
    requires
        0 <= chance <= 65536,
        draw < 65536,
    ensures
        r == attack_roll_spec(result, chance as int, draw),
{
    if result == AttackResult::Hit && draw > chance as u64 {
        AttackResult::Miss
    } else {
        result
    }
}

/// What the rating update leaves in one entity: the movement bonus is
/// recomputed from the current movement stats and added to the base.
pub open spec fn evasion_rating_step(e: Ent) -> Ent {
    if e.alive && e.evasion is Some && e.turn_speed is Some && e.max_turn_speed is Some
        && e.speed is Some {
        let bonus = movement_bonus_spec(e.turn_speed->0, e.max_turn_speed->0, e.speed->0);
        Ent {
            evasion: Some(Evasion {
                base: (e.evasion->0).base,
                movement_bonus: bonus as i64,
                total: ((e.evasion->0).base + bonus) as i64,
            }),
            ..e
        }
    } else {
        e
    }
}

/// Recompute every evasion rating from current turn and linear speed.
pub fn calculate_evasion_ratings(w: &mut World)
    requires
        old(w).wf(),
    ensures
        final(w).wf(),
        final(w)@.len() == old(w)@.len(),
        forall|i: int| 0 <= i < final(w)@.len() ==> final(w)@[i] == evasion_rating_step(old(w)@[i]),
        final(w).fx@ == old(w).fx@,
{
    let ghost orig = w@;
    let n: usize = w.ents.len();
    let mut out: Vec<Ent> = Vec::new();
    let mut i: usize = 0;
    while i < n
        invariant
            w@ == orig,
            w.wf(),
            n == orig.len(),
            i <= n,
            out@.len() == i,
            forall|j: int| 0 <= j < i ==> out@[j] == evasion_rating_step(orig[j]),
            forall|j: int| 0 <= j < i ==> #[trigger] wf_ent(out@[j]),
        decreases n - i,
    {
        let e = w.ents[i];
        let mut upd = e;
        proof {
            assert(wf_ent(w@[i as int]));
        }
        if e.alive && e.evasion.is_some() && e.turn_speed.is_some()
            && e.max_turn_speed.is_some() && e.speed.is_some() {
            let ts = e.turn_speed.unwrap();
            let mts = e.max_turn_speed.unwrap();
            let s = e.speed.unwrap();
            let at: i64 = if ts >= 0 { ts } else { -ts };
            let amt: i64 = if mts >= 0 { mts } else { -mts };
            proof {
                assert(0 <= (at + amt) * s <= 2_000_000_000_000) by (nonlinear_arith)
                    requires
                        0 <= at <= 1_000_000,
                        0 <= amt <= 1_000_000,
                        0 <= s <= 1_000_000,
                ;
                lemma_div_pos_is_pos((at + amt) * s, 800);
                lemma_div_is_ordered((at + amt) * s, 2_000_000_000_000, 800);
            }
            let bonus: i64 = (at + amt) * s / 800;
            upd.evasion = Some(Evasion {
                base: e.evasion.unwrap().base,
                movement_bonus: bonus,
                total: e.evasion.unwrap().base + bonus,
            });
        }
        proof {
            assert(wf_ent(upd));
            assert(upd == evasion_rating_step(orig[i as int]));
        }
        out.push(upd);
        i = i + 1;
    }
    w.ents = out;
}

/// Whether the hit roll applies to this entity: a live effect carrying a
/// still-hitting attack whose target resolves to an evasion rating.
pub open spec fn miss_roll_applies(ents: Seq<Ent>, i: int) -> bool {
    let e = ents[i];
    e.alive && e.attack is Some && e.target is Some && (e.target->0).0 is Some
        && (e.attack->0).result is Hit && {
        let t = (e.target->0).0->0;
        t < ents.len() && ents[t as int].alive && ents[t as int].evasion is Some
    }
}

/// What one hit roll leaves in the attack entity, for the given draw.
pub open spec fn miss_step(ents: Seq<Ent>, i: int, draw: u64) -> Ent {
    let e = ents[i];
    let t = (e.target->0).0->0;
    let chance = hit_chance_spec(
        (ents[t as int].evasion->0).total,
        (e.attack->0).accuracy,
    );
    Ent {
        attack: Some(crate::attack::Attack {
            accuracy: (e.attack->0).accuracy,
            result: attack_roll_spec((e.attack->0).result, chance, draw),
        }),
        ..e
    }
}

/// Roll every pending attack against its target's evasion. The draw is
/// random, so the contract promises only that each rolled attack ends as
/// `miss_step` for some Q16 draw; `hit_chance_spec` and `attack_roll_spec`
/// pin the outcome for each draw.
pub fn determine_missed_attacks(w: &mut World)
    requires
        old(w).wf(),
    ensures
        final(w).wf(),
        final(w)@.len() == old(w)@.len(),
        forall|i: int|
            0 <= i < final(w)@.len() && miss_roll_applies(old(w)@, i) ==> exists|draw: u64|
                draw < 65536 && final(w)@[i] == #[trigger] miss_step(old(w)@, i, draw),
        forall|i: int|
            0 <= i < final(w)@.len() && !miss_roll_applies(old(w)@, i) ==> final(w)@[i]
                == old(w)@[i],
        final(w).fx@ == old(w).fx@,
{
    let ghost orig = w@;
    let n: usize = w.ents.len();
    let mut out: Vec<Ent> = Vec::new();
    let mut i: usize = 0;
    while i < n
        invariant
            w@ == orig,
            w.wf(),
            n == orig.len(),
            i <= n,
            out@.len() == i,
            forall|j: int|
                0 <= j < i && miss_roll_applies(orig, j) ==> exists|draw: u64|
                    draw < 65536 && out@[j] == #[trigger] miss_step(orig, j, draw),
            forall|j: int| 0 <= j < i && !miss_roll_applies(orig, j) ==> out@[j] == orig[j],
            forall|j: int| 0 <= j < i ==> #[trigger] wf_ent(out@[j]),
        decreases n - i,
    {
        let e = w.ents[i];
        let mut upd = e;
        proof {
            assert(wf_ent(w@[i as int]));
        }
        let mut rolled: bool = false;
        if e.alive && e.attack.is_some() && e.target.is_some()
            && e.target.unwrap().0.is_some()
            && e.attack.unwrap().result == AttackResult::Hit {
            let t = e.target.unwrap().0.unwrap();
            if t < n && w.ents[t].alive && w.ents[t].evasion.is_some() {
                proof {
                    assert(wf_ent(w@[t as int]));
                }
                let atk = e.attack.unwrap();
                let chance: i64 = hit_chance_q16(w.ents[t].evasion.unwrap().total, atk.accuracy);
                let draw: u64 = crate::rng::draw_range(0, 65536);
                let outcome = resolve_attack_roll(atk.result, chance, draw);
                upd.attack = Some(crate::attack::Attack {
                    accuracy: atk.accuracy,
                    result: outcome,
                });
                rolled = true;
                proof {
                    assert(miss_roll_applies(orig, i as int));
                    assert(upd == miss_step(orig, i as int, draw));
                }
            }
        }
        proof {
            if !rolled {
                assert(!miss_roll_applies(orig, i as int));
            }
            assert(wf_ent(upd));
        }
        out.push(upd);
        i = i + 1;
    }
    w.ents = out;
}

} // verus!
