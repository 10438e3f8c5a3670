//! The targeting engine: weighted scoring of candidates from the spatial
//! index, one winner per agent.
//!
//! Hostile orders score by squared distance, support orders by health
//! fraction — both "lower is better". A preferred category divides the
//! score by five, a discouraged one multiplies it by five, and the two
//! compose multiplicatively. Scores are exact rationals: every score is
//! scaled by five so the three weights become the integers one, five and
//! twenty-five, and fractions are compared by cross-multiplication.

use vstd::prelude::*;
use vstd::arithmetic::mul::{lemma_mul_inequality, lemma_mul_strict_inequality,
    lemma_mul_strict_inequality_converse, lemma_mul_is_associative, lemma_mul_is_commutative};
use crate::category::{TargetingOrders, category_contains};
use crate::geom::{Vec3i, SPACE_LIMIT, dist2_spec, dist2, in_space};
use crate::spatial::{TargetInformation, wf_info, build_target_index, collect_candidates,
    candidates_prefix, cell_of_spec, get_cell_coordinates, grid_entries, grid_matches,
    lemma_candidates_wf, lemma_rect_cands_wf, rect_cands};
use crate::targets::Target;
use crate::world::{Ent, Team, World, wf_ent};

verus! {

/// One agent's view of the world while it scans for a target.
#[derive(Clone, Copy, PartialEq, Eq, Structural, Debug)]
pub struct Targetter {
    pub team: Team,
    pub position: Vec3i,
    pub orders: TargetingOrders,
    pub radius: i64,
}

pub open spec fn wf_targetter(t: Targetter) -> bool {
    in_space(t.position) && 0 <= t.radius <= SPACE_LIMIT
}

/// The team filter: orders pick either allies or enemies, exclusively.
pub open spec fn team_filter_ok(t: Targetter, c: TargetInformation) -> bool {
    (t.team == c.team) == t.orders.target_same_team
}

/// A candidate can be targeted at all: it passes the team filter and lies
/// within the aggression radius.
pub open spec fn eligible(t: Targetter, c: TargetInformation) -> bool {
    team_filter_ok(t, c) && dist2_spec(c.position, t.position) <= t.radius * t.radius
}

/// The category weight of a candidate, on the five-fold scale: preferred
/// divides the base score by five, discouraged multiplies it by five, and
/// both together cancel out.
pub open spec fn weight(orders: TargetingOrders, c: TargetInformation) -> int {
    let p = category_contains(orders.preferred.0, c.category.0);
    let d = category_contains(orders.discouraged.0, c.category.0);
    if p && d {
        5
    } else if p {
        1
    } else if d {
        25
    } else {
        5
    }
}

/// Numerator of the candidate's score: squared distance for hostile
/// orders, current health for support orders (prefer the weakest ally),
/// scaled by the category weight.
pub open spec fn score_num(t: Targetter, c: TargetInformation) -> int {
    if t.orders.target_same_team {
        c.health * weight(t.orders, c)
    } else {
        dist2_spec(c.position, t.position) * weight(t.orders, c)
    }
}

/// Denominator of the candidate's score: the health ceiling for support
/// orders (the base score is the health fraction), one otherwise.
pub open spec fn score_den(t: Targetter, c: TargetInformation) -> int {
    if t.orders.target_same_team {
        c.max_health as int
    } else {
        1
    }
}

/// Candidate `a` scores strictly lower (better) than candidate `b`,
/// compared as exact fractions by cross-multiplication.
pub open spec fn score_lt(t: Targetter, a: TargetInformation, b: TargetInformation) -> bool {
    score_num(t, a) * score_den(t, b) < score_num(t, b) * score_den(t, a)
}

/// The index of the winning candidate among the first `k`: the eligible
/// candidate with the lowest score, ties keeping the first encountered in
/// iteration order.
pub open spec fn best_index(t: Targetter, cands: Seq<TargetInformation>, k: int) -> Option<int>
    decreases k,
{
    if k <= 0 {
        None
    } else {
        let p = best_index(t, cands, k - 1);
        if !eligible(t, cands[k - 1]) {
            p
        } else {
            match p {
                None => Some(k - 1),
                Some(j) => if score_lt(t, cands[k - 1], cands[j]) {
                    Some(k - 1)
                } else {
                    p
                },
            }
        }
    }
}

/// A winner is always one of the candidates, and eligible: it passed the
/// team filter and lay within the aggression radius when it was scored.
pub proof fn lemma_best_eligible(t: Targetter, cands: Seq<TargetInformation>, k: int)
    requires
        best_index(t, cands, k) is Some,
    ensures
        0 <= best_index(t, cands, k)->0 < k,
        eligible(t, cands[best_index(t, cands, k)->0]),
    decreases k,
{
    if k > 0 {
        if best_index(t, cands, k - 1) is Some {
            lemma_best_eligible(t, cands, k - 1);
        }
    }
}

/// As long as one eligible candidate was seen, some winner exists.
pub proof fn lemma_best_some(t: Targetter, cands: Seq<TargetInformation>, k: int, m: int)
    requires
        0 <= m < k,
        eligible(t, cands[m]),
    ensures
        best_index(t, cands, k) is Some,
    decreases k,
{
    if m < k - 1 {
        lemma_best_some(t, cands, k - 1, m);
    }
}

/// The targeting radius invariant: a winner never lies outside the
/// squared aggression radius.
pub proof fn lemma_targeting_radius(t: Targetter, cands: Seq<TargetInformation>, k: int)
    requires
        best_index(t, cands, k) is Some,
    ensures
        dist2_spec(cands[best_index(t, cands, k)->0].position, t.position)
            <= t.radius * t.radius,
{
    lemma_best_eligible(t, cands, k);
}

/// The team filter invariant: with hostile orders the winner is never on
/// the agent's team; with support orders it always is.
pub proof fn lemma_team_filter(t: Targetter, cands: Seq<TargetInformation>, k: int)
    requires
        best_index(t, cands, k) is Some,
    ensures
        (t.team == cands[best_index(t, cands, k)->0].team) == t.orders.target_same_team,
{
    lemma_best_eligible(t, cands, k);
}

/// Chaining two cross-multiplied comparisons: from `b <= m` and `n < b`
/// follows `n < m`, all as fractions with positive denominators.
proof fn lemma_rational_chain(nm: int, dm: int, nb: int, db: int, nn: int, dn: int)
    requires
        dm >= 1,
        db >= 1,
        dn >= 1,
        nb * dm <= nm * db,
        nn * db < nb * dn,
    ensures
        nn * dm < nm * dn,
{
    lemma_mul_inequality(nb * dm, nm * db, dn);
    lemma_mul_strict_inequality(nn * db, nb * dn, dm);
    assert((nn * db) * dm == (nn * dm) * db) by (nonlinear_arith);
    assert((nb * dn) * dm == (nb * dm) * dn) by (nonlinear_arith);
    assert((nm * db) * dn == (nm * dn) * db) by (nonlinear_arith);
    lemma_mul_strict_inequality_converse(nn * dm, nm * dn, db);
}

/// The winner scores no higher than any eligible candidate: no eligible
/// candidate among the first `k` beats it strictly.
pub proof fn lemma_best_minimal(t: Targetter, cands: Seq<TargetInformation>, k: int, m: int)
    requires
        best_index(t, cands, k) is Some,
        0 <= m < k,
        eligible(t, cands[m]),
        forall|q: int| 0 <= q < cands.len() ==> #[trigger] wf_info(cands[q]),
        k <= cands.len(),
    ensures
        !score_lt(t, cands[m], cands[best_index(t, cands, k)->0]),
    decreases k,
{
    let j = best_index(t, cands, k)->0;
    let p = best_index(t, cands, k - 1);
    if m == k - 1 {
        if best_index(t, cands, k) == Some(k - 1) && j == k - 1 {
            // a fraction never compares strictly below itself
        } else {
            assert(p is Some);
        }
    } else {
        lemma_best_some(t, cands, k - 1, m);
        lemma_best_eligible(t, cands, k - 1);
        lemma_best_minimal(t, cands, k - 1, m);
        let pj = p->0;
        if eligible(t, cands[k - 1]) && score_lt(t, cands[k - 1], cands[pj]) {
            // the winner changed to the newcomer; chain the comparisons
            assert(wf_info(cands[m]));
            assert(wf_info(cands[pj]));
            assert(wf_info(cands[k - 1]));
            assert(score_den(t, cands[m]) >= 1);
            assert(score_den(t, cands[pj]) >= 1);
            assert(score_den(t, cands[k - 1]) >= 1);
            lemma_rational_chain(
                score_num(t, cands[m]),
                score_den(t, cands[m]),
                score_num(t, cands[pj]),
                score_den(t, cands[pj]),
                score_num(t, cands[k - 1]),
                score_den(t, cands[k - 1]),
            );
        }
    }
}

/// Pick the best target among the candidates, or nothing when none is
/// eligible: lowest score wins, ties keep the first encountered.
pub fn select_target(t: &Targetter, cands: &Vec<TargetInformation>) -> (r: Option<usize>)
    requires
        wf_targetter(*t),
        forall|q: int| 0 <= q < cands@.len() ==> #[trigger] wf_info(cands@[q]),
    ensures
        match best_index(*t, cands@, cands@.len() as int) {
            None => r is None,
            Some(j) => r == Some(cands@[j].entity),
        },
{
    let n: usize = cands.len();
    let mut best: Option<usize> = None;
    let mut i: usize = 0;
    while i < n
        invariant
            i <= n,
            n == cands@.len(),
            wf_targetter(*t),
            forall|q: int| 0 <= q < cands@.len() ==> #[trigger] wf_info(cands@[q]),
            match best {
                None => best_index(*t, cands@, i as int) is None,
                Some(b) => b < n && best_index(*t, cands@, i as int) == Some(b as int),
            },
        decreases n - i,
    {
        let c = cands[i];
        proof {
            assert(wf_info(cands@[i as int]));
        }
        let filter_ok: bool = (t.team.0 == c.team.0) == t.orders.target_same_team;
        let d2: i64 = dist2(c.position, t.position);
        proof {
            assert(0 <= t.radius * t.radius <= 1_000_000_000_000) by (nonlinear_arith)
                requires
                    0 <= t.radius <= 1_000_000,
            ;
        }
        if filter_ok && d2 <= t.radius * t.radius {
            proof {
                assert(eligible(*t, cands@[i as int]));
            }
            let p = t.orders.preferred.contains(&c.category);
            let d = t.orders.discouraged.contains(&c.category);
            let w: i64 = if p && d {
                5
            } else if p {
                1
            } else if d {
                25
            } else {
                5
            };
            proof {
                assert(w == weight(t.orders, cands@[i as int]));
                assert(-25_000_000 <= c.health * w <= 25_000_000) by (nonlinear_arith)
                    requires
                        -1_000_000 <= c.health <= 1_000_000,
                        1 <= w <= 25,
                ;
                assert(0 <= d2 * w <= 300_000_000_000_000) by (nonlinear_arith)
                    requires
                        0 <= d2 <= 12_000_000_000_000,
                        1 <= w <= 25,
                ;
            }
            let num: i64 = if t.orders.target_same_team {
                c.health * w
            } else {
                d2 * w
            };
            let den: i64 = if t.orders.target_same_team {
                c.max_health
            } else {
                1
            };
            proof {
                assert(num == score_num(*t, cands@[i as int]));
                assert(den == score_den(*t, cands@[i as int]));
            }
            let replace: bool = match best {
                None => true,
                Some(b) => {
                    let bc = cands[b];
                    proof {
                        assert(wf_info(cands@[b as int]));
                    }
                    let bp = t.orders.preferred.contains(&bc.category);
                    let bd = t.orders.discouraged.contains(&bc.category);
                    let bw: i64 = if bp && bd {
                        5
                    } else if bp {
                        1
                    } else if bd {
                        25
                    } else {
                        5
                    };
                    let bd2: i64 = dist2(bc.position, t.position);
                    proof {
                        assert(bw == weight(t.orders, cands@[b as int]));
                        assert(-25_000_000 <= bc.health * bw <= 25_000_000) by (nonlinear_arith)
                            requires
                                -1_000_000 <= bc.health <= 1_000_000,
                                1 <= bw <= 25,
                        ;
                        assert(0 <= bd2 * bw <= 300_000_000_000_000) by (nonlinear_arith)
                            requires
                                0 <= bd2 <= 12_000_000_000_000,
                                1 <= bw <= 25,
                        ;
                    }
                    let bnum: i64 = if t.orders.target_same_team {
                        bc.health * bw
                    } else {
                        bd2 * bw
                    };
                    let bden: i64 = if t.orders.target_same_team {
                        bc.max_health
                    } else {
                        1
                    };
                    proof {
                        assert(bnum == score_num(*t, cands@[b as int]));
                        assert(bden == score_den(*t, cands@[b as int]));
                        assert((num as i128) * (bden as i128) < 170141183460469231731687303715884105727i128
                            && (num as i128) * (bden as i128)
                            > -170141183460469231731687303715884105727i128) by (nonlinear_arith)
                            requires
                                -300_000_000_000_000 <= num <= 300_000_000_000_000,
                                1 <= bden <= 1_000_000,
                        ;
                        assert((bnum as i128) * (den as i128) < 170141183460469231731687303715884105727i128
                            && (bnum as i128) * (den as i128)
                            > -170141183460469231731687303715884105727i128) by (nonlinear_arith)
                            requires
                                -300_000_000_000_000 <= bnum <= 300_000_000_000_000,
                                1 <= den <= 1_000_000,
                        ;
                    }
                    (num as i128) * (bden as i128) < (bnum as i128) * (den as i128)
                },
            };
            if replace {
                best = Some(i);
            }
            proof {
                match best {
                    None => {
                        assert(false);
                    },
                    Some(b) => {
                        assert(best_index(*t, cands@, i + 1) == Some(b as int));
                    },
                }
            }
        } else {
            proof {
                assert(!eligible(*t, cands@[i as int]));
                assert(best_index(*t, cands@, i + 1) == best_index(*t, cands@, i as int));
            }
        }
        i = i + 1;
    }
    match best {
        None => None,
        Some(b) => Some(cands[b].entity),
    }
}

/// An agent that scans for targets: it has an aggression source and
/// radius, a team, orders, and a target slot.
pub open spec fn is_targetter(e: Ent) -> bool {
    e.alive && e.aggro_location is Some && e.aggro_radius is Some && e.team is Some
        && e.orders is Some && e.target is Some
}

pub open spec fn targetter_of(e: Ent) -> Targetter {
    Targetter {
        team: e.team->0,
        position: (e.aggro_location->0).0,
        orders: e.orders->0,
        radius: (e.aggro_radius->0).0,
    }
}

/// The candidates one agent scans: every cell of the grid square spanning
/// twice the aggression radius around the aggression source, row-major.
pub open spec fn scan_cands(ents: Seq<Ent>, e: Ent) -> Seq<TargetInformation> {
    let t = targetter_of(e);
    let infos = candidates_prefix(ents, ents.len() as int);
    let minc = cell_of_spec(Vec3i {
        x: (t.position.x - t.radius) as i64,
        y: (t.position.y - t.radius) as i64,
        z: t.position.z,
    });
    let maxc = cell_of_spec(Vec3i {
        x: (t.position.x + t.radius) as i64,
        y: (t.position.y + t.radius) as i64,
        z: t.position.z,
    });
    rect_cands(infos, minc.0 as int, maxc.0 + 1, minc.1 as int, maxc.1 + 1)
}

/// What the targeting engine leaves in one entity. Targeting is sticky:
/// an agent already holding a target is skipped entirely — only the
/// retarget timer or an external clear can empty the slot. An empty slot
/// receives the scan's winner, or stays empty when no candidate
/// qualifies, leaving the agent eligible on future ticks.
pub open spec fn find_step(ents: Seq<Ent>, i: int) -> Ent {
    let e = ents[i];
    if is_targetter(e) && (e.target->0).0 is None {
        let cands = scan_cands(ents, e);
        let chosen = match best_index(targetter_of(e), cands, cands.len() as int) {
            None => Option::<usize>::None,
            Some(j) => Some(cands[j].entity),
        };
        Ent { target: Some(Target(chosen)), ..e }
    } else {
        e
    }
}

/// Sticky targeting: the engine never overwrites a target reference that
/// is still set, whether or not it still resolves.
pub proof fn lemma_sticky_targeting(ents: Seq<Ent>, i: int)
    requires
        0 <= i < ents.len(),
        is_targetter(ents[i]),
        (ents[i].target->0).0 is Some,
    ensures
        find_step(ents, i) == ents[i],
{
}

/// Radius and team filter invariants at the level of the whole engine:
/// whatever the targeting step writes into an empty slot is one of the
/// scanned candidates, lies within the squared aggression radius of the
/// aggression source, and sits on the agent's own team exactly when the
/// orders say to target the same team.
pub proof fn lemma_find_step_filters(ents: Seq<Ent>, i: int)
    requires
        0 <= i < ents.len(),
        is_targetter(ents[i]),
        (ents[i].target->0).0 is None,
        (find_step(ents, i).target->0).0 is Some,
    ensures
        exists|j: int|
            0 <= j < scan_cands(ents, ents[i]).len()
                && (#[trigger] scan_cands(ents, ents[i])[j]).entity
                == (find_step(ents, i).target->0).0->0
                && dist2_spec(scan_cands(ents, ents[i])[j].position, (ents[i].aggro_location->0).0)
                <= (ents[i].aggro_radius->0).0 * (ents[i].aggro_radius->0).0
                && ((ents[i].team->0 == scan_cands(ents, ents[i])[j].team)
                == (ents[i].orders->0).target_same_team),
{
    let e = ents[i];
    let t = targetter_of(e);
    let cands = scan_cands(ents, e);
    lemma_best_eligible(t, cands, cands.len() as int);
    let j = best_index(t, cands, cands.len() as int)->0;
    assert(0 <= j < cands.len() && cands[j].entity == (find_step(ents, i).target->0).0->0
        && dist2_spec(cands[j].position, (e.aggro_location->0).0)
        <= (e.aggro_radius->0).0 * (e.aggro_radius->0).0
        && ((e.team->0 == cands[j].team) == (e.orders->0).target_same_team));
}

/// Pick the best target for every agent whose slot is empty.
pub fn find_targets(w: &mut World)
    requires
        old(w).wf(),
    ensures
        final(w).wf(),
        final(w)@.len() == old(w)@.len(),
        forall|i: int| 0 <= i < final(w)@.len() ==> final(w)@[i] == find_step(old(w)@, i),
        final(w).fx@ == old(w).fx@,
{
    let ghost orig = w@;
    let n: usize = w.ents.len();
    let (infos, grid) = build_target_index(w);
    proof {
        lemma_candidates_wf(orig, n as int);
    }
    let mut out: Vec<Ent> = Vec::new();
    let mut i: usize = 0;
    while i < n
        invariant
            w@ == orig,
            w.wf(),
            n == orig.len(),
            i <= n,
            out@.len() == i,
            infos@ == candidates_prefix(orig, n as int),
            grid_matches(grid_entries(grid), infos@),
            forall|q: int| 0 <= q < infos@.len() ==> #[trigger] wf_info(infos@[q]),
            forall|j: int| 0 <= j < i ==> out@[j] == find_step(orig, j),
            forall|j: int| 0 <= j < i ==> #[trigger] wf_ent(out@[j]),
        decreases n - i,
    {
        let e = w.ents[i];
        let mut upd = e;
        proof {
            assert(wf_ent(w@[i as int]));
        }
        if e.alive && e.aggro_location.is_some() && e.aggro_radius.is_some() && e.team.is_some()
            && e.orders.is_some() && e.target.is_some() && e.target.unwrap().0.is_none() {
            let t = Targetter {
                team: e.team.unwrap(),
                position: e.aggro_location.unwrap().0,
                orders: e.orders.unwrap(),
                radius: e.aggro_radius.unwrap().0,
            };
            proof {
                assert(t == targetter_of(orig[i as int]));
            }
            let min_cell = get_cell_coordinates(Vec3i {
                x: t.position.x - t.radius,
                y: t.position.y - t.radius,
                z: t.position.z,
            });
            let max_cell = get_cell_coordinates(Vec3i {
                x: t.position.x + t.radius,
                y: t.position.y + t.radius,
                z: t.position.z,
            });
            let cands = collect_candidates(&grid, &infos, min_cell, max_cell);
            proof {
                assert(cands@ == scan_cands(orig, orig[i as int]));
                lemma_rect_cands_wf(infos@, min_cell.0 as int, max_cell.0 + 1,
                    min_cell.1 as int, max_cell.1 + 1);
            }
            let chosen = select_target(&t, &cands);
            upd.target = Some(Target(chosen));
        }
        proof {
            assert(wf_ent(upd));
            assert(upd == find_step(orig, i as int));
        }
        out.push(upd);
        i = i + 1;
    }
    w.ents = out;
}

} // verus!