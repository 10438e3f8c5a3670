//! The spatial target index: a uniform grid over the combat plane.
//!
//! Candidates are bucketed by integer cell coordinates into a multi-valued
//! map, rebuilt from scratch once per tick; a radius query walks the cells
//! of the bounding square, row-major. The over-approximation is deliberate:
//! precise circular containment is enforced by each candidate's own range
//! test during scoring.

use vstd::prelude::*;
use multimap::MultiMap;
use crate::category::AgentCategory;
use crate::geom::{Vec3i, STAT_LIMIT, div_floor, in_space};
use crate::world::{Ent, Team, World, wf_ent};

verus! {

/// Side length of one grid cell, in world units.
pub const HASH_CELL_SIZE: i64 = 50;

#[verifier::external_type_specification]
#[verifier::external_body]
#[verifier::reject_recursive_types(K)]
#[verifier::reject_recursive_types(V)]
#[verifier::reject_recursive_types(S)]
pub struct ExMultiMap<K, V, S>(MultiMap<K, V, S>);

/// Cell coordinates in the grid.
pub type GridCell = (i64, i64);

/// The grid type: candidate indices bucketed by cell.
pub type GridMap = MultiMap<GridCell, usize>;

/// What the grid holds: for each cell, the bucketed values in insertion
/// order.
pub uninterp spec fn grid_entries(m: GridMap) -> Map<GridCell, Seq<usize>>;

/// The empty grid contents.
pub open spec fn grid_empty() -> Map<GridCell, Seq<usize>> {
    Map::empty()
}

/// Relies on `multimap::MultiMap::new`: a fresh multimap has no entries.
#[verifier::external_body]
fn grid_new() -> (m: GridMap)
    ensures
        grid_entries(m) == grid_empty(),
{
    MultiMap::new()
}

/// Relies on `multimap::MultiMap::insert`: the value is pushed onto the
/// key's vector, which is created with this one element for a new key.
#[verifier::external_body]
fn grid_insert(m: &mut GridMap, k: GridCell, v: usize)
    ensures
        grid_entries(*final(m)) == grid_entries(*old(m)).insert(
            k,
            if grid_entries(*old(m)).dom().contains(k) {
                grid_entries(*old(m))[k].push(v)
            } else {
                seq![v]
            },
        ),
{
    m.insert(k, v)
}

/// Relies on `multimap::MultiMap::get_vec`: the vector bucketed under the
/// key, or nothing when the key was never inserted.
#[verifier::external_body]
fn grid_get<'a>(m: &'a GridMap, k: GridCell) -> (r: Option<&'a Vec<usize>>)
    ensures
        match r {
            Some(v) => grid_entries(*m).dom().contains(k) && v@ == grid_entries(*m)[k],
            None => !grid_entries(*m).dom().contains(k),
        },
{
    m.get_vec(&k)
}

/// One candidate target, flattened out of the world for scoring.
#[derive(Clone, Copy, PartialEq, Eq, Structural, Debug)]
pub struct TargetInformation {
    pub entity: usize,
    pub category: AgentCategory,
    pub health: i64,
    pub max_health: i64,
    pub position: Vec3i,
    pub team: Team,
}

pub open spec fn wf_info(c: TargetInformation) -> bool {
    in_space(c.position) && 1 <= c.max_health <= STAT_LIMIT
        && -STAT_LIMIT <= c.health <= STAT_LIMIT
}

/// The grid cell a position falls in: floor division of the planar
/// coordinates by the cell size.
pub open spec fn cell_of_spec(p: Vec3i) -> (i64, i64) {
    ((p.x as int / 50) as i64, (p.y as int / 50) as i64)
}

/// Convert a position to cell coordinates.
pub fn get_cell_coordinates(p: Vec3i) -> (r: (i64, i64))
    requires
        -2_000_000 <= p.x <= 2_000_000,
        -2_000_000 <= p.y <= 2_000_000,
    ensures
        r == cell_of_spec(p),
        -40_000 <= r.0 <= 40_000,
        -40_000 <= r.1 <= 40_000,
{
    proof {
        vstd::arithmetic::div_mod::lemma_div_is_ordered(-2_000_000, p.x as int, 50);
        vstd::arithmetic::div_mod::lemma_div_is_ordered(p.x as int, 2_000_000, 50);
        vstd::arithmetic::div_mod::lemma_div_is_ordered(-2_000_000, p.y as int, 50);
        vstd::arithmetic::div_mod::lemma_div_is_ordered(p.y as int, 2_000_000, 50);
    }
    (div_floor(p.x, HASH_CELL_SIZE), div_floor(p.y, HASH_CELL_SIZE))
}

/// Valid candidate targets carry a position, a team, a category and both
/// health figures.
pub open spec fn is_candidate(e: Ent) -> bool {
    e.alive && e.pose is Some && e.team is Some && e.category is Some && e.health is Some
        && e.max_health is Some
}

pub open spec fn info_of(ents: Seq<Ent>, i: int) -> TargetInformation {
    let e = ents[i];
    TargetInformation {
        entity: i as usize,
        category: e.category->0,
        health: (e.health->0).0,
        max_health: (e.max_health->0).0,
        position: (e.pose->0).position,
        team: e.team->0,
    }
}

/// The candidates among the first `k` entities, in entity order.
pub open spec fn candidates_prefix(ents: Seq<Ent>, k: int) -> Seq<TargetInformation>
    decreases k,
{
    if k <= 0 {
        Seq::<TargetInformation>::empty()
    } else {
        candidates_prefix(ents, k - 1) + if is_candidate(ents[k - 1]) {
            seq![info_of(ents, k - 1)]
        } else {
            Seq::<TargetInformation>::empty()
        }
    }
}

/// The indices, among the first `k` candidates, whose position falls in
/// cell `c`, in candidate order.
pub open spec fn indices_with_cell(infos: Seq<TargetInformation>, k: int, c: (i64, i64))
    -> Seq<usize>
    decreases k,
{
    if k <= 0 {
        Seq::<usize>::empty()
    } else {
        indices_with_cell(infos, k - 1, c) + if cell_of_spec(infos[k - 1].position) == c {
            seq![(k - 1) as usize]
        } else {
            Seq::<usize>::empty()
        }
    }
}

/// The grid describes exactly the candidate list: each present cell holds
/// the indices of the candidates bucketed there, and an absent cell has
/// none.
pub open spec fn grid_matches(entries: Map<GridCell, Seq<usize>>, infos: Seq<TargetInformation>)
    -> bool {
    forall|c: (i64, i64)|
        #![trigger entries.dom().contains(c)]
        #![trigger indices_with_cell(infos, infos.len() as int, c)]
        {
            &&& (entries.dom().contains(c) ==> entries[c] == indices_with_cell(
                infos,
                infos.len() as int,
                c,
            ))
            &&& (!entries.dom().contains(c) ==> indices_with_cell(
                infos,
                infos.len() as int,
                c,
            ).len() == 0)
        }
}

/// Appending a candidate extends exactly its own cell's index list.
proof fn lemma_iwc_push(infos: Seq<TargetInformation>, x: TargetInformation, k: int, c: (i64, i64))
    requires
        0 <= k <= infos.len(),
    ensures
        indices_with_cell(infos.push(x), k, c) == indices_with_cell(infos, k, c),
    decreases k,
{
    if k > 0 {
        lemma_iwc_push(infos, x, k - 1, c);
        assert(infos.push(x)[k - 1] == infos[k - 1]);
    }
}

/// Every index bucketed among the first `k` candidates is below `k`.
pub proof fn lemma_iwc_bounds(infos: Seq<TargetInformation>, k: int, c: (i64, i64))
    ensures
        forall|m: int|
            0 <= m < indices_with_cell(infos, k, c).len()
                ==> #[trigger] indices_with_cell(infos, k, c)[m] < k,
    decreases k,
{
    if k > 0 {
        lemma_iwc_bounds(infos, k - 1, c);
        let prev = indices_with_cell(infos, k - 1, c);
        let cur = indices_with_cell(infos, k, c);
        assert forall|m: int| 0 <= m < cur.len() implies #[trigger] cur[m] < k by {
            if m < prev.len() {
                assert(cur[m] == prev[m]);
            } else {
                assert(cell_of_spec(infos[k - 1].position) == c);
                assert(cur[m] == (k - 1) as usize);
            }
        }
    }
}

/// All candidates flattened from a well-formed world are well formed and
/// refer to entities of that world.
pub proof fn lemma_candidates_wf(ents: Seq<Ent>, k: int)
    requires
        k <= ents.len(),
        forall|m: int| 0 <= m < ents.len() ==> #[trigger] wf_ent(ents[m]),
    ensures
        forall|m: int|
            0 <= m < candidates_prefix(ents, k).len() ==> #[trigger] wf_info(
                candidates_prefix(ents, k)[m],
            ) && candidates_prefix(ents, k)[m].entity < ents.len(),
    decreases k,
{
    if k > 0 {
        lemma_candidates_wf(ents, k - 1);
        assert forall|m: int|
            0 <= m < candidates_prefix(ents, k).len() implies #[trigger] wf_info(
            candidates_prefix(ents, k)[m]) && candidates_prefix(ents, k)[m].entity
            < ents.len() by {
            let prev = candidates_prefix(ents, k - 1);
            if m < prev.len() {
                assert(candidates_prefix(ents, k)[m] == prev[m]);
                assert(wf_info(prev[m]) && prev[m].entity < ents.len());
            } else {
                assert(is_candidate(ents[k - 1]));
                assert(wf_ent(ents[k - 1]));
                assert(candidates_prefix(ents, k)[m] == info_of(ents, k - 1));
            }
        }
    }
}

/// Bucket every valid candidate of the world by grid cell. Returns the
/// flattened candidate list, in entity order, and the grid over it.
pub fn build_target_index(w: &World) -> (r: (Vec<TargetInformation>, GridMap))
    requires
        w.wf(),
    ensures
        r.0@ == candidates_prefix(w@, w@.len() as int),
        grid_matches(grid_entries(r.1), r.0@),
{
    let ghost orig = w@;
    let n: usize = w.ents.len();
    let mut infos: Vec<TargetInformation> = Vec::new();
    let mut grid: GridMap = grid_new();
    let mut i: usize = 0;
    proof {
        assert forall|c: (i64, i64)|
            #![trigger indices_with_cell(infos@, infos@.len() as int, c)]
            indices_with_cell(infos@, infos@.len() as int, c).len() == 0 by {
        }
    }
    while i < n
        invariant
            n == orig.len(),
            i <= n,
            w@ == orig,
            w.wf(),
            infos@ == candidates_prefix(orig, i as int),
            grid_matches(grid_entries(grid), infos@),
        decreases n - i,
    {
        let e = w.ents[i];
        proof {
            assert(wf_ent(w@[i as int]));
        }
        if e.alive && e.pose.is_some() && e.team.is_some() && e.category.is_some()
            && e.health.is_some() && e.max_health.is_some() {
            let info = TargetInformation {
                entity: i,
                category: e.category.unwrap(),
                health: e.health.unwrap().0,
                max_health: e.max_health.unwrap().0,
                position: e.pose.unwrap().position,
                team: e.team.unwrap(),
            };
            let idx: usize = infos.len();
            let cell = get_cell_coordinates(info.position);
            let ghost before = infos@;
            let ghost gbefore = grid_entries(grid);
            infos.push(info);
            grid_insert(&mut grid, cell, idx);
            proof {
                assert(info == info_of(orig, i as int));
                assert(infos@ =~= candidates_prefix(orig, i + 1));
                let gafter = grid_entries(grid);
                assert forall|c: (i64, i64)|
                    #![trigger gafter.dom().contains(c)]
                    #![trigger indices_with_cell(infos@, infos@.len() as int, c)]
                    {
                        &&& (gafter.dom().contains(c) ==> gafter[c] == indices_with_cell(
                            infos@,
                            infos@.len() as int,
                            c,
                        ))
                        &&& (!gafter.dom().contains(c) ==> indices_with_cell(
                            infos@,
                            infos@.len() as int,
                            c,
                        ).len() == 0)
                    } by {
                    lemma_iwc_push(before, info, before.len() as int, c);
                    assert(infos@ == before.push(info));
                    assert(infos@.len() == before.len() + 1);
                    assert(infos@[infos@.len() - 1] == info);
                    if c == cell {
                        assert(gafter.dom().contains(c));
                        assert(gafter[c] == if gbefore.dom().contains(cell) {
                            gbefore[cell].push(idx)
                        } else {
                            seq![idx]
                        });
                        if gbefore.dom().contains(cell) {
                            assert(gbefore[cell] == indices_with_cell(
                                before,
                                before.len() as int,
                                cell,
                            ));
                            assert(indices_with_cell(infos@, infos@.len() as int, c)
                                =~= indices_with_cell(before, before.len() as int, c).push(idx));
                        } else {
                            assert(indices_with_cell(before, before.len() as int, cell).len()
                                == 0);
                            assert(indices_with_cell(infos@, infos@.len() as int, c)
                                =~= seq![idx]);
                        }
                    } else {
                        assert(indices_with_cell(infos@, infos@.len() as int, c)
                            =~= indices_with_cell(before, before.len() as int, c));
                        assert(gafter.dom().contains(c) == gbefore.dom().contains(c));
                        if gafter.dom().contains(c) {
                            assert(gafter[c] == gbefore[c]);
                        }
                    }
                }
            }
        } else {
            proof {
                assert(infos@ =~= candidates_prefix(orig, i + 1));
            }
        }
        i = i + 1;
    }
    (infos, grid)
}

/// The candidates bucketed in cell `(x, y)`, in insertion order.
pub open spec fn cell_cands(infos: Seq<TargetInformation>, x: i64, y: i64)
    -> Seq<TargetInformation> {
    indices_with_cell(infos, infos.len() as int, (x, y)).map_values(
        |j: usize| infos[j as int],
    )
}

/// The candidates of one grid row restricted to columns `[y0, yend)`.
pub open spec fn row_cands(infos: Seq<TargetInformation>, x: i64, y0: int, yend: int)
    -> Seq<TargetInformation>
    decreases yend - y0,
{
    if y0 >= yend {
        Seq::<TargetInformation>::empty()
    } else {
        cell_cands(infos, x, y0 as i64) + row_cands(infos, x, y0 + 1, yend)
    }
}

/// The candidates of the cell rectangle `[x0, xend) x [y0, yend)`,
/// row-major: cells are walked in rows of increasing `y`, rows in order of
/// increasing `x`, and candidates within one cell in insertion order.
pub open spec fn rect_cands(infos: Seq<TargetInformation>, x0: int, xend: int, y0: int, yend: int)
    -> Seq<TargetInformation>
    decreases xend - x0,
{
    if x0 >= xend {
        Seq::<TargetInformation>::empty()
    } else {
        row_cands(infos, x0 as i64, y0, yend) + rect_cands(infos, x0 + 1, xend, y0, yend)
    }
}

proof fn lemma_row_cands_snoc(infos: Seq<TargetInformation>, x: i64, y0: int, yend: int)
    requires
        y0 <= yend,
    ensures
        row_cands(infos, x, y0, yend + 1) == row_cands(infos, x, y0, yend) + cell_cands(
            infos,
            x,
            yend as i64,
        ),
    decreases yend - y0,
{
    if y0 == yend {
        assert(row_cands(infos, x, yend + 1, yend + 1) =~= Seq::<TargetInformation>::empty());
        assert(row_cands(infos, x, y0, yend + 1) =~= row_cands(infos, x, y0, yend) + cell_cands(
            infos,
            x,
            yend as i64,
        ));
    } else {
        lemma_row_cands_snoc(infos, x, y0 + 1, yend);
        assert(row_cands(infos, x, y0, yend + 1) =~= row_cands(infos, x, y0, yend) + cell_cands(
            infos,
            x,
            yend as i64,
        ));
    }
}

proof fn lemma_rect_cands_snoc(infos: Seq<TargetInformation>, x0: int, xend: int, y0: int, yend: int)
    requires
        x0 <= xend,
    ensures
        rect_cands(infos, x0, xend + 1, y0, yend) == rect_cands(infos, x0, xend, y0, yend)
            + row_cands(infos, xend as i64, y0, yend),
    decreases xend - x0,
{
    if x0 == xend {
        assert(rect_cands(infos, xend + 1, xend + 1, y0, yend)
            =~= Seq::<TargetInformation>::empty());
        assert(rect_cands(infos, x0, xend + 1, y0, yend) =~= rect_cands(infos, x0, xend, y0, yend)
            + row_cands(infos, xend as i64, y0, yend));
    } else {
        lemma_rect_cands_snoc(infos, x0 + 1, xend, y0, yend);
        assert(rect_cands(infos, x0, xend + 1, y0, yend) =~= rect_cands(infos, x0, xend, y0, yend)
            + row_cands(infos, xend as i64, y0, yend));
    }
}

/// Gather the candidates of every cell in the rectangle spanned by the two
/// cell corners, inclusive, row-major.
pub fn collect_candidates(
    grid: &GridMap,
    infos: &Vec<TargetInformation>,
    min_cell: (i64, i64),
    max_cell: (i64, i64),
) -> (r: Vec<TargetInformation>)
    requires
        grid_matches(grid_entries(*grid), infos@),
        -40_000 <= min_cell.0 <= 40_000,
        -40_000 <= min_cell.1 <= 40_000,
        -40_000 <= max_cell.0 <= 40_000,
        -40_000 <= max_cell.1 <= 40_000,
    ensures
        r@ == rect_cands(
            infos@,
            min_cell.0 as int,
            max_cell.0 + 1,
            min_cell.1 as int,
            max_cell.1 + 1,
        ),
{
    let mut acc: Vec<TargetInformation> = Vec::new();
    if max_cell.0 < min_cell.0 || max_cell.1 < min_cell.1 {
        proof {
            if max_cell.0 < min_cell.0 {
                assert(rect_cands(infos@, min_cell.0 as int, max_cell.0 + 1, min_cell.1 as int,
                    max_cell.1 + 1) =~= Seq::<TargetInformation>::empty());
            } else {
                lemma_rect_empty_rows(infos@, min_cell.0 as int, max_cell.0 + 1,
                    min_cell.1 as int, max_cell.1 + 1);
                assert(rect_cands(infos@, min_cell.0 as int, max_cell.0 + 1, min_cell.1 as int,
                    max_cell.1 + 1) =~= Seq::<TargetInformation>::empty());
            }
        }
        return acc;
    }
    let mut x: i64 = min_cell.0;
    while x <= max_cell.0
        invariant
            min_cell.0 <= x <= max_cell.0 + 1,
            max_cell.0 <= 40_000,
            min_cell.1 <= max_cell.1,
            -40_000 <= min_cell.1,
            max_cell.1 <= 40_000,
            grid_matches(grid_entries(*grid), infos@),
            acc@ == rect_cands(infos@, min_cell.0 as int, x as int, min_cell.1 as int,
                max_cell.1 + 1),
        decreases max_cell.0 + 1 - x,
    {
        let mut y: i64 = min_cell.1;
        while y <= max_cell.1
            invariant
                min_cell.1 <= y <= max_cell.1 + 1,
                max_cell.1 <= 40_000,
                grid_matches(grid_entries(*grid), infos@),
                acc@ == rect_cands(infos@, min_cell.0 as int, x as int, min_cell.1 as int,
                    max_cell.1 + 1) + row_cands(infos@, x, min_cell.1 as int, y as int),
            decreases max_cell.1 + 1 - y,
        {
            let ghost rect_done = rect_cands(infos@, min_cell.0 as int, x as int,
                min_cell.1 as int, max_cell.1 + 1);
            let ghost row_done = row_cands(infos@, x, min_cell.1 as int, y as int);
            match grid_get(grid, (x, y)) {
                Some(v) => {
                    proof {
                        assert(v@ == indices_with_cell(infos@, infos@.len() as int, (x, y)));
                        lemma_iwc_bounds(infos@, infos@.len() as int, (x, y));
                    }
                    let m: usize = v.len();
                    let mut jj: usize = 0;
                    while jj < m
                        invariant
                            jj <= m,
                            m == v@.len(),
                            v@ == indices_with_cell(infos@, infos@.len() as int, (x, y)),
                            forall|q: int|
                                0 <= q < v@.len() ==> #[trigger] v@[q] < infos@.len(),
                            acc@ == rect_done + row_done + v@.subrange(0, jj as int).map_values(
                                |j: usize| infos@[j as int],
                            ),
                        decreases m - jj,
                    {
                        let idx: usize = v[jj];
                        acc.push(infos[idx]);
                        proof {
                            assert(v@.subrange(0, jj + 1)
                                =~= v@.subrange(0, jj as int).push(v@[jj as int]));
                            assert(v@.subrange(0, jj + 1).map_values(|j: usize| infos@[j as int])
                                =~= v@.subrange(0, jj as int).map_values(
                                |j: usize| infos@[j as int],
                            ).push(infos@[v@[jj as int] as int]));
                        }
                        jj = jj + 1;
                    }
                    proof {
                        assert(v@.subrange(0, m as int) =~= v@);
                        assert(cell_cands(infos@, x, y) == v@.map_values(
                            |j: usize| infos@[j as int],
                        ));
                        lemma_row_cands_snoc(infos@, x, min_cell.1 as int, y as int);
                        assert(acc@ =~= rect_done + row_cands(infos@, x, min_cell.1 as int,
                            y + 1));
                    }
                },
                None => {
                    proof {
                        assert(indices_with_cell(infos@, infos@.len() as int, (x, y)).len() == 0);
                        assert(cell_cands(infos@, x, y).len() == 0);
                        lemma_row_cands_snoc(infos@, x, min_cell.1 as int, y as int);
                        assert(acc@ =~= rect_done + row_cands(infos@, x, min_cell.1 as int,
                            y + 1));
                    }
                },
            }
            y = y + 1;
        }
        proof {
            lemma_rect_cands_snoc(infos@, min_cell.0 as int, x as int, min_cell.1 as int,
                max_cell.1 + 1);
            assert(acc@ =~= rect_cands(infos@, min_cell.0 as int, x + 1, min_cell.1 as int,
                max_cell.1 + 1));
        }
        x = x + 1;
    }
    acc
}

/// Every candidate gathered from one cell is one of the flattened
/// candidates.
pub proof fn lemma_cell_cands_wf(infos: Seq<TargetInformation>, x: i64, y: i64)
    requires
        forall|q: int| 0 <= q < infos.len() ==> #[trigger] wf_info(infos[q]),
    ensures
        forall|m: int|
            0 <= m < cell_cands(infos, x, y).len() ==> #[trigger] wf_info(
                cell_cands(infos, x, y)[m],
            ),
{
    lemma_iwc_bounds(infos, infos.len() as int, (x, y));
    assert forall|m: int|
        0 <= m < cell_cands(infos, x, y).len() implies #[trigger] wf_info(
        cell_cands(infos, x, y)[m]) by {
        let idx = indices_with_cell(infos, infos.len() as int, (x, y))[m];
        assert(idx < infos.len());
        assert(cell_cands(infos, x, y)[m] == infos[idx as int]);
    }
}

/// Every candidate gathered from one row is well formed.
pub proof fn lemma_row_cands_wf(infos: Seq<TargetInformation>, x: i64, y0: int, yend: int)
    requires
        forall|q: int| 0 <= q < infos.len() ==> #[trigger] wf_info(infos[q]),
    ensures
        forall|m: int|
            0 <= m < row_cands(infos, x, y0, yend).len() ==> #[trigger] wf_info(
                row_cands(infos, x, y0, yend)[m],
            ),
    decreases yend - y0,
{
    if y0 < yend {
        lemma_cell_cands_wf(infos, x, y0 as i64);
        lemma_row_cands_wf(infos, x, y0 + 1, yend);
        assert forall|m: int|
            0 <= m < row_cands(infos, x, y0, yend).len() implies #[trigger] wf_info(
            row_cands(infos, x, y0, yend)[m]) by {
            let head = cell_cands(infos, x, y0 as i64);
            if m < head.len() {
                assert(row_cands(infos, x, y0, yend)[m] == head[m]);
            } else {
                assert(row_cands(infos, x, y0, yend)[m] == row_cands(infos, x, y0 + 1, yend)[
                    m - head.len()
                ]);
            }
        }
    }
}

/// Every candidate gathered from a cell rectangle is well formed.
pub proof fn lemma_rect_cands_wf(infos: Seq<TargetInformation>, x0: int, xend: int, y0: int,
    yend: int)
    requires
        forall|q: int| 0 <= q < infos.len() ==> #[trigger] wf_info(infos[q]),
    ensures
        forall|m: int|
            0 <= m < rect_cands(infos, x0, xend, y0, yend).len() ==> #[trigger] wf_info(
                rect_cands(infos, x0, xend, y0, yend)[m],
            ),
    decreases xend - x0,
{
    if x0 < xend {
        lemma_row_cands_wf(infos, x0 as i64, y0, yend);
        lemma_rect_cands_wf(infos, x0 + 1, xend, y0, yend);
        assert forall|m: int|
            0 <= m < rect_cands(infos, x0, xend, y0, yend).len() implies #[trigger] wf_info(
            rect_cands(infos, x0, xend, y0, yend)[m]) by {
            let head = row_cands(infos, x0 as i64, y0, yend);
            if m < head.len() {
                assert(rect_cands(infos, x0, xend, y0, yend)[m] == head[m]);
            } else {
                assert(rect_cands(infos, x0, xend, y0, yend)[m] == rect_cands(infos, x0 + 1,
                    xend, y0, yend)[m - head.len()]);
            }
        }
    }
}

/// A rectangle with no columns gathers nothing, whatever its rows.
proof fn lemma_rect_empty_rows(infos: Seq<TargetInformation>, x0: int, xend: int, y0: int,
    yend: int)
    requires
        yend <= y0,
    ensures
        rect_cands(infos, x0, xend, y0, yend).len() == 0,
    decreases xend - x0,
{
    if x0 < xend {
        lemma_rect_empty_rows(infos, x0 + 1, xend, y0, yend);
    }
}

} // verus!