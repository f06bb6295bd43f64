//! The generator: scatters the requested number of mines over a fresh
//! board, then writes the neighbor-mine count into every remaining cell.
//! Placement draws without replacement from the pool of all coordinates,
//! so no coordinate can be picked twice; what the draw returns is up to
//! the random generator, but every outcome plants exactly `mine_count`
//! distinct mines.

use vstd::prelude::*;

use crate::counting::count_mines;
use crate::counting::lemma_counts_update;
use crate::counting::lemma_counts_zero;
use crate::grid::Cell;
use crate::grid::CellKind;
use crate::grid::CellState;
use crate::grid::Grid;
use crate::grid::Position;
use crate::grid::spec_kind_for;
use crate::rng::rng_below;

verus! {

/// Every cell still as `Grid::new` left it: empty content, covered.
pub open spec fn all_blank(g: Grid) -> bool {
    forall|j: int|
        0 <= j < g.cells@.len() ==> g.cells@[j] == (Cell {
            kind: CellKind::Empty,
            state: CellState::Covered,
        })
}

/// Plant exactly `mine_count` mines on a fresh board, each at a distinct
/// coordinate drawn from the pool of all coordinates. Visibility is
/// untouched; every other cell stays `Empty` for the neighbor pass.
///
/// Placement is unconditional and independent of any later reveal: this
/// game deliberately offers no first-click safety, so the very first
/// cell a player uncovers may be a mine.
pub fn place_mines(g: &mut Grid, rng: &mut rand::rngs::StdRng)
    requires
        old(g).wf(),
        all_blank(*old(g)),
    ensures
        final(g).wf(),
        final(g).width == old(g).width,
        final(g).height == old(g).height,
        final(g).mine_count == old(g).mine_count,
        forall|j: int|
            0 <= j < final(g).cells@.len() ==> (#[trigger] final(g).cells@[j]).state
                is Covered,
        forall|j: int|
            0 <= j < final(g).cells@.len() ==> ((#[trigger] final(g).cells@[j]).kind is Mine
                || final(g).cells@[j].kind is Empty),
        count_mines(final(g).cells@) == final(g).mine_count,
{
    let ghost g0 = *g;
    let n: usize = g.cells.len();
    let mut pool: Vec<Position> = Vec::new();
    let mut j: usize = 0;
    while j < n
        invariant
            *g == g0,
            g0.wf(),
            n == g0.cells@.len(),
            j <= n,
            pool@.len() == j,
            forall|k: int|
                0 <= k < j ==> g0.spec_in_bounds(#[trigger] pool@[k]) && g0.spec_index(pool@[k])
                    == k,
        decreases n - j,
    {
        let p = g.index_pos(j);
        pool.push(p);
        j = j + 1;
    }
    proof {
        assert forall|k: int, l: int| 0 <= k < l < pool@.len() implies pool@[k] != pool@[l] by {
            if pool@[k] == pool@[l] {
                assert(g0.spec_index(pool@[k]) == g0.spec_index(pool@[l]));
            }
        }
        lemma_counts_zero(g0.cells@);
    }
    let mut c: u32 = 0;
    while c < g.mine_count
        invariant
            g.wf(),
            g.width == g0.width,
            g.height == g0.height,
            g.mine_count == g0.mine_count,
            g.cells@.len() == g0.cells@.len(),
            n == g0.cells@.len(),
            c <= g.mine_count,
            pool@.len() == n - c,
            forall|k: int| 0 <= k < pool@.len() ==> g.spec_in_bounds(#[trigger] pool@[k]),
            forall|k: int, l: int| 0 <= k < l < pool@.len() ==> pool@[k] != pool@[l],
            forall|k: int|
                0 <= k < pool@.len() ==> !(g.cells@[g.spec_index(#[trigger] pool@[k])].kind
                    is Mine),
            forall|j: int|
                0 <= j < g.cells@.len() ==> (#[trigger] g.cells@[j]).state is Covered,
            forall|j: int|
                0 <= j < g.cells@.len() ==> ((#[trigger] g.cells@[j]).kind is Mine
                    || g.cells@[j].kind is Empty),
            count_mines(g.cells@) == c,
        decreases g.mine_count - c,
    {
        let i = rng_below(rng, pool.len());
        let p = pool[i];
        proof {
            assert(g.spec_in_bounds(p));
            assert(!(g.cells@[g.spec_index(p)].kind is Mine));
        }
        let ghost pool0 = pool@;
        pool.swap_remove(i);
        proof {
            assert(pool@ == pool0.update(i as int, pool0.last()).drop_last());
            assert forall|k: int|
                0 <= k < pool@.len() implies #[trigger] pool@[k] == (if k == i {
                pool0[pool0.len() - 1]
            } else {
                pool0[k]
            }) by {}
        }
        let ghost gpre = *g;
        g.set_content(p, CellKind::Mine);
        proof {
            gpre.lemma_xy_index_in_range(p.x as int, p.y as int);
            lemma_counts_update(
                gpre.cells@,
                gpre.spec_index(p),
                Cell { kind: CellKind::Mine, state: gpre.spec_cell(p).state },
            );
            assert forall|k: int|
                0 <= k < pool@.len() implies !(g.cells@[g.spec_index(
                #[trigger] pool@[k],
            )].kind is Mine) by {
                let m: int = if k == i {
                    pool0.len() - 1
                } else {
                    k
                };
                let q = pool0[m];
                assert(pool@[k] == q);
                assert(m != i);
                assert(q != pool0[i as int]);
                assert(gpre.spec_in_bounds(q));
                assert(!(gpre.cells@[gpre.spec_index(q)].kind is Mine));
                gpre.lemma_xy_index_in_range(q.x as int, q.y as int);
                if gpre.spec_index(q) == gpre.spec_index(p) {
                    gpre.lemma_index_injective(q, p);
                }
                assert(g.cells@[g.spec_index(q)] == gpre.cells@[gpre.spec_index(q)]);
            }
        }
        c = c + 1;
    }
}

/// Write the neighbor-mine count into every non-mine cell: `Neighbor`
/// content where at least one mine is adjacent, `Empty` otherwise. Runs
/// strictly after placement: it expects a board of mines and blanks only,
/// and it reads the finished mine layout while it writes the counts.
pub fn compute_neighbor_counts(g: &mut Grid)
    requires
        old(g).wf(),
        forall|j: int|
            0 <= j < old(g).cells@.len() ==> ((#[trigger] old(g).cells@[j]).kind is Mine
                || old(g).cells@[j].kind is Empty),
    ensures
        final(g).wf(),
        final(g).width == old(g).width,
        final(g).height == old(g).height,
        final(g).mine_count == old(g).mine_count,
        forall|j: int|
            0 <= j < final(g).cells@.len() ==> (#[trigger] final(g).cells@[j]).state == old(
                g,
            ).cells@[j].state,
        forall|j: int|
            0 <= j < final(g).cells@.len() ==> ((#[trigger] final(g).cells@[j]).kind is Mine
                <==> old(g).cells@[j].kind is Mine),
        count_mines(final(g).cells@) == count_mines(old(g).cells@),
        final(g).counts_consistent(),
{
    let ghost g0 = *g;
    let n: usize = g.cells.len();
    let mut j: usize = 0;
    while j < n
        invariant
            g.wf(),
            g0.wf(),
            g.width == g0.width,
            g.height == g0.height,
            g.mine_count == g0.mine_count,
            g.cells@.len() == n,
            g0.cells@.len() == n,
            j <= n,
            forall|k: int|
                0 <= k < n ==> ((#[trigger] g0.cells@[k]).kind is Mine || g0.cells@[k].kind
                    is Empty),
            forall|k: int| 0 <= k < n ==> (#[trigger] g.cells@[k]).state == g0.cells@[k].state,
            forall|k: int|
                0 <= k < n ==> ((#[trigger] g.cells@[k]).kind is Mine <==> g0.cells@[k].kind
                    is Mine),
            forall|k: int| j <= k < n ==> (#[trigger] g.cells@[k]).kind == g0.cells@[k].kind,
            forall|q: Position|
                g.spec_in_bounds(q) && g.spec_index(q) < j && !((#[trigger] g.spec_cell(
                    q,
                )).kind is Mine) ==> g.spec_cell(q).kind == spec_kind_for(
                    g.spec_adjacent_mines(q),
                ),
        decreases n - j,
    {
        let p = g.index_pos(j);
        let mine_here = match g.cells[j].kind {
            CellKind::Mine => true,
            _ => false,
        };
        if !mine_here {
            let m = g.count_adjacent_mines(p);
            let ghost gpre = *g;
            if m > 0 {
                g.set_content(p, CellKind::MineNeighbor { mines_count: m });
            }
            proof {
                assert forall|q: Position|
                    g.spec_in_bounds(q) && g.spec_index(q) < j + 1 && !((#[trigger] g.spec_cell(
                        q,
                    )).kind is Mine) implies g.spec_cell(q).kind == spec_kind_for(
                    g.spec_adjacent_mines(q),
                ) by {
                    g.lemma_adjacent_mines_agree(gpre, q);
                    g.lemma_xy_index_in_range(q.x as int, q.y as int);
                    if g.spec_index(q) == j {
                        gpre.lemma_index_injective(q, p);
                        assert(q == p);
                    } else {
                        assert(gpre.spec_cell(q) == g.spec_cell(q));
                        assert(gpre.spec_cell(q).kind == spec_kind_for(
                            gpre.spec_adjacent_mines(q),
                        ));
                    }
                }
            }
        } else {
            proof {
                assert forall|q: Position|
                    g.spec_in_bounds(q) && g.spec_index(q) < j + 1 && !((#[trigger] g.spec_cell(
                        q,
                    )).kind is Mine) implies g.spec_cell(q).kind == spec_kind_for(
                    g.spec_adjacent_mines(q),
                ) by {
                    g.lemma_xy_index_in_range(q.x as int, q.y as int);
                }
            }
        }
        j = j + 1;
    }
    proof {
        assert forall|q: Position|
            g.spec_in_bounds(q) && !((#[trigger] g.spec_cell(q)).kind is Mine) implies g.spec_cell(
            q,
        ).kind == spec_kind_for(g.spec_adjacent_mines(q)) by {
            g.lemma_xy_index_in_range(q.x as int, q.y as int);
        }
        crate::counting::lemma_counts_pointwise(g.cells@, g0.cells@);
    }
}

} // verus!
