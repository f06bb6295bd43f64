//! The reveal engine: a breadth-first flood fill over covered cells. It
//! uncovers the clicked cell and, from empty cells, spreads to their
//! covered neighbors, stopping at numbered cells. An explicit work queue
//! with a duplicate guard keeps it iterative and terminating on any board.

use vstd::prelude::*;

use crate::counting::count_covered;
use crate::counting::count_flagged;
use crate::counting::count_flagged_mines;
use crate::counting::count_mines;
use crate::counting::lemma_counts_nonneg;
use crate::counting::lemma_counts_pointwise;
use crate::counting::lemma_counts_update;
use crate::grid::Cell;
use crate::grid::CellKind;
use crate::grid::CellState;
use crate::grid::Grid;
use crate::grid::Position;
use crate::grid::is_out_of_bounds;
use crate::grid::spec_adjacent;

verus! {

/// What a reveal command did. `Ignored` answers clicks that address no
/// covered cell; `MineHit` is the loss condition; `Cleared` carries every
/// coordinate the flood uncovered, and among them the numbered cells that
/// the caller may want to react to.
#[derive(Debug, PartialEq, Eq)]
pub enum RevealOutcome {
    MineHit,
    Cleared { uncovered: Vec<Position>, exposed: Vec<Position> },
    Ignored,
}

/// A reveal at `start` is a no-op: the click lands off the board or on a
/// cell that is not covered (already uncovered, or flagged).
pub open spec fn reveal_noop(g0: Grid, start: Position) -> bool {
    !g0.spec_in_bounds(start) || !(g0.spec_cell(start).state is Covered)
}

/// A chain of covered cells that the flood can walk: every cell on it is
/// on the board and covered, and every step leaves an empty cell for one
/// of its Moore neighbors.
pub open spec fn is_flood_path(g: Grid, path: Seq<Position>) -> bool {
    &&& path.len() >= 1
    &&& forall|i: int|
        0 <= i < path.len() ==> g.spec_in_bounds(#[trigger] path[i]) && g.spec_cell(
            path[i],
        ).state is Covered
    &&& forall|i: int|
        0 <= i < path.len() - 1 ==> (#[trigger] g.spec_cell(path[i])).kind is Empty
            && spec_adjacent(path[i], path[i + 1])
}

/// The flood started at `start` can walk to `q`.
pub open spec fn flood_reaches(g: Grid, start: Position, q: Position) -> bool {
    exists|path: Seq<Position>|
        is_flood_path(g, path) && path[0] == start && path.last() == q
}

/// Everything a successful non-mine reveal promises about the board `g1`
/// it leaves behind and the lists `u` (uncovered) and `e` (newly exposed
/// numbered cells) it reports: dimensions and every cell's content
/// survive; `start` is uncovered; each reported coordinate was a covered
/// cell and is reported once; exactly the reported cells changed, all to
/// `Uncovered`; every reported cell other than `start` touches an
/// uncovered empty cell, so the flood never crosses a numbered boundary
/// (and never uncovers a flagged cell, which is not covered); every
/// reported cell is reachable from `start` along covered cells that are
/// empty until the last step (the converse — everything reachable is
/// reported — is `lemma_flood_uncovers_all_reachable`); around an
/// uncovered empty cell no covered neighbor is left behind; a numbered
/// `start` uncovers nothing else; and `e` lists exactly the numbered
/// cells among `u`, each once.
pub open spec fn cleared_ok(
    g0: Grid,
    start: Position,
    g1: Grid,
    u: Seq<Position>,
    e: Seq<Position>,
) -> bool {
    &&& g1.width == g0.width
    &&& g1.height == g0.height
    &&& g1.mine_count == g0.mine_count
    &&& g1.cells@.len() == g0.cells@.len()
    &&& forall|j: int|
        0 <= j < g1.cells@.len() ==> (#[trigger] g1.cells@[j]).kind == g0.cells@[j].kind
    &&& u.contains(start)
    &&& forall|i: int, j: int| 0 <= i < j < u.len() ==> u[i] != u[j]
    &&& forall|q: Position|
        #[trigger] u.contains(q) ==> g0.spec_in_bounds(q) && g0.spec_cell(q).state is Covered
    &&& forall|q: Position|
        g0.spec_in_bounds(q) ==> (#[trigger] g1.spec_cell(q)).state == (if u.contains(q) {
            CellState::Uncovered
        } else {
            g0.spec_cell(q).state
        })
    &&& forall|q: Position|
        #[trigger] u.contains(q) && q != start ==> exists|r: Position|
            u.contains(r) && (#[trigger] g0.spec_cell(r)).kind is Empty && spec_adjacent(r, q)
    &&& forall|q: Position| #[trigger] u.contains(q) ==> flood_reaches(g0, start, q)
    &&& forall|q: Position, r: Position|
        u.contains(q) && (#[trigger] g0.spec_cell(q)).kind is Empty && g0.spec_in_bounds(r)
            && spec_adjacent(q, r) ==> !((#[trigger] g1.spec_cell(r)).state is Covered)
    &&& (g0.spec_cell(start).kind is MineNeighbor ==> u.len() == 1)
    &&& forall|q: Position|
        #[trigger] e.contains(q) <==> (u.contains(q) && g0.spec_cell(q).kind is MineNeighbor)
    &&& forall|i: int, j: int| 0 <= i < j < e.len() ==> e[i] != e[j]
}

/// On a board whose neighbor counts are honest, the flood fill uncovers
/// no mine: every uncovered cell other than a non-mine `start` touches an
/// uncovered empty cell, and a cell next to an empty cell — one with zero
/// adjacent mines — cannot be a mine.
pub proof fn lemma_flood_avoids_mines(
    g0: Grid,
    start: Position,
    g1: Grid,
    u: Seq<Position>,
    e: Seq<Position>,
)
    requires
        g0.wf(),
        g0.counts_consistent(),
        g0.spec_in_bounds(start),
        !(g0.spec_cell(start).kind is Mine),
        cleared_ok(g0, start, g1, u, e),
    ensures
        forall|q: Position| #[trigger] u.contains(q) ==> !(g0.spec_cell(q).kind is Mine),
{
    assert forall|q: Position| #[trigger] u.contains(q) implies !(g0.spec_cell(q).kind is Mine) by {
        if q != start && g0.spec_cell(q).kind is Mine {
            let r = choose|r: Position|
                u.contains(r) && (#[trigger] g0.spec_cell(r)).kind is Empty && spec_adjacent(r, q);
            assert(g0.spec_adjacent_mines(r) == 0);
            assert(g0.mine_at(q.x as int, q.y as int)) by {
                g0.lemma_xy_index_in_range(q.x as int, q.y as int);
                assert(g0.cells@[q.y as int * g0.width + q.x as int] == g0.spec_cell(q));
            }
            assert(crate::grid::spec_ind(g0.mine_at(q.x as int, q.y as int)) == 1);
            if q.x == r.x - 1 && q.y == r.y - 1 {
                assert(g0.mine_at(r.x - 1, r.y - 1));
            } else if q.x == r.x && q.y == r.y - 1 {
                assert(g0.mine_at(r.x as int, r.y - 1));
            } else if q.x == r.x + 1 && q.y == r.y - 1 {
                assert(g0.mine_at(r.x + 1, r.y - 1));
            } else if q.x == r.x + 1 && q.y == r.y {
                assert(g0.mine_at(r.x + 1, r.y as int));
            } else if q.x == r.x + 1 && q.y == r.y + 1 {
                assert(g0.mine_at(r.x + 1, r.y + 1));
            } else if q.x == r.x && q.y == r.y + 1 {
                assert(g0.mine_at(r.x as int, r.y + 1));
            } else if q.x == r.x - 1 && q.y == r.y + 1 {
                assert(g0.mine_at(r.x - 1, r.y + 1));
            } else {
                assert(q.x == r.x - 1 && q.y == r.y);
                assert(g0.mine_at(r.x - 1, r.y as int));
            }
            assert(g0.spec_adjacent_mines(r) >= 1);
        }
    }
}

/// Walking one more step of a flood path stays inside the uncovered
/// list: the induction behind `lemma_flood_uncovers_all_reachable`.
proof fn lemma_flood_path_prefix_in_u(
    g0: Grid,
    start: Position,
    g1: Grid,
    u: Seq<Position>,
    e: Seq<Position>,
    path: Seq<Position>,
    i: int,
)
    requires
        g0.wf(),
        cleared_ok(g0, start, g1, u, e),
        is_flood_path(g0, path),
        path[0] == start,
        0 <= i < path.len(),
    ensures
        u.contains(path[i]),
    decreases i,
{
    if i == 0 {
        assert(u.contains(start));
    } else {
        lemma_flood_path_prefix_in_u(g0, start, g1, u, e, path, i - 1);
        let p = path[i - 1];
        let r = path[i];
        assert(u.contains(p));
        assert(g0.spec_cell(p).kind is Empty);
        assert(spec_adjacent(p, r));
        assert(!(g1.spec_cell(r).state is Covered));
        if !u.contains(r) {
            assert(g1.spec_cell(r).state == g0.spec_cell(r).state);
            assert(g0.spec_cell(r).state is Covered);
        }
    }
}

/// The converse of the `flood_reaches` clause of `cleared_ok`: every cell
/// the flood could walk to from `start` is in the reported uncovered
/// list. Together the two pin that list down to exactly the reachable
/// cells.
pub proof fn lemma_flood_uncovers_all_reachable(
    g0: Grid,
    start: Position,
    g1: Grid,
    u: Seq<Position>,
    e: Seq<Position>,
    q: Position,
)
    requires
        g0.wf(),
        cleared_ok(g0, start, g1, u, e),
        flood_reaches(g0, start, q),
    ensures
        u.contains(q),
{
    let path = choose|path: Seq<Position>|
        is_flood_path(g0, path) && path[0] == start && path.last() == q;
    lemma_flood_path_prefix_in_u(g0, start, g1, u, e, path, path.len() - 1);
}

/// `r` sits in the still-unprocessed part of the work queue.
pub open spec fn in_active(q: Seq<Position>, head: int, r: Position) -> bool {
    exists|k: int| head <= k < q.len() && q[k] == r
}

/// Pushing onto a sequence adds exactly one member.
proof fn lemma_push_contains(s: Seq<Position>, x: Position)
    ensures
        forall|q: Position| #[trigger] s.push(x).contains(q) <==> (s.contains(q) || q == x),
{
    assert forall|q: Position| #[trigger] s.push(x).contains(q) implies (s.contains(q) || q
        == x) by {
        let k = choose|k: int| 0 <= k < s.push(x).len() && s.push(x)[k] == q;
        if k < s.len() {
            assert(s[k] == q);
        }
    }
    assert forall|q: Position| (s.contains(q) || q == x) implies #[trigger] s.push(x).contains(
        q,
    ) by {
        if s.contains(q) {
            let k = choose|k: int| 0 <= k < s.len() && s[k] == q;
            assert(s.push(x)[k] == q);
        } else {
            assert(s.push(x)[s.len() as int] == q);
        }
    }
}

/// Linear scan of the unprocessed tail of the work queue: the duplicate
/// guard of the flood fill.
fn contains_from(q: &Vec<Position>, from: usize, r: Position) -> (b: bool)
    requires
        from <= q@.len(),
    ensures
        b == in_active(q@, from as int, r),
{
    let mut k: usize = from;
    while k < q.len()
        invariant
            from <= k <= q@.len(),
            forall|m: int| from <= m < k ==> q@[m] != r,
        decreases q@.len() - k,
    {
        if q[k].x == r.x && q[k].y == r.y {
            assert(q@[k as int] == r);
            return true;
        }
        k = k + 1;
    }
    false
}

impl Grid {
    /// Reveal the cell at `start`. Off-board or non-covered targets are
    /// ignored and leave the board untouched. A covered mine is uncovered
    /// alone and reported as `MineHit`. Otherwise the flood fill runs and
    /// `Cleared` reports what it uncovered, as `cleared_ok` pins down.
    #[verifier::rlimit(100)]
    pub fn reveal_at(&mut self, start: Position) -> (out: RevealOutcome)
        requires
            old(self).wf(),
        ensures
            final(self).wf(),
            final(self).width == old(self).width,
            final(self).height == old(self).height,
            final(self).mine_count == old(self).mine_count,
            final(self).cells@.len() == old(self).cells@.len(),
            forall|j: int|
                0 <= j < final(self).cells@.len() ==> (#[trigger] final(self).cells@[j]).kind
                    == old(self).cells@[j].kind,
            count_mines(final(self).cells@) == count_mines(old(self).cells@),
            count_flagged(final(self).cells@) == count_flagged(old(self).cells@),
            count_flagged_mines(final(self).cells@) == count_flagged_mines(old(self).cells@),
            reveal_noop(*old(self), start) ==> (final(self).cells@ == old(self).cells@ && out
                is Ignored),
            !reveal_noop(*old(self), start) ==> !(out is Ignored),
            (!reveal_noop(*old(self), start) && old(self).spec_cell(start).kind is Mine) ==> (out
                is MineHit && final(self).cells@ == old(self).cells@.update(
                old(self).spec_index(start),
                (Cell { kind: old(self).spec_cell(start).kind, state: CellState::Uncovered }),
            )),
            (!reveal_noop(*old(self), start) && !(old(self).spec_cell(start).kind is Mine))
                ==> (out matches RevealOutcome::Cleared { uncovered, exposed } && cleared_ok(
                *old(self),
                start,
                *final(self),
                uncovered@,
                exposed@,
            )),
    {
        let ghost g0 = *self;
        if is_out_of_bounds(start, self.width, self.height) {
            return RevealOutcome::Ignored;
        }
        let c0 = *self.get(start);
        let covered = match c0.state {
            CellState::Covered => true,
            _ => false,
        };
        if !covered {
            return RevealOutcome::Ignored;
        }
        let mine = match c0.kind {
            CellKind::Mine => true,
            _ => false,
        };
        if mine {
            let ghost pre = *self;
            self.set_visibility(start, CellState::Uncovered);
            proof {
                pre.lemma_xy_index_in_range(start.x as int, start.y as int);
                lemma_counts_update(
                    pre.cells@,
                    pre.spec_index(start),
                    Cell { kind: pre.spec_cell(start).kind, state: CellState::Uncovered },
                );
            }
            return RevealOutcome::MineHit;
        }
        let mut uncovered: Vec<Position> = Vec::new();
        let mut exposed: Vec<Position> = Vec::new();
        let mut queue: Vec<Position> = Vec::new();
        queue.push(start);
        let mut head: usize = 0;
        proof {
            lemma_counts_nonneg(self.cells@);
            let path = seq![start];
            assert(is_flood_path(g0, path));
            assert(path[0] == start && path.last() == start);
            assert(flood_reaches(g0, start, start));
        }
        while head < queue.len()
            invariant
                self.wf(),
                g0.wf(),
                g0.spec_in_bounds(start),
                g0.spec_cell(start).state is Covered,
                !(g0.spec_cell(start).kind is Mine),
                self.width == g0.width,
                self.height == g0.height,
                self.mine_count == g0.mine_count,
                self.cells@.len() == g0.cells@.len(),
                forall|j: int|
                    0 <= j < self.cells@.len() ==> (#[trigger] self.cells@[j]).kind
                        == g0.cells@[j].kind,
                head <= queue@.len(),
                queue@[0] == start,
                queue@.len() >= 1,
                count_covered(self.cells@) >= 0,
                uncovered@.len() <= head,
                forall|k: int| 0 <= k < queue@.len() ==> g0.spec_in_bounds(#[trigger] queue@[k]),
                forall|k: int|
                    0 <= k < queue@.len() ==> (#[trigger] queue@[k] == start || exists|r: Position|
                        uncovered@.contains(r) && (#[trigger] g0.spec_cell(r)).kind is Empty
                            && spec_adjacent(r, queue@[k])),
                head >= 1 ==> uncovered@.contains(start),
                forall|i: int, j: int| 0 <= i < j < uncovered@.len() ==> uncovered@[i]
                    != uncovered@[j],
                forall|q: Position|
                    #[trigger] uncovered@.contains(q) ==> g0.spec_in_bounds(q) && g0.spec_cell(
                        q,
                    ).state is Covered,
                forall|q: Position|
                    g0.spec_in_bounds(q) ==> (#[trigger] self.spec_cell(q)).state == (
                    if uncovered@.contains(q) {
                        CellState::Uncovered
                    } else {
                        g0.spec_cell(q).state
                    }),
                forall|q: Position|
                    #[trigger] uncovered@.contains(q) && q != start ==> exists|r: Position|
                        uncovered@.contains(r) && (#[trigger] g0.spec_cell(r)).kind is Empty
                            && spec_adjacent(r, q),
                forall|k: int|
                    0 <= k < queue@.len() ==> flood_reaches(g0, start, #[trigger] queue@[k]),
                forall|q: Position|
                    #[trigger] uncovered@.contains(q) ==> flood_reaches(g0, start, q),
                forall|q: Position, r: Position|
                    uncovered@.contains(q) && (#[trigger] g0.spec_cell(q)).kind is Empty
                        && g0.spec_in_bounds(r) && spec_adjacent(q, r) ==> (!((
                    #[trigger] self.spec_cell(r)).state is Covered) || in_active(
                        queue@,
                        head as int,
                        r,
                    )),
                g0.spec_cell(start).kind is MineNeighbor ==> (queue@.len() == 1 && uncovered@.len()
                    == head),
                forall|q: Position|
                    #[trigger] exposed@.contains(q) <==> (uncovered@.contains(q) && g0.spec_cell(
                        q,
                    ).kind is MineNeighbor),
                forall|i: int, j: int| 0 <= i < j < exposed@.len() ==> exposed@[i] != exposed@[j],
            decreases count_covered(self.cells@), queue@.len() - head,
        {
            let ghost head0 = head as int;
            let ghost queue0 = queue@;
            let p = queue[head];
            head = head + 1;
            let cell = *self.get(p);
            let p_covered = match cell.state {
                CellState::Covered => true,
                _ => false,
            };
            if p_covered {
                proof {
                    assert(!uncovered@.contains(p));
                }
                let ghost pre = *self;
                self.set_visibility(p, CellState::Uncovered);
                let ghost u0 = uncovered@;
                uncovered.push(p);
                proof {
                    pre.lemma_xy_index_in_range(p.x as int, p.y as int);
                    lemma_counts_update(
                        pre.cells@,
                        pre.spec_index(p),
                        Cell { kind: pre.spec_cell(p).kind, state: CellState::Uncovered },
                    );
                    lemma_counts_nonneg(self.cells@);
                    lemma_push_contains(u0, p);
                    assert(uncovered@ == u0.push(p));
                    // the state of every cell but `p` is untouched
                    assert forall|q: Position|
                        g0.spec_in_bounds(q) implies (#[trigger] self.spec_cell(q)).state == (
                    if uncovered@.contains(q) {
                        CellState::Uncovered
                    } else {
                        g0.spec_cell(q).state
                    }) by {
                        g0.lemma_xy_index_in_range(q.x as int, q.y as int);
                        if q != p {
                            if pre.spec_index(q) == pre.spec_index(p) {
                                pre.lemma_index_injective(q, p);
                            }
                            assert(self.spec_cell(q) == pre.spec_cell(q));
                        }
                    }
                    // queued cells keep their justification in the grown list
                    assert forall|k: int|
                        0 <= k < queue@.len() implies (#[trigger] queue@[k] == start || exists|
                        r: Position,
                    |
                        uncovered@.contains(r) && (#[trigger] g0.spec_cell(r)).kind is Empty
                            && spec_adjacent(r, queue@[k])) by {
                        if queue@[k] != start {
                            let r0 = choose|r: Position|
                                u0.contains(r) && (#[trigger] g0.spec_cell(r)).kind is Empty
                                    && spec_adjacent(r, queue@[k]);
                            assert(uncovered@.contains(r0));
                        }
                    }
                    // `p` was queued, so it is reachable like the rest
                    assert(flood_reaches(g0, start, p)) by {
                        assert(queue0[head0] == p);
                    }
                    assert forall|q: Position|
                        #[trigger] uncovered@.contains(q) implies flood_reaches(g0, start, q) by {
                        if u0.contains(q) {
                        } else {
                            assert(q == p);
                        }
                    }
                    // `p` itself is justified by the queue invariant
                    assert forall|q: Position|
                        #[trigger] uncovered@.contains(q) && q != start implies exists|r: Position|
                        uncovered@.contains(r) && (#[trigger] g0.spec_cell(r)).kind is Empty
                            && spec_adjacent(r, q) by {
                        if u0.contains(q) {
                            let r0 = choose|r: Position|
                                u0.contains(r) && (#[trigger] g0.spec_cell(r)).kind is Empty
                                    && spec_adjacent(r, q);
                            assert(uncovered@.contains(r0));
                        } else {
                            assert(q == p);
                            assert(queue0[head0] == p);
                            let r0 = choose|r: Position|
                                u0.contains(r) && (#[trigger] g0.spec_cell(r)).kind is Empty
                                    && spec_adjacent(r, p);
                            assert(uncovered@.contains(r0));
                        }
                    }
                }
                if (match cell.kind {
                    CellKind::Empty => true,
                    _ => false,
                }) {
                    proof {
                        assert(!(g0.spec_cell(start).kind is MineNeighbor)) by {
                            if g0.spec_cell(start).kind is MineNeighbor {
                                assert(p == start);
                            }
                        }
                    }
                    let nbrs = self.neighbors(p);
                    proof {
                        // restore the frontier clause for the new head,
                        // with `p`'s own neighbors still to be walked
                        assert forall|q: Position, r: Position|
                            uncovered@.contains(q) && (#[trigger] g0.spec_cell(q)).kind is Empty
                                && g0.spec_in_bounds(r) && spec_adjacent(q, r) implies (!((
                        #[trigger] self.spec_cell(r)).state is Covered) || in_active(
                            queue@,
                            head as int,
                            r,
                        ) || (q == p && exists|m: int|
                            0 <= m < nbrs@.len() && nbrs@[m] == r && 0 <= m)) by {
                            if self.spec_cell(r).state is Covered {
                                if q == p {
                                    assert(nbrs@.contains(r));
                                    let m = choose|m: int| 0 <= m < nbrs@.len() && nbrs@[m] == r;
                                    assert(0 <= m < nbrs@.len() && nbrs@[m] == r && 0 <= m);
                                } else {
                                    assert(u0.contains(q));
                                    assert(pre.spec_cell(r).state is Covered);
                                    assert(in_active(queue0, head0, r));
                                    let m = choose|m: int|
                                        head0 <= m < queue0.len() && queue0[m] == r;
                                    if m == head0 {
                                        assert(r == p);
                                        assert(!(self.spec_cell(p).state is Covered));
                                    } else {
                                        assert(queue@[m] == r);
                                        assert(in_active(queue@, head as int, r));
                                    }
                                }
                            }
                        }
                    }
                    let mut t: usize = 0;
                    while t < nbrs.len()
                        invariant
                            self.wf(),
                            g0.wf(),
                            self.width == g0.width,
                            self.height == g0.height,
                            self.cells@.len() == g0.cells@.len(),
                            uncovered@.contains(p),
                            g0.spec_cell(p).kind is Empty,
                            flood_reaches(g0, start, p),
                            forall|q: Position|
                                g0.spec_in_bounds(q) ==> (#[trigger] self.spec_cell(q)).state == (
                                if uncovered@.contains(q) {
                                    CellState::Uncovered
                                } else {
                                    g0.spec_cell(q).state
                                }),
                            forall|k: int|
                                0 <= k < queue@.len() ==> flood_reaches(
                                    g0,
                                    start,
                                    #[trigger] queue@[k],
                                ),
                            forall|k: int|
                                0 <= k < nbrs@.len() ==> g0.spec_in_bounds(#[trigger] nbrs@[k])
                                    && spec_adjacent(p, nbrs@[k]),
                            t <= nbrs@.len(),
                            head <= queue@.len(),
                            queue@.len() >= 1,
                            queue@[0] == start,
                            forall|k: int|
                                0 <= k < queue@.len() ==> g0.spec_in_bounds(#[trigger] queue@[k]),
                            forall|k: int|
                                0 <= k < queue@.len() ==> (#[trigger] queue@[k] == start || exists|
                                r: Position,
                            |
                                uncovered@.contains(r) && (#[trigger] g0.spec_cell(
                                    r,
                                )).kind is Empty && spec_adjacent(r, queue@[k])),
                            forall|k: int|
                                0 <= k < t ==> (!((#[trigger] self.spec_cell(
                                    nbrs@[k],
                                )).state is Covered) || in_active(queue@, head as int, nbrs@[k])),
                            forall|q: Position, r: Position|
                                uncovered@.contains(q) && (#[trigger] g0.spec_cell(
                                    q,
                                )).kind is Empty && g0.spec_in_bounds(r) && spec_adjacent(q, r)
                                    ==> (!((#[trigger] self.spec_cell(r)).state is Covered)
                                    || in_active(queue@, head as int, r) || (q == p && exists|
                                    m: int,
                                |
                                    0 <= m < nbrs@.len() && nbrs@[m] == r && t <= m)),
                        decreases nbrs@.len() - t,
                    {
                        let r = nbrs[t];
                        let rc = *self.get(r);
                        let r_covered = match rc.state {
                            CellState::Covered => true,
                            _ => false,
                        };
                        let ghost q_before = queue@;
                        if r_covered {
                            if !contains_from(&queue, head, r) {
                                queue.push(r);
                                proof {
                                    assert forall|k: int|
                                        0 <= k < queue@.len() implies (#[trigger] queue@[k]
                                            == start || exists|rr: Position|
                                            uncovered@.contains(rr) && (#[trigger] g0.spec_cell(
                                                rr,
                                            )).kind is Empty && spec_adjacent(rr, queue@[k])) by {
                                        if k < q_before.len() {
                                            assert(queue@[k] == q_before[k]);
                                            if queue@[k] != start {
                                                let rr0 = choose|rr: Position|
                                                    uncovered@.contains(rr) && (
                                                    #[trigger] g0.spec_cell(rr)).kind is Empty
                                                        && spec_adjacent(rr, q_before[k]);
                                                assert(uncovered@.contains(rr0));
                                            }
                                        } else {
                                            assert(queue@[k] == r);
                                            assert(uncovered@.contains(p) && g0.spec_cell(
                                                p,
                                            ).kind is Empty && spec_adjacent(p, r));
                                        }
                                    }
                                    assert(queue@[queue@.len() - 1] == r);
                                    assert(in_active(queue@, head as int, r));
                                    // extend `p`'s flood path by one step to `r`
                                    assert(flood_reaches(g0, start, r)) by {
                                        assert(self.spec_cell(r).state is Covered);
                                        assert(!uncovered@.contains(r));
                                        assert(g0.spec_cell(r).state is Covered);
                                        let path0 = choose|path: Seq<Position>|
                                            is_flood_path(g0, path) && path[0] == start
                                                && path.last() == p;
                                        let path1 = path0.push(r);
                                        assert(spec_adjacent(p, nbrs@[t as int]));
                                        assert forall|i: int|
                                            0 <= i < path1.len() implies g0.spec_in_bounds(
                                            #[trigger] path1[i],
                                        ) && g0.spec_cell(path1[i]).state is Covered by {
                                            if i < path0.len() {
                                                assert(path1[i] == path0[i]);
                                            } else {
                                                assert(path1[i] == r);
                                            }
                                        }
                                        assert forall|i: int|
                                            0 <= i < path1.len() - 1 implies (
                                        #[trigger] g0.spec_cell(path1[i])).kind is Empty
                                            && spec_adjacent(path1[i], path1[i + 1]) by {
                                            if i < path0.len() - 1 {
                                                assert(path1[i] == path0[i]);
                                                assert(path1[i + 1] == path0[i + 1]);
                                            } else {
                                                assert(path1[i] == path0[path0.len() - 1]);
                                                assert(path0[path0.len() - 1] == path0.last());
                                                assert(path1[i] == p);
                                                assert(path1[i + 1] == r);
                                            }
                                        }
                                        assert(is_flood_path(g0, path1));
                                        assert(path1[0] == path0[0]);
                                        assert(path1.last() == r);
                                    }
                                    assert forall|k: int|
                                        0 <= k < queue@.len() implies flood_reaches(
                                        g0,
                                        start,
                                        #[trigger] queue@[k],
                                    ) by {
                                        if k < q_before.len() {
                                            assert(queue@[k] == q_before[k]);
                                        } else {
                                            assert(queue@[k] == r);
                                        }
                                    }
                                }
                            }
                        }
                        proof {
                            assert forall|k: int|
                                0 <= k < t + 1 implies (!((#[trigger] self.spec_cell(
                                nbrs@[k],
                            )).state is Covered) || in_active(queue@, head as int, nbrs@[k])) by {
                                if k < t {
                                    if in_active(q_before, head as int, nbrs@[k]) {
                                        let m = choose|m: int|
                                            head <= m < q_before.len() && q_before[m] == nbrs@[k];
                                        assert(queue@[m] == nbrs@[k]);
                                    }
                                } else {
                                    if r_covered {
                                        if in_active(q_before, head as int, r) {
                                            let m = choose|m: int|
                                                head <= m < q_before.len() && q_before[m] == r;
                                            assert(queue@[m] == r);
                                        }
                                    }
                                }
                            }
                            assert forall|q: Position, rr: Position|
                                uncovered@.contains(q) && (#[trigger] g0.spec_cell(
                                    q,
                                )).kind is Empty && g0.spec_in_bounds(rr) && spec_adjacent(q, rr)
                                    implies (!((#[trigger] self.spec_cell(rr)).state is Covered)
                                    || in_active(queue@, head as int, rr) || (q == p && exists|
                                    m: int,
                                |
                                    0 <= m < nbrs@.len() && nbrs@[m] == rr && t + 1 <= m)) by {
                                if self.spec_cell(rr).state is Covered {
                                    if in_active(q_before, head as int, rr) {
                                        let m = choose|m: int|
                                            head <= m < q_before.len() && q_before[m] == rr;
                                        assert(queue@[m] == rr);
                                    } else if q == p {
                                        let m = choose|m: int|
                                            0 <= m < nbrs@.len() && nbrs@[m] == rr && t <= m;
                                        if m == t {
                                            assert(rr == r);
                                            assert(in_active(queue@, head as int, r));
                                        } else {
                                            assert(0 <= m < nbrs@.len() && nbrs@[m] == rr && t + 1
                                                <= m);
                                        }
                                    }
                                }
                            }
                        }
                        t = t + 1;
                    }
                    proof {
                        assert forall|q: Position, r: Position|
                            uncovered@.contains(q) && (#[trigger] g0.spec_cell(q)).kind is Empty
                                && g0.spec_in_bounds(r) && spec_adjacent(q, r) implies (!((
                        #[trigger] self.spec_cell(r)).state is Covered) || in_active(
                            queue@,
                            head as int,
                            r,
                        )) by {
                            if self.spec_cell(r).state is Covered && q == p {
                                assert(nbrs@.contains(r));
                                let m = choose|m: int| 0 <= m < nbrs@.len() && nbrs@[m] == r;
                                assert(!((self.spec_cell(nbrs@[m])).state is Covered) || in_active(
                                    queue@,
                                    head as int,
                                    nbrs@[m],
                                ));
                            }
                        }
                    }
                } else {
                    let is_num = match cell.kind {
                        CellKind::MineNeighbor { .. } => true,
                        _ => false,
                    };
                    if is_num {
                        let ghost e0 = exposed@;
                        exposed.push(p);
                        proof {
                            lemma_push_contains(e0, p);
                            assert(exposed@ == e0.push(p));
                            assert(!e0.contains(p));
                        }
                    }
                    proof {
                        assert forall|q: Position, r: Position|
                            uncovered@.contains(q) && (#[trigger] g0.spec_cell(q)).kind is Empty
                                && g0.spec_in_bounds(r) && spec_adjacent(q, r) implies (!((
                        #[trigger] self.spec_cell(r)).state is Covered) || in_active(
                            queue@,
                            head as int,
                            r,
                        )) by {
                            if self.spec_cell(r).state is Covered {
                                assert(q != p);
                                assert(u0.contains(q));
                                g0.lemma_xy_index_in_range(r.x as int, r.y as int);
                                if pre.spec_index(r) == pre.spec_index(p) {
                                    pre.lemma_index_injective(r, p);
                                    assert(!(self.spec_cell(p).state is Covered));
                                }
                                assert(pre.spec_cell(r).state is Covered);
                                assert(in_active(queue0, head0, r));
                                let m = choose|m: int| head0 <= m < queue0.len() && queue0[m] == r;
                                if m == head0 {
                                    assert(r == p);
                                    assert(!(self.spec_cell(p).state is Covered));
                                } else {
                                    assert(queue@[m] == r);
                                    assert(in_active(queue@, head as int, r));
                                }
                            }
                        }
                    }
                }
            } else {
                proof {
                    assert forall|q: Position, r: Position|
                        uncovered@.contains(q) && (#[trigger] g0.spec_cell(q)).kind is Empty
                            && g0.spec_in_bounds(r) && spec_adjacent(q, r) implies (!((
                    #[trigger] self.spec_cell(r)).state is Covered) || in_active(
                        queue@,
                        head as int,
                        r,
                    )) by {
                        if self.spec_cell(r).state is Covered {
                            assert(in_active(queue0, head0, r));
                            let m = choose|m: int| head0 <= m < queue0.len() && queue0[m] == r;
                            if m == head0 {
                                assert(r == p);
                                assert(!(self.spec_cell(p).state is Covered));
                            } else {
                                assert(queue@[m] == r);
                                assert(in_active(queue@, head as int, r));
                            }
                        }
                    }
                }
            }
        }
        proof {
            assert(uncovered@.contains(start));
            assert forall|j: int|
                0 <= j < self.cells@.len() implies (((#[trigger] self.cells@[j]).kind is Mine
                <==> (#[trigger] g0.cells@[j]).kind is Mine) && (self.cells@[j].state is Flagged
                <==> g0.cells@[j].state is Flagged)) by {
                let q = g0.lemma_index_surjective(j);
                assert(self.spec_cell(q) == self.cells@[j]);
                assert(g0.spec_cell(q) == g0.cells@[j]);
            }
            lemma_counts_pointwise(self.cells@, g0.cells@);
        }
        RevealOutcome::Cleared { uncovered, exposed }
    }
}

} // verus!
