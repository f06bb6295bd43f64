//! The board data model: coordinates, cells, the grid itself, and the
//! Moore-neighborhood arithmetic shared by the generator and the reveal
//! engine.

use vstd::prelude::*;

verus! {

/// A grid coordinate. `(0, 0)` is a corner; `x` grows along a row and `y`
/// across rows. Values outside `[0, width) x [0, height)` are legal to write
/// down (clicks may land off the board) but address no cell.
#[derive(Clone, Copy, Debug, PartialEq, Eq, Hash, Structural)]
pub struct Position {
    pub x: i32,
    pub y: i32,
}

/// What a player action may do to a cell's visibility. Every cell starts
/// `Covered`; only `Covered` cells are ever uncovered or flagged, and a
/// flag is only ever lifted back to `Covered`.
#[derive(Clone, Copy, Debug, PartialEq, Eq, Structural)]
pub enum CellState {
    Covered,
    Uncovered,
    Flagged,
}

/// What a cell holds, fixed at generation time: a mine, nothing, or the
/// number of mines among its up-to-8 neighbors (`mines_count` is between
/// 1 and 8; a cell with no adjacent mine stays `Empty`).
#[derive(Clone, Copy, Debug, PartialEq, Eq, Structural)]
pub enum CellKind {
    Empty,
    Mine,
    MineNeighbor { mines_count: u8 },
}

/// One cell of the board: fixed content plus current visibility.
#[derive(Clone, Copy, Debug, PartialEq, Eq, Structural)]
pub struct Cell {
    pub kind: CellKind,
    pub state: CellState,
}

/// Why a command was refused. `InvalidConfiguration` is fatal at session
/// creation; the others are per-command rejections surfaced to the caller.
#[derive(Clone, Copy, Debug, PartialEq, Eq, Structural)]
pub enum GameError {
    /// Zero width or height, or at least as many mines as cells.
    InvalidConfiguration,
    /// The coordinate addresses no cell on the board.
    OutOfBounds,
    /// The flag budget is exhausted and the command would plant a new flag.
    NoFlagsRemaining,
    /// The cell is already uncovered and cannot be flagged.
    CellUncovered,
    /// The session has ended in a win or a loss.
    GameOver,
}

/// Two distinct coordinates within Chebyshev distance 1 of each other:
/// `b` is one of the up-to-8 Moore neighbors of `a`.
pub open spec fn spec_adjacent(a: Position, b: Position) -> bool {
    &&& !(a.x == b.x && a.y == b.y)
    &&& -1 <= b.x - a.x <= 1
    &&& -1 <= b.y - a.y <= 1
}

/// True when `pos` lies outside a grid of `max_x` columns and `max_y` rows.
pub fn is_out_of_bounds(pos: Position, max_x: u32, max_y: u32) -> (r: bool)
    ensures
        r == !(0 <= pos.x < max_x && 0 <= pos.y < max_y),
{
    (pos.x as i64) < 0 || (pos.x as i64) > (max_x as i64) - 1 || (pos.y as i64) < 0
        || (pos.y as i64) > (max_y as i64) - 1
}

/// The board: a dense row-major grid of cells together with its
/// dimensions and the number of mines the generator is asked to place.
/// The cell for `(x, y)` sits at index `y * width + x`.
#[derive(Debug, PartialEq, Eq)]
pub struct Grid {
    pub width: u32,
    pub height: u32,
    pub mine_count: u32,
    pub cells: Vec<Cell>,
}

/// The content a non-mine cell must hold when `n` of its neighbors are
/// mines: `Empty` for zero, otherwise the count itself.
pub open spec fn spec_kind_for(n: int) -> CellKind {
    if n == 0 {
        CellKind::Empty
    } else {
        CellKind::MineNeighbor { mines_count: n as u8 }
    }
}

/// 1 when the condition holds, 0 otherwise; the unit of mine counting.
pub open spec fn spec_ind(b: bool) -> int {
    if b {
        1
    } else {
        0
    }
}

impl Grid {
    /// A board is well formed when it has at least one cell, fewer mines
    /// than cells, one cell slot per coordinate, and dimensions small
    /// enough that every cell is addressable by an `i32` coordinate and a
    /// `usize` index.
    pub open spec fn wf(self) -> bool {
        &&& self.width >= 1
        &&& self.height >= 1
        &&& self.width <= i32::MAX
        &&& self.height <= i32::MAX
        &&& self.mine_count < self.width * self.height
        &&& self.width * self.height <= usize::MAX
        &&& self.cells@.len() == self.width * self.height
    }

    /// `p` addresses a cell of this board.
    pub open spec fn spec_in_bounds(self, p: Position) -> bool {
        &&& 0 <= p.x < self.width
        &&& 0 <= p.y < self.height
    }

    /// The slot of `cells` that holds the cell for `p`.
    pub open spec fn spec_index(self, p: Position) -> int {
        p.y * self.width + p.x
    }

    /// The cell at `p`.
    pub open spec fn spec_cell(self, p: Position) -> Cell
        recommends
            self.wf(),
            self.spec_in_bounds(p),
    {
        self.cells@[self.spec_index(p)]
    }

    /// There is a mine at column `x`, row `y`; false off the board, so the
    /// neighbor sum below clips itself at the edges.
    pub open spec fn mine_at(self, x: int, y: int) -> bool {
        &&& 0 <= x < self.width
        &&& 0 <= y < self.height
        &&& self.cells@[y * self.width + x].kind is Mine
    }

    /// The number of mine cells in the Moore neighborhood of `p`, clipped
    /// to the board: the count that a `MineNeighbor` cell must carry.
    pub open spec fn spec_adjacent_mines(self, p: Position) -> int {
        spec_ind(self.mine_at(p.x - 1, p.y - 1)) + spec_ind(self.mine_at(p.x as int, p.y - 1))
            + spec_ind(self.mine_at(p.x + 1, p.y - 1)) + spec_ind(
            self.mine_at(p.x + 1, p.y as int),
        ) + spec_ind(self.mine_at(p.x + 1, p.y + 1)) + spec_ind(
            self.mine_at(p.x as int, p.y + 1),
        ) + spec_ind(self.mine_at(p.x - 1, p.y + 1)) + spec_ind(self.mine_at(p.x - 1, p.y as int))
    }

    /// Row-major indexing stays inside the cell vector, and the partial
    /// product already does.
    pub proof fn lemma_xy_index_in_range(self, x: int, y: int)
        requires
            self.wf(),
            0 <= x < self.width,
            0 <= y < self.height,
        ensures
            0 <= y * self.width + x < self.cells@.len(),
            0 <= y * self.width <= y * self.width + x,
            self.width <= usize::MAX,
            self.height <= usize::MAX,
    {
        assert(0 <= y * self.width && y * self.width + x < self.width * self.height
            && self.width <= self.width * self.height && self.height <= self.width * self.height)
            by (nonlinear_arith)
            requires
                0 <= x < self.width,
                0 <= y < self.height,
                self.width >= 1,
                self.height >= 1,
        ;
    }

    /// Row-major indexing is injective on in-bounds coordinates.
    pub proof fn lemma_index_injective(self, p: Position, q: Position)
        requires
            self.wf(),
            self.spec_in_bounds(p),
            self.spec_in_bounds(q),
            self.spec_index(p) == self.spec_index(q),
        ensures
            p == q,
    {
        assert(p.y == q.y && p.x == q.x) by (nonlinear_arith)
            requires
                0 <= p.x < self.width,
                0 <= q.x < self.width,
                0 <= p.y,
                0 <= q.y,
                p.y * self.width + p.x == q.y * self.width + q.x,
        ;
    }

    /// The slot of `cells` that holds the cell for `p`.
    fn idx(&self, p: Position) -> (r: usize)
        requires
            self.wf(),
            self.spec_in_bounds(p),
        ensures
            r == self.spec_index(p),
            r < self.cells@.len(),
    {
        proof {
            self.lemma_xy_index_in_range(p.x as int, p.y as int);
        }
        (p.y as usize) * (self.width as usize) + (p.x as usize)
    }

    /// A fresh board: every cell `Empty` and `Covered`. Refused when a
    /// dimension is zero or the mines would not leave a single free cell.
    pub fn new(width: u32, height: u32, mine_count: u32) -> (r: Result<Grid, GameError>)
        requires
            width * height <= usize::MAX,
            width <= i32::MAX,
            height <= i32::MAX,
        ensures
            r is Ok <==> (width >= 1 && height >= 1 && mine_count < width * height),
            r matches Err(e) ==> e == GameError::InvalidConfiguration,
            r matches Ok(g) ==> ({
                &&& g.wf()
                &&& g.width == width
                &&& g.height == height
                &&& g.mine_count == mine_count
                &&& forall|j: int|
                    0 <= j < g.cells@.len() ==> g.cells@[j] == (Cell {
                        kind: CellKind::Empty,
                        state: CellState::Covered,
                    })
            }),
    {
        if width == 0 || height == 0 {
            return Err(GameError::InvalidConfiguration);
        }
        let n: usize = (width as usize) * (height as usize);
        if mine_count as usize >= n {
            return Err(GameError::InvalidConfiguration);
        }
        let mut cells: Vec<Cell> = Vec::new();
        let mut i: usize = 0;
        while i < n
            invariant
                i <= n,
                cells@.len() == i,
                forall|j: int|
                    0 <= j < i ==> cells@[j] == (Cell {
                        kind: CellKind::Empty,
                        state: CellState::Covered,
                    }),
            decreases n - i,
        {
            cells.push(Cell { kind: CellKind::Empty, state: CellState::Covered });
            i = i + 1;
        }
        Ok(Grid { width, height, mine_count, cells })
    }

    /// Read the cell at `p`.
    pub fn get(&self, p: Position) -> (r: &Cell)
        requires
            self.wf(),
            self.spec_in_bounds(p),
        ensures
            *r == self.spec_cell(p),
    {
        let i = self.idx(p);
        &self.cells[i]
    }

    /// Overwrite the content of the cell at `p`, keeping its visibility.
    /// Used only while the generator populates a fresh board.
    pub fn set_content(&mut self, p: Position, kind: CellKind)
        requires
            old(self).wf(),
            old(self).spec_in_bounds(p),
        ensures
            final(self).width == old(self).width,
            final(self).height == old(self).height,
            final(self).mine_count == old(self).mine_count,
            final(self).wf(),
            final(self).cells@ == old(self).cells@.update(
                old(self).spec_index(p),
                (Cell { kind, state: old(self).spec_cell(p).state }),
            ),
    {
        let i = self.idx(p);
        let state = self.cells[i].state;
        self.cells.set(i, Cell { kind, state });
    }

    /// Overwrite the visibility of the cell at `p`, keeping its content.
    pub fn set_visibility(&mut self, p: Position, state: CellState)
        requires
            old(self).wf(),
            old(self).spec_in_bounds(p),
        ensures
            final(self).width == old(self).width,
            final(self).height == old(self).height,
            final(self).mine_count == old(self).mine_count,
            final(self).wf(),
            final(self).cells@ == old(self).cells@.update(
                old(self).spec_index(p),
                (Cell { kind: old(self).spec_cell(p).kind, state }),
            ),
    {
        let i = self.idx(p);
        let kind = self.cells[i].kind;
        self.cells.set(i, Cell { kind, state });
    }

    /// The Moore neighbors of `p` that lie on the board: between 3 (in a
    /// corner) and 8 of them, each exactly once, in no promised order.
    pub fn neighbors(&self, p: Position) -> (r: Vec<Position>)
        requires
            self.wf(),
            self.spec_in_bounds(p),
        ensures
            forall|i: int|
                0 <= i < r@.len() ==> self.spec_in_bounds(#[trigger] r@[i]) && spec_adjacent(
                    p,
                    r@[i],
                ),
            forall|i: int, j: int| 0 <= i < j < r@.len() ==> r@[i] != r@[j],
            forall|q: Position|
                self.spec_in_bounds(q) && spec_adjacent(p, q) ==> #[trigger] r@.contains(q),
    {
        let raw = calc_pos_neighbors(p);
        let mut out: Vec<Position> = Vec::new();
        let mut i: usize = 0;
        while i < 8
            invariant
                raw@.len() == 8,
                forall|m: int| 0 <= m < 8 ==> spec_adjacent(p, #[trigger] raw@[m]),
                forall|m: int, n: int| 0 <= m < n < 8 ==> raw@[m] != raw@[n],
                i <= 8,
                forall|k: int|
                    0 <= k < out@.len() ==> self.spec_in_bounds(#[trigger] out@[k])
                        && spec_adjacent(p, out@[k]),
                forall|k: int, l: int| 0 <= k < l < out@.len() ==> out@[k] != out@[l],
                forall|k: int|
                    0 <= k < out@.len() ==> exists|m: int|
                        0 <= m < i && raw@[m] == #[trigger] out@[k],
                forall|m: int|
                    0 <= m < i && self.spec_in_bounds(#[trigger] raw@[m]) ==> out@.contains(
                        raw@[m],
                    ),
            decreases 8 - i,
        {
            let q = raw[i];
            let ghost out0 = out@;
            if !is_out_of_bounds(q, self.width, self.height) {
                proof {
                    assert forall|k: int| 0 <= k < out0.len() implies out0[k] != raw@[i as int] by {
                        let m = choose|m: int| 0 <= m < i && raw@[m] == out0[k];
                        assert(raw@[m] != raw@[i as int]);
                    }
                }
                out.push(q);
                proof {
                    assert(out@ == out0.push(q));
                    assert(out@[out0.len() as int] == q);
                    assert forall|m: int|
                        0 <= m < i + 1 && self.spec_in_bounds(#[trigger] raw@[m]) implies out@
                        .contains(raw@[m]) by {
                        if m < i {
                            let k = choose|k: int| 0 <= k < out0.len() && out0[k] == raw@[m];
                            assert(out@[k] == raw@[m]);
                        } else {
                            assert(out@[out0.len() as int] == raw@[m]);
                        }
                    }
                }
            } else {
                proof {
                    assert forall|m: int|
                        0 <= m < i + 1 && self.spec_in_bounds(#[trigger] raw@[m]) implies out@
                        .contains(raw@[m]) by {
                        if m == i {
                            assert(!self.spec_in_bounds(raw@[m]));
                        }
                    }
                }
            }
            i = i + 1;
        }
        proof {
            assert forall|q: Position|
                self.spec_in_bounds(q) && spec_adjacent(p, q) implies #[trigger] out@.contains(
                q,
            ) by {
                assert(raw@.contains(q));
                let m = choose|m: int| 0 <= m < raw@.len() && raw@[m] == q;
                assert(out@.contains(raw@[m]));
            }
        }
        out
    }

    /// The count promised by `spec_adjacent_mines`, computed by probing
    /// the eight surrounding coordinates.
    pub fn count_adjacent_mines(&self, p: Position) -> (r: u8)
        requires
            self.wf(),
            self.spec_in_bounds(p),
        ensures
            r == self.spec_adjacent_mines(p),
            r <= 8,
    {
        let x = p.x as i64;
        let y = p.y as i64;
        let mut n: u8 = 0;
        if self.has_mine(x - 1, y - 1) {
            n = n + 1;
        }
        if self.has_mine(x, y - 1) {
            n = n + 1;
        }
        if self.has_mine(x + 1, y - 1) {
            n = n + 1;
        }
        if self.has_mine(x + 1, y) {
            n = n + 1;
        }
        if self.has_mine(x + 1, y + 1) {
            n = n + 1;
        }
        if self.has_mine(x, y + 1) {
            n = n + 1;
        }
        if self.has_mine(x - 1, y + 1) {
            n = n + 1;
        }
        if self.has_mine(x - 1, y) {
            n = n + 1;
        }
        n
    }

    /// The generator has done its work: every cell that is not a mine
    /// carries exactly the content that its surrounding mine count calls
    /// for.
    pub open spec fn counts_consistent(self) -> bool {
        forall|q: Position|
            self.spec_in_bounds(q) && !((#[trigger] self.spec_cell(q)).kind is Mine)
                ==> self.spec_cell(q).kind == spec_kind_for(self.spec_adjacent_mines(q))
    }

    /// Whether a coordinate holds a mine depends only on the mine layout,
    /// so two boards with the same layout agree on it.
    pub proof fn lemma_mine_at_agree(self, other: Grid, x: int, y: int)
        requires
            self.wf(),
            other.width == self.width,
            other.height == self.height,
            other.cells@.len() == self.cells@.len(),
            forall|k: int|
                0 <= k < self.cells@.len() ==> ((#[trigger] self.cells@[k]).kind is Mine
                    <==> other.cells@[k].kind is Mine),
        ensures
            self.mine_at(x, y) == other.mine_at(x, y),
    {
        if 0 <= x < self.width && 0 <= y < self.height {
            self.lemma_xy_index_in_range(x, y);
            assert(self.cells@[y * self.width + x].kind is Mine <==> other.cells@[y * self.width
                + x].kind is Mine);
        }
    }

    /// The neighbor-mine count likewise depends only on the mine layout.
    pub proof fn lemma_adjacent_mines_agree(self, other: Grid, p: Position)
        requires
            self.wf(),
            other.width == self.width,
            other.height == self.height,
            other.cells@.len() == self.cells@.len(),
            forall|k: int|
                0 <= k < self.cells@.len() ==> ((#[trigger] self.cells@[k]).kind is Mine
                    <==> other.cells@[k].kind is Mine),
        ensures
            self.spec_adjacent_mines(p) == other.spec_adjacent_mines(p),
    {
        self.lemma_mine_at_agree(other, p.x - 1, p.y - 1);
        self.lemma_mine_at_agree(other, p.x as int, p.y - 1);
        self.lemma_mine_at_agree(other, p.x + 1, p.y - 1);
        self.lemma_mine_at_agree(other, p.x + 1, p.y as int);
        self.lemma_mine_at_agree(other, p.x + 1, p.y + 1);
        self.lemma_mine_at_agree(other, p.x as int, p.y + 1);
        self.lemma_mine_at_agree(other, p.x - 1, p.y + 1);
        self.lemma_mine_at_agree(other, p.x - 1, p.y as int);
    }

    /// Every slot of `cells` is addressed by some in-bounds coordinate:
    /// the ghost counterpart of `index_pos`.
    pub proof fn lemma_index_surjective(self, j: int) -> (q: Position)
        requires
            self.wf(),
            0 <= j < self.cells@.len(),
        ensures
            self.spec_in_bounds(q),
            self.spec_index(q) == j,
    {
        let w = self.width as int;
        vstd::arithmetic::div_mod::lemma_fundamental_div_mod(j, w);
        vstd::arithmetic::div_mod::lemma_mod_bound(j, w);
        let x = j % w;
        let y = j / w;
        assert(0 <= y < self.height) by (nonlinear_arith)
            requires
                j == w * y + x,
                0 <= x < w,
                0 <= j < w * self.height,
                w >= 1,
        ;
        assert(y * w + x == j) by (nonlinear_arith)
            requires
                j == w * y + x,
        ;
        let q = Position { x: x as i32, y: y as i32 };
        q
    }

    /// The coordinate whose cell sits at slot `j`: row-major indexing run
    /// backwards.
    pub fn index_pos(&self, j: usize) -> (p: Position)
        requires
            self.wf(),
            j < self.cells@.len(),
        ensures
            self.spec_in_bounds(p),
            self.spec_index(p) == j,
    {
        let w = self.width as usize;
        let x = j % w;
        let y = j / w;
        proof {
            vstd::arithmetic::div_mod::lemma_fundamental_div_mod(j as int, w as int);
            vstd::arithmetic::div_mod::lemma_mod_bound(j as int, w as int);
            assert(j as int == w * (j as int / w as int) + j as int % w as int);
            assert(y < self.height) by (nonlinear_arith)
                requires
                    j as int == self.width * y + x,
                    0 <= x < self.width,
                    0 <= y,
                    j < self.width * self.height,
            ;
            assert(y as int * self.width + x == j) by (nonlinear_arith)
                requires
                    j as int == self.width * y + x,
            ;
        }
        Position { x: x as i32, y: y as i32 }
    }

    /// Bounds-checked mine probe behind `mine_at`.
    fn has_mine(&self, x: i64, y: i64) -> (r: bool)
        requires
            self.wf(),
        ensures
            r == self.mine_at(x as int, y as int),
    {
        if x >= 0 && x < self.width as i64 && y >= 0 && y < self.height as i64 {
            proof {
                self.lemma_xy_index_in_range(x as int, y as int);
            }
            let i = (y as usize) * (self.width as usize) + (x as usize);
            match self.cells[i].kind {
                CellKind::Mine => true,
                _ => false,
            }
        } else {
            false
        }
    }
}

/// The 8 Moore neighbors of `pos`, unclipped: callers bounds-check each
/// entry themselves. The result holds exactly the adjacent coordinates,
/// each once.
pub fn calc_pos_neighbors(pos: Position) -> (r: Vec<Position>)
    requires
        i32::MIN < pos.x < i32::MAX,
        i32::MIN < pos.y < i32::MAX,
    ensures
        r@.len() == 8,
        forall|i: int| 0 <= i < 8 ==> spec_adjacent(pos, #[trigger] r@[i]),
        forall|i: int, j: int| 0 <= i < j < 8 ==> r@[i] != r@[j],
        forall|q: Position| spec_adjacent(pos, q) ==> #[trigger] r@.contains(q),
{
    let mut r: Vec<Position> = Vec::new();
    r.push(Position { x: pos.x - 1, y: pos.y - 1 });
    r.push(Position { x: pos.x, y: pos.y - 1 });
    r.push(Position { x: pos.x + 1, y: pos.y - 1 });
    r.push(Position { x: pos.x + 1, y: pos.y });
    r.push(Position { x: pos.x + 1, y: pos.y + 1 });
    r.push(Position { x: pos.x, y: pos.y + 1 });
    r.push(Position { x: pos.x - 1, y: pos.y + 1 });
    r.push(Position { x: pos.x - 1, y: pos.y });
    proof {
        assert forall|q: Position| spec_adjacent(pos, q) implies #[trigger] r@.contains(q) by {
            if q.y == pos.y - 1 {
                if q.x == pos.x - 1 {
                    assert(r@[0] == q);
                } else if q.x == pos.x {
                    assert(r@[1] == q);
                } else {
                    assert(r@[2] == q);
                }
            } else if q.y == pos.y {
                if q.x == pos.x + 1 {
                    assert(r@[3] == q);
                } else {
                    assert(r@[7] == q);
                }
            } else {
                if q.x == pos.x + 1 {
                    assert(r@[4] == q);
                } else if q.x == pos.x {
                    assert(r@[5] == q);
                } else {
                    assert(r@[6] == q);
                }
            }
        }
    }
    r
}

} // verus!
