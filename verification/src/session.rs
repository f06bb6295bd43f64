//! The game session: board, counters and the `Loading -> InGame ->
//! Win | Loss` state machine, driven by reveal and flag-toggle commands.
//! `Win` and `Loss` are terminal; commands submitted there are refused.

use vstd::prelude::*;

use crate::counting::count_flagged;
use crate::counting::count_flagged_mines;
use crate::counting::count_mines;
use crate::counting::lemma_counts_zero;
use crate::flags::FlagOutcome;
use crate::flags::GameCounters;
use crate::flags::toggle_flag;
use crate::flags::toggle_spec;
use crate::generate::compute_neighbor_counts;
use crate::generate::place_mines;
use crate::grid::Cell;
use crate::grid::CellKind;
use crate::grid::CellState;
use crate::grid::GameError;
use crate::grid::Grid;
use crate::grid::Position;
use crate::grid::spec_kind_for;
use crate::reveal_engine::RevealOutcome;
use crate::reveal_engine::cleared_ok;
use crate::reveal_engine::reveal_noop;
use crate::rng::random_seed;
use crate::rng::rng_from_seed;

verus! {

/// Where a session stands. It is created `Loading`, enters `InGame` once
/// the generator has populated the board, and ends in `Win` (every mine
/// flagged) or `Loss` (a mine revealed); the two ends are terminal.
#[derive(Clone, Copy, Debug, PartialEq, Eq, Structural)]
pub enum GameState {
    Loading,
    InGame,
    Win,
    Loss,
}

/// One cell as the rendering layer may see it: its visibility, and its
/// content only once uncovered. Covered and flagged cells keep their
/// secret.
#[derive(Clone, Copy, Debug, PartialEq, Eq)]
pub struct CellView {
    pub visibility: CellState,
    pub content: Option<CellKind>,
}

/// The view of one cell.
pub open spec fn spec_view_of(c: Cell) -> CellView {
    CellView {
        visibility: c.state,
        content: if c.state is Uncovered {
            Some(c.kind)
        } else {
            None
        },
    }
}

/// A whole game: the board, the counters, the configured flag budget and
/// the state machine around them.
pub struct GameSession {
    pub grid: Grid,
    pub counters: GameCounters,
    pub flag_budget: u32,
    pub state: GameState,
}

impl GameSession {
    /// The session invariant: a well-formed, fully generated board
    /// (exactly `mine_count` mines, honest neighbor counts), and counters
    /// that are bookkeeping for it — flags spent plus flags left equal
    /// the budget, and `remaining_mines` is the number of unflagged
    /// mines.
    pub open spec fn wf(self) -> bool {
        &&& self.grid.wf()
        &&& count_mines(self.grid.cells@) == self.grid.mine_count
        &&& self.grid.counts_consistent()
        &&& self.counters.remaining_flags as int + count_flagged(self.grid.cells@)
            == self.flag_budget
        &&& self.counters.remaining_mines as int == count_mines(self.grid.cells@)
            - count_flagged_mines(self.grid.cells@)
    }

    /// Create a session: build the board, scatter the mines (from the
    /// given seed, or a fresh random one), write the neighbor counts,
    /// reset the counters, and enter play. Fails only on a configuration
    /// the board refuses.
    pub fn start_session(
        width: u32,
        height: u32,
        mine_count: u32,
        flag_budget: u32,
        seed: Option<u64>,
    ) -> (r: Result<GameSession, GameError>)
        requires
            width * height <= usize::MAX,
            width <= i32::MAX,
            height <= i32::MAX,
        ensures
            r is Ok <==> (width >= 1 && height >= 1 && mine_count < width * height),
            r matches Err(e) ==> e == GameError::InvalidConfiguration,
            r matches Ok(s) ==> ({
                &&& s.wf()
                &&& s.state is InGame
                &&& s.grid.width == width
                &&& s.grid.height == height
                &&& s.grid.mine_count == mine_count
                &&& s.flag_budget == flag_budget
                &&& s.counters.remaining_flags == flag_budget
                &&& s.counters.remaining_mines == mine_count
                &&& forall|j: int|
                    0 <= j < s.grid.cells@.len() ==> (#[trigger] s.grid.cells@[j]).state
                        is Covered
            }),
    {
        let mut grid = match Grid::new(width, height, mine_count) {
            Ok(g) => g,
            Err(e) => { return Err(e) },
        };
        let seed_val = match seed {
            Some(s) => s,
            None => random_seed(),
        };
        let mut rng = rng_from_seed(seed_val);
        place_mines(&mut grid, &mut rng);
        compute_neighbor_counts(&mut grid);
        proof {
            lemma_counts_zero(grid.cells@);
        }
        Ok(
            GameSession {
                grid,
                counters: GameCounters::new(flag_budget, mine_count),
                flag_budget,
                state: GameState::InGame,
            },
        )
    }

    /// Submit a reveal. Refused with `GameOver` outside play. In play the
    /// board changes exactly as the reveal engine promises, the counters
    /// stay put, and hitting a mine — the sole loss condition — moves the
    /// session to `Loss`.
    pub fn submit_reveal(&mut self, pos: Position) -> (r: Result<RevealOutcome, GameError>)
        requires
            old(self).wf(),
        ensures
            final(self).wf(),
            final(self).flag_budget == old(self).flag_budget,
            final(self).grid.width == old(self).grid.width,
            final(self).grid.height == old(self).grid.height,
            final(self).grid.mine_count == old(self).grid.mine_count,
            !(old(self).state is InGame) ==> (final(self).grid.cells@ == old(self).grid.cells@
                && final(self).counters == old(self).counters && final(self).state == old(self).state && r == Err::<RevealOutcome, GameError>(GameError::GameOver)),
            old(self).state is InGame ==> ({
                &&& r matches Ok(out)
                &&& final(self).counters == old(self).counters
                &&& (reveal_noop(old(self).grid, pos) ==> (final(self).grid.cells@ == old(self).grid.cells@ && out is Ignored))
                &&& !reveal_noop(old(self).grid, pos) ==> !(out is Ignored)
                &&& ((!reveal_noop(old(self).grid, pos) && old(self).grid.spec_cell(
                    pos,
                ).kind is Mine) ==> (out is MineHit && final(self).grid.cells@ == old(self).grid.cells@.update(
                    old(self).grid.spec_index(pos),
                    (Cell {
                        kind: old(self).grid.spec_cell(pos).kind,
                        state: CellState::Uncovered,
                    }),
                )))
                &&& ((!reveal_noop(old(self).grid, pos) && !(old(self).grid.spec_cell(
                    pos,
                ).kind is Mine)) ==> (out matches RevealOutcome::Cleared { uncovered, exposed }
                    && cleared_ok(
                    old(self).grid,
                    pos,
                    final(self).grid,
                    uncovered@,
                    exposed@,
                )))
                &&& (out is MineHit ==> final(self).state is Loss)
                &&& (!(out is MineHit) ==> final(self).state == old(self).state)
            }),
    {
        match self.state {
            GameState::InGame => {},
            _ => { return Err(GameError::GameOver) },
        }
        let ghost g_old = self.grid;
        let out = self.grid.reveal_at(pos);
        proof {
            assert forall|q: Position|
                self.grid.spec_in_bounds(q) && !((#[trigger] self.grid.spec_cell(
                    q,
                )).kind is Mine) implies self.grid.spec_cell(q).kind == spec_kind_for(
                self.grid.spec_adjacent_mines(q),
            ) by {
                self.grid.lemma_adjacent_mines_agree(g_old, q);
                g_old.lemma_xy_index_in_range(q.x as int, q.y as int);
                assert(g_old.spec_cell(q).kind == self.grid.spec_cell(q).kind);
            }
        }
        let hit = match out {
            RevealOutcome::MineHit => true,
            _ => false,
        };
        if hit {
            self.state = GameState::Loss;
        }
        Ok(out)
    }

    /// Submit a flag toggle. Refused with `GameOver` outside play. In
    /// play the cell and counters move exactly as `toggle_spec` says, and
    /// a successful toggle that brings `remaining_mines` to zero — every
    /// mine flagged — wins the game.
    pub fn submit_flag_toggle(&mut self, pos: Position) -> (r: Result<FlagOutcome, GameError>)
        requires
            old(self).wf(),
        ensures
            final(self).wf(),
            final(self).flag_budget == old(self).flag_budget,
            final(self).grid.width == old(self).grid.width,
            final(self).grid.height == old(self).grid.height,
            final(self).grid.mine_count == old(self).grid.mine_count,
            !(old(self).state is InGame) ==> (final(self).grid.cells@ == old(self).grid.cells@
                && final(self).counters == old(self).counters && final(self).state == old(self).state && r == Err::<FlagOutcome, GameError>(GameError::GameOver)),
            old(self).state is InGame ==> ({
                &&& r matches Ok(out)
                &&& toggle_spec(
                    old(self).grid,
                    old(self).counters,
                    pos,
                    final(self).grid,
                    final(self).counters,
                    out,
                )
                &&& ((out is Toggled && final(self).counters.remaining_mines == 0) ==> final(self).state is Win)
                &&& (!(out is Toggled && final(self).counters.remaining_mines == 0) ==> final(self).state == old(self).state)
            }),
    {
        match self.state {
            GameState::InGame => {},
            _ => { return Err(GameError::GameOver) },
        }
        let ghost g_old = self.grid;
        let out = toggle_flag(&mut self.grid, &mut self.counters, pos);
        proof {
            assert forall|q: Position|
                self.grid.spec_in_bounds(q) && !((#[trigger] self.grid.spec_cell(
                    q,
                )).kind is Mine) implies self.grid.spec_cell(q).kind == spec_kind_for(
                self.grid.spec_adjacent_mines(q),
            ) by {
                self.grid.lemma_adjacent_mines_agree(g_old, q);
                g_old.lemma_xy_index_in_range(q.x as int, q.y as int);
                assert(g_old.spec_cell(q).kind == self.grid.spec_cell(q).kind);
            }
        }
        let toggled = match out {
            FlagOutcome::Toggled { .. } => true,
            _ => false,
        };
        if toggled && self.counters.remaining_mines == 0 {
            self.state = GameState::Win;
        }
        Ok(out)
    }

    /// The session as the rendering layer consumes it: the machine state,
    /// one `CellView` per cell in row-major order, and the counters.
    pub fn current_state(&self) -> (r: (GameState, Vec<CellView>, GameCounters))
        requires
            self.grid.wf(),
        ensures
            r.0 == self.state,
            r.2 == self.counters,
            r.1@.len() == self.grid.cells@.len(),
            forall|j: int|
                0 <= j < r.1@.len() ==> #[trigger] r.1@[j] == spec_view_of(self.grid.cells@[j]),
    {
        let n: usize = self.grid.cells.len();
        let mut views: Vec<CellView> = Vec::new();
        let mut j: usize = 0;
        while j < n
            invariant
                j <= n,
                n == self.grid.cells@.len(),
                views@.len() == j,
                forall|k: int|
                    0 <= k < j ==> #[trigger] views@[k] == spec_view_of(self.grid.cells@[k]),
            decreases n - j,
        {
            let c = self.grid.cells[j];
            let content = match c.state {
                CellState::Uncovered => Some(c.kind),
                _ => None,
            };
            views.push(CellView { visibility: c.state, content });
            j = j + 1;
        }
        (self.state, views, self.counters)
    }
}

} // verus!
