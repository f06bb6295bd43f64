//! The flag controller: plants or lifts a flag on a single cell while
//! keeping the two session counters honest. `remaining_flags` tracks the
//! unspent flag budget; `remaining_mines` tracks how many mines are still
//! unflagged, the quantity whose reaching zero wins the game.

use vstd::prelude::*;

use crate::counting::count_flagged;
use crate::counting::count_flagged_mines;
use crate::counting::count_mines;
use crate::counting::lemma_count_flagged_pos;
use crate::counting::lemma_counts_update;
use crate::counting::lemma_flagged_mines_vs_mines;
use crate::grid::Cell;
use crate::grid::CellState;
use crate::grid::GameError;
use crate::grid::Grid;
use crate::grid::Position;
use crate::grid::is_out_of_bounds;

verus! {

/// The session counters. `remaining_flags` starts at the flag budget and
/// falls while flags are planted; `remaining_mines` starts at the mine
/// count and falls as mines are (tentatively) flagged.
#[derive(Clone, Copy, Debug, PartialEq, Eq, Structural)]
pub struct GameCounters {
    pub remaining_flags: u32,
    pub remaining_mines: u32,
}

impl GameCounters {
    /// Fresh counters for a board with the given budget and mine count.
    pub fn new(flag_budget: u32, mine_count: u32) -> (c: GameCounters)
        ensures
            c.remaining_flags == flag_budget,
            c.remaining_mines == mine_count,
    {
        GameCounters { remaining_flags: flag_budget, remaining_mines: mine_count }
    }
}

/// What a flag command did: the cell's new visibility, or why the command
/// was refused.
#[derive(Clone, Copy, Debug, PartialEq, Eq, Structural)]
pub enum FlagOutcome {
    Toggled { new_state: CellState },
    Rejected { reason: GameError },
}

/// The full effect of one flag toggle, case by case: off-board clicks and
/// uncovered cells are rejected without any change; planting a flag needs
/// budget and moves the cell to `Flagged`, paying one flag and crediting
/// one mine if the cell hides one; lifting a flag refunds both.
pub open spec fn toggle_spec(
    g0: Grid,
    c0: GameCounters,
    pos: Position,
    g1: Grid,
    c1: GameCounters,
    out: FlagOutcome,
) -> bool {
    if !g0.spec_in_bounds(pos) {
        &&& g1.cells@ == g0.cells@
        &&& c1 == c0
        &&& out == (FlagOutcome::Rejected { reason: GameError::OutOfBounds })
    } else if g0.spec_cell(pos).state is Covered {
        if c0.remaining_flags == 0 {
            &&& g1.cells@ == g0.cells@
            &&& c1 == c0
            &&& out == (FlagOutcome::Rejected { reason: GameError::NoFlagsRemaining })
        } else {
            &&& g1.cells@ == g0.cells@.update(
                g0.spec_index(pos),
                (Cell { kind: g0.spec_cell(pos).kind, state: CellState::Flagged }),
            )
            &&& c1.remaining_flags == c0.remaining_flags - 1
            &&& c1.remaining_mines as int == (if g0.spec_cell(pos).kind is Mine {
                c0.remaining_mines - 1
            } else {
                c0.remaining_mines as int
            })
            &&& out == (FlagOutcome::Toggled { new_state: CellState::Flagged })
        }
    } else if g0.spec_cell(pos).state is Flagged {
        &&& g1.cells@ == g0.cells@.update(
            g0.spec_index(pos),
            (Cell { kind: g0.spec_cell(pos).kind, state: CellState::Covered }),
        )
        &&& c1.remaining_flags == c0.remaining_flags + 1
        &&& c1.remaining_mines as int == (if g0.spec_cell(pos).kind is Mine {
            c0.remaining_mines + 1
        } else {
            c0.remaining_mines as int
        })
        &&& out == (FlagOutcome::Toggled { new_state: CellState::Covered })
    } else {
        &&& g1.cells@ == g0.cells@
        &&& c1 == c0
        &&& out == (FlagOutcome::Rejected { reason: GameError::CellUncovered })
    }
}

/// Toggle the flag on the cell at `pos`, as `toggle_spec` pins down. The
/// counters must be coherent with the board on entry (as a session keeps
/// them) and are coherent again on exit.
pub fn toggle_flag(g: &mut Grid, counters: &mut GameCounters, pos: Position) -> (out: FlagOutcome)
    requires
        old(g).wf(),
        old(counters).remaining_flags as int + count_flagged(old(g).cells@) <= u32::MAX,
        old(counters).remaining_mines as int == count_mines(old(g).cells@) - count_flagged_mines(
            old(g).cells@,
        ),
        count_mines(old(g).cells@) == old(g).mine_count,
    ensures
        final(g).wf(),
        final(g).width == old(g).width,
        final(g).height == old(g).height,
        final(g).mine_count == old(g).mine_count,
        forall|j: int|
            0 <= j < final(g).cells@.len() ==> (#[trigger] final(g).cells@[j]).kind == old(
                g,
            ).cells@[j].kind,
        toggle_spec(*old(g), *old(counters), pos, *final(g), *final(counters), out),
        final(counters).remaining_flags as int + count_flagged(final(g).cells@) == old(
            counters,
        ).remaining_flags as int + count_flagged(old(g).cells@),
        final(counters).remaining_mines as int == count_mines(final(g).cells@)
            - count_flagged_mines(final(g).cells@),
        count_mines(final(g).cells@) == final(g).mine_count,
{
    if is_out_of_bounds(pos, g.width, g.height) {
        return FlagOutcome::Rejected { reason: GameError::OutOfBounds };
    }
    let cell = *g.get(pos);
    match cell.state {
        CellState::Covered => {
            if counters.remaining_flags == 0 {
                return FlagOutcome::Rejected { reason: GameError::NoFlagsRemaining };
            }
            let ghost gpre = *g;
            g.set_visibility(pos, CellState::Flagged);
            proof {
                gpre.lemma_xy_index_in_range(pos.x as int, pos.y as int);
                lemma_counts_update(
                    gpre.cells@,
                    gpre.spec_index(pos),
                    Cell { kind: gpre.spec_cell(pos).kind, state: CellState::Flagged },
                );
            }
            counters.remaining_flags = counters.remaining_flags - 1;
            let is_mine = match cell.kind {
                crate::grid::CellKind::Mine => true,
                _ => false,
            };
            if is_mine {
                proof {
                    // an unflagged mine keeps the flagged-mine count
                    // strictly under the mine count
                    lemma_flagged_mines_vs_mines(gpre.cells@);
                    assert(gpre.cells@[gpre.spec_index(pos)] == gpre.spec_cell(pos));
                    assert(count_flagged_mines(gpre.cells@) < count_mines(gpre.cells@));
                }
                counters.remaining_mines = counters.remaining_mines - 1;
            }
            FlagOutcome::Toggled { new_state: CellState::Flagged }
        },
        CellState::Flagged => {
            let ghost gpre = *g;
            g.set_visibility(pos, CellState::Covered);
            proof {
                gpre.lemma_xy_index_in_range(pos.x as int, pos.y as int);
                lemma_count_flagged_pos(gpre.cells@, gpre.spec_index(pos));
                lemma_counts_update(
                    gpre.cells@,
                    gpre.spec_index(pos),
                    Cell { kind: gpre.spec_cell(pos).kind, state: CellState::Covered },
                );
            }
            counters.remaining_flags = counters.remaining_flags + 1;
            let is_mine = match cell.kind {
                crate::grid::CellKind::Mine => true,
                _ => false,
            };
            if is_mine {
                counters.remaining_mines = counters.remaining_mines + 1;
            }
            FlagOutcome::Toggled { new_state: CellState::Covered }
        },
        CellState::Uncovered => FlagOutcome::Rejected { reason: GameError::CellUncovered },
    }
}

/// Toggling a flag twice on the same covered cell is a round trip: the
/// board and both counters end exactly where they began.
pub proof fn lemma_flag_toggle_round_trip(
    g0: Grid,
    c0: GameCounters,
    g1: Grid,
    c1: GameCounters,
    g2: Grid,
    c2: GameCounters,
    pos: Position,
    out1: FlagOutcome,
    out2: FlagOutcome,
)
    requires
        g0.wf(),
        g1.width == g0.width,
        g1.height == g0.height,
        g0.spec_in_bounds(pos),
        g0.spec_cell(pos).state is Covered,
        c0.remaining_flags >= 1,
        toggle_spec(g0, c0, pos, g1, c1, out1),
        toggle_spec(g1, c1, pos, g2, c2, out2),
    ensures
        g2.cells@ == g0.cells@,
        c2 == c0,
        out1 == (FlagOutcome::Toggled { new_state: CellState::Flagged }),
        out2 == (FlagOutcome::Toggled { new_state: CellState::Covered }),
{
    g0.lemma_xy_index_in_range(pos.x as int, pos.y as int);
    let i = g0.spec_index(pos);
    assert(g1.cells@[i].state is Flagged);
    assert(g1.spec_cell(pos).state is Flagged);
    assert(g2.cells@ =~= g0.cells@);
    assert(c2.remaining_flags == c0.remaining_flags);
    assert(c2.remaining_mines == c0.remaining_mines);
}

/// The win criterion: the remaining-mine counter reads zero exactly when
/// every mine cell on the board is flagged.
pub proof fn lemma_zero_remaining_iff_all_mines_flagged(g: Grid, c: GameCounters)
    requires
        g.wf(),
        c.remaining_mines as int == count_mines(g.cells@) - count_flagged_mines(g.cells@),
    ensures
        c.remaining_mines == 0 <==> (forall|q: Position|
            g.spec_in_bounds(q) && (#[trigger] g.spec_cell(q)).kind is Mine ==> g.spec_cell(
                q,
            ).state is Flagged),
{
    lemma_flagged_mines_vs_mines(g.cells@);
    if c.remaining_mines == 0 {
        assert forall|q: Position|
            g.spec_in_bounds(q) && (#[trigger] g.spec_cell(q)).kind is Mine implies g.spec_cell(
            q,
        ).state is Flagged by {
            g.lemma_xy_index_in_range(q.x as int, q.y as int);
            assert(g.cells@[g.spec_index(q)] == g.spec_cell(q));
        }
    } else {
        if forall|q: Position|
            g.spec_in_bounds(q) && (#[trigger] g.spec_cell(q)).kind is Mine ==> g.spec_cell(
                q,
            ).state is Flagged {
            assert forall|j: int|
                0 <= j < g.cells@.len() && (#[trigger] g.cells@[j]).kind is Mine implies g.cells@[j].state
                is Flagged by {
                let q = g.lemma_index_surjective(j);
                assert(g.spec_cell(q) == g.cells@[j]);
            }
            assert(count_flagged_mines(g.cells@) == count_mines(g.cells@));
        }
    }
}

} // verus!
