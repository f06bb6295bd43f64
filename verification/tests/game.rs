//! Revealing, flagging and the session state machine.

use minesweeper::flags::toggle_flag;
use minesweeper::flags::FlagOutcome;
use minesweeper::flags::GameCounters;
use minesweeper::generate::compute_neighbor_counts;
use minesweeper::grid::CellKind;
use minesweeper::grid::CellState;
use minesweeper::grid::GameError;
use minesweeper::grid::Grid;
use minesweeper::grid::Position;
use minesweeper::reveal_engine::RevealOutcome;
use minesweeper::session::GameSession;
use minesweeper::session::GameState;

fn pos(x: i32, y: i32) -> Position {
    Position { x, y }
}

/// A 4x4 board with mines at (1,1) and (2,2) and honest counts.
fn board_two_mines() -> Grid {
    let mut g = Grid::new(4, 4, 2).unwrap();
    g.set_content(pos(1, 1), CellKind::Mine);
    g.set_content(pos(2, 2), CellKind::Mine);
    compute_neighbor_counts(&mut g);
    g
}

/// A 4x4 board whose only mine sits at (0,0).
fn board_corner_mine() -> Grid {
    let mut g = Grid::new(4, 4, 1).unwrap();
    g.set_content(pos(0, 0), CellKind::Mine);
    compute_neighbor_counts(&mut g);
    g
}

/// A ready-to-play session around a prepared board.
fn session_of(grid: Grid, flag_budget: u32) -> GameSession {
    let mine_count = grid.mine_count;
    GameSession {
        grid,
        counters: GameCounters::new(flag_budget, mine_count),
        flag_budget,
        state: GameState::InGame,
    }
}

#[test]
fn revealing_a_mine_uncovers_nothing_else() {
    let mut g = board_two_mines();
    let out = g.reveal_at(pos(1, 1));
    assert_eq!(out, RevealOutcome::MineHit);
    for y in 0..4 {
        for x in 0..4 {
            let expected = if x == 1 && y == 1 {
                CellState::Uncovered
            } else {
                CellState::Covered
            };
            assert_eq!(g.get(pos(x, y)).state, expected);
        }
    }
}

#[test]
fn revealing_a_numbered_cell_uncovers_only_it() {
    let mut g = board_two_mines();
    let out = g.reveal_at(pos(0, 0));
    match out {
        RevealOutcome::Cleared { uncovered, exposed } => {
            assert_eq!(uncovered, vec![pos(0, 0)]);
            assert_eq!(exposed, vec![pos(0, 0)]);
        },
        _ => panic!("expected Cleared"),
    }
    assert_eq!(g.get(pos(0, 0)).state, CellState::Uncovered);
    assert_eq!(g.get(pos(1, 1)).state, CellState::Covered);
    assert_eq!(g.get(pos(2, 2)).state, CellState::Covered);
    assert_eq!(g.get(pos(1, 0)).state, CellState::Covered);
}

#[test]
fn flood_fill_spreads_through_empty_cells_and_stops_at_numbers() {
    let mut g = board_corner_mine();
    let out = g.reveal_at(pos(3, 3));
    match out {
        RevealOutcome::Cleared { uncovered, exposed } => {
            // everything but the mine corner is reachable
            assert_eq!(uncovered.len(), 15);
            assert!(!uncovered.contains(&pos(0, 0)));
            // the numbered boundary around the mine
            assert_eq!(exposed.len(), 3);
            assert!(exposed.contains(&pos(1, 0)));
            assert!(exposed.contains(&pos(0, 1)));
            assert!(exposed.contains(&pos(1, 1)));
        },
        _ => panic!("expected Cleared"),
    }
    assert_eq!(g.get(pos(0, 0)).state, CellState::Covered);
    for y in 0..4 {
        for x in 0..4 {
            if x != 0 || y != 0 {
                assert_eq!(g.get(pos(x, y)).state, CellState::Uncovered);
            }
        }
    }
}

#[test]
fn flood_fill_never_uncovers_a_flagged_cell() {
    let mut g = board_corner_mine();
    let mut counters = GameCounters::new(1, 1);
    let out = toggle_flag(&mut g, &mut counters, pos(2, 2));
    assert_eq!(out, FlagOutcome::Toggled { new_state: CellState::Flagged });
    match g.reveal_at(pos(3, 3)) {
        RevealOutcome::Cleared { uncovered, .. } => {
            assert_eq!(uncovered.len(), 14);
            assert!(!uncovered.contains(&pos(2, 2)));
            assert!(!uncovered.contains(&pos(0, 0)));
        },
        _ => panic!("expected Cleared"),
    }
    assert_eq!(g.get(pos(2, 2)).state, CellState::Flagged);
}

#[test]
fn reveal_out_of_range_is_a_noop() {
    let mut s = session_of(board_two_mines(), 2);
    let before = s.current_state();
    // x equal to the width lies one past the last column
    let out = s.submit_reveal(pos(4, 0));
    assert_eq!(out, Ok(RevealOutcome::Ignored));
    let after = s.current_state();
    assert_eq!(before, after);
}

#[test]
fn reveal_twice_is_a_noop_the_second_time() {
    let mut g = board_two_mines();
    assert!(matches!(g.reveal_at(pos(0, 0)), RevealOutcome::Cleared { .. }));
    assert_eq!(g.reveal_at(pos(0, 0)), RevealOutcome::Ignored);
}

#[test]
fn revealing_a_flagged_cell_is_a_noop() {
    let mut s = session_of(board_two_mines(), 2);
    s.submit_flag_toggle(pos(2, 2)).unwrap();
    let before = s.current_state();
    assert_eq!(s.submit_reveal(pos(2, 2)), Ok(RevealOutcome::Ignored));
    assert_eq!(before, s.current_state());
    assert_eq!(s.state, GameState::InGame);
}

#[test]
fn toggling_a_flag_twice_restores_cell_and_counters() {
    let mut g = board_two_mines();
    let mut counters = GameCounters::new(2, 2);
    let out = toggle_flag(&mut g, &mut counters, pos(3, 3));
    assert_eq!(out, FlagOutcome::Toggled { new_state: CellState::Flagged });
    assert_eq!(counters.remaining_flags, 1);
    assert_eq!(counters.remaining_mines, 2);
    let out = toggle_flag(&mut g, &mut counters, pos(3, 3));
    assert_eq!(out, FlagOutcome::Toggled { new_state: CellState::Covered });
    assert_eq!(counters.remaining_flags, 2);
    assert_eq!(counters.remaining_mines, 2);
    assert_eq!(g.get(pos(3, 3)).state, CellState::Covered);
}

#[test]
fn flagging_a_mine_credits_the_mine_counter_and_back() {
    let mut g = board_two_mines();
    let mut counters = GameCounters::new(2, 2);
    toggle_flag(&mut g, &mut counters, pos(1, 1));
    assert_eq!(counters.remaining_mines, 1);
    toggle_flag(&mut g, &mut counters, pos(1, 1));
    assert_eq!(counters.remaining_mines, 2);
}

#[test]
fn flagging_without_budget_is_rejected() {
    let mut s = session_of(board_two_mines(), 1);
    assert_eq!(
        s.submit_flag_toggle(pos(0, 0)),
        Ok(FlagOutcome::Toggled { new_state: CellState::Flagged })
    );
    assert_eq!(
        s.submit_flag_toggle(pos(3, 3)),
        Ok(FlagOutcome::Rejected { reason: GameError::NoFlagsRemaining })
    );
    // lifting the existing flag needs no budget
    assert_eq!(
        s.submit_flag_toggle(pos(0, 0)),
        Ok(FlagOutcome::Toggled { new_state: CellState::Covered })
    );
}

#[test]
fn flagging_an_uncovered_cell_is_rejected() {
    let mut s = session_of(board_two_mines(), 2);
    s.submit_reveal(pos(0, 0)).unwrap();
    assert_eq!(
        s.submit_flag_toggle(pos(0, 0)),
        Ok(FlagOutcome::Rejected { reason: GameError::CellUncovered })
    );
}

#[test]
fn flagging_out_of_bounds_is_rejected() {
    let mut s = session_of(board_two_mines(), 2);
    assert_eq!(
        s.submit_flag_toggle(pos(-1, 2)),
        Ok(FlagOutcome::Rejected { reason: GameError::OutOfBounds })
    );
}

#[test]
fn flagging_all_mines_wins_the_game() {
    let mut s = session_of(board_two_mines(), 2);
    assert_eq!(s.counters.remaining_mines, 2);
    s.submit_flag_toggle(pos(1, 1)).unwrap();
    assert_eq!(s.counters.remaining_mines, 1);
    assert_eq!(s.state, GameState::InGame);
    s.submit_flag_toggle(pos(2, 2)).unwrap();
    assert_eq!(s.counters.remaining_mines, 0);
    assert_eq!(s.state, GameState::Win);
    // terminal: every further command is refused
    assert_eq!(s.submit_reveal(pos(0, 0)), Err(GameError::GameOver));
    assert_eq!(s.submit_flag_toggle(pos(0, 0)), Err(GameError::GameOver));
}

#[test]
fn zero_mine_board_wins_on_the_first_successful_toggle() {
    // with no mines every mine is (vacuously) flagged; the win check
    // runs after the first successful flag toggle
    let mut s = GameSession::start_session(3, 3, 0, 1, Some(1)).unwrap();
    assert_eq!(s.counters.remaining_mines, 0);
    assert_eq!(s.state, GameState::InGame);
    s.submit_flag_toggle(pos(0, 0)).unwrap();
    assert_eq!(s.state, GameState::Win);
}

#[test]
fn revealing_a_mine_loses_the_game() {
    let mut s = session_of(board_two_mines(), 2);
    assert_eq!(s.submit_reveal(pos(2, 2)), Ok(RevealOutcome::MineHit));
    assert_eq!(s.state, GameState::Loss);
    assert_eq!(s.submit_reveal(pos(0, 0)), Err(GameError::GameOver));
    assert_eq!(s.submit_flag_toggle(pos(0, 0)), Err(GameError::GameOver));
}

#[test]
fn no_first_click_safety_is_enforced() {
    // mine placement ignores the first click: revealing a mine as the
    // very first command of a generated session loses at once
    let s = GameSession::start_session(5, 5, 5, 5, Some(3)).unwrap();
    let mut mine_at = None;
    for y in 0..5 {
        for x in 0..5 {
            if s.grid.get(pos(x, y)).kind == CellKind::Mine {
                mine_at = Some(pos(x, y));
            }
        }
    }
    let mut s = s;
    let target = mine_at.expect("a generated board holds a mine");
    assert_eq!(s.submit_reveal(target), Ok(RevealOutcome::MineHit));
    assert_eq!(s.state, GameState::Loss);
}

#[test]
fn current_state_hides_covered_content() {
    let mut s = session_of(board_two_mines(), 2);
    s.submit_reveal(pos(0, 0)).unwrap();
    s.submit_flag_toggle(pos(1, 1)).unwrap();
    let (state, views, counters) = s.current_state();
    assert_eq!(state, GameState::InGame);
    assert_eq!(counters.remaining_flags, 1);
    assert_eq!(views.len(), 16);
    // row-major: (x, y) sits at y * width + x
    let at = |x: usize, y: usize| views[y * 4 + x];
    assert_eq!(at(0, 0).visibility, CellState::Uncovered);
    assert_eq!(at(0, 0).content, Some(CellKind::MineNeighbor { mines_count: 1 }));
    assert_eq!(at(1, 1).visibility, CellState::Flagged);
    assert_eq!(at(1, 1).content, None);
    assert_eq!(at(2, 2).visibility, CellState::Covered);
    assert_eq!(at(2, 2).content, None);
}
