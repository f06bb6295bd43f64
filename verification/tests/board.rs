//! Board construction, neighborhood arithmetic and generation.

use minesweeper::generate::compute_neighbor_counts;
use minesweeper::grid::calc_pos_neighbors;
use minesweeper::grid::is_out_of_bounds;
use minesweeper::grid::CellKind;
use minesweeper::grid::CellState;
use minesweeper::grid::GameError;
use minesweeper::grid::Grid;
use minesweeper::grid::Position;
use minesweeper::session::GameSession;

fn pos(x: i32, y: i32) -> Position {
    Position { x, y }
}

#[test]
fn new_rejects_zero_width() {
    assert_eq!(Grid::new(0, 5, 1), Err(GameError::InvalidConfiguration));
}

#[test]
fn new_rejects_zero_height() {
    assert_eq!(Grid::new(5, 0, 1), Err(GameError::InvalidConfiguration));
}

#[test]
fn new_rejects_too_many_mines() {
    assert_eq!(Grid::new(3, 3, 9), Err(GameError::InvalidConfiguration));
    assert_eq!(Grid::new(3, 3, 10), Err(GameError::InvalidConfiguration));
}

#[test]
fn new_board_is_blank_and_covered() {
    let g = Grid::new(3, 2, 2).unwrap();
    assert_eq!(g.width, 3);
    assert_eq!(g.height, 2);
    assert_eq!(g.mine_count, 2);
    assert_eq!(g.cells.len(), 6);
    for c in &g.cells {
        assert_eq!(c.kind, CellKind::Empty);
        assert_eq!(c.state, CellState::Covered);
    }
}

#[test]
fn calc_pos_neighbors_lists_the_moore_neighborhood() {
    let n = calc_pos_neighbors(pos(5, 7));
    assert_eq!(n.len(), 8);
    for dx in -1..=1 {
        for dy in -1..=1 {
            if dx != 0 || dy != 0 {
                assert!(n.contains(&pos(5 + dx, 7 + dy)));
            }
        }
    }
    assert!(!n.contains(&pos(5, 7)));
}

#[test]
fn out_of_bounds_at_the_edges() {
    assert!(!is_out_of_bounds(pos(0, 0), 4, 4));
    assert!(!is_out_of_bounds(pos(3, 3), 4, 4));
    assert!(is_out_of_bounds(pos(-1, 0), 4, 4));
    assert!(is_out_of_bounds(pos(0, -1), 4, 4));
    assert!(is_out_of_bounds(pos(4, 0), 4, 4));
    assert!(is_out_of_bounds(pos(0, 4), 4, 4));
}

#[test]
fn neighbors_are_clipped_at_corners_and_edges() {
    let g = Grid::new(4, 4, 1).unwrap();
    assert_eq!(g.neighbors(pos(0, 0)).len(), 3);
    assert_eq!(g.neighbors(pos(3, 3)).len(), 3);
    assert_eq!(g.neighbors(pos(1, 0)).len(), 5);
    assert_eq!(g.neighbors(pos(0, 2)).len(), 5);
    assert_eq!(g.neighbors(pos(1, 1)).len(), 8);
}

#[test]
fn generation_places_exactly_the_requested_mines() {
    let s = GameSession::start_session(5, 5, 5, 5, Some(42)).unwrap();
    let mines = s.grid.cells.iter().filter(|c| c.kind == CellKind::Mine).count();
    assert_eq!(mines, 5);
    for c in &s.grid.cells {
        assert_eq!(c.state, CellState::Covered);
    }
}

#[test]
fn generation_is_deterministic_for_a_fixed_seed() {
    let a = GameSession::start_session(6, 6, 8, 8, Some(7)).unwrap();
    let b = GameSession::start_session(6, 6, 8, 8, Some(7)).unwrap();
    for (ca, cb) in a.grid.cells.iter().zip(b.grid.cells.iter()) {
        assert_eq!(ca.kind, cb.kind);
    }
}

#[test]
fn neighbor_counts_match_the_actual_mine_neighborhood() {
    let mut g = Grid::new(4, 4, 2).unwrap();
    g.set_content(pos(1, 1), CellKind::Mine);
    g.set_content(pos(2, 2), CellKind::Mine);
    compute_neighbor_counts(&mut g);
    for y in 0..4 {
        for x in 0..4 {
            let p = pos(x, y);
            let cell = *g.get(p);
            if cell.kind == CellKind::Mine {
                assert!(p == pos(1, 1) || p == pos(2, 2));
                continue;
            }
            let expected = calc_pos_neighbors(p)
                .into_iter()
                .filter(|q| !is_out_of_bounds(*q, 4, 4))
                .filter(|q| *q == pos(1, 1) || *q == pos(2, 2))
                .count() as u8;
            if expected == 0 {
                assert_eq!(cell.kind, CellKind::Empty);
            } else {
                assert_eq!(cell.kind, CellKind::MineNeighbor { mines_count: expected });
            }
        }
    }
}

#[test]
fn neighbor_counts_concrete_values() {
    let mut g = Grid::new(4, 4, 2).unwrap();
    g.set_content(pos(1, 1), CellKind::Mine);
    g.set_content(pos(2, 2), CellKind::Mine);
    compute_neighbor_counts(&mut g);
    assert_eq!(g.get(pos(0, 0)).kind, CellKind::MineNeighbor { mines_count: 1 });
    assert_eq!(g.get(pos(2, 1)).kind, CellKind::MineNeighbor { mines_count: 2 });
    assert_eq!(g.get(pos(1, 2)).kind, CellKind::MineNeighbor { mines_count: 2 });
    assert_eq!(g.get(pos(3, 0)).kind, CellKind::Empty);
    assert_eq!(g.get(pos(0, 3)).kind, CellKind::Empty);
}
