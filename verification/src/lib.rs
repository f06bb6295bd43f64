//! A verified minesweeper board engine: grid model, mine placement,
//! neighbor-mine counting, flood-fill reveal, flagging, and win/loss
//! detection. Rendering and input handling are left to the caller.

pub mod counting;
pub mod flags;
pub mod generate;
pub mod grid;
pub mod reveal_engine;
pub mod rng;
pub mod session;

pub use flags::FlagOutcome;
pub use flags::GameCounters;
pub use flags::toggle_flag;
pub use generate::compute_neighbor_counts;
pub use generate::place_mines;
pub use grid::Cell;
pub use grid::CellKind;
pub use grid::CellState;
pub use grid::GameError;
pub use grid::Grid;
pub use grid::Position;
pub use grid::calc_pos_neighbors;
pub use grid::is_out_of_bounds;
pub use reveal_engine::RevealOutcome;
pub use session::CellView;
pub use session::GameSession;
pub use session::GameState;
