//! The logic core of a Minesweeper-style board: a grid of mines and hints,
//! and the covered, uncovered and flagged state of a play session.

pub mod bomb;
pub mod coordinate;
pub mod engine;
pub mod error;
pub mod fill;
pub mod grid;
pub mod hints;
pub mod laws;
pub mod lists;
pub mod paint;
pub mod placement;
pub mod plane;
pub mod random;
pub mod reveal_state;
pub mod safe_click;
pub mod tile;

pub use crate::bomb::Bomb;
pub use crate::coordinate::Coordinate;
pub use crate::engine::BoardConfig;
pub use crate::engine::BoardEngine;
pub use crate::engine::FlagOutcome;
pub use crate::engine::RevealOutcome;
pub use crate::error::BoardError;
pub use crate::grid::Grid;
pub use crate::random::SeededRng;
pub use crate::reveal_state::RevealState;
pub use crate::reveal_state::Status;
pub use crate::tile::Tile;
