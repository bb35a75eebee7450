//! A terminal-style Minesweeper board library.
//!
//! The board model and its two central algorithms — mine placement with
//! neighbor-count derivation, and the flood-fill reveal that cascades
//! through zero-count safe tiles — are verified. Terminal input and
//! output live outside this crate.

pub mod board;
pub mod counting;
pub mod eval;
pub mod flood;
pub mod input;
pub mod render;
pub mod tile;

pub use board::Direction;
pub use board::MSGame;
pub use eval::TurnResult;
pub use input::InputKey;
pub use tile::Tile;
pub use tile::TileContents;
pub use tile::TileVis;
