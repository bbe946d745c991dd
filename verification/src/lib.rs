//! Core logic of a turn-based snake game played over a chat transport.
//!
//! The library owns the game state machine (snake movement, food spawning)
//! and the board renderer (glyph rows merged into bounded text blocks,
//! and the diff that drives incremental re-rendering). All transport I/O
//! lives outside the library and exchanges plain values with it.

pub mod command;
pub mod direction;
pub mod game;
pub mod render;
pub mod text;

pub use direction::Direction;
pub use game::SnakeGame;
