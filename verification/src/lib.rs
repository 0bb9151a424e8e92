//! The world model of a small grid-based roguelike.
//!
//! A [`GameBoard`] is a square grid of [`Tile`]s. A tile is a wall, a floor,
//! a door, or a cell on which nothing is built; floors and doors carry a
//! [`TileStack`], the [`Token`]s that stand on the tile in the order in
//! which they arrived. An [`AppState`] is the world of one game: a board,
//! and the cell of the player, whose token lies on the stack of that cell.
//!
//! A [`Coordinate`] gives the row of a cell, counted from the upper edge,
//! and its column, counted from the left edge. The player moves one cell at
//! a time, up, down, left or right, with [`AppState::attempt_move`]. A move
//! takes place if it stays on the board and leads onto a tile that can be
//! entered; otherwise it is blocked and nothing changes.
//!
//! Every function states in its contract what it returns and how it changes
//! its arguments, over the mathematical views of the types: a sequence of
//! tokens for a stack, a map from coordinates to tiles for a board. The
//! module [`laws`] proves what follows for every world and every move.

pub mod board;
pub mod coordinate;
pub mod laws;
pub mod stack;
pub mod tile;
pub mod token;
pub mod world;

pub use crate::board::{BoardError, GameBoard, DEFAULT_SIZE};
pub use crate::coordinate::{BlockReason, Coordinate, InputDirection, MoveOutcome};
pub use crate::stack::{TileStack, STACK_CAPACITY};
pub use crate::tile::{DoorState, Tile};
pub use crate::token::{Token, TokenType};
pub use crate::world::{AppState, WorldError};
