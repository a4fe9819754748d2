//! Generalized tic-tac-toe (m,n,k-game): a verified game engine and
//! terminal renderer.
//!
//! The crate holds the board state machine (placement rules, win and draw
//! detection on an arbitrary `W x H` grid with win length `K`), the
//! box-drawing renderer that paints a board into a terminal back-buffer,
//! the input controller, and the argument parser.

pub mod args;
pub mod board;
pub mod board_tui;
pub mod buffer;
pub mod cell;
pub mod error;
pub mod game;
