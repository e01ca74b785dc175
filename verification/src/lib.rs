//! A verified engine for the classic 3-by-3 two-player board game.
//!
//! The crate owns the game rules (board, turn order, win and draw
//! detection), an exhaustive game-tree search that picks an optimal
//! move for the player whose turn it is, and the text of the console
//! conversation: how a frame is rendered and how one line of input
//! becomes a move. Reading and writing the console itself is the
//! caller's business.

pub mod ai;
pub mod board;
pub mod cli_game_manager;
pub mod game;
pub mod marker;
pub mod text;
pub mod winning_plays;

pub use board::Board;
pub use cli_game_manager::CLIGameManager;
pub use game::Game;
pub use marker::Marker;
