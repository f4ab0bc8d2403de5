//! A two-player tic-tac-toe engine on a fixed 3x3 board: parsing of
//! `row,column` input, placement, turn alternation and win/tie detection.

pub mod game;
pub mod laws;
pub mod player;
pub mod position;
pub mod text;

pub use game::{Game, GameState, TileState, TryPlaceResult, BOARD_SIZE};
pub use player::Player;
pub use position::{ParsePositionError, Position};
