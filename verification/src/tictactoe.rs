//! Five in a row on a board of 19 by 19, as a game the search can play.

pub mod alpha_zero_adapter;
pub mod board;
pub mod visualize;

pub use board::BoardState;
pub use board::CellState;
pub use board::TicTacToeMove;
pub use alpha_zero_adapter::TicTacToeAlphaZeroAdapter;
pub use visualize::generate_game_image;
pub use visualize::GameImage;
