//! Tic-tac-toe for two players, people or the computer, with a computer that never
//! loses: the board, the search for the best move, the match and the session, each
//! with its contract, and what a text user interface keeps and reads.

pub mod board;
pub mod game;
pub mod player;
pub mod tictactoe;
pub mod ui;
