//! What the game needs from a user interface, graphical or textual.

pub mod tui;

use crate::board::{Board, BoardMove};
use crate::game::GameResult;
use crate::tictactoe::GameMode;
use vstd::prelude::*;

verus! {

/// The interface between the game and whoever shows it and feeds it input.
pub trait Ui {
    /// Asks the named player for a move; `additional_message` says why the player is
    /// asked again.
    fn get_move(&self, player_name: &str, additional_message: Option<&str>) -> BoardMove;

    /// Shows the board as it stands.
    fn update_board(&self, board: &Board);

    /// Tells how the match ended.
    fn notify_result(&self, result: &GameResult);

    /// Asks for the name of the player announced as `name_placeholder`.
    fn get_player_name(&self, name_placeholder: &str) -> String;

    /// Asks who plays whom.
    fn select_mode(&self) -> GameMode;

    /// Asks whether another match is wanted.
    fn keep_playing(&self) -> bool;

    /// Shows the score of the session.
    fn update_scores(
        &self,
        player1_name: &str,
        player1_score: i32,
        player2_name: &str,
        player2_score: i32,
    );
}

} // verus!
