//! The two kinds of player and how each comes by its next move.

pub mod minimax;
pub mod solved;

use crate::board::{is_full, Board, BoardMove};
use crate::player::minimax::{calculate_best_move, is_best_move};
use crate::ui::Ui;
use vstd::prelude::*;

verus! {

/// A participant of a match: a person with a name, or the computer.
pub enum Player {
    Human(String),
    CPU,
}

impl Player {
    /// The name under which the player is shown: a person's own, "CPU" for the computer.
    pub open spec fn spec_name(&self) -> Seq<char> {
        match self {
            Player::Human(name) => name@,
            Player::CPU => "CPU"@,
        }
    }

    /// The name under which the player is shown.
    pub fn get_name(&self) -> (name: &str)
        ensures
            name@ == self.spec_name(),
    {
        match self {
            Player::Human(name) => name.as_str(),
            Player::CPU => "CPU",
        }
    }

    /// The player's next move on `board`: a person is asked through `ui`, the computer
    /// searches for a best move.
    pub fn get_move<T: Ui>(
        &self,
        board: &Board,
        ui: &T,
        additional_message: Option<&str>,
    ) -> (board_move: BoardMove)
        requires
            self is CPU ==> !is_full(board@),
        ensures
            self is CPU ==> is_best_move(board@, board_move@),
    {
        match self {
            Player::Human(name) => ui.get_move(name.as_str(), additional_message),
            Player::CPU => calculate_best_move(board),
        }
    }
}

} // verus!
