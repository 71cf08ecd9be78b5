//! What a text user interface keeps of a match and how it reads what is typed. Reading
//! from the keyboard and writing to the screen are left to the program around it.

use crate::board::{initial_cells, is_blank, Board, BoardMove, WINNING_LINES};
use crate::game::GameResult;
use crate::tictactoe::GameMode;
use vstd::prelude::*;

verus! {

/// The state of a text user interface: the board as it was shown last, and the cells
/// of the line that won, to be set off from the others.
pub struct TerminalUi {
    pub board: Board,
    pub winning_line: Option<[usize; 3]>,
}

/// Why a text is not taken for a move.
#[derive(Clone, Copy, Debug, PartialEq, Eq, Structural)]
pub enum InputError {
    /// The text is not a number.
    NotANumber,
    /// The number is not one of 1 to 9.
    OutOfRange,
}

/// What `str::to_lowercase` makes of a text.
pub uninterp spec fn lowercase_of(text: Seq<char>) -> Seq<char>;

/// What `str::parse` makes of a text that is to be a `u64`: the number, or nothing
/// where it reports an error.
pub uninterp spec fn parsed_number(text: Seq<char>) -> Option<u64>;

/// The text in lower case, made by `str::to_lowercase`. Believed of it, not proved:
/// the same text always gives the same result.
#[verifier::external_body]
fn lowercase(text: &str) -> (lowered: String)
    ensures
        lowered@ == lowercase_of(text@),
{
    text.to_lowercase()
}

/// The number that `str::parse` reads from the text as a `u64`, or `None` where it
/// reports an error. Believed of it, not proved: the same text always gives the same
/// result.
#[verifier::external_body]
fn parse_number(text: &str) -> (number: Option<u64>)
    ensures
        number == parsed_number(text@),
{
    match text.parse::<u64>() {
        Ok(number) => Some(number),
        Err(_) => None,
    }
}

/// The mode that a choice from the menu, in lower case, stands for.
pub open spec fn mode_of(lowered: Seq<char>) -> Option<GameMode> {
    if lowered == "1"@ || lowered == "[1]"@ {
        Some(GameMode::PlayerVsPlayer)
    } else if lowered == "2"@ || lowered == "[2]"@ {
        Some(GameMode::PlayerVsCpu)
    } else if lowered == "3"@ || lowered == "[3]"@ {
        Some(GameMode::CpuVsPlayer)
    } else if lowered == "4"@ || lowered == "[4]"@ {
        Some(GameMode::CpuVsCpu)
    } else if lowered == "0"@ || lowered == "q"@ {
        Some(GameMode::Quit)
    } else {
        None
    }
}

/// The answer that a text in lower case gives to a question: yes, no, or neither.
pub open spec fn answer_of(lowered: Seq<char>) -> Option<bool> {
    if lowered == "y"@ || lowered == "yes"@ {
        Some(true)
    } else if lowered == "n"@ || lowered == "no"@ {
        Some(false)
    } else {
        None
    }
}

/// Whether the cell at `index` lies on the line.
pub open spec fn on_winning_line(line: Option<[usize; 3]>, index: usize) -> bool {
    line matches Some(cells) && (cells[0] == index || cells[1] == index || cells[2] == index)
}

/// Whether the two texts are the same.
pub fn same_text(text: &str, other: &str) -> (same: bool)
    ensures
        same == (text@ == other@),
{
    text.to_owned() == other.to_owned()
}

impl TerminalUi {
    /// The state before anything was shown: a board on which nothing was played, and
    /// no line that won.
    pub fn new() -> (ui: TerminalUi)
        ensures
            ui.board@ == initial_cells(),
            ui.winning_line is None,
    {
        TerminalUi { board: Board::new(), winning_line: None }
    }

    /// Takes the board that is to be shown. A board on which nothing was played begins
    /// a new match: the line that won the last one is forgotten.
    pub fn update_board(&mut self, board: &Board)
        ensures
            final(self).board == *board,
            final(self).winning_line == if is_blank(board@) {
                None
            } else {
                old(self).winning_line
            },
    {
        self.board = *board;
        if board.is_empty() {
            self.winning_line = None;
        }
    }

    /// Takes the result that is to be shown: the line of a win is kept, to be set off.
    pub fn notify_result(&mut self, result: &GameResult)
        requires
            result matches GameResult::PlayerWon(_, _, line) ==> line < 8,
        ensures
            final(self).board == old(self).board,
            final(self).winning_line == match result {
                GameResult::PlayerWon(_, _, line) => Some(WINNING_LINES[*line as int]),
                GameResult::Draw => old(self).winning_line,
            },
    {
        match result {
            GameResult::Draw => {},
            GameResult::PlayerWon(_winner_index, _winner_name, winning_line_index) => {
                self.winning_line = Some(WINNING_LINES[*winning_line_index]);
            },
        }
    }

    /// Whether the cell at `index` is set off as part of the line that won.
    pub fn is_highlighted(&self, index: usize) -> (highlighted: bool)
        ensures
            highlighted == on_winning_line(self.winning_line, index),
    {
        match self.winning_line {
            Some(cell_positions) => cell_positions[0] == index || cell_positions[1] == index
                || cell_positions[2] == index,
            None => false,
        }
    }

    /// The mode that a choice from the menu stands for, once it is in lower case.
    pub fn mode_of(lowered: &str) -> (mode: Option<GameMode>)
        ensures
            mode == mode_of(lowered@),
    {
        if same_text(lowered, "1") || same_text(lowered, "[1]") {
            Some(GameMode::PlayerVsPlayer)
        } else if same_text(lowered, "2") || same_text(lowered, "[2]") {
            Some(GameMode::PlayerVsCpu)
        } else if same_text(lowered, "3") || same_text(lowered, "[3]") {
            Some(GameMode::CpuVsPlayer)
        } else if same_text(lowered, "4") || same_text(lowered, "[4]") {
            Some(GameMode::CpuVsCpu)
        } else if same_text(lowered, "0") || same_text(lowered, "q") {
            Some(GameMode::Quit)
        } else {
            None
        }
    }

    /// The mode that what was typed at the menu stands for, in whatever case it was
    /// typed.
    pub fn select_mode(input: &str) -> (mode: Option<GameMode>)
        ensures
            mode == mode_of(lowercase_of(input@)),
    {
        let lowered = lowercase(input);
        Self::mode_of(lowered.as_str())
    }

    /// The answer that a text gives, once it is in lower case.
    pub fn answer_of(lowered: &str) -> (answer: Option<bool>)
        ensures
            answer == answer_of(lowered@),
    {
        if same_text(lowered, "y") || same_text(lowered, "yes") {
            Some(true)
        } else if same_text(lowered, "n") || same_text(lowered, "no") {
            Some(false)
        } else {
            None
        }
    }

    /// Whether what was typed asks for another match, in whatever case it was typed.
    pub fn keep_playing(input: &str) -> (answer: Option<bool>)
        ensures
            answer == answer_of(lowercase_of(input@)),
    {
        let lowered = lowercase(input);
        Self::answer_of(lowered.as_str())
    }

    /// The move that a number read from the keyboard stands for.
    pub fn move_of(number: Option<u64>) -> (read: Result<BoardMove, InputError>)
        ensures
            match number {
                None => read == Err::<BoardMove, InputError>(InputError::NotANumber),
                Some(n) => if 1 <= n <= 9 {
                    read matches Ok(board_move) && board_move@ == n - 1
                } else {
                    read == Err::<BoardMove, InputError>(InputError::OutOfRange)
                },
            },
    {
        match number {
            None => Err(InputError::NotANumber),
            Some(n) => {
                if 1 <= n && n <= 9 {
                    match BoardMove::try_new(n as usize) {
                        Ok(board_move) => Ok(board_move),
                        Err(_) => Err(InputError::OutOfRange),
                    }
                } else {
                    Err(InputError::OutOfRange)
                }
            },
        }
    }

    /// The move that what was typed stands for.
    pub fn get_move_from_user(input: &str) -> (read: Result<BoardMove, InputError>)
        ensures
            match parsed_number(input@) {
                None => read == Err::<BoardMove, InputError>(InputError::NotANumber),
                Some(n) => if 1 <= n <= 9 {
                    read matches Ok(board_move) && board_move@ == n - 1
                } else {
                    read == Err::<BoardMove, InputError>(InputError::OutOfRange)
                },
            },
    {
        Self::move_of(parse_number(input))
    }
}

} // verus!
