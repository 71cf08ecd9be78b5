//! One match: two players take turns on a board until a line is completed or the board
//! is full.

use crate::board::{
    empty_count, initial_cells, is_full, lemma_initial_board, lemma_occupied_bounds,
    lemma_place_counts, line_cells, mark_to_move, winner, winning_line, Board, BoardMove, Cell,
    WinningLineIndex, WINNING_LINES,
};
use crate::player::minimax::{is_best_move, lemma_best_move_keeps_draw, position_value};
use crate::player::solved::lemma_fresh_board_is_drawn;
use crate::player::Player;
use crate::ui::Ui;
use vstd::prelude::*;

verus! {

/// How often a player is asked for a move within one turn before the turn is given up.
pub const MAX_ATTEMPTS: usize = 1_000_000;

/// How a match ended.
#[derive(Clone, Debug, PartialEq)]
pub enum GameResult {
    /// The index of the winner (0 or 1), the winner's name and the line that won.
    PlayerWon(usize, String, WinningLineIndex),
    Draw,
}

/// A result with the winner's name as a sequence of characters.
pub ghost enum GameResultView {
    PlayerWon(usize, Seq<char>, WinningLineIndex),
    Draw,
}

impl View for GameResult {
    type V = GameResultView;

    open spec fn view(&self) -> GameResultView {
        match self {
            GameResult::PlayerWon(winner, name, line) => GameResultView::PlayerWon(
                *winner,
                name@,
                *line,
            ),
            GameResult::Draw => GameResultView::Draw,
        }
    }
}

impl GameResult {
    /// A copy of the result.
    pub fn duplicate(&self) -> (copy: GameResult)
        ensures
            copy == *self,
    {
        match self {
            GameResult::PlayerWon(winner, name, line) => GameResult::PlayerWon(
                *winner,
                name.clone(),
                *line,
            ),
            GameResult::Draw => GameResult::Draw,
        }
    }
}

/// Where a match stands. `Finished` is final.
#[derive(Clone, Debug, PartialEq)]
pub enum GameState {
    NotStarted,
    Ongoing,
    Finished(GameResult),
}

/// The mark that the player with the given index plays: `O` for the first, `X` for the
/// second.
pub open spec fn player_mark(player: int) -> Cell {
    if player == 0 {
        Cell::O
    } else {
        Cell::X
    }
}

/// The result that a position calls for, while it calls for one: who completed the
/// first line found, or a draw on a full board.
pub open spec fn verdict(cells: Seq<Cell>, first_name: Seq<char>, second_name: Seq<char>) -> Option<
    GameResultView,
> {
    match winning_line(cells) {
        Some(line) => if cells[line_cells(line as int).0] is O {
            Some(GameResultView::PlayerWon(0, first_name, line))
        } else {
            Some(GameResultView::PlayerWon(1, second_name, line))
        },
        None => if is_full(cells) {
            Some(GameResultView::Draw)
        } else {
            None
        },
    }
}

/// `after` is `before` with `mark` on one cell that was free.
pub open spec fn is_turn(before: Seq<Cell>, after: Seq<Cell>, mark: Cell) -> bool {
    exists|i: int| 0 <= i < 9 && before[i] is Empty && after == #[trigger] before.update(i, mark)
}

/// `after` is `before` with `mark` on a cell that is a best move on `before`.
pub open spec fn is_best_turn(before: Seq<Cell>, after: Seq<Cell>, mark: Cell) -> bool {
    exists|i: int| is_best_move(before, i) && after == #[trigger] before.update(i, mark)
}

/// Every mark of `before` still stands on `after`.
pub open spec fn keeps_marks(before: Seq<Cell>, after: Seq<Cell>) -> bool {
    forall|i: int| 0 <= i < 9 && !(before[i] is Empty) ==> #[trigger] after[i] == before[i]
}

/// A match between two players, shown through a user interface.
pub struct Game<'a, T: Ui> {
    pub board: Board,
    pub players: [&'a Player; 2],
    pub current_player: usize,
    pub game_state: GameState,
    pub ui: &'a T,
    /// How many results the match has handed to the user interface.
    pub reports: Ghost<nat>,
}

impl<'a, T: Ui> Game<'a, T> {
    /// The second match differs from the first in nothing but, at most, the board.
    pub open spec fn same_but_board(&self, other: &Self) -> bool {
        &&& self.players == other.players
        &&& self.current_player == other.current_player
        &&& self.game_state == other.game_state
        &&& self.ui == other.ui
        &&& self.reports@ == other.reports@
    }

    /// The result that the board calls for, with the names of the two players.
    pub open spec fn verdict(&self) -> Option<GameResultView> {
        verdict(self.board@, self.players[0].spec_name(), self.players[1].spec_name())
    }

    /// Both players are the computer.
    pub open spec fn is_automatic(&self) -> bool {
        self.players[0] is CPU && self.players[1] is CPU
    }

    /// The player whose turn it is plays the mark whose turn it is on the board.
    pub open spec fn is_in_step(&self) -> bool {
        self.current_player < 2 && player_mark(self.current_player as int) == mark_to_move(
            self.board@,
        )
    }

    /// What `start` makes of a match: `before` is the match as it was, `after` as it
    /// is left, `outcome` what is returned.
    ///
    /// A match that was started before is left as it was: its result is returned if it
    /// is finished, and an error if it is not. A new match is played. It is left
    /// finished, with the result that its board calls for, which is handed to the user
    /// interface once and returned; or it is left going on, because a player was asked
    /// for a move in vain too often, and an error is returned. The marks that stood on
    /// the board before stay, and the turn has passed on once for each mark set.
    /// Where the player to move played the mark to move before, it does so after.
    /// Between two computers the match is always finished, and it is a draw if the
    /// board, without a completed line, was worth a draw to the player to move.
    pub open spec fn started(before: Self, after: Self, outcome: Result<GameResult, ()>) -> bool {
        match before.game_state {
            GameState::Finished(result) => after == before && outcome == Ok::<GameResult, ()>(
                result,
            ),
            GameState::Ongoing => after == before && outcome is Err,
            GameState::NotStarted => {
                &&& after.players == before.players
                &&& after.ui == before.ui
                &&& keeps_marks(before.board@, after.board@)
                &&& after.current_player == (before.current_player + empty_count(before.board@)
                    - empty_count(after.board@)) % 2
                &&& match after.game_state {
                    GameState::Finished(result) => {
                        &&& outcome == Ok::<GameResult, ()>(result)
                        &&& after.verdict() == Some(result@)
                        &&& after.reports@ == before.reports@ + 1
                    },
                    GameState::Ongoing => {
                        &&& outcome is Err
                        &&& after.reports@ == before.reports@
                        &&& !before.is_automatic()
                    },
                    GameState::NotStarted => false,
                }
                &&& before.is_in_step() ==> after.is_in_step()
                &&& before.is_automatic() && before.is_in_step() && winner(before.board@) is None
                    && position_value(before.board@) == 0 ==> outcome == Ok::<GameResult, ()>(
                    GameResult::Draw,
                )
            },
        }
    }

    /// A match that is not started: nothing is played, and the first player is to move.
    pub fn new(player1: &'a Player, player2: &'a Player, ui_backend: &'a T) -> (game: Self)
        ensures
            game.board@ == initial_cells(),
            game.players[0] == player1,
            game.players[1] == player2,
            game.current_player == 0,
            game.game_state is NotStarted,
            game.ui == ui_backend,
            game.reports@ == 0,
    {
        Self {
            board: Board::new(),
            players: [player1, player2],
            current_player: 0,
            game_state: GameState::NotStarted,
            ui: ui_backend,
            reports: Ghost(0),
        }
    }

    /// Puts the mark of the player whose turn it is on the cell that the move selects.
    pub fn current_player_make_move(&mut self, board_move: BoardMove)
        ensures
            final(self).board@ == old(self).board@.update(
                board_move@,
                player_mark(old(self).current_player as int),
            ),
            old(self).same_but_board(final(self)),
    {
        let mark = if self.current_player == 0 {
            Cell::O
        } else {
            Cell::X
        };
        self.board.place(board_move.index(), mark);
    }

    /// While the match is going on, ends it if the board calls for a result.
    pub fn check_if_over(&mut self)
        ensures
            final(self).board == old(self).board,
            final(self).players == old(self).players,
            final(self).current_player == old(self).current_player,
            final(self).ui == old(self).ui,
            final(self).reports@ == old(self).reports@,
            !(old(self).game_state is Ongoing) ==> final(self).game_state == old(self).game_state,
            old(self).game_state is Ongoing ==> match old(self).verdict() {
                Some(result) => final(self).game_state matches GameState::Finished(found)
                    && found@ == result,
                None => final(self).game_state is Ongoing,
            },
    {
        broadcast use Board::lemma_nine_cells;

        match self.game_state {
            GameState::Ongoing => {},
            _ => {
                return ;
            },
        }
        if let Some(winning_line_index) = self.board.get_winning_line() {
            let winner: usize = match self.board[WINNING_LINES[winning_line_index][0]] {
                Cell::O => 0,
                Cell::X => 1,
                Cell::Empty(_) => {
                    // A completed line holds no free cell.
                    assert(false);
                    1
                },
            };
            let winner_name = self.players[winner].get_name().to_owned();
            self.game_state = GameState::Finished(
                GameResult::PlayerWon(winner, winner_name, winning_line_index),
            );
        } else if self.board.is_full() {
            self.game_state = GameState::Finished(GameResult::Draw);
        }
    }

    /// Shows the board, then asks the player whose turn it is for a move until one is
    /// legal, and makes it. A player who was asked `MAX_ATTEMPTS` times in vain makes
    /// no move.
    pub fn take_turn(&mut self) -> (moved: bool)
        requires
            old(self).current_player < 2,
            old(self).players[old(self).current_player as int] is CPU ==> !is_full(
                old(self).board@,
            ),
        ensures
            old(self).same_but_board(final(self)),
            moved ==> is_turn(
                old(self).board@,
                final(self).board@,
                player_mark(old(self).current_player as int),
            ),
            !moved ==> final(self).board == old(self).board,
            old(self).players[old(self).current_player as int] is CPU ==> moved && is_best_turn(
                old(self).board@,
                final(self).board@,
                player_mark(old(self).current_player as int),
            ),
    {
        let current_player = self.players[self.current_player];
        self.ui.update_board(&self.board);
        let mut error_message: Option<&str> = None;
        let mut attempts: usize = 0;
        while attempts < MAX_ATTEMPTS
            invariant
                *self == *old(self),
                self.current_player < 2,
                current_player == self.players[self.current_player as int],
                current_player is CPU ==> !is_full(self.board@) && attempts == 0,
            decreases MAX_ATTEMPTS - attempts,
        {
            let board_move = current_player.get_move(&self.board, self.ui, error_message);
            if self.board.is_valid_move(&board_move) {
                self.current_player_make_move(board_move);
                proof {
                    let mark = player_mark(old(self).current_player as int);
                    assert(self.board@ == old(self).board@.update(board_move@, mark));
                }
                return true;
            } else {
                error_message = Some("this cell is not empty");
            }
            attempts += 1;
        }
        false
    }

    /// Shows the board and, if the match is finished, hands its result to the user
    /// interface.
    pub fn announce_result(&mut self)
        ensures
            final(self).board == old(self).board,
            final(self).players == old(self).players,
            final(self).current_player == old(self).current_player,
            final(self).game_state == old(self).game_state,
            final(self).ui == old(self).ui,
            final(self).reports@ == old(self).reports@ + if old(self).game_state is Finished {
                1nat
            } else {
                0nat
            },
    {
        self.ui.update_board(&self.board);
        match &self.game_state {
            GameState::Finished(result) => {
                self.ui.notify_result(result);
                proof {
                    self.reports@ = self.reports@ + 1;
                }
            },
            _ => (),
        }
    }

    /// Whether the match has been started and is not finished.
    pub fn is_ongoing(&self) -> (ongoing: bool)
        ensures
            ongoing == (self.game_state is Ongoing),
    {
        match self.game_state {
            GameState::Ongoing => true,
            _ => false,
        }
    }

    /// Plays a new match to its end and reports the result; returns the result of a
    /// finished match, and an error for a match that is not finished.
    pub fn start(&mut self) -> (outcome: Result<GameResult, ()>)
        requires
            old(self).game_state is NotStarted ==> old(self).current_player < 2 && (old(
                self,
            ).players[old(self).current_player as int] is CPU ==> !is_full(old(self).board@)),
        ensures
            Self::started(*old(self), *final(self), outcome),
    {
        broadcast use Board::lemma_nine_cells;

        let is_new = match self.game_state {
            GameState::NotStarted => true,
            _ => false,
        };
        if is_new {
            self.game_state = GameState::Ongoing;
            let ghost drawn = old(self).is_automatic() && old(self).is_in_step() && winner(
                old(self).board@,
            ) is None && position_value(old(self).board@) == 0;
            let mut playing = true;
            proof {
                lemma_occupied_bounds(self.board@);
            }
            while playing && self.is_ongoing()
                invariant
                    self.players == old(self).players,
                    self.ui == old(self).ui,
                    self.reports@ == old(self).reports@,
                    self.current_player < 2,
                    self.board@.len() == 9,
                    old(self).board@.len() == 9,
                    self.game_state is Ongoing || self.game_state is Finished,
                    keeps_marks(old(self).board@, self.board@),
                    self.game_state is Ongoing && self.players[self.current_player as int] is CPU
                        ==> !is_full(self.board@),
                    self.game_state matches GameState::Finished(result) ==> self.verdict() == Some(
                        result@,
                    ),
                    !playing ==> self.game_state is Ongoing && !old(self).is_automatic(),
                    self.current_player == (old(self).current_player + empty_count(
                        old(self).board@,
                    ) - empty_count(self.board@)) % 2,
                    0 <= empty_count(self.board@) <= empty_count(old(self).board@),
                    drawn == (old(self).is_automatic() && old(self).is_in_step() && winner(
                        old(self).board@,
                    ) is None && position_value(old(self).board@) == 0),
                    old(self).is_in_step() ==> self.is_in_step(),
                    drawn ==> winner(self.board@) is None,
                    drawn && self.game_state is Ongoing ==> position_value(self.board@) == 0,
                decreases
                        empty_count(self.board@) + if playing {
                            1int
                        } else {
                            0int
                        },
            {
                let ghost before = self.board@;
                let ghost mark = player_mark(self.current_player as int);
                assert(before.len() == 9);
                let moved = self.take_turn();
                if moved {
                    proof {
                        let cell = choose|i: int|
                            0 <= i < 9 && before[i] is Empty && self.board@
                                == #[trigger] before.update(i, mark);
                        lemma_place_counts(before, cell, mark);
                        lemma_occupied_bounds(self.board@);
                        if drawn {
                            let best = choose|i: int|
                                is_best_move(before, i) && self.board@ == #[trigger] before.update(
                                    i,
                                    mark,
                                );
                            lemma_best_move_keeps_draw(before, best);
                        }
                    }
                    self.check_if_over();
                    self.current_player = if self.current_player == 0 {
                        1
                    } else {
                        0
                    };
                } else {
                    playing = false;
                }
            }
            self.announce_result();
        }
        match &self.game_state {
            GameState::Finished(result) => Ok(result.duplicate()),
            _ => Err(()),
        }
    }
}

/// A result is handed to the user interface once: by the start that plays the match to
/// its end. A start that follows returns the same result and leaves the match, its
/// board and the number of results handed out as they were.
pub proof fn lemma_result_is_reported_once<'a, T: Ui>(
    fresh: Game<'a, T>,
    played: Game<'a, T>,
    again: Game<'a, T>,
    first: Result<GameResult, ()>,
    second: Result<GameResult, ()>,
)
    requires
        fresh.game_state is NotStarted,
        Game::started(fresh, played, first),
        played.game_state is Finished,
        Game::started(played, again, second),
    ensures
        played.reports@ == fresh.reports@ + 1,
        again.reports@ == fresh.reports@ + 1,
        first is Ok,
        second == first,
        again == played,
{
}

/// Two computers that play a new match against each other play it to a draw: the
/// board is full in the end, and no line on it is completed.
pub proof fn lemma_computers_draw<'a, T: Ui>(
    fresh: Game<'a, T>,
    played: Game<'a, T>,
    outcome: Result<GameResult, ()>,
)
    requires
        fresh.game_state is NotStarted,
        fresh.board@ == initial_cells(),
        fresh.current_player == 0,
        fresh.is_automatic(),
        Game::started(fresh, played, outcome),
    ensures
        outcome == Ok::<GameResult, ()>(GameResult::Draw),
        played.game_state == GameState::Finished(GameResult::Draw),
        is_full(played.board@),
        winning_line(played.board@) is None,
{
    lemma_initial_board();
    lemma_fresh_board_is_drawn();
}

} // verus!
