//! A session: matches in a chosen mode, and their score.

use crate::board::lemma_initial_board;
use crate::game::{Game, GameResult, GameResultView};
use crate::player::Player;
use crate::ui::Ui;
use vstd::prelude::*;

verus! {

/// How many matches are played in one mode at most: as many as a score can count.
pub const MAX_ROUNDS: i32 = 2_147_483_647;

/// How often a mode is chosen at most before the session ends by itself.
pub const MAX_SESSIONS: usize = 4_294_967_295;

/// Who plays whom.
pub enum GameMode {
    PlayerVsPlayer,
    PlayerVsCpu,
    CpuVsPlayer,
    CpuVsCpu,
    Quit,
}

/// The game as a whole: the user interface, the mode chosen last, and the score of the
/// two players in that mode.
pub struct TicTacToe<'a, T: Ui> {
    pub ui: &'a T,
    pub mode: Option<GameMode>,
    pub scores: (i32, i32),
}

/// The score after a match: a win counts one for the winner, a draw counts for nobody.
pub open spec fn scores_after(scores: (i32, i32), result: GameResultView) -> (int, int) {
    match result {
        GameResultView::PlayerWon(winner, _, _) => if winner == 0 {
            (scores.0 + 1, scores.1 as int)
        } else if winner == 1 {
            (scores.0 as int, scores.1 + 1)
        } else {
            (scores.0 as int, scores.1 as int)
        },
        GameResultView::Draw => (scores.0 as int, scores.1 as int),
    }
}

/// Whether the first seat of a mode is taken by a person.
pub open spec fn first_is_human(mode: GameMode) -> bool {
    mode is PlayerVsPlayer || mode is PlayerVsCpu
}

/// Whether the second seat of a mode is taken by a person.
pub open spec fn second_is_human(mode: GameMode) -> bool {
    mode is PlayerVsPlayer || mode is CpuVsPlayer
}

impl<'a, T: Ui> TicTacToe<'a, T> {
    /// A game that is shown through `ui`, with no mode chosen and nothing scored.
    pub fn new(ui: &'a T) -> (game: Self)
        ensures
            game.ui == ui,
            game.mode is None,
            game.scores == (0i32, 0i32),
    {
        Self { ui, mode: None, scores: (0, 0) }
    }

    /// Lets a mode be chosen and plays matches in it for as long as another one is
    /// wanted, then lets a mode be chosen again, until the choice is to quit.
    pub fn start(&mut self)
        ensures
            final(self).ui == old(self).ui,
            final(self).mode is Some,
            0 <= final(self).scores.0,
            0 <= final(self).scores.1,
    {
        let mut sessions: usize = 0;
        let mut choosing = true;
        while choosing && sessions < MAX_SESSIONS
            invariant
                self.ui == old(self).ui,
                sessions > 0 ==> self.mode is Some && 0 <= self.scores.0 && 0 <= self.scores.1,
                !choosing ==> sessions > 0,
            decreases
                    MAX_SESSIONS - sessions + if choosing {
                        1int
                    } else {
                        0int
                    },
        {
            self.mode = Some(self.ui.select_mode());
            self.scores = (0, 0);
            sessions += 1;
            if let Some((player1, player2)) = self.create_players() {
                let mut rounds: i32 = 0;
                let mut playing = true;
                while playing && rounds < MAX_ROUNDS
                    invariant
                        self.ui == old(self).ui,
                        self.mode is Some,
                        0 <= self.scores.0,
                        0 <= self.scores.1,
                        self.scores.0 + self.scores.1 <= rounds,
                        0 <= rounds <= MAX_ROUNDS,
                    decreases
                            MAX_ROUNDS - rounds + if playing {
                                1int
                            } else {
                                0int
                            },
                {
                    let mut game = Game::new(&player1, &player2, self.ui);
                    proof {
                        lemma_initial_board();
                        assert(game.board@[0] is Empty);
                    }
                    let result = game.start();
                    if let Ok(result) = result {
                        self.update_scores(&player1, &player2, &result);
                    }
                    rounds += 1;
                    if !self.ui.keep_playing() {
                        playing = false;
                    }
                }
            } else {
                choosing = false;
            }
        }
    }

    /// Counts the result of a match and shows the new score.
    pub fn update_scores(&mut self, player1: &Player, player2: &Player, result: &GameResult)
        requires
            scores_after(old(self).scores, result@).0 <= i32::MAX,
            scores_after(old(self).scores, result@).1 <= i32::MAX,
        ensures
            final(self).ui == old(self).ui,
            final(self).mode == old(self).mode,
            final(self).scores.0 == scores_after(old(self).scores, result@).0,
            final(self).scores.1 == scores_after(old(self).scores, result@).1,
    {
        match result {
            GameResult::PlayerWon(winner, _winner_name, _winning_line) => {
                if *winner == 0 {
                    self.scores.0 += 1;
                } else if *winner == 1 {
                    self.scores.1 += 1;
                }
            },
            _ => (),
        }
        let (player1_score, player2_score) = self.scores;
        let (player1_name, player2_name) = (player1.get_name(), player2.get_name());
        self.ui.update_scores(player1_name, player1_score, player2_name, player2_score);
    }

    /// The two players of the chosen mode, with the names that the people among them
    /// give; none while no mode is chosen and when the choice is to quit.
    pub fn create_players(&self) -> (players: Option<(Player, Player)>)
        ensures
            players is Some <==> self.mode is Some && !(self.mode->0 is Quit),
            players matches Some((player1, player2)) ==> (player1 is Human <==> first_is_human(
                self.mode->0,
            )) && (player2 is Human <==> second_is_human(self.mode->0)),
    {
        match self.mode {
            Some(GameMode::PlayerVsPlayer) => {
                let player1_name = self.ui.get_player_name("Player1");
                let player2_name = self.ui.get_player_name("Player2");
                Some((Player::Human(player1_name), Player::Human(player2_name)))
            },
            Some(GameMode::PlayerVsCpu) => {
                let player1_name = self.ui.get_player_name("Player1");
                Some((Player::Human(player1_name), Player::CPU))
            },
            Some(GameMode::CpuVsPlayer) => {
                let player2_name = self.ui.get_player_name("Player2");
                Some((Player::CPU, Player::Human(player2_name)))
            },
            Some(GameMode::CpuVsCpu) => Some((Player::CPU, Player::CPU)),
            Some(GameMode::Quit) => None,
            None => None,
        }
    }
}

} // verus!
