use std::cell::RefCell;
use tic_tac_terminal::board::{Board, BoardMove, Cell};
use tic_tac_terminal::game::GameResult;
use tic_tac_terminal::player::Player;
use tic_tac_terminal::tictactoe::GameMode;
use tic_tac_terminal::ui::Ui;

struct MockUi {
    returned_move: Option<BoardMove>,
    asked: RefCell<Vec<(String, Option<String>)>>,
}

impl MockUi {
    fn returning(returned_move: Option<BoardMove>) -> MockUi {
        MockUi {
            returned_move,
            asked: RefCell::new(vec![]),
        }
    }
}

impl Ui for MockUi {
    fn get_move(&self, player_name: &str, additional_message: Option<&str>) -> BoardMove {
        self.asked.borrow_mut().push((
            player_name.to_string(),
            additional_message.map(|message| message.to_string()),
        ));
        self.returned_move.unwrap().clone()
    }

    fn update_board(&self, _board: &Board) {
        panic!("update_board shouldn't be called");
    }

    fn notify_result(&self, _result: &GameResult) {
        panic!("notify_result shouldn't be called");
    }

    fn get_player_name(&self, _name_placeholder: &str) -> String {
        panic!("get_player_name shouldn't be called");
    }

    fn select_mode(&self) -> GameMode {
        panic!("select_mode shouldn't be called");
    }

    fn keep_playing(&self) -> bool {
        panic!("keep_playing shouldn't be called");
    }

    fn update_scores(
        &self,
        _player1_name: &str,
        _player1_score: i32,
        _player2_name: &str,
        _player2_score: i32,
    ) {
        panic!("update_scores shouldn't be called");
    }
}

#[test]
fn get_human_move() {
    let returned_move = BoardMove::try_new(3).unwrap();
    let mock_ui = MockUi::returning(Some(returned_move.clone()));
    let fake_board = Board::new();
    let player = Player::Human(String::from("Steve"));

    let m = player.get_move(&fake_board, &mock_ui, None);

    assert_eq!(m, returned_move, "Player should return move given by Ui");
}

#[test]
fn player_cpu_makes_valid_moves() {
    let mock_ui = MockUi::returning(None);
    let boards = vec![
        Board::new(),
        Board::from([
            Cell::O,
            Cell::O,
            Cell::X,
            Cell::X,
            Cell::Empty('5'),
            Cell::Empty('6'),
            Cell::Empty('7'),
            Cell::Empty('8'),
            Cell::Empty('9'),
        ]),
        Board::from([
            Cell::O,
            Cell::Empty('2'),
            Cell::Empty('3'),
            Cell::Empty('4'),
            Cell::O,
            Cell::Empty('6'),
            Cell::Empty('7'),
            Cell::X,
            Cell::Empty('9'),
        ]),
    ];

    let cpu = Player::CPU;

    for board in boards {
        let m = cpu.get_move(&board, &mock_ui, None);

        assert!(
            board.is_valid_move(&m),
            "CPU should always return a valid move",
        );
    }
}

#[test]
fn player_cpu_wins_whenever_possible() {
    let mock_ui = MockUi::returning(None);
    let boards_and_expected_moves = vec![(
        Board::from([
            Cell::O,
            Cell::Empty('2'),
            Cell::X,
            Cell::O,
            Cell::O,
            Cell::Empty('6'),
            Cell::Empty('7'),
            Cell::Empty('8'),
            Cell::X,
        ]),
        BoardMove::try_new(6).unwrap(),
    )];

    let cpu = Player::CPU;

    for (board, expected_move) in boards_and_expected_moves {
        let m = cpu.get_move(&board, &mock_ui, None);

        assert_eq!(
            m, expected_move,
            "CPU should always make winning move whenever possible"
        );
    }
}

#[test]
fn player_cpu_prevents_player_win() {
    let mock_ui = MockUi::returning(None);
    let boards_and_expected_moves = vec![
        // In this first case CPU is lost nonetheless, but putting an 'X' in cell 7 prolongs
        // the game
        (
            Board::from([
                Cell::O,
                Cell::Empty('2'),
                Cell::X,
                Cell::O,
                Cell::Empty('5'),
                Cell::Empty('6'),
                Cell::Empty('7'),
                Cell::Empty('8'),
                Cell::Empty('9'),
            ]),
            BoardMove::try_new(7).unwrap(),
        ),
        (
            Board::from([
                Cell::X,
                Cell::O,
                Cell::O,
                Cell::Empty('4'),
                Cell::X,
                Cell::Empty('6'),
                Cell::Empty('7'),
                Cell::Empty('8'),
                Cell::O,
            ]),
            BoardMove::try_new(6).unwrap(),
        ),
        (
            Board::from([
                Cell::O,
                Cell::X,
                Cell::O,
                Cell::X,
                Cell::X,
                Cell::Empty('6'),
                Cell::Empty('7'),
                Cell::O,
                Cell::Empty('9'),
            ]),
            BoardMove::try_new(6).unwrap(),
        ),
    ];

    let cpu = Player::CPU;

    for (board, expected_move) in boards_and_expected_moves {
        let m = cpu.get_move(&board, &mock_ui, None);

        assert_eq!(
            m, expected_move,
            "CPU should always prevent other player from winning whenever possible"
        );
    }
}

#[test]
fn player_cpu_moves_in_last_free_cell() {
    let mock_ui = MockUi::returning(None);
    let boards_and_expected_moves = vec![
        (
            Board::from([
                Cell::O,
                Cell::Empty('2'),
                Cell::X,
                Cell::X,
                Cell::O,
                Cell::O,
                Cell::O,
                Cell::X,
                Cell::X,
            ]),
            BoardMove::try_new(2).unwrap(),
        ),
        (
            Board::from([
                Cell::O,
                Cell::O,
                Cell::X,
                Cell::X,
                Cell::X,
                Cell::O,
                Cell::O,
                Cell::X,
                Cell::Empty('9'),
            ]),
            BoardMove::try_new(9).unwrap(),
        ),
    ];

    let cpu = Player::CPU;

    for (board, expected_move) in boards_and_expected_moves {
        let m = cpu.get_move(&board, &mock_ui, None);

        assert_eq!(
            m, expected_move,
            "CPU should always move in last cell if it's the only one available"
        );
    }
}

#[test]
#[should_panic]
fn player_panics_on_full_board() {
    let mock_ui = MockUi::returning(None);
    let full_board = Board::from([
        Cell::O,
        Cell::O,
        Cell::X,
        Cell::X,
        Cell::X,
        Cell::O,
        Cell::O,
        Cell::X,
        Cell::O,
    ]);

    assert!(full_board.is_full(), "Board must be full for this test");

    let cpu = Player::CPU;

    cpu.get_move(&full_board, &mock_ui, None);
}

#[test]
fn names_of_players() {
    assert_eq!(Player::Human(String::from("Steve")).get_name(), "Steve");
    assert_eq!(Player::Human(String::new()).get_name(), "");
    assert_eq!(Player::CPU.get_name(), "CPU");
}

#[test]
fn human_is_asked_by_name_with_the_message() {
    let mock_ui = MockUi::returning(Some(BoardMove::try_new(9).unwrap()));
    let player = Player::Human(String::from("Steve"));

    let first = player.get_move(&Board::new(), &mock_ui, None);
    let second = player.get_move(&Board::new(), &mock_ui, Some("this cell is not empty"));

    assert_eq!(first.index(), 8);
    assert_eq!(second.index(), 8);
    assert_eq!(
        *mock_ui.asked.borrow(),
        vec![
            (String::from("Steve"), None),
            (
                String::from("Steve"),
                Some(String::from("this cell is not empty"))
            ),
        ]
    );
}

#[test]
fn cpu_does_not_ask_the_ui() {
    let mock_ui = MockUi::returning(None);

    Player::CPU.get_move(&Board::new(), &mock_ui, None);

    assert!(mock_ui.asked.borrow().is_empty());
}
