use tic_tac_terminal::board::{Board, BoardMove, Cell};
use tic_tac_terminal::player::minimax::{best_moves, calculate_best_move, minimax, pick};

#[test]
fn minimax_cpu_makes_valid_moves() {
    let boards = vec![
        Board::new(),
        Board::from([
            Cell::O,
            Cell::O,
            Cell::X,
            Cell::X,
            Cell::Empty('5'),
            Cell::Empty('6'),
            Cell::Empty('7'),
            Cell::Empty('8'),
            Cell::Empty('9'),
        ]),
        Board::from([
            Cell::O,
            Cell::Empty('2'),
            Cell::Empty('3'),
            Cell::Empty('4'),
            Cell::O,
            Cell::Empty('6'),
            Cell::Empty('7'),
            Cell::X,
            Cell::Empty('9'),
        ]),
    ];

    for board in boards {
        let m = calculate_best_move(&board);

        assert!(
            board.is_valid_move(&m),
            "CPU should always return a valid move",
        );
    }
}

#[test]
fn minimax_cpu_wins_whenever_possible() {
    let boards_and_expected_moves = vec![
        (
            Board::from([
                Cell::O,
                Cell::Empty('2'),
                Cell::X,
                Cell::O,
                Cell::O,
                Cell::Empty('6'),
                Cell::Empty('7'),
                Cell::Empty('8'),
                Cell::X,
            ]),
            BoardMove::try_new(6).unwrap(),
        ),
        (
            Board::from([
                Cell::X,
                Cell::Empty('2'),
                Cell::X,
                Cell::Empty('4'),
                Cell::O,
                Cell::X,
                Cell::O,
                Cell::Empty('8'),
                Cell::O,
            ]),
            BoardMove::try_new(8).unwrap(),
        ),
        (
            Board::from([
                Cell::O,
                Cell::X,
                Cell::Empty('3'),
                Cell::O,
                Cell::X,
                Cell::Empty('6'),
                Cell::Empty('7'),
                Cell::Empty('8'),
                Cell::Empty('9'),
            ]),
            BoardMove::try_new(7).unwrap(),
        ),
    ];

    for (board, expected_move) in boards_and_expected_moves {
        let m = calculate_best_move(&board);

        assert_eq!(
            m, expected_move,
            "CPU should always make winning move whenever possible"
        );
    }
}

#[test]
fn minimax_cpu_prevents_player_win() {
    let boards_and_expected_moves = vec![
        // In this first case CPU is lost nonetheless, but putting an 'X' in cell 7 prolongs
        // the game
        (
            Board::from([
                Cell::O,
                Cell::Empty('2'),
                Cell::X,
                Cell::O,
                Cell::Empty('5'),
                Cell::Empty('6'),
                Cell::Empty('7'),
                Cell::Empty('8'),
                Cell::Empty('9'),
            ]),
            BoardMove::try_new(7).unwrap(),
        ),
        (
            Board::from([
                Cell::X,
                Cell::O,
                Cell::O,
                Cell::Empty('4'),
                Cell::X,
                Cell::Empty('6'),
                Cell::Empty('7'),
                Cell::Empty('8'),
                Cell::O,
            ]),
            BoardMove::try_new(6).unwrap(),
        ),
        (
            Board::from([
                Cell::O,
                Cell::X,
                Cell::O,
                Cell::X,
                Cell::X,
                Cell::Empty('6'),
                Cell::Empty('7'),
                Cell::O,
                Cell::Empty('9'),
            ]),
            BoardMove::try_new(6).unwrap(),
        ),
    ];

    for (board, expected_move) in boards_and_expected_moves {
        let m = calculate_best_move(&board);

        assert_eq!(
            m, expected_move,
            "CPU should always prevent other player from winning whenever possible"
        );
    }
}

#[test]
fn minimax_cpu_moves_in_last_free_cell() {
    let boards_and_expected_moves = vec![
        (
            Board::from([
                Cell::O,
                Cell::Empty('2'),
                Cell::X,
                Cell::X,
                Cell::O,
                Cell::O,
                Cell::O,
                Cell::X,
                Cell::X,
            ]),
            BoardMove::try_new(2).unwrap(),
        ),
        (
            Board::from([
                Cell::O,
                Cell::O,
                Cell::X,
                Cell::X,
                Cell::X,
                Cell::O,
                Cell::O,
                Cell::X,
                Cell::Empty('9'),
            ]),
            BoardMove::try_new(9).unwrap(),
        ),
    ];

    for (board, expected_move) in boards_and_expected_moves {
        let m = calculate_best_move(&board);

        assert_eq!(
            m, expected_move,
            "CPU should always move in last cell if it's the only one available"
        );
    }
}

#[test]
#[should_panic]
fn minimax_panics_on_full_board() {
    let full_board = Board::from([
        Cell::O,
        Cell::O,
        Cell::X,
        Cell::X,
        Cell::X,
        Cell::O,
        Cell::O,
        Cell::X,
        Cell::O,
    ]);

    assert!(full_board.is_full(), "Board must be full for this test");

    calculate_best_move(&full_board);
}

fn board_of(marks: &str) -> Board {
    let mut board = Board::new();
    for (index, mark) in marks.chars().enumerate() {
        match mark {
            'O' => board.place(index, Cell::O),
            'X' => board.place(index, Cell::X),
            _ => {}
        }
    }
    board
}

fn indices(moves: &[BoardMove]) -> Vec<usize> {
    moves.iter().map(|board_move| board_move.index()).collect()
}

#[test]
fn completed_line_is_scored_by_depth() {
    let won_by_o = board_of("OOOXX____");

    assert_eq!(minimax(&won_by_o, &Cell::O, false, 1), 99);
    assert_eq!(minimax(&won_by_o, &Cell::O, true, 1), 99);
    assert_eq!(minimax(&won_by_o, &Cell::X, true, 1), -99);
    assert_eq!(minimax(&won_by_o, &Cell::O, false, 4), 96);
    assert_eq!(minimax(&won_by_o, &Cell::X, false, 4), -96);
    assert_eq!(minimax(&won_by_o, &Cell::O, true, 0), 100);
    assert_eq!(minimax(&won_by_o, &Cell::X, true, 0), -100);
}

#[test]
fn full_board_without_line_is_worth_nothing() {
    let drawn = board_of("OXOXXOOOX");

    assert_eq!(minimax(&drawn, &Cell::O, true, 9), 0);
    assert_eq!(minimax(&drawn, &Cell::X, false, 3), 0);
}

#[test]
fn line_counts_before_full_board() {
    let full_and_won = board_of("OOOXXOXOX");

    assert_eq!(minimax(&full_and_won, &Cell::O, true, 9), 91);
    assert_eq!(minimax(&full_and_won, &Cell::X, true, 9), -91);
}

#[test]
fn win_on_the_next_ply_is_worth_one_less() {
    // O to move completes the first row on cell 2
    let board = board_of("OO_XX____");

    assert_eq!(minimax(&board, &Cell::O, true, 0), 99);
    assert_eq!(minimax(&board, &Cell::O, true, 5), 94);
    // seen by X while O moves: the least value is taken
    assert_eq!(minimax(&board, &Cell::X, false, 0), -99);
}

#[test]
fn later_loss_is_worth_more_than_earlier_loss() {
    // X to move; O threatens on cell 6 and, after the block, forks
    let board = board_of("O_XO_____");
    let mut blocked = board;
    blocked.place(6, Cell::X);
    let mut ignored = board;
    ignored.place(1, Cell::X);

    let after_block = minimax(&blocked, &Cell::X, false, 1);
    let after_other = minimax(&ignored, &Cell::X, false, 1);

    assert_eq!(after_other, -98);
    assert!(after_block > after_other);
    assert!(after_block < 0);
}

#[test]
fn empty_board_is_worth_a_draw() {
    assert_eq!(minimax(&Board::new(), &Cell::O, true, 0), 0);
    assert_eq!(minimax(&Board::new(), &Cell::X, false, 0), 0);
}

#[test]
fn every_first_move_keeps_the_draw() {
    assert_eq!(
        indices(&best_moves(&Board::new())),
        vec![0, 1, 2, 3, 4, 5, 6, 7, 8]
    );
}

#[test]
fn best_replies_to_a_corner_opening() {
    // after O in a corner only the centre holds the draw
    assert_eq!(indices(&best_moves(&board_of("O________"))), vec![4]);
}

#[test]
fn best_replies_to_a_centre_opening() {
    // after O in the centre the corners hold the draw
    assert_eq!(
        indices(&best_moves(&board_of("____O____"))),
        vec![0, 2, 6, 8]
    );
}

#[test]
fn best_moves_on_full_board_are_none() {
    assert!(best_moves(&board_of("OXOXXOOOX")).is_empty());
}

#[test]
fn best_moves_all_win_when_several_do() {
    // O to move wins on cell 2 (first row) and on cell 6 (first column)
    let board = board_of("OO_O_X_XX");

    assert_eq!(indices(&best_moves(&board)), vec![2, 6]);
    for _ in 0..20 {
        let chosen = calculate_best_move(&board).index();
        assert!(chosen == 2 || chosen == 6);
    }
}

#[test]
fn sole_move_is_returned() {
    for free in 0..9 {
        let mut board = Board::from([Cell::X; 9]);
        board[free] = Cell::Empty('?');

        assert_eq!(calculate_best_move(&board).index(), free);
    }
}

#[test]
fn chosen_move_is_among_the_best() {
    for marks in ["_________", "O________", "O___X____", "OX__O____", "O_X_O_X__"] {
        let board = board_of(marks);
        let best = indices(&best_moves(&board));

        for _ in 0..10 {
            assert!(best.contains(&calculate_best_move(&board).index()));
        }
    }
}

#[test]
fn pick_takes_the_candidate_at_the_roll() {
    let candidates = vec![
        BoardMove::try_new(3).unwrap(),
        BoardMove::try_new(5).unwrap(),
        BoardMove::try_new(8).unwrap(),
    ];

    assert_eq!(pick(&candidates, 0).index(), 2);
    assert_eq!(pick(&candidates, 1).index(), 4);
    assert_eq!(pick(&candidates, 2).index(), 7);
}

#[test]
fn every_best_move_is_drawn_in_the_long_run() {
    let board = board_of("____O____");
    let mut seen = [false; 9];
    for _ in 0..400 {
        seen[calculate_best_move(&board).index()] = true;
    }

    assert_eq!(
        seen,
        [true, false, true, false, false, false, true, false, true]
    );
}
