use tic_tac_terminal::board::{Board, BoardMove, Cell, WINNING_LINES};

#[test]
fn proper_move() {
    for cell in 1..=9 {
        let m = BoardMove::try_new(cell);

        assert!(m.is_ok(), "Move should be constructed properly");

        let m = m.unwrap();

        assert_eq!(m.index(), cell - 1);
    }
}

#[test]
fn incorrect_move() {
    for index in [0, 10, 11, 100, 55555] {
        let m = BoardMove::try_new(index);

        assert!(
            m.is_err(),
            "Move should fail to construct with move out of 1..=9 range"
        );
    }
}

#[test]
fn move_validation() {
    let mut board = Board::new();

    let valid_move = BoardMove::try_new(1).unwrap();
    let invalid_move1 = BoardMove::try_new(4).unwrap();
    let invalid_move2 = BoardMove::try_new(5).unwrap();

    assert!(
        board.is_valid_move(&valid_move),
        "All moves should be valid when game starts"
    );
    assert!(
        board.is_valid_move(&invalid_move1),
        "All moves should be valid when game starts"
    );
    assert!(
        board.is_valid_move(&invalid_move2),
        "All moves should be valid when game starts"
    );

    board[3] = Cell::X;
    board[4] = Cell::O;

    assert!(
        board.is_valid_move(&valid_move),
        "Move on empty cell should be valid"
    );
    assert!(
        !board.is_valid_move(&invalid_move1),
        "Move on occupied cell shouldn't be valid"
    );
    assert!(
        !board.is_valid_move(&invalid_move2),
        "Move on occupied cell shouldn't be valid"
    );
}

#[test]
fn full_board_check() {
    let board = Board::new();

    assert!(
        !board.is_full(),
        "Board is empty - method should return false"
    );

    let mut board = Board::from([Cell::O; 9]);

    assert!(board.is_full(), "Board is full - method should return true");

    board[4] = Cell::Empty('5');

    assert!(
        !board.is_full(),
        "Board is almost full - method should return false"
    );
}

#[test]
fn possible_moves() {
    let board = Board::new();
    let possible_moves = board.get_possible_moves();

    assert_eq!(
        possible_moves.len(),
        9,
        "There should be 9 possible moves on empty board"
    );

    let mut board = Board::from([Cell::O; 9]);
    let possible_moves = board.get_possible_moves();

    assert_eq!(
        possible_moves.len(),
        0,
        "There should be no possible moves on full board"
    );

    board[4] = Cell::Empty('5');
    let possible_moves = board.get_possible_moves();

    assert_eq!(
        possible_moves.len(),
        1,
        "There should be only one move possible"
    );
    assert_eq!(
        possible_moves,
        vec![BoardMove::try_new(5).unwrap()],
        "Only move '5' should be available"
    )
}

#[test]
fn valid_move() {
    let mut board = Board::new();

    let move1 = BoardMove::try_new(3).unwrap();
    let move2 = BoardMove::try_new(4).unwrap();
    let move3 = BoardMove::try_new(5).unwrap();

    assert!(
        board.is_valid_move(&move1),
        "Move on empty cell should be possible"
    );
    assert!(
        board.is_valid_move(&move2),
        "Move on empty cell should be possible"
    );
    assert!(
        board.is_valid_move(&move3),
        "Move on empty cell should be possible"
    );

    board[2] = Cell::O;

    assert!(
        !board.is_valid_move(&move1),
        "Move on occupied cell shouldn't be possible"
    );
    assert!(
        board.is_valid_move(&move2),
        "Move on empty cell should be possible"
    );
    assert!(
        board.is_valid_move(&move3),
        "Move on empty cell should be possible"
    );

    let board = Board::from([Cell::O; 9]);

    assert!(
        !board.is_valid_move(&move1),
        "Move on occupied cell shouldn't be possible"
    );
    assert!(
        !board.is_valid_move(&move2),
        "Move on occupied cell shouldn't be possible"
    );
    assert!(
        !board.is_valid_move(&move3),
        "Move on occupied cell shouldn't be possible"
    );
}

#[test]
fn winning_lines() {
    let board = Board::new();

    assert_eq!(
        board.get_winning_line(),
        None,
        "There should be no winning line in empty board"
    );

    let mut board = Board::from([
        Cell::O,
        Cell::X,
        Cell::Empty('3'),
        Cell::O,
        Cell::X,
        Cell::Empty('6'),
        Cell::Empty('7'),
        Cell::Empty('8'),
        Cell::Empty('9'),
    ]); // Almost-winning board

    assert_eq!(
        board.get_winning_line(),
        None,
        "There should be no winning line"
    );

    board[6] = Cell::O;

    if let None = board.get_winning_line() {
        panic!("There should be winnig line - three 'O's in column 1");
    }
}

fn occupied_cells(board: &Board) -> usize {
    (0..9)
        .filter(|&index| !matches!(board[index], Cell::Empty(_)))
        .count()
}

fn board_of(marks: &str) -> Board {
    let mut board = Board::new();
    for (index, mark) in marks.chars().enumerate() {
        match mark {
            'O' => board.place(index, Cell::O),
            'X' => board.place(index, Cell::X),
            _ => {}
        }
    }
    board
}

#[test]
fn new_board_is_labelled_and_free() {
    let board = Board::new();

    for (index, label) in "123456789".chars().enumerate() {
        assert_eq!(board[index], Cell::Empty(label));
    }
    assert_eq!(board.get_possible_moves().len(), 9);
    assert_eq!(board.get_winning_line(), None);
    assert!(board.is_empty());
    assert!(!board.is_full());
}

#[test]
fn moves_and_marks_make_nine() {
    for marks in [
        "_________",
        "O________",
        "OX_______",
        "OXO_X__O_",
        "OXOXXOOOX",
        "XXXXXXXXX",
        "____O____",
    ] {
        let board = board_of(marks);

        assert_eq!(
            board.get_possible_moves().len() + occupied_cells(&board),
            9,
            "on {marks}"
        );
    }
}

#[test]
fn possible_moves_ascend() {
    let board = board_of("O_X__XO__");
    let indices: Vec<usize> = board
        .get_possible_moves()
        .iter()
        .map(|board_move| board_move.index())
        .collect();

    assert_eq!(indices, vec![1, 3, 4, 7, 8]);
}

#[test]
fn placed_cell_is_no_longer_offered() {
    for index in 0..9 {
        for mark in [Cell::O, Cell::X] {
            let mut board = board_of("O___X____");
            board.place(index, mark);

            assert_eq!(board[index], mark);
            assert!(board
                .get_possible_moves()
                .iter()
                .all(|board_move| board_move.index() != index));
        }
    }
}

#[test]
fn place_overwrites_one_cell_only() {
    let mut board = board_of("OX_______");
    board.place(0, Cell::X);

    assert_eq!(board, board_of("XX_______"));
}

#[test]
fn every_line_is_found() {
    for (line, cells) in WINNING_LINES.iter().enumerate() {
        for mark in [Cell::O, Cell::X] {
            let mut board = Board::new();
            for &cell in cells {
                board.place(cell, mark);
            }

            assert_eq!(board.get_winning_line(), Some(line));
        }
    }
}

#[test]
fn first_line_in_order_is_reported() {
    // first column (line 0) and first row (line 3) are both complete
    assert_eq!(board_of("OOOO__O__").get_winning_line(), Some(0));
    // first row (line 3) of X and third row (line 5) of O
    assert_eq!(board_of("XXX___OOO").get_winning_line(), Some(3));
    // second column (line 1) of X and main diagonal (line 6) of X
    assert_eq!(board_of("XX__X__XX").get_winning_line(), Some(1));
}

#[test]
fn free_cells_never_make_a_line() {
    assert_eq!(Board::from([Cell::Empty('1'); 9]).get_winning_line(), None);
}

#[test]
fn mixed_line_is_no_line() {
    assert_eq!(board_of("OXO______").get_winning_line(), None);
    assert_eq!(board_of("OXOXXOOOX").get_winning_line(), None);
}

#[test]
fn turn_follows_the_number_of_marks() {
    assert_eq!(Board::new().current_player_symbol(), Cell::O);
    assert_eq!(board_of("O________").current_player_symbol(), Cell::X);
    assert_eq!(board_of("O___X____").current_player_symbol(), Cell::O);
    assert_eq!(board_of("OOO______").current_player_symbol(), Cell::X);
    assert_eq!(board_of("OXOXXOOOX").current_player_symbol(), Cell::X);
    assert_eq!(board_of("OXOXXOOO_").current_player_symbol(), Cell::O);
}

#[test]
fn move_bounds() {
    assert!(BoardMove::try_new(0).is_err());
    assert_eq!(BoardMove::try_new(1).unwrap().index(), 0);
    assert_eq!(BoardMove::try_new(9).unwrap().index(), 8);
    assert!(BoardMove::try_new(10).is_err());
    assert!(BoardMove::try_new(usize::MAX).is_err());
}

#[test]
fn move_shows_its_number() {
    for number in 1..=9 {
        assert_eq!(BoardMove::try_new(number).unwrap().number(), number);
    }
}

#[test]
fn opposite_marks() {
    assert_eq!(Cell::O.opposite(), Cell::X);
    assert_eq!(Cell::X.opposite(), Cell::O);
    assert_eq!(Cell::Empty('4').opposite(), Cell::Empty('4'));
}

#[test]
fn cell_symbols() {
    assert_eq!(Cell::O.symbol(), 'O');
    assert_eq!(Cell::X.symbol(), 'X');
    assert_eq!(Cell::Empty('7').symbol(), '7');
}

#[test]
fn blank_and_full() {
    assert!(Board::new().is_empty());
    assert!(!board_of("____X____").is_empty());
    assert!(!board_of("OXOXXOOO_").is_full());
    assert!(board_of("OXOXXOOOX").is_full());
}

#[test]
fn iterator_walks_all_cells_in_order() {
    let board = board_of("O___X___O");
    let mut iterator = board.iter();
    let mut seen = Vec::new();
    while let Some(cell) = iterator.next() {
        seen.push(*cell);
    }

    assert_eq!(seen.len(), 9);
    for (index, cell) in seen.iter().enumerate() {
        assert_eq!(*cell, board[index]);
    }
    assert!(iterator.next().is_none());
}

#[test]
fn from_keeps_the_cells() {
    let cells = [
        Cell::X,
        Cell::Empty('2'),
        Cell::O,
        Cell::Empty('x'),
        Cell::O,
        Cell::X,
        Cell::Empty('7'),
        Cell::Empty('8'),
        Cell::X,
    ];
    let board = Board::from(cells);

    for (index, cell) in cells.iter().enumerate() {
        assert_eq!(board[index], *cell);
    }
}
