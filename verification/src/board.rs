//! The 3x3 grid: cells, moves, legal-move enumeration and line detection.

use vstd::prelude::*;

verus! {

/// Identifies one of the eight winning lines by its position in [`WINNING_LINES`].
pub type WinningLineIndex = usize;

/// A selector of one board cell, built from the numbers 1 to 9 only.
#[derive(Clone, Copy, Debug, PartialEq, Eq, Structural)]
pub struct BoardMove {
    index: usize,
}

/// What a board position holds: nothing yet (with the label shown for it), or a mark.
#[derive(Clone, Copy, Debug, PartialEq, Eq, Structural)]
pub enum Cell {
    Empty(char),
    O,
    X,
}

/// Nine cells, row by row.
#[derive(Clone, Copy, Debug, PartialEq)]
pub struct Board {
    cells: [Cell; 9],
}

/// Walks the cells of a board from the first to the ninth.
pub struct BoardIterator<'a> {
    board: &'a Board,
    position: usize,
}

/// The index triplets that win the game, in the order in which they are checked.
pub const WINNING_LINES: [[usize; 3]; 8] = [
    [0, 3, 6],  // 1st column
    [1, 4, 7],  // 2nd column
    [2, 5, 8],  // 3rd column
    [0, 1, 2],  // 1st row
    [3, 4, 5],  // 2nd row
    [6, 7, 8],  // 3rd row
    [0, 4, 8],  // main diagonal
    [2, 4, 6],  // secondary diagonal
];

/// The three cells of a winning line.
pub open spec fn line_cells(line: int) -> (int, int, int) {
    if line == 0 {
        (0, 3, 6)
    } else if line == 1 {
        (1, 4, 7)
    } else if line == 2 {
        (2, 5, 8)
    } else if line == 3 {
        (0, 1, 2)
    } else if line == 4 {
        (3, 4, 5)
    } else if line == 5 {
        (6, 7, 8)
    } else if line == 6 {
        (0, 4, 8)
    } else {
        (2, 4, 6)
    }
}

/// The cells of a board on which nothing has been played, each with its 1-based label.
pub open spec fn initial_cells() -> Seq<Cell> {
    seq![
        Cell::Empty('1'),
        Cell::Empty('2'),
        Cell::Empty('3'),
        Cell::Empty('4'),
        Cell::Empty('5'),
        Cell::Empty('6'),
        Cell::Empty('7'),
        Cell::Empty('8'),
        Cell::Empty('9'),
    ]
}

/// How many of the first `n` cells hold a mark.
pub open spec fn occupied_before(cells: Seq<Cell>, n: int) -> int
    decreases n,
{
    if n <= 0 {
        0
    } else {
        occupied_before(cells, n - 1) + if cells[n - 1] is Empty {
            0int
        } else {
            1int
        }
    }
}

/// How many of the nine cells hold a mark.
pub open spec fn occupied_count(cells: Seq<Cell>) -> int {
    occupied_before(cells, 9)
}

/// How many of the nine cells are still free.
pub open spec fn empty_count(cells: Seq<Cell>) -> int {
    9 - occupied_count(cells)
}

/// No free cell is left.
pub open spec fn is_full(cells: Seq<Cell>) -> bool {
    forall|i: int| 0 <= i < 9 ==> !(#[trigger] cells[i] is Empty)
}

/// No cell holds a mark.
pub open spec fn is_blank(cells: Seq<Cell>) -> bool {
    forall|i: int| 0 <= i < 9 ==> #[trigger] cells[i] is Empty
}

/// `moves` is the list of the free cells of `cells`, in ascending order.
pub open spec fn lists_empty_cells(cells: Seq<Cell>, moves: Seq<int>) -> bool {
    &&& forall|k: int|
        0 <= k < moves.len() ==> 0 <= #[trigger] moves[k] < 9 && cells[moves[k]] is Empty
    &&& forall|j: int, k: int| 0 <= j < k < moves.len() ==> moves[j] < moves[k]
    &&& forall|i: int| 0 <= i < 9 && #[trigger] cells[i] is Empty ==> moves.contains(i)
}

/// The zero-based cell indices that a list of moves selects.
pub open spec fn move_indices(moves: Seq<BoardMove>) -> Seq<int> {
    moves.map_values(|m: BoardMove| m@)
}

/// One mark fills all three cells of the line.
pub open spec fn is_complete(cells: Seq<Cell>, line: int) -> bool {
    let (a, b, c) = line_cells(line);
    cells[a] == cells[b] && cells[a] == cells[c] && !(cells[a] is Empty)
}

/// The completed line with the least index, if there is one.
pub open spec fn winning_line(cells: Seq<Cell>) -> Option<WinningLineIndex> {
    if is_complete(cells, 0) {
        Some(0usize)
    } else if is_complete(cells, 1) {
        Some(1usize)
    } else if is_complete(cells, 2) {
        Some(2usize)
    } else if is_complete(cells, 3) {
        Some(3usize)
    } else if is_complete(cells, 4) {
        Some(4usize)
    } else if is_complete(cells, 5) {
        Some(5usize)
    } else if is_complete(cells, 6) {
        Some(6usize)
    } else if is_complete(cells, 7) {
        Some(7usize)
    } else {
        None
    }
}

/// The mark on the completed line with the least index, if there is one.
pub open spec fn winner(cells: Seq<Cell>) -> Option<Cell> {
    match winning_line(cells) {
        Some(line) => Some(cells[line_cells(line as int).0]),
        None => None,
    }
}

/// Whose turn it is: `O` after an even number of marks, `X` after an odd number.
pub open spec fn mark_to_move(cells: Seq<Cell>) -> Cell {
    if occupied_count(cells) % 2 == 0 {
        Cell::O
    } else {
        Cell::X
    }
}

impl Cell {
    /// The other player's mark; a free cell has no opposite and stays as it is.
    pub open spec fn spec_opposite(self) -> Cell {
        match self {
            Cell::O => Cell::X,
            Cell::X => Cell::O,
            Cell::Empty(n) => Cell::Empty(n),
        }
    }

    /// What is shown for the cell: its label while it is free, else the mark's letter.
    pub open spec fn spec_symbol(self) -> char {
        match self {
            Cell::Empty(label) => label,
            Cell::O => 'O',
            Cell::X => 'X',
        }
    }

    /// The mark of the other player.
    pub fn opposite(&self) -> (other: Cell)
        ensures
            other == self.spec_opposite(),
    {
        match *self {
            Cell::O => Cell::X,
            Cell::X => Cell::O,
            Cell::Empty(n) => Cell::Empty(n),
        }
    }

    /// The character that stands for the cell on screen.
    pub fn symbol(&self) -> (shown: char)
        ensures
            shown == self.spec_symbol(),
    {
        match *self {
            Cell::Empty(label) => label,
            Cell::O => 'O',
            Cell::X => 'X',
        }
    }
}

impl View for BoardMove {
    type V = int;

    /// The zero-based index of the selected cell.
    closed spec fn view(&self) -> int {
        self.index as int
    }
}

impl BoardMove {
    #[verifier::type_invariant]
    spec fn on_board(self) -> bool {
        self.index < 9
    }

    /// Accepts the numbers 1 to 9 and selects the cell one below the number.
    pub fn try_new(num: usize) -> (made: Result<BoardMove, ()>)
        ensures
            made is Ok <==> 1 <= num <= 9,
            made matches Ok(board_move) ==> board_move@ == num - 1,
    {
        if num < 1 || num > 9 {
            return Err(());
        }
        Ok(BoardMove { index: num - 1 })
    }

    /// The zero-based index of the cell that the move selects.
    pub fn index(&self) -> (index: usize)
        ensures
            index == self@,
            index < 9,
    {
        proof {
            use_type_invariant(self);
        }
        self.index
    }

    /// The number between 1 and 9 that the move was made from, as it is displayed.
    pub fn number(&self) -> (num: usize)
        ensures
            num == self@ + 1,
            1 <= num <= 9,
    {
        proof {
            use_type_invariant(self);
        }
        self.index + 1
    }
}

impl View for Board {
    type V = Seq<Cell>;

    /// The nine cells, row by row.
    closed spec fn view(&self) -> Seq<Cell> {
        self.cells@
    }
}

impl std::ops::Index<usize> for Board {
    type Output = Cell;

    /// The cell at `index`, which is below 9.
    fn index(&self, index: usize) -> (cell: &Cell)
        ensures
            *cell == self@[index as int],
    {
        &self.cells[index]
    }
}

impl vstd::std_specs::core::IndexSpecImpl<usize> for Board {
    open spec fn index_req(&self, index: &usize) -> bool {
        *index < 9
    }
}

impl std::ops::IndexMut<usize> for Board {
    /// The cell at `index`, to be overwritten with whatever the caller sets.
    fn index_mut(&mut self, index: usize) -> (cell: &mut Cell)
        requires
            index < 9,
        ensures
            *cell == old(self)@[index as int],
            final(self)@ == old(self)@.update(index as int, *final(cell)),
    {
        &mut self.cells[index]
    }
}

impl<'a> BoardIterator<'a> {
    /// The cells that the iterator walks over.
    pub closed spec fn cells(&self) -> Seq<Cell> {
        self.board@
    }

    /// How many cells have been handed out; 9 or more when none is left.
    pub closed spec fn position(&self) -> int {
        self.position as int
    }

    /// Hands out the next cell, or `None` after the ninth.
    pub fn next(&mut self) -> (item: Option<&'a Cell>)
        ensures
            final(self).cells() == old(self).cells(),
            old(self).position() < 9 ==> item == Some(&old(self).cells()[old(self).position()])
                && final(self).position() == old(self).position() + 1,
            old(self).position() >= 9 ==> item is None && final(self).position() == old(
                self,
            ).position(),
    {
        if self.position < 9 {
            let cell = &self.board.cells[self.position];
            self.position = self.position + 1;
            Some(cell)
        } else {
            None
        }
    }
}

impl Board {
    /// Every board has nine cells.
    pub broadcast proof fn lemma_nine_cells(self)
        ensures
            #[trigger] self@.len() == 9,
    {
    }

    /// A board with nine free cells, labelled '1' to '9'.
    pub fn new() -> (board: Board)
        ensures
            board@ == initial_cells(),
            empty_count(board@) == 9,
            winning_line(board@) is None,
    {
        let board = Board {
            cells: [
                Cell::Empty('1'),
                Cell::Empty('2'),
                Cell::Empty('3'),
                Cell::Empty('4'),
                Cell::Empty('5'),
                Cell::Empty('6'),
                Cell::Empty('7'),
                Cell::Empty('8'),
                Cell::Empty('9'),
            ],
        };
        proof {
            assert(board@ =~= initial_cells());
            lemma_initial_board();
        }
        board
    }

    /// The board that holds the given cells.
    pub fn from(cells: [Cell; 9]) -> (board: Board)
        ensures
            board@ == cells@,
    {
        Board { cells }
    }

    /// An iterator over the cells, which starts at the first.
    pub fn iter(&self) -> (iterator: BoardIterator<'_>)
        ensures
            iterator.cells() == self@,
            iterator.position() == 0,
    {
        BoardIterator { board: self, position: 0 }
    }

    /// Puts the mark `O` or `X` on the cell at `index`, whatever the cell held before.
    /// Whether the move is legal is for the caller to ask first.
    pub fn place(&mut self, index: usize, mark: Cell)
        requires
            index < 9,
            !(mark is Empty),
        ensures
            final(self)@ == old(self)@.update(index as int, mark),
            !(final(self)@[index as int] is Empty),
    {
        self.cells[index] = mark;
    }

    /// Whether no free cell is left.
    pub fn is_full(&self) -> (full: bool)
        ensures
            full == is_full(self@),
    {
        let mut i: usize = 0;
        while i < 9
            invariant
                i <= 9,
                forall|j: int| 0 <= j < i ==> !(#[trigger] self@[j] is Empty),
            decreases 9 - i,
        {
            if let Cell::Empty(_) = self.cells[i] {
                return false;
            }
            i += 1;
        }
        true
    }

    /// Whether nothing has been played yet.
    pub fn is_empty(&self) -> (blank: bool)
        ensures
            blank == is_blank(self@),
    {
        let mut i: usize = 0;
        while i < 9
            invariant
                i <= 9,
                forall|j: int| 0 <= j < i ==> #[trigger] self@[j] is Empty,
            decreases 9 - i,
        {
            match self.cells[i] {
                Cell::Empty(_) => {},
                _ => {
                    return false;
                },
            }
            i += 1;
        }
        true
    }

    /// The free cells in ascending order.
    pub fn get_possible_moves(&self) -> (moves: Vec<BoardMove>)
        ensures
            lists_empty_cells(self@, move_indices(moves@)),
            moves@.len() + occupied_count(self@) == 9,
    {
        let mut moves: Vec<BoardMove> = Vec::new();
        let mut i: usize = 0;
        while i < 9
            invariant
                i <= 9,
                moves@.len() + occupied_before(self@, i as int) == i,
                forall|k: int|
                    0 <= k < moves@.len() ==> 0 <= (#[trigger] moves@[k])@ < i && self@[moves@[k]@]
                        is Empty,
                forall|j: int, k: int| 0 <= j < k < moves@.len() ==> moves@[j]@ < moves@[k]@,
                forall|c: int|
                    0 <= c < i && #[trigger] self@[c] is Empty ==> exists|k: int|
                        0 <= k < moves@.len() && moves@[k]@ == c,
            decreases 9 - i,
        {
            if let Cell::Empty(_) = self.cells[i] {
                let made = BoardMove::try_new(i + 1);
                match made {
                    Ok(board_move) => {
                        let ghost before = moves@;
                        moves.push(board_move);
                        assert forall|c: int| 0 <= c < i + 1 && #[trigger] self@[c] is Empty implies exists|
                            k: int,
                        | 0 <= k < moves@.len() && moves@[k]@ == c by {
                            if c < i {
                                let k = choose|k: int| 0 <= k < before.len() && before[k]@ == c;
                                assert(moves@[k]@ == c);
                            } else {
                                assert(moves@[before.len() as int]@ == c);
                            }
                        }
                    },
                    Err(_) => {},
                }
            }
            i += 1;
        }
        proof {
            let indices = move_indices(moves@);
            assert forall|c: int| 0 <= c < 9 && #[trigger] self@[c] is Empty implies indices.contains(
                c,
            ) by {
                let k = choose|k: int| 0 <= k < moves@.len() && moves@[k]@ == c;
                assert(indices[k] == c);
            }
        }
        moves
    }

    /// Whether the cell that the move selects is still free.
    pub fn is_valid_move(&self, board_move: &BoardMove) -> (valid: bool)
        ensures
            valid == (self@[board_move@] is Empty),
            0 <= board_move@ < 9,
    {
        let index = board_move.index();
        match self.cells[index] {
            Cell::Empty(_) => true,
            _ => false,
        }
    }

    /// The first line, in the order of [`WINNING_LINES`], that one mark fills.
    pub fn get_winning_line(&self) -> (found: Option<WinningLineIndex>)
        ensures
            found == winning_line(self@),
            found matches Some(line) ==> line < 8 && is_complete(self@, line as int),
            found is None ==> forall|line: int| 0 <= line < 8 ==> !is_complete(self@, line),
    {
        let mut index: usize = 0;
        while index < 8
            invariant
                index <= 8,
                forall|line: int| 0 <= line < index ==> !is_complete(self@, line),
            decreases 8 - index,
        {
            let cell_triplet = WINNING_LINES[index];
            let c1 = self.cells[cell_triplet[0]];
            let c2 = self.cells[cell_triplet[1]];
            let c3 = self.cells[cell_triplet[2]];
            if c1 == c2 && c1 == c3 {
                match c1 {
                    Cell::O | Cell::X => {
                        return Some(index);
                    },
                    _ => {},
                }
            }
            index += 1;
        }
        None
    }

    /// The mark that moves next: `O` on an even number of marks, `X` on an odd one.
    pub fn current_player_symbol(&self) -> (mark: Cell)
        ensures
            mark == mark_to_move(self@),
    {
        let mut occupied: usize = 0;
        let mut i: usize = 0;
        while i < 9
            invariant
                i <= 9,
                occupied == occupied_before(self@, i as int),
                occupied <= i,
            decreases 9 - i,
        {
            match self.cells[i] {
                Cell::Empty(_) => {},
                _ => {
                    occupied += 1;
                },
            }
            i += 1;
        }
        if occupied % 2 == 0 {
            Cell::O
        } else {
            Cell::X
        }
    }
}

/// A board on which nothing was played has nine free cells and no completed line.
pub proof fn lemma_initial_board()
    ensures
        empty_count(initial_cells()) == 9,
        occupied_count(initial_cells()) == 0,
        winning_line(initial_cells()) is None,
        is_blank(initial_cells()),
        mark_to_move(initial_cells()) == Cell::O,
{
    reveal_with_fuel(occupied_before, 10);
}

/// Playing a mark on a free cell raises the number of marks by one.
pub proof fn lemma_place_counts(cells: Seq<Cell>, index: int, mark: Cell)
    requires
        cells.len() == 9,
        0 <= index < 9,
        cells[index] is Empty,
        !(mark is Empty),
    ensures
        occupied_count(cells.update(index, mark)) == occupied_count(cells) + 1,
        empty_count(cells.update(index, mark)) == empty_count(cells) - 1,
{
    lemma_place_counts_before(cells, index, mark, 9);
}

proof fn lemma_place_counts_before(cells: Seq<Cell>, index: int, mark: Cell, n: int)
    requires
        cells.len() == 9,
        0 <= index < 9,
        0 <= n <= 9,
        cells[index] is Empty,
        !(mark is Empty),
    ensures
        occupied_before(cells.update(index, mark), n) == occupied_before(cells, n) + if index
            < n {
            1int
        } else {
            0int
        },
    decreases n,
{
    if n > 0 {
        lemma_place_counts_before(cells, index, mark, n - 1);
    }
}

/// The number of marks on a board lies between 0 and 9.
pub proof fn lemma_occupied_bounds(cells: Seq<Cell>)
    ensures
        0 <= occupied_count(cells) <= 9,
        0 <= empty_count(cells) <= 9,
        is_full(cells) <==> empty_count(cells) == 0,
        is_blank(cells) <==> occupied_count(cells) == 0,
{
    lemma_occupied_before(cells, 9);
}

proof fn lemma_occupied_before(cells: Seq<Cell>, n: int)
    requires
        0 <= n,
    ensures
        0 <= occupied_before(cells, n) <= n,
        occupied_before(cells, n) == n <==> forall|i: int|
            0 <= i < n ==> !(#[trigger] cells[i] is Empty),
        occupied_before(cells, n) == 0 <==> forall|i: int|
            0 <= i < n ==> #[trigger] cells[i] is Empty,
    decreases n,
{
    if n > 0 {
        lemma_occupied_before(cells, n - 1);
        if occupied_before(cells, n) == n {
            assert forall|i: int| 0 <= i < n implies !(#[trigger] cells[i] is Empty) by {
                if i < n - 1 {
                }
            }
        }
        if occupied_before(cells, n) == 0 {
            assert forall|i: int| 0 <= i < n implies #[trigger] cells[i] is Empty by {
                if i < n - 1 {
                }
            }
        }
    }
}

/// The legal moves and the marks on the board together make up the nine cells.
pub proof fn lemma_moves_and_marks(cells: Seq<Cell>, moves: Seq<int>)
    requires
        cells.len() == 9,
        lists_empty_cells(cells, moves),
    ensures
        moves.len() + occupied_count(cells) == 9,
{
    lemma_moves_below(cells, moves, 9, moves.len() as int);
}

/// `split` moves select cells below `n`, and they are the free cells below `n`.
proof fn lemma_moves_below(cells: Seq<Cell>, moves: Seq<int>, n: int, split: int)
    requires
        cells.len() == 9,
        0 <= n <= 9,
        0 <= split <= moves.len(),
        lists_empty_cells(cells, moves),
        forall|k: int| 0 <= k < split ==> #[trigger] moves[k] < n,
        forall|k: int| split <= k < moves.len() ==> #[trigger] moves[k] >= n,
    ensures
        split + occupied_before(cells, n) == n,
    decreases n,
{
    if n == 0 {
        if split > 0 {
            assert(moves[0] < 0);
        }
    } else if cells[n - 1] is Empty {
        assert(moves.contains(n - 1));
        let k = choose|k: int| 0 <= k < moves.len() && moves[k] == n - 1;
        assert(k < split);
        assert(k == split - 1) by {
            if k < split - 1 {
                assert(moves[k] < moves[split - 1]);
            }
        }
        assert forall|j: int| 0 <= j < split - 1 implies #[trigger] moves[j] < n - 1 by {
            assert(moves[j] < moves[k]);
        }
        lemma_moves_below(cells, moves, n - 1, split - 1);
    } else {
        assert forall|j: int| 0 <= j < split implies #[trigger] moves[j] < n - 1 by {
            assert(cells[moves[j]] is Empty);
        }
        lemma_moves_below(cells, moves, n - 1, split);
    }
}

/// Once a mark stands on a cell, no list of the legal moves names that cell.
pub proof fn lemma_placed_cell_is_not_legal(
    cells: Seq<Cell>,
    index: int,
    mark: Cell,
    moves: Seq<int>,
)
    requires
        cells.len() == 9,
        0 <= index < 9,
        !(mark is Empty),
        lists_empty_cells(cells.update(index, mark), moves),
    ensures
        !moves.contains(index),
{
    if moves.contains(index) {
        let k = choose|k: int| 0 <= k < moves.len() && moves[k] == index;
        assert(cells.update(index, mark)[moves[k]] is Empty);
    }
}

/// Between two neighbours in the list of legal moves, and before the first and after
/// the last, every cell holds a mark. Position `k` stands for the stretch that ends at
/// the `k`-th move; position `moves.len()` for what follows the last one.
pub proof fn lemma_marks_between_moves(cells: Seq<Cell>, moves: Seq<int>, k: int)
    requires
        cells.len() == 9,
        lists_empty_cells(cells, moves),
        0 <= k <= moves.len(),
    ensures
        forall|i: int|
            stretch_start(moves, k) <= i < stretch_end(moves, k) ==> !(#[trigger] cells[i]
                is Empty),
        0 <= stretch_start(moves, k) <= stretch_end(moves, k) <= 9,
{
    assert forall|i: int|
        stretch_start(moves, k) <= i < stretch_end(moves, k) implies !(#[trigger] cells[i]
        is Empty) by {
        if cells[i] is Empty {
            let p = choose|p: int| 0 <= p < moves.len() && moves[p] == i;
            if p < k {
                if p < k - 1 {
                    assert(moves[p] < moves[k - 1]);
                }
            } else if p > k {
                assert(moves[k] < moves[p]);
            }
        }
    }
    if 0 < k < moves.len() {
        assert(moves[k - 1] < moves[k]);
    }
}

/// The first cell after the move before position `k`.
pub open spec fn stretch_start(moves: Seq<int>, k: int) -> int {
    if k <= 0 {
        0
    } else {
        moves[k - 1] + 1
    }
}

/// The cell of the move at position `k`, or 9 behind the last move.
pub open spec fn stretch_end(moves: Seq<int>, k: int) -> int {
    if k >= moves.len() {
        9
    } else {
        moves[k]
    }
}

} // verus!
