//! Tic-tac-toe is solved: a board on which nothing was played is worth a draw.
//!
//! The proof gives each side a plan that never loses: complete a line where that is
//! possible, else fill the line that the opponent could complete, else take the first free
//! cell in a fixed order of preference. That a plan never loses is checked position by
//! position. A plan that never loses bounds the value of the position by 0, and the two
//! bounds together make the value 0.

use crate::board::{
    empty_count, initial_cells, is_complete, is_full, lemma_initial_board, lemma_occupied_bounds,
    mark_to_move, occupied_before, winner, Cell,
};
use crate::player::minimax::{
    child_value, lemma_value_is_best_child, lemma_value_negates, minimax_value, position_value,
};
use vstd::prelude::*;

verus! {

/// The nine cells of a board, one by one.
pub ghost struct Grid {
    pub c0: Cell,
    pub c1: Cell,
    pub c2: Cell,
    pub c3: Cell,
    pub c4: Cell,
    pub c5: Cell,
    pub c6: Cell,
    pub c7: Cell,
    pub c8: Cell,
}

/// One mark fills the three cells.
pub open spec fn filled(a: Cell, b: Cell, c: Cell) -> bool {
    a == b && a == c && !(a is Empty)
}

/// Both cells hold the mark.
pub open spec fn both(a: Cell, b: Cell, mark: Cell) -> bool {
    a == mark && b == mark
}

/// A free cell.
pub open spec fn free() -> Cell {
    Cell::Empty(' ')
}

/// The grid on which nothing was played.
pub open spec fn fresh_grid() -> Grid {
    Grid {
        c0: Cell::Empty('1'),
        c1: Cell::Empty('2'),
        c2: Cell::Empty('3'),
        c3: Cell::Empty('4'),
        c4: Cell::Empty('5'),
        c5: Cell::Empty('6'),
        c6: Cell::Empty('7'),
        c7: Cell::Empty('8'),
        c8: Cell::Empty('9'),
    }
}

/// The order of preference with which the first player never loses.
pub open spec fn opening_order() -> Seq<int> {
    seq![0int, 4, 1, 3, 2, 5, 6, 7, 8]
}

/// The order of preference with which the second player never loses after the first
/// player's move on the cell `opening`.
pub open spec fn defence_order(opening: int) -> Seq<int> {
    if opening == 0 {
        seq![0int, 4, 5, 1, 6, 2, 3, 7, 8]
    } else if opening == 1 {
        seq![1int, 4, 0, 2, 3, 5, 6, 7, 8]
    } else if opening == 2 {
        seq![2int, 4, 3, 1, 7, 8, 0, 5, 6]
    } else if opening == 3 {
        seq![3int, 4, 0, 1, 2, 5, 6, 7, 8]
    } else if opening == 4 {
        seq![0int, 2, 1, 3, 4, 5, 6, 7, 8]
    } else if opening == 5 {
        seq![4int, 2, 0, 1, 3, 5, 6, 7, 8]
    } else if opening == 6 {
        seq![4int, 1, 3, 5, 6, 8, 0, 2, 7]
    } else if opening == 7 {
        seq![4int, 6, 0, 1, 2, 3, 5, 7, 8]
    } else {
        seq![4int, 1, 3, 0, 2, 5, 6, 7, 8]
    }
}

impl Grid {
    /// The grid as a sequence of cells.
    pub open spec fn cells(self) -> Seq<Cell> {
        seq![self.c0, self.c1, self.c2, self.c3, self.c4, self.c5, self.c6, self.c7, self.c8]
    }

    /// The cell at index `i`.
    pub open spec fn at(self, i: int) -> Cell {
        if i == 0 {
            self.c0
        } else if i == 1 {
            self.c1
        } else if i == 2 {
            self.c2
        } else if i == 3 {
            self.c3
        } else if i == 4 {
            self.c4
        } else if i == 5 {
            self.c5
        } else if i == 6 {
            self.c6
        } else if i == 7 {
            self.c7
        } else {
            self.c8
        }
    }

    /// The grid with `mark` at index `i`.
    pub open spec fn with(self, i: int, mark: Cell) -> Grid {
        Grid {
            c0: if i == 0 {
                mark
            } else {
                self.c0
            },
            c1: if i == 1 {
                mark
            } else {
                self.c1
            },
            c2: if i == 2 {
                mark
            } else {
                self.c2
            },
            c3: if i == 3 {
                mark
            } else {
                self.c3
            },
            c4: if i == 4 {
                mark
            } else {
                self.c4
            },
            c5: if i == 5 {
                mark
            } else {
                self.c5
            },
            c6: if i == 6 {
                mark
            } else {
                self.c6
            },
            c7: if i == 7 {
                mark
            } else {
                self.c7
            },
            c8: if i == 8 {
                mark
            } else {
                self.c8
            },
        }
    }

    /// The mark on the first completed line, or a free cell if no line is completed.
    pub open spec fn owner(self) -> Cell {
        if filled(self.c0, self.c3, self.c6) {
            self.c0
        } else if filled(self.c1, self.c4, self.c7) {
            self.c1
        } else if filled(self.c2, self.c5, self.c8) {
            self.c2
        } else if filled(self.c0, self.c1, self.c2) {
            self.c0
        } else if filled(self.c3, self.c4, self.c5) {
            self.c3
        } else if filled(self.c6, self.c7, self.c8) {
            self.c6
        } else if filled(self.c0, self.c4, self.c8) {
            self.c0
        } else if filled(self.c2, self.c4, self.c6) {
            self.c2
        } else {
            free()
        }
    }

    /// No cell is free.
    pub open spec fn full(self) -> bool {
        !(self.c0 is Empty) && !(self.c1 is Empty) && !(self.c2 is Empty) && !(self.c3 is Empty)
            && !(self.c4 is Empty) && !(self.c5 is Empty) && !(self.c6 is Empty) && !(self.c7
            is Empty) && !(self.c8 is Empty)
    }

    /// How many cells are free.
    pub open spec fn free_count(self) -> int {
        let n0 = if self.c0 is Empty {
            1int
        } else {
            0int
        };
        let n1 = if self.c1 is Empty {
            1int
        } else {
            0int
        };
        let n2 = if self.c2 is Empty {
            1int
        } else {
            0int
        };
        let n3 = if self.c3 is Empty {
            1int
        } else {
            0int
        };
        let n4 = if self.c4 is Empty {
            1int
        } else {
            0int
        };
        let n5 = if self.c5 is Empty {
            1int
        } else {
            0int
        };
        let n6 = if self.c6 is Empty {
            1int
        } else {
            0int
        };
        let n7 = if self.c7 is Empty {
            1int
        } else {
            0int
        };
        let n8 = if self.c8 is Empty {
            1int
        } else {
            0int
        };
        n0 + n1 + n2 + n3 + n4 + n5 + n6 + n7 + n8
    }

    /// Playing `mark` on the free cell `i` completes a line of `mark`: the two other
    /// cells of a line through `i` hold `mark`.
    pub open spec fn completes(self, i: int, mark: Cell) -> bool {
        if i == 0 {
            self.c0 is Empty && (both(self.c3, self.c6, mark) || both(self.c1, self.c2, mark)
                || both(self.c4, self.c8, mark))
        } else if i == 1 {
            self.c1 is Empty && (both(self.c4, self.c7, mark) || both(self.c0, self.c2, mark))
        } else if i == 2 {
            self.c2 is Empty && (both(self.c5, self.c8, mark) || both(self.c0, self.c1, mark)
                || both(self.c4, self.c6, mark))
        } else if i == 3 {
            self.c3 is Empty && (both(self.c0, self.c6, mark) || both(self.c4, self.c5, mark))
        } else if i == 4 {
            self.c4 is Empty && (both(self.c1, self.c7, mark) || both(self.c3, self.c5, mark)
                || both(self.c0, self.c8, mark) || both(self.c2, self.c6, mark))
        } else if i == 5 {
            self.c5 is Empty && (both(self.c2, self.c8, mark) || both(self.c3, self.c4, mark))
        } else if i == 6 {
            self.c6 is Empty && (both(self.c0, self.c3, mark) || both(self.c7, self.c8, mark)
                || both(self.c2, self.c4, mark))
        } else if i == 7 {
            self.c7 is Empty && (both(self.c1, self.c4, mark) || both(self.c6, self.c8, mark))
        } else {
            self.c8 is Empty && (both(self.c2, self.c5, mark) || both(self.c6, self.c7, mark)
                || both(self.c0, self.c4, mark))
        }
    }

    /// The first cell on which `mark` completes a line; 9 if there is none.
    pub open spec fn first_completing(self, mark: Cell) -> int {
        if self.completes(0, mark) {
            0
        } else if self.completes(1, mark) {
            1
        } else if self.completes(2, mark) {
            2
        } else if self.completes(3, mark) {
            3
        } else if self.completes(4, mark) {
            4
        } else if self.completes(5, mark) {
            5
        } else if self.completes(6, mark) {
            6
        } else if self.completes(7, mark) {
            7
        } else if self.completes(8, mark) {
            8
        } else {
            9
        }
    }

    /// The first free cell in the order of preference; 9 if there is none.
    pub open spec fn first_free(self, order: Seq<int>) -> int {
        if self.at(order[0]) is Empty {
            order[0]
        } else if self.at(order[1]) is Empty {
            order[1]
        } else if self.at(order[2]) is Empty {
            order[2]
        } else if self.at(order[3]) is Empty {
            order[3]
        } else if self.at(order[4]) is Empty {
            order[4]
        } else if self.at(order[5]) is Empty {
            order[5]
        } else if self.at(order[6]) is Empty {
            order[6]
        } else if self.at(order[7]) is Empty {
            order[7]
        } else if self.at(order[8]) is Empty {
            order[8]
        } else {
            9
        }
    }

    /// The move of a player who completes a line where it can, else fills the line that
    /// the opponent could complete, else takes the first free cell in its order of
    /// preference.
    pub open spec fn planned_move(self, me: Cell, order: Seq<int>) -> int {
        if self.first_completing(me) < 9 {
            self.first_completing(me)
        } else if self.first_completing(me.spec_opposite()) < 9 {
            self.first_completing(me.spec_opposite())
        } else {
            self.first_free(order)
        }
    }

    /// The player `me`, who follows its plan, does not lose from here, whatever the
    /// opponent plays.
    pub open spec fn holds(self, me: Cell, my_turn: bool, order: Seq<int>) -> bool
        decreases self.free_count(), 1int,
        when !(me is Empty)
    {
        if !(self.owner() is Empty) {
            self.owner() == me
        } else if self.full() {
            true
        } else if my_turn {
            let i = self.planned_move(me, order);
            0 <= i < 9 && self.at(i) is Empty && self.with(i, me).holds(me, false, order)
        } else {
            &&& self.holds_after(me, order, 0)
            &&& self.holds_after(me, order, 1)
            &&& self.holds_after(me, order, 2)
            &&& self.holds_after(me, order, 3)
            &&& self.holds_after(me, order, 4)
            &&& self.holds_after(me, order, 5)
            &&& self.holds_after(me, order, 6)
            &&& self.holds_after(me, order, 7)
            &&& self.holds_after(me, order, 8)
        }
    }

    /// The player `me` does not lose after the opponent's move on cell `i`, if that
    /// cell is free.
    pub open spec fn holds_after(self, me: Cell, order: Seq<int>, i: int) -> bool
        decreases self.free_count(), 0int,
        when !(me is Empty) && 0 <= i < 9
    {
        self.at(i) is Empty ==> self.with(i, me.spec_opposite()).holds(me, true, order)
    }

    /// The grid and its sequence of cells say the same of lines, free cells and marks.
    pub proof fn lemma_cells(self)
        ensures
            self.cells().len() == 9,
            forall|i: int| 0 <= i < 9 ==> self.cells()[i] == #[trigger] self.at(i),
            winner(self.cells()) == if self.owner() is Empty {
                None
            } else {
                Some(self.owner())
            },
            is_full(self.cells()) == self.full(),
            empty_count(self.cells()) == self.free_count(),
    {
        reveal_with_fuel(occupied_before, 10);
        let cells = self.cells();
        assert(is_complete(cells, 0) == filled(self.c0, self.c3, self.c6));
        assert(is_complete(cells, 1) == filled(self.c1, self.c4, self.c7));
        assert(is_complete(cells, 2) == filled(self.c2, self.c5, self.c8));
        assert(is_complete(cells, 3) == filled(self.c0, self.c1, self.c2));
        assert(is_complete(cells, 4) == filled(self.c3, self.c4, self.c5));
        assert(is_complete(cells, 5) == filled(self.c6, self.c7, self.c8));
        assert(is_complete(cells, 6) == filled(self.c0, self.c4, self.c8));
        assert(is_complete(cells, 7) == filled(self.c2, self.c4, self.c6));
        if self.full() {
            assert forall|i: int| 0 <= i < 9 implies !(#[trigger] cells[i] is Empty) by {}
        } else {
            assert(cells[0] is Empty || cells[1] is Empty || cells[2] is Empty || cells[3]
                is Empty || cells[4] is Empty || cells[5] is Empty || cells[6] is Empty || cells[7]
                is Empty || cells[8] is Empty);
        }
    }

    /// A mark set on the grid is a mark set on its sequence of cells, and takes a free
    /// cell away.
    pub proof fn lemma_with(self, i: int, mark: Cell)
        requires
            0 <= i < 9,
        ensures
            self.with(i, mark).cells() == self.cells().update(i, mark),
            self.at(i) is Empty && !(mark is Empty) ==> self.with(i, mark).free_count()
                == self.free_count() - 1,
    {
        assert(self.with(i, mark).cells() =~= self.cells().update(i, mark));
    }

    /// A position that the plan of `me` holds is worth no less than a draw to `me`.
    pub proof fn lemma_held_position_is_not_lost(
        self,
        me: Cell,
        my_turn: bool,
        order: Seq<int>,
        depth: int,
    )
        requires
            !(me is Empty),
            0 <= depth,
            depth + self.free_count() <= 100,
            self.holds(me, my_turn, order),
        ensures
            minimax_value(self.cells(), me, my_turn, depth) >= 0,
        decreases self.free_count(),
    {
        let cells = self.cells();
        self.lemma_cells();
        if self.owner() is Empty && !self.full() {
            lemma_value_is_best_child(cells, me, my_turn, depth);
            if my_turn {
                let i = self.planned_move(me, order);
                self.lemma_with(i, me);
                self.with(i, me).lemma_held_position_is_not_lost(me, false, order, depth + 1);
                assert(cells[i] == self.at(i));
                assert(child_value(cells, me, true, depth, i) >= 0);
            } else {
                let i = choose|i: int|
                    0 <= i < 9 && cells[i] is Empty && #[trigger] child_value(
                        cells,
                        me,
                        false,
                        depth,
                        i,
                    ) == minimax_value(cells, me, false, depth);
                assert(cells[i] == self.at(i));
                assert(self.holds_after(me, order, i));
                self.lemma_with(i, me.spec_opposite());
                self.with(i, me.spec_opposite()).lemma_held_position_is_not_lost(
                    me,
                    true,
                    order,
                    depth + 1,
                );
            }
        }
    }
}

/// The first player's plan never loses.
proof fn lemma_opening_holds()
    ensures
        fresh_grid().holds(Cell::O, true, opening_order()),
{
    reveal_with_fuel(Grid::holds, 20);
    reveal_with_fuel(Grid::holds_after, 20);
}

/// The second player's plan never loses after an opening in the first corner.
proof fn lemma_defence_holds_0()
    ensures
        fresh_grid().with(0, Cell::O).holds(Cell::X, true, defence_order(0)),
{
    reveal_with_fuel(Grid::holds, 20);
    reveal_with_fuel(Grid::holds_after, 20);
}

proof fn lemma_defence_holds_1()
    ensures
        fresh_grid().with(1, Cell::O).holds(Cell::X, true, defence_order(1)),
{
    reveal_with_fuel(Grid::holds, 20);
    reveal_with_fuel(Grid::holds_after, 20);
}

proof fn lemma_defence_holds_2()
    ensures
        fresh_grid().with(2, Cell::O).holds(Cell::X, true, defence_order(2)),
{
    reveal_with_fuel(Grid::holds, 20);
    reveal_with_fuel(Grid::holds_after, 20);
}

proof fn lemma_defence_holds_3()
    ensures
        fresh_grid().with(3, Cell::O).holds(Cell::X, true, defence_order(3)),
{
    reveal_with_fuel(Grid::holds, 20);
    reveal_with_fuel(Grid::holds_after, 20);
}

proof fn lemma_defence_holds_4()
    ensures
        fresh_grid().with(4, Cell::O).holds(Cell::X, true, defence_order(4)),
{
    reveal_with_fuel(Grid::holds, 20);
    reveal_with_fuel(Grid::holds_after, 20);
}

proof fn lemma_defence_holds_5()
    ensures
        fresh_grid().with(5, Cell::O).holds(Cell::X, true, defence_order(5)),
{
    reveal_with_fuel(Grid::holds, 20);
    reveal_with_fuel(Grid::holds_after, 20);
}

proof fn lemma_defence_holds_6()
    ensures
        fresh_grid().with(6, Cell::O).holds(Cell::X, true, defence_order(6)),
{
    reveal_with_fuel(Grid::holds, 20);
    reveal_with_fuel(Grid::holds_after, 20);
}

proof fn lemma_defence_holds_7()
    ensures
        fresh_grid().with(7, Cell::O).holds(Cell::X, true, defence_order(7)),
{
    reveal_with_fuel(Grid::holds, 20);
    reveal_with_fuel(Grid::holds_after, 20);
}

proof fn lemma_defence_holds_8()
    ensures
        fresh_grid().with(8, Cell::O).holds(Cell::X, true, defence_order(8)),
{
    reveal_with_fuel(Grid::holds, 20);
    reveal_with_fuel(Grid::holds_after, 20);
}

/// The second player's plan never loses, whatever the opening.
proof fn lemma_defence_holds(opening: int)
    requires
        0 <= opening < 9,
    ensures
        fresh_grid().with(opening, Cell::O).holds(Cell::X, true, defence_order(opening)),
{
    if opening == 0 {
        lemma_defence_holds_0();
    } else if opening == 1 {
        lemma_defence_holds_1();
    } else if opening == 2 {
        lemma_defence_holds_2();
    } else if opening == 3 {
        lemma_defence_holds_3();
    } else if opening == 4 {
        lemma_defence_holds_4();
    } else if opening == 5 {
        lemma_defence_holds_5();
    } else if opening == 6 {
        lemma_defence_holds_6();
    } else if opening == 7 {
        lemma_defence_holds_7();
    } else {
        lemma_defence_holds_8();
    }
}

/// A board on which nothing was played is worth a draw to the player who moves first.
pub proof fn lemma_fresh_board_is_drawn()
    ensures
        position_value(initial_cells()) == 0,
{
    let grid = fresh_grid();
    let cells = initial_cells();
    grid.lemma_cells();
    assert(grid.cells() =~= cells);
    lemma_initial_board();
    lemma_occupied_bounds(cells);
    assert(mark_to_move(cells) == Cell::O);
    // The first player does not lose.
    lemma_opening_holds();
    grid.lemma_held_position_is_not_lost(Cell::O, true, opening_order(), 0);
    // Neither does the second.
    lemma_value_is_best_child(cells, Cell::X, false, 0);
    let opening = choose|i: int|
        0 <= i < 9 && cells[i] is Empty && #[trigger] child_value(cells, Cell::X, false, 0, i)
            == minimax_value(cells, Cell::X, false, 0);
    lemma_defence_holds(opening);
    grid.lemma_with(opening, Cell::O);
    grid.with(opening, Cell::O).lemma_held_position_is_not_lost(
        Cell::X,
        true,
        defence_order(opening),
        1,
    );
    assert(minimax_value(cells, Cell::X, false, 0) >= 0);
    lemma_value_negates(cells, Cell::X, false, 0);
}

} // verus!
