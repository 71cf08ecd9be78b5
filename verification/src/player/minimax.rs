//! Exhaustive adversarial search: the value of a position and the best moves on it.

use crate::board::{
    empty_count, is_complete, is_full, lemma_marks_between_moves, lemma_occupied_bounds,
    lemma_place_counts, line_cells, lists_empty_cells, mark_to_move, move_indices, stretch_start,
    winner, winning_line, Board, BoardMove, Cell, WINNING_LINES,
};
use rand::Rng;
use vstd::prelude::*;

verus! {

/// The mark that is played on a ply: the searching player's own on its turns, else the
/// opponent's.
pub open spec fn mark_on_ply(me: Cell, maximizing: bool) -> Cell {
    if maximizing {
        me
    } else {
        me.spec_opposite()
    }
}

/// The value of a position for the player `me`, reached `depth` plies into the search.
///
/// A completed line is worth `100 - depth` to its owner and `depth - 100` to the other
/// player; a full board without a line is worth 0. On any other position the side to
/// move takes the best of the values that its moves lead to: the greatest on the turns
/// of `me`, the least on the opponent's.
pub open spec fn minimax_value(cells: Seq<Cell>, me: Cell, maximizing: bool, depth: int) -> int
    decreases empty_count(cells), 10int,
    when cells.len() == 9 && !(me is Empty)
{
    match winner(cells) {
        Some(mark) => if mark == me {
            100 - depth
        } else {
            depth - 100
        },
        None => if is_full(cells) {
            0
        } else {
            best_reply(cells, me, maximizing, depth, 9)
        },
    }
}

/// The best value among the moves on the free cells below `n`: -1000 (on a turn of
/// `me`) or 1000 (on the opponent's) while there is none.
pub open spec fn best_reply(cells: Seq<Cell>, me: Cell, maximizing: bool, depth: int, n: int) -> int
    decreases empty_count(cells), n,
    when cells.len() == 9 && !(me is Empty) && n <= 9
{
    if n <= 0 {
        if maximizing {
            -1000
        } else {
            1000
        }
    } else {
        let rest = best_reply(cells, me, maximizing, depth, n - 1);
        if cells[n - 1] is Empty {
            proof {
                lemma_place_counts(cells, n - 1, mark_on_ply(me, maximizing));
                lemma_occupied_bounds(cells.update(n - 1, mark_on_ply(me, maximizing)));
            }
            let value = minimax_value(
                cells.update(n - 1, mark_on_ply(me, maximizing)),
                me,
                !maximizing,
                depth + 1,
            );
            if maximizing == (value > rest) {
                value
            } else {
                rest
            }
        } else {
            rest
        }
    }
}

/// Cells that hold a mark add nothing to the best value.
proof fn lemma_best_reply_skips_marks(
    cells: Seq<Cell>,
    me: Cell,
    maximizing: bool,
    depth: int,
    from: int,
    to: int,
)
    requires
        cells.len() == 9,
        !(me is Empty),
        0 <= from <= to <= 9,
        forall|i: int| from <= i < to ==> !(#[trigger] cells[i] is Empty),
    ensures
        best_reply(cells, me, maximizing, depth, to) == best_reply(
            cells,
            me,
            maximizing,
            depth,
            from,
        ),
    decreases to - from,
{
    if from < to {
        assert(!(cells[to - 1] is Empty));
        lemma_best_reply_skips_marks(cells, me, maximizing, depth, from, to - 1);
    }
}

/// Scores `board` for the player who plays `maximizing_player_symbol`, `depth` plies
/// below the position that the search started from.
pub fn minimax(
    board: &Board,
    maximizing_player_symbol: &Cell,
    is_maximizing: bool,
    depth: i32,
) -> (score: i32)
    requires
        !(maximizing_player_symbol is Empty),
        100 - depth <= i32::MAX,
        depth + empty_count(board@) <= i32::MAX,
    ensures
        score == minimax_value(board@, *maximizing_player_symbol, is_maximizing, depth as int),
    decreases empty_count(board@),
{
    broadcast use Board::lemma_nine_cells;

    proof {
        lemma_occupied_bounds(board@);
    }
    if let Some(winning_line_index) = board.get_winning_line() {
        let winner_symbol = board[WINNING_LINES[winning_line_index][0]];
        return if winner_symbol == *maximizing_player_symbol {
            100 - depth
        } else {
            depth - 100
        };
    } else if board.is_full() {
        return 0;
    }
    let initial_score: i32 = if is_maximizing {
        -1000
    } else {
        1000
    };
    let current_player_symbol = if is_maximizing {
        *maximizing_player_symbol
    } else {
        maximizing_player_symbol.opposite()
    };
    let moves = board.get_possible_moves();
    let ghost cells = board@;
    let ghost me = *maximizing_player_symbol;
    let ghost indices = move_indices(moves@);
    let mut best_score = initial_score;
    let mut k: usize = 0;
    while k < moves.len()
        invariant
            cells == board@,
            cells.len() == 9,
            me == *maximizing_player_symbol,
            !(me is Empty),
            current_player_symbol == mark_on_ply(me, is_maximizing),
            indices == move_indices(moves@),
            lists_empty_cells(cells, indices),
            0 <= k <= moves.len(),
            100 - depth <= i32::MAX,
            depth + empty_count(cells) <= i32::MAX,
            empty_count(cells) > 0,
            best_score == best_reply(
                cells,
                me,
                is_maximizing,
                depth as int,
                stretch_start(indices, k as int),
            ),
        decreases moves.len() - k,
    {
        let board_move = moves[k];
        let ghost cell = board_move@;
        proof {
            assert(indices[k as int] == cell);
            lemma_marks_between_moves(cells, indices, k as int);
            lemma_best_reply_skips_marks(
                cells,
                me,
                is_maximizing,
                depth as int,
                stretch_start(indices, k as int),
                cell,
            );
            lemma_place_counts(cells, cell, current_player_symbol);
        }
        let mut next_board = board.clone();
        next_board.place(board_move.index(), current_player_symbol);
        let value = minimax(&next_board, maximizing_player_symbol, !is_maximizing, depth + 1);
        if is_maximizing == (value > best_score) {
            best_score = value;
        }
        k += 1;
    }
    proof {
        lemma_marks_between_moves(cells, indices, moves.len() as int);
        lemma_best_reply_skips_marks(
            cells,
            me,
            is_maximizing,
            depth as int,
            stretch_start(indices, moves.len() as int),
            9,
        );
    }
    best_score
}

/// The value of the position that the move on cell `i` leads to, for the player who
/// makes it: the position is scored one ply deep, with the opponent to move.
pub open spec fn move_score(cells: Seq<Cell>, i: int) -> int {
    minimax_value(cells.update(i, mark_to_move(cells)), mark_to_move(cells), false, 1)
}

/// Cell `i` is free and no move scores higher than the move on it.
pub open spec fn is_best_move(cells: Seq<Cell>, i: int) -> bool {
    &&& 0 <= i < 9
    &&& cells[i] is Empty
    &&& forall|j: int|
        0 <= j < 9 && cells[j] is Empty ==> #[trigger] move_score(cells, j) <= move_score(cells, i)
}

/// `moves` is the list of the best moves on `cells`, in ascending order.
pub open spec fn lists_best_moves(cells: Seq<Cell>, moves: Seq<int>) -> bool {
    &&& forall|k: int| 0 <= k < moves.len() ==> is_best_move(cells, #[trigger] moves[k])
    &&& forall|j: int, k: int| 0 <= j < k < moves.len() ==> moves[j] < moves[k]
    &&& forall|i: int| #[trigger] is_best_move(cells, i) ==> moves.contains(i)
}

/// A value lies between a loss and a win on the present ply.
pub proof fn lemma_value_bounds(cells: Seq<Cell>, me: Cell, maximizing: bool, depth: int)
    requires
        cells.len() == 9,
        !(me is Empty),
        0 <= depth,
        depth + empty_count(cells) <= 100,
    ensures
        depth - 100 <= minimax_value(cells, me, maximizing, depth) <= 100 - depth,
    decreases empty_count(cells), 10int,
{
    lemma_occupied_bounds(cells);
    if winner(cells) is None && !is_full(cells) {
        lemma_reply_bounds(cells, me, maximizing, depth, 9);
        let i = choose|i: int| 0 <= i < 9 && cells[i] is Empty;
        assert(cells[i] is Empty);
    }
}

/// The best value below `n` is that of a move, once there is a free cell below `n`.
proof fn lemma_reply_bounds(cells: Seq<Cell>, me: Cell, maximizing: bool, depth: int, n: int)
    requires
        cells.len() == 9,
        !(me is Empty),
        0 <= depth,
        depth + empty_count(cells) <= 100,
        0 <= n <= 9,
    ensures
        (forall|i: int| 0 <= i < n ==> !(#[trigger] cells[i] is Empty)) ==> best_reply(
            cells,
            me,
            maximizing,
            depth,
            n,
        ) == if maximizing {
            -1000int
        } else {
            1000int
        },
        (exists|i: int| 0 <= i < n && #[trigger] cells[i] is Empty) ==> depth - 99 <= best_reply(
            cells,
            me,
            maximizing,
            depth,
            n,
        ) <= 99 - depth,
    decreases empty_count(cells), n,
{
    if n > 0 {
        lemma_reply_bounds(cells, me, maximizing, depth, n - 1);
        if cells[n - 1] is Empty {
            let next = cells.update(n - 1, mark_on_ply(me, maximizing));
            lemma_place_counts(cells, n - 1, mark_on_ply(me, maximizing));
            lemma_occupied_bounds(next);
            lemma_value_bounds(next, me, !maximizing, depth + 1);
            if exists|i: int| 0 <= i < n - 1 && #[trigger] cells[i] is Empty {
            } else {
                assert forall|i: int| 0 <= i < n - 1 implies !(#[trigger] cells[i] is Empty) by {}
            }
        } else {
            if exists|i: int| 0 <= i < n && #[trigger] cells[i] is Empty {
                let i = choose|i: int| 0 <= i < n && #[trigger] cells[i] is Empty;
                assert(0 <= i < n - 1 && cells[i] is Empty);
            }
        }
    }
}

/// The value after the move on cell `i`, made on a ply of the given kind.
pub open spec fn child_value(cells: Seq<Cell>, me: Cell, maximizing: bool, depth: int, i: int) -> int {
    minimax_value(cells.update(i, mark_on_ply(me, maximizing)), me, !maximizing, depth + 1)
}

/// On a position that is not decided, the value is the greatest of the values that the
/// moves lead to on a turn of `me`, and the least of them on a turn of the opponent.
pub proof fn lemma_value_is_best_child(cells: Seq<Cell>, me: Cell, maximizing: bool, depth: int)
    requires
        cells.len() == 9,
        !(me is Empty),
        0 <= depth,
        depth + empty_count(cells) <= 100,
        winner(cells) is None,
        !is_full(cells),
    ensures
        forall|i: int|
            0 <= i < 9 && cells[i] is Empty ==> if maximizing {
                #[trigger] child_value(cells, me, maximizing, depth, i) <= minimax_value(
                    cells,
                    me,
                    maximizing,
                    depth,
                )
            } else {
                child_value(cells, me, maximizing, depth, i) >= minimax_value(
                    cells,
                    me,
                    maximizing,
                    depth,
                )
            },
        exists|i: int|
            0 <= i < 9 && cells[i] is Empty && #[trigger] child_value(
                cells,
                me,
                maximizing,
                depth,
                i,
            ) == minimax_value(cells, me, maximizing, depth),
{
    lemma_reply_is_best_child(cells, me, maximizing, depth, 9);
    let i = choose|i: int| 0 <= i < 9 && cells[i] is Empty;
    assert(cells[i] is Empty);
}

proof fn lemma_reply_is_best_child(cells: Seq<Cell>, me: Cell, maximizing: bool, depth: int, n: int)
    requires
        cells.len() == 9,
        !(me is Empty),
        0 <= depth,
        depth + empty_count(cells) <= 100,
        0 <= n <= 9,
    ensures
        forall|i: int|
            0 <= i < n && cells[i] is Empty ==> if maximizing {
                #[trigger] child_value(cells, me, maximizing, depth, i) <= best_reply(
                    cells,
                    me,
                    maximizing,
                    depth,
                    n,
                )
            } else {
                child_value(cells, me, maximizing, depth, i) >= best_reply(
                    cells,
                    me,
                    maximizing,
                    depth,
                    n,
                )
            },
        (exists|i: int| 0 <= i < n && #[trigger] cells[i] is Empty) ==> exists|i: int|
            0 <= i < n && cells[i] is Empty && #[trigger] child_value(
                cells,
                me,
                maximizing,
                depth,
                i,
            ) == best_reply(cells, me, maximizing, depth, n),
    decreases n,
{
    if n > 0 {
        lemma_reply_is_best_child(cells, me, maximizing, depth, n - 1);
        lemma_reply_bounds(cells, me, maximizing, depth, n - 1);
        let rest = best_reply(cells, me, maximizing, depth, n - 1);
        let best = best_reply(cells, me, maximizing, depth, n);
        if cells[n - 1] is Empty {
            let next = cells.update(n - 1, mark_on_ply(me, maximizing));
            lemma_place_counts(cells, n - 1, mark_on_ply(me, maximizing));
            lemma_occupied_bounds(next);
            lemma_value_bounds(next, me, !maximizing, depth + 1);
            let value = child_value(cells, me, maximizing, depth, n - 1);
            if best == value {
                assert(cells[n - 1] is Empty && child_value(cells, me, maximizing, depth, n - 1)
                    == best);
            } else {
                assert(best == rest);
                if exists|i: int| 0 <= i < n - 1 && #[trigger] cells[i] is Empty {
                    let i = choose|i: int|
                        0 <= i < n - 1 && cells[i] is Empty && #[trigger] child_value(
                            cells,
                            me,
                            maximizing,
                            depth,
                            i,
                        ) == rest;
                    assert(0 <= i < n && cells[i] is Empty && child_value(
                        cells,
                        me,
                        maximizing,
                        depth,
                        i,
                    ) == best);
                } else {
                    assert forall|i: int| 0 <= i < n - 1 implies !(#[trigger] cells[i]
                        is Empty) by {}
                }
            }
        } else {
            if exists|i: int| 0 <= i < n && #[trigger] cells[i] is Empty {
                let w = choose|i: int| 0 <= i < n && #[trigger] cells[i] is Empty;
                assert(0 <= w < n - 1 && cells[w] is Empty);
                let i = choose|i: int|
                    0 <= i < n - 1 && cells[i] is Empty && #[trigger] child_value(
                        cells,
                        me,
                        maximizing,
                        depth,
                        i,
                    ) == rest;
                assert(0 <= i < n && cells[i] is Empty && child_value(
                    cells,
                    me,
                    maximizing,
                    depth,
                    i,
                ) == best);
            }
        }
    }
}

/// A move scores between -99 and 99.
pub proof fn lemma_move_score_bounds(cells: Seq<Cell>, i: int)
    requires
        cells.len() == 9,
        0 <= i < 9,
        cells[i] is Empty,
    ensures
        -99 <= move_score(cells, i) <= 99,
{
    lemma_place_counts(cells, i, mark_to_move(cells));
    lemma_occupied_bounds(cells);
    lemma_value_bounds(cells.update(i, mark_to_move(cells)), mark_to_move(cells), false, 1);
}

/// A move scores 99 when it leaves a completed line of the mover's own as the first
/// line found, and 98 at most when it does not.
pub proof fn lemma_winning_move_score(cells: Seq<Cell>, i: int)
    requires
        cells.len() == 9,
        0 <= i < 9,
        cells[i] is Empty,
    ensures
        wins_at_once(cells, i) ==> move_score(cells, i) == 99,
        !wins_at_once(cells, i) ==> move_score(cells, i) <= 98,
{
    let me = mark_to_move(cells);
    let next = cells.update(i, me);
    lemma_place_counts(cells, i, me);
    lemma_occupied_bounds(cells);
    if winner(next) is None && !is_full(next) {
        lemma_reply_bounds(next, me, false, 1, 9);
        let free = choose|c: int| 0 <= c < 9 && next[c] is Empty;
        assert(next[free] is Empty);
    }
}

/// The move on cell `i` ends the game in favour of the player who makes it.
pub open spec fn wins_at_once(cells: Seq<Cell>, i: int) -> bool {
    winner(cells.update(i, mark_to_move(cells))) == Some(mark_to_move(cells))
}

/// Where one legal move is left, the search returns it.
pub proof fn lemma_sole_move_is_chosen(cells: Seq<Cell>, sole: int, chosen: int)
    requires
        cells.len() == 9,
        0 <= sole < 9,
        cells[sole] is Empty,
        forall|i: int| 0 <= i < 9 && i != sole ==> !(#[trigger] cells[i] is Empty),
    ensures
        is_best_move(cells, sole),
        is_best_move(cells, chosen) ==> chosen == sole,
{
}

/// Where a move wins at once, every best move wins at once.
pub proof fn lemma_immediate_win_is_taken(cells: Seq<Cell>, winning: int, chosen: int)
    requires
        cells.len() == 9,
        0 <= winning < 9,
        cells[winning] is Empty,
        wins_at_once(cells, winning),
        is_best_move(cells, chosen),
    ensures
        wins_at_once(cells, chosen),
        move_score(cells, chosen) == 99,
{
    lemma_winning_move_score(cells, winning);
    lemma_winning_move_score(cells, chosen);
    assert(move_score(cells, winning) <= move_score(cells, chosen));
}

/// The opponent of the player to move would complete a line by playing on cell `i`.
pub open spec fn threatens(cells: Seq<Cell>, i: int) -> bool {
    winning_line(cells.update(i, mark_to_move(cells).spec_opposite())) is Some
}

/// The cell is one of the three that make up the line.
pub open spec fn on_line(line: int, cell: int) -> bool {
    let (a, b, c) = line_cells(line);
    cell == a || cell == b || cell == c
}

/// A line that a new mark completes runs through the new mark's cell and is the
/// new mark's own.
proof fn lemma_line_through_new_mark(cells: Seq<Cell>, i: int, mark: Cell, line: int)
    requires
        cells.len() == 9,
        0 <= i < 9,
        cells[i] is Empty,
        !(mark is Empty),
        0 <= line < 8,
        !is_complete(cells, line),
        is_complete(cells.update(i, mark), line),
    ensures
        on_line(line, i),
        cells.update(i, mark)[line_cells(line).0] == mark,
        cells.update(i, mark)[line_cells(line).1] == mark,
        cells.update(i, mark)[line_cells(line).2] == mark,
{
}

/// Without a completed line there is no winner, and the other way round.
proof fn lemma_no_line(cells: Seq<Cell>)
    ensures
        winning_line(cells) is None <==> forall|line: int|
            0 <= line < 8 ==> !#[trigger] is_complete(cells, line),
        winning_line(cells) matches Some(line) ==> line < 8 && is_complete(cells, line as int),
        winner(cells) is None <==> winning_line(cells) is None,
{
    if winning_line(cells) is None {
        assert forall|line: int| 0 <= line < 8 implies !#[trigger] is_complete(cells, line) by {}
    }
}

/// After a move that leaves the sole threat open, the opponent wins on the next ply.
proof fn lemma_unblocked_threat_loses(cells: Seq<Cell>, threat: int, other: int)
    requires
        cells.len() == 9,
        winning_line(cells) is None,
        0 <= threat < 9,
        cells[threat] is Empty,
        threatens(cells, threat),
        0 <= other < 9,
        other != threat,
        cells[other] is Empty,
        !wins_at_once(cells, other),
    ensures
        move_score(cells, other) <= -98,
{
    let me = mark_to_move(cells);
    let foe = me.spec_opposite();
    let first = cells.update(other, me);
    let second = first.update(threat, foe);
    lemma_occupied_bounds(cells);
    lemma_place_counts(cells, other, me);
    lemma_place_counts(first, threat, foe);
    lemma_occupied_bounds(first);
    lemma_occupied_bounds(second);
    lemma_no_line(cells);
    lemma_no_line(first);
    lemma_no_line(second);
    lemma_no_line(cells.update(threat, foe));
    // The mover's own move completes nothing.
    if winning_line(first) is Some {
        lemma_line_through_new_mark(cells, other, me, winning_line(first)->0 as int);
    }
    assert(winner(first) is None);
    assert(first[threat] is Empty);
    assert(!is_full(first));
    // The opponent's line through the threat is still to be had.
    let open_line = winning_line(cells.update(threat, foe))->0 as int;
    lemma_line_through_new_mark(cells, threat, foe, open_line);
    assert(!on_line(open_line, other));
    assert(is_complete(second, open_line));
    // Every line completed on the second position is the opponent's.
    let line = winning_line(second)->0 as int;
    assert(is_complete(second, line));
    lemma_line_through_new_mark(first, threat, foe, line);
    assert(winner(second) == Some(foe));
    assert(minimax_value(second, me, true, 2) == -98);
    lemma_value_is_best_child(first, me, false, 1);
    assert(child_value(first, me, false, 1, threat) >= minimax_value(first, me, false, 1));
}

/// After the move on the sole threat the mover has lost neither at once nor on the
/// next ply.
proof fn lemma_blocked_threat_holds(cells: Seq<Cell>, threat: int)
    requires
        cells.len() == 9,
        winning_line(cells) is None,
        0 <= threat < 9,
        cells[threat] is Empty,
        !wins_at_once(cells, threat),
        forall|i: int|
            0 <= i < 9 && cells[i] is Empty && i != threat ==> !#[trigger] threatens(cells, i),
    ensures
        move_score(cells, threat) >= -97,
{
    let me = mark_to_move(cells);
    let foe = me.spec_opposite();
    let first = cells.update(threat, me);
    lemma_occupied_bounds(cells);
    lemma_place_counts(cells, threat, me);
    lemma_occupied_bounds(first);
    lemma_no_line(cells);
    lemma_no_line(first);
    if winning_line(first) is Some {
        lemma_line_through_new_mark(cells, threat, me, winning_line(first)->0 as int);
    }
    assert(winner(first) is None);
    if !is_full(first) {
        lemma_value_is_best_child(first, me, false, 1);
        let reply = choose|i: int|
            0 <= i < 9 && first[i] is Empty && #[trigger] child_value(first, me, false, 1, i)
                == minimax_value(first, me, false, 1);
        let second = first.update(reply, foe);
        lemma_place_counts(first, reply, foe);
        lemma_occupied_bounds(second);
        lemma_no_line(second);
        assert(reply != threat);
        assert(cells[reply] is Empty);
        assert(!threatens(cells, reply));
        lemma_no_line(cells.update(reply, foe));
        if winning_line(second) is Some {
            let line = winning_line(second)->0 as int;
            lemma_line_through_new_mark(first, reply, foe, line);
            assert(!on_line(line, threat));
            assert(is_complete(cells.update(reply, foe), line));
        }
        assert(winner(second) is None);
        if !is_full(second) {
            lemma_reply_bounds(second, me, true, 2, 9);
            let free = choose|c: int| 0 <= c < 9 && second[c] is Empty;
            assert(second[free] is Empty);
        }
        assert(minimax_value(second, me, true, 2) >= -97);
    }
}

/// Where the player to move cannot win at once and the opponent threatens to complete
/// a line on one cell only, the best move is the one on that cell, and no other.
pub proof fn lemma_sole_threat_is_blocked(cells: Seq<Cell>, threat: int, chosen: int)
    requires
        cells.len() == 9,
        winning_line(cells) is None,
        forall|i: int| 0 <= i < 9 && cells[i] is Empty ==> !#[trigger] wins_at_once(cells, i),
        0 <= threat < 9,
        cells[threat] is Empty,
        threatens(cells, threat),
        forall|i: int|
            0 <= i < 9 && cells[i] is Empty && i != threat ==> !#[trigger] threatens(cells, i),
    ensures
        is_best_move(cells, threat),
        is_best_move(cells, chosen) ==> chosen == threat,
{
    lemma_blocked_threat_holds(cells, threat);
    assert forall|j: int| 0 <= j < 9 && cells[j] is Empty implies #[trigger] move_score(cells, j)
        <= move_score(cells, threat) by {
        if j != threat {
            assert(!wins_at_once(cells, j));
            lemma_unblocked_threat_loses(cells, threat, j);
        }
    }
    if is_best_move(cells, chosen) && chosen != threat {
        assert(!wins_at_once(cells, chosen));
        lemma_unblocked_threat_loses(cells, threat, chosen);
        assert(move_score(cells, threat) <= move_score(cells, chosen));
    }
}

/// The value of a position for the player whose turn it is, at the root of a search.
pub open spec fn position_value(cells: Seq<Cell>) -> int {
    minimax_value(cells, mark_to_move(cells), true, 0)
}

/// Both are wins, both are losses, or both are draws.
pub open spec fn same_outcome(a: int, b: int) -> bool {
    (a > 0 <==> b > 0) && (a < 0 <==> b < 0)
}

/// What a position is worth to one player, it costs the other.
pub proof fn lemma_value_negates(cells: Seq<Cell>, me: Cell, maximizing: bool, depth: int)
    requires
        cells.len() == 9,
        !(me is Empty),
    ensures
        minimax_value(cells, me.spec_opposite(), !maximizing, depth) == -minimax_value(
            cells,
            me,
            maximizing,
            depth,
        ),
    decreases empty_count(cells), 10int,
{
    lemma_no_line(cells);
    if winner(cells) is None && !is_full(cells) {
        lemma_reply_negates(cells, me, maximizing, depth, 9);
    }
}

proof fn lemma_reply_negates(cells: Seq<Cell>, me: Cell, maximizing: bool, depth: int, n: int)
    requires
        cells.len() == 9,
        !(me is Empty),
        0 <= n <= 9,
    ensures
        best_reply(cells, me.spec_opposite(), !maximizing, depth, n) == -best_reply(
            cells,
            me,
            maximizing,
            depth,
            n,
        ),
    decreases empty_count(cells), n,
{
    if n > 0 {
        lemma_reply_negates(cells, me, maximizing, depth, n - 1);
        if cells[n - 1] is Empty {
            let mark = mark_on_ply(me, maximizing);
            assert(mark == mark_on_ply(me.spec_opposite(), !maximizing));
            lemma_place_counts(cells, n - 1, mark);
            lemma_occupied_bounds(cells.update(n - 1, mark));
            lemma_value_negates(cells.update(n - 1, mark), me, !maximizing, depth + 1);
        }
    }
}

/// Whether a position is won, lost or drawn does not depend on the ply on which it is
/// reached.
pub proof fn lemma_outcome_at_depths(
    cells: Seq<Cell>,
    me: Cell,
    maximizing: bool,
    depth: int,
    other_depth: int,
)
    requires
        cells.len() == 9,
        !(me is Empty),
        0 <= depth,
        0 <= other_depth,
        depth + empty_count(cells) < 100,
        other_depth + empty_count(cells) < 100,
    ensures
        same_outcome(
            minimax_value(cells, me, maximizing, depth),
            minimax_value(cells, me, maximizing, other_depth),
        ),
    decreases empty_count(cells), 10int,
{
    lemma_occupied_bounds(cells);
    if winner(cells) is None && !is_full(cells) {
        lemma_reply_outcome_at_depths(cells, me, maximizing, depth, other_depth, 9);
    }
}

proof fn lemma_reply_outcome_at_depths(
    cells: Seq<Cell>,
    me: Cell,
    maximizing: bool,
    depth: int,
    other_depth: int,
    n: int,
)
    requires
        cells.len() == 9,
        !(me is Empty),
        0 <= depth,
        0 <= other_depth,
        depth + empty_count(cells) < 100,
        other_depth + empty_count(cells) < 100,
        0 <= n <= 9,
    ensures
        same_outcome(
            best_reply(cells, me, maximizing, depth, n),
            best_reply(cells, me, maximizing, other_depth, n),
        ),
    decreases empty_count(cells), n,
{
    if n > 0 {
        lemma_reply_outcome_at_depths(cells, me, maximizing, depth, other_depth, n - 1);
        if cells[n - 1] is Empty {
            let next = cells.update(n - 1, mark_on_ply(me, maximizing));
            lemma_place_counts(cells, n - 1, mark_on_ply(me, maximizing));
            lemma_occupied_bounds(next);
            lemma_outcome_at_depths(next, me, !maximizing, depth + 1, other_depth + 1);
        }
    }
}

/// On a position that is worth a draw to the player to move, a best move leaves no
/// completed line, and a position that is worth a draw to the player who moves next.
pub proof fn lemma_best_move_keeps_draw(cells: Seq<Cell>, chosen: int)
    requires
        cells.len() == 9,
        winner(cells) is None,
        position_value(cells) == 0,
        is_best_move(cells, chosen),
    ensures
        winner(cells.update(chosen, mark_to_move(cells))) is None,
        position_value(cells.update(chosen, mark_to_move(cells))) == 0,
{
    let me = mark_to_move(cells);
    let next = cells.update(chosen, me);
    lemma_occupied_bounds(cells);
    lemma_place_counts(cells, chosen, me);
    lemma_occupied_bounds(next);
    assert(!is_full(cells));
    lemma_value_is_best_child(cells, me, true, 0);
    let top = choose|i: int|
        0 <= i < 9 && cells[i] is Empty && #[trigger] child_value(cells, me, true, 0, i)
            == minimax_value(cells, me, true, 0);
    assert(move_score(cells, top) == child_value(cells, me, true, 0, top));
    assert(move_score(cells, chosen) == child_value(cells, me, true, 0, chosen));
    assert(move_score(cells, top) <= move_score(cells, chosen));
    assert(minimax_value(next, me, false, 1) == 0);
    assert(winner(next) is None);
    assert(mark_to_move(next) == me.spec_opposite());
    lemma_value_negates(next, me, false, 0);
    lemma_outcome_at_depths(next, me, false, 0, 1);
}

/// All the moves that score highest for the player whose turn it is, in ascending order.
pub fn best_moves(board: &Board) -> (best: Vec<BoardMove>)
    ensures
        lists_best_moves(board@, move_indices(best@)),
        best@.len() > 0 <==> !is_full(board@),
{
    broadcast use Board::lemma_nine_cells;

    let maximizing_player_symbol = board.current_player_symbol();
    let moves = board.get_possible_moves();
    let ghost cells = board@;
    let ghost indices = move_indices(moves@);
    let mut best_moves: Vec<BoardMove> = Vec::new();
    let mut best_eval: i32 = -1000;
    let mut k: usize = 0;
    proof {
        lemma_occupied_bounds(cells);
    }
    while k < moves.len()
        invariant
            cells == board@,
            cells.len() == 9,
            maximizing_player_symbol == mark_to_move(cells),
            indices == move_indices(moves@),
            lists_empty_cells(cells, indices),
            0 <= k <= moves.len(),
            0 <= empty_count(cells) <= 9,
            -1000 <= best_eval,
            k == 0 ==> best_eval == -1000 && best_moves@.len() == 0,
            k > 0 ==> best_moves@.len() > 0,
            forall|i: int|
                0 <= i < stretch_start(indices, k as int) && cells[i] is Empty
                    ==> #[trigger] move_score(cells, i) <= best_eval,
            forall|p: int|
                0 <= p < best_moves@.len() ==> 0 <= (#[trigger] best_moves@[p])@ < stretch_start(
                    indices,
                    k as int,
                ) && cells[best_moves@[p]@] is Empty && move_score(cells, best_moves@[p]@)
                    == best_eval,
            forall|p: int, q: int|
                0 <= p < q < best_moves@.len() ==> best_moves@[p]@ < best_moves@[q]@,
            forall|i: int|
                0 <= i < stretch_start(indices, k as int) && cells[i] is Empty
                    && #[trigger] move_score(cells, i) == best_eval ==> exists|p: int|
                    0 <= p < best_moves@.len() && best_moves@[p]@ == i,
        decreases moves.len() - k,
    {
        let board_move = moves[k];
        let ghost cell = board_move@;
        let ghost before = best_moves@;
        let ghost eval_before = best_eval;
        proof {
            assert(indices[k as int] == cell);
            lemma_marks_between_moves(cells, indices, k as int);
            lemma_place_counts(cells, cell, maximizing_player_symbol);
            lemma_move_score_bounds(cells, cell);
        }
        let mut next_board = board.clone();
        next_board.place(board_move.index(), maximizing_player_symbol);
        let score = minimax(&next_board, &maximizing_player_symbol, false, 1);
        assert(score == move_score(cells, cell));
        if score > best_eval {
            best_eval = score;
            best_moves.clear();
            best_moves.push(board_move);
            proof {
                assert forall|i: int|
                    0 <= i < cell + 1 && cells[i] is Empty && #[trigger] move_score(cells, i)
                        == best_eval implies exists|p: int|
                    0 <= p < best_moves@.len() && best_moves@[p]@ == i by {
                    assert(best_moves@[0]@ == cell);
                }
            }
        } else if score == best_eval {
            best_moves.push(board_move);
            proof {
                assert forall|i: int|
                    0 <= i < cell + 1 && cells[i] is Empty && #[trigger] move_score(cells, i)
                        == best_eval implies exists|p: int|
                    0 <= p < best_moves@.len() && best_moves@[p]@ == i by {
                    if i < cell {
                        let p = choose|p: int| 0 <= p < before.len() && before[p]@ == i;
                        assert(best_moves@[p]@ == i);
                    } else {
                        assert(best_moves@[before.len() as int]@ == cell);
                    }
                }
            }
        } else {
            proof {
                assert forall|i: int|
                    0 <= i < cell + 1 && cells[i] is Empty && #[trigger] move_score(cells, i)
                        == best_eval implies exists|p: int|
                    0 <= p < best_moves@.len() && best_moves@[p]@ == i by {
                    let p = choose|p: int| 0 <= p < before.len() && before[p]@ == i;
                    assert(best_moves@[p]@ == i);
                }
            }
        }
        k += 1;
    }
    proof {
        lemma_marks_between_moves(cells, indices, moves.len() as int);
        let found = move_indices(best_moves@);
        assert forall|p: int| 0 <= p < found.len() implies is_best_move(
            cells,
            #[trigger] found[p],
        ) by {
            assert(found[p] == best_moves@[p]@);
        }
        assert forall|i: int| #[trigger] is_best_move(cells, i) implies found.contains(i) by {
            if moves.len() > 0 {
                let top = best_moves@[0]@;
                assert(move_score(cells, top) <= move_score(cells, i));
                assert(move_score(cells, i) <= best_eval);
                let p = choose|p: int| 0 <= p < best_moves@.len() && best_moves@[p]@ == i;
                assert(found[p] == i);
            } else {
                assert(indices.contains(i));
            }
        }
        if moves.len() == 0 {
            if !is_full(cells) {
                let i = choose|i: int| 0 <= i < 9 && cells[i] is Empty;
                assert(indices.contains(i));
            }
        } else {
            assert(cells[indices[0]] is Empty);
        }
    }
    best_moves
}

/// The candidate at position `roll`.
pub fn pick(candidates: &Vec<BoardMove>, roll: usize) -> (chosen: BoardMove)
    requires
        roll < candidates@.len(),
    ensures
        chosen == candidates@[roll as int],
{
    candidates[roll]
}

/// Draws an index below `bound` from `rand`'s thread-local generator, through
/// `Rng::gen_range` on the range from 0 up to, and not including, `bound`. Believed
/// of it, not proved: whatever is drawn lies in that range. `gen_range` panics on an
/// empty range, which `requires` leaves out.
#[verifier::external_body]
fn random_below(bound: usize) -> (index: usize)
    requires
        bound > 0,
    ensures
        index < bound,
{
    let mut rng = rand::thread_rng();
    rng.gen_range(0..bound)
}

/// A best move for the player whose turn it is, drawn at random among the best moves.
pub fn calculate_best_move(board: &Board) -> (chosen: BoardMove)
    requires
        !is_full(board@),
    ensures
        is_best_move(board@, chosen@),
{
    let best_moves = best_moves(board);
    let random_index = random_below(best_moves.len());
    let chosen = pick(&best_moves, random_index);
    proof {
        assert(move_indices(best_moves@)[random_index as int] == chosen@);
    }
    chosen
}

} // verus!
