//! Exhaustive minimax search: the value of a position and the best reply.

use vstd::prelude::*;
use crate::game::Board;
use crate::grid::{
    Grid, lemma_clear_after_place, lemma_empty_below, lemma_index_of_pos_of,
    lemma_no_empty_indices, lemma_place_fills_one,
};
use crate::marking::{CellMarking, Move, opponent};

verus! {

/// The value of a decided game, seen `depth` moves into the search, at a node
/// where `mover` is to play: `10 - depth` if the side that maximizes has won,
/// `-10 - depth` if it has lost. The maximizing side is `mover` at a
/// maximizing node and the opponent of `mover` at a minimizing one.
pub open spec fn terminal_score(
    winner: CellMarking,
    depth: int,
    mover: CellMarking,
    maximizing: bool,
) -> int {
    if (mover == winner && !maximizing) || (mover != winner && maximizing) {
        -10 - depth
    } else {
        10 - depth
    }
}

/// The minimax value of a position in which `mover` is to play.
///
/// A decided game has its terminal score, a full board without winner is
/// worth 0, and any other position is worth the best of the values of the
/// positions that the legal moves lead to: the greatest at a maximizing node,
/// the least at a minimizing one. The opponent moves next, one level deeper,
/// with the opposite aim.
pub open spec fn score(g: Grid, depth: int, mover: CellMarking, maximizing: bool) -> int
    decreases g.empty_indices().len(), g.empty_indices().len() + 1,
{
    match g.winner() {
        Some(winner) => terminal_score(winner, depth, mover, maximizing),
        None => if g.empty_indices().len() == 0 {
            0
        } else {
            best_of(g, depth, mover, maximizing, g.empty_indices().len())
        },
    }
}

/// The best of the values of the first `n` legal moves of `mover`, for `n`
/// from 1 to the number of legal moves.
pub open spec fn best_of(g: Grid, depth: int, mover: CellMarking, maximizing: bool, n: nat) -> int
    decreases g.empty_indices().len(), n,
    via best_of_decreases
{
    if n == 0 || n > g.empty_indices().len() {
        0
    } else {
        let value = score(
            g.place(g.empty_indices()[n - 1], mover),
            depth + 1,
            opponent(mover),
            !maximizing,
        );
        if n == 1 {
            value
        } else {
            let earlier = best_of(g, depth, mover, maximizing, (n - 1) as nat);
            if maximizing {
                if value > earlier {
                    value
                } else {
                    earlier
                }
            } else {
                if value < earlier {
                    value
                } else {
                    earlier
                }
            }
        }
    }
}

#[via_fn]
proof fn best_of_decreases(g: Grid, depth: int, mover: CellMarking, maximizing: bool, n: nat) {
    if !(n == 0 || n > g.empty_indices().len()) {
        lemma_empty_below(g.cells, g.cells.len());
        lemma_place_fills_one(g, g.empty_indices()[n - 1], mover);
    }
}

/// The value of the position that the `k`-th legal move of `mover` leads to,
/// as `score` sees it from a node at `depth`.
pub open spec fn reply_score(g: Grid, depth: int, mover: CellMarking, maximizing: bool, k: int) -> int {
    score(g.place(g.empty_indices()[k], mover), depth + 1, opponent(mover), !maximizing)
}

/// The most empty cells a board may have when a search starts: the depth of
/// the search and the scores it yields are held in an `i32`.
pub const MAX_SEARCH_CELLS: usize = 0x7fff_fff7;

/// What it is worth to `mover` to write its marking at `index`: the value of
/// the resulting position, in which the opponent moves and minimizes.
pub open spec fn move_value(g: Grid, mover: CellMarking, index: int) -> int {
    score(g.place(index, mover), 0, opponent(mover), false)
}

/// Writing at `index` is the best reply of `mover`: the cell is empty, no
/// empty cell is worth more, and every empty cell before it is worth less.
pub open spec fn is_best_reply(g: Grid, mover: CellMarking, index: int) -> bool {
    &&& g.is_empty_at(index)
    &&& forall|other: int|
        g.is_empty_at(other) ==> #[trigger] move_value(g, mover, other) <= move_value(
            g,
            mover,
            index,
        )
    &&& forall|other: int|
        g.is_empty_at(other) && other < index ==> #[trigger] move_value(g, mover, other)
            < move_value(g, mover, index)
}

/// Among the first `n` legal moves, `best_of` is the value of one of them,
/// and no other is better: none is greater at a maximizing node, none is less
/// at a minimizing one.
pub proof fn lemma_best_of(g: Grid, depth: int, mover: CellMarking, maximizing: bool, n: nat)
    requires
        1 <= n <= g.empty_indices().len(),
    ensures
        exists|k: int|
            0 <= k < n && #[trigger] reply_score(g, depth, mover, maximizing, k) == best_of(
                g,
                depth,
                mover,
                maximizing,
                n,
            ),
        forall|k: int|
            0 <= k < n ==> if maximizing {
                #[trigger] reply_score(g, depth, mover, maximizing, k) <= best_of(
                    g,
                    depth,
                    mover,
                    maximizing,
                    n,
                )
            } else {
                reply_score(g, depth, mover, maximizing, k) >= best_of(
                    g,
                    depth,
                    mover,
                    maximizing,
                    n,
                )
            },
    decreases n,
{
    let last = reply_score(g, depth, mover, maximizing, n - 1);
    if n > 1 {
        lemma_best_of(g, depth, mover, maximizing, (n - 1) as nat);
        let earlier = best_of(g, depth, mover, maximizing, (n - 1) as nat);
        let k = choose|k: int|
            0 <= k < n - 1 && #[trigger] reply_score(g, depth, mover, maximizing, k) == earlier;
        if best_of(g, depth, mover, maximizing, n) == earlier {
            assert(reply_score(g, depth, mover, maximizing, k) == best_of(
                g,
                depth,
                mover,
                maximizing,
                n,
            ));
        } else {
            assert(last == best_of(g, depth, mover, maximizing, n));
        }
    } else {
        assert(last == best_of(g, depth, mover, maximizing, n));
    }
}

/// The value of an undecided position with an empty cell is the value of the
/// best legal move: the greatest of the values of the legal moves at a
/// maximizing node, the least at a minimizing one.
pub proof fn lemma_score_is_best_reply(g: Grid, depth: int, mover: CellMarking, maximizing: bool)
    requires
        g.winner() is None,
        g.empty_indices().len() > 0,
    ensures
        exists|k: int|
            0 <= k < g.empty_indices().len() && #[trigger] reply_score(
                g,
                depth,
                mover,
                maximizing,
                k,
            ) == score(g, depth, mover, maximizing),
        forall|k: int|
            0 <= k < g.empty_indices().len() ==> if maximizing {
                #[trigger] reply_score(g, depth, mover, maximizing, k) <= score(
                    g,
                    depth,
                    mover,
                    maximizing,
                )
            } else {
                reply_score(g, depth, mover, maximizing, k) >= score(g, depth, mover, maximizing)
            },
{
    lemma_best_of(g, depth, mover, maximizing, g.empty_indices().len());
}

/// A position has at most one best reply.
pub proof fn lemma_best_reply_unique(g: Grid, mover: CellMarking, first: int, second: int)
    requires
        is_best_reply(g, mover, first),
        is_best_reply(g, mover, second),
    ensures
        first == second,
{
    if first < second {
        assert(move_value(g, mover, first) < move_value(g, mover, second));
        assert(move_value(g, mover, second) <= move_value(g, mover, first));
    } else if second < first {
        assert(move_value(g, mover, second) < move_value(g, mover, first));
        assert(move_value(g, mover, first) <= move_value(g, mover, second));
    }
}

/// What applying and taking back the `k`-th legal move does to a grid: the
/// move fills the `k`-th empty cell, which keeps the grid well formed and
/// leaves one empty cell fewer, and taking it back restores the grid.
pub proof fn lemma_legal_move(g: Grid, mover: CellMarking, k: int)
    requires
        g.wf(),
        g.cells.len() <= usize::MAX,
        0 <= k < g.empty_indices().len(),
    ensures
        g.is_empty_at(g.empty_indices()[k]),
        g.legal_moves(mover)[k].marking == mover,
        g.valid(
            g.legal_moves(mover)[k].position.0 as int,
            g.legal_moves(mover)[k].position.1 as int,
        ),
        g.index_of(
            g.legal_moves(mover)[k].position.0 as int,
            g.legal_moves(mover)[k].position.1 as int,
        ) == g.empty_indices()[k],
        g.apply(g.legal_moves(mover)[k]) == g.place(g.empty_indices()[k], mover),
        g.apply(g.legal_moves(mover)[k]).undo(g.legal_moves(mover)[k]) == g,
        g.apply(g.legal_moves(mover)[k]).wf(),
        g.apply(g.legal_moves(mover)[k]).empty_indices().len() + 1 == g.empty_indices().len(),
{
    let index = g.empty_indices()[k];
    lemma_empty_below(g.cells, g.cells.len());
    lemma_index_of_pos_of(g, index);
    lemma_place_fills_one(g, index, mover);
    lemma_clear_after_place(g, index, mover);
    let w = g.row_size as int;
    let h = g.col_size as int;
    assert(w <= w * h && h <= w * h) by (nonlinear_arith)
        requires
            w > 0,
            h > 0,
    ;
}

/// The value of `board` for the side that maximizes, found by trying every
/// sequence of moves to its end. `player_marking` is to move; `is_max` tells
/// whether this node maximizes; `depth` counts the moves made since the
/// search began. Every move tried is taken back: the board is left as it was.
pub fn minimax(board: &mut Board, depth: i32, player_marking: CellMarking, is_max: bool) -> (value:
    i32)
    requires
        old(board).wf(),
        10 - i32::MAX <= depth,
        depth + old(board)@.empty_indices().len() <= i32::MAX - 9,
    ensures
        final(board)@ == old(board)@,
        value == score(old(board)@, depth as int, player_marking, is_max),
    decreases old(board)@.empty_indices().len(),
{
    if let Some(marking) = board.has_won() {
        if (player_marking == marking && !is_max) || (player_marking != marking && is_max) {
            return -10 - depth;
        }
        return 10 - depth;
    }
    let moves = board.moves(player_marking);
    if moves.len() == 0 {
        return 0;
    }
    let opposite_marking = player_marking.opposite();
    let ghost grid = board@;
    proof {
        board.lemma_sizes_fit();
    }
    if is_max {
        let mut best: i32 = i32::MIN;
        let mut k: usize = 0;
        while k < moves.len()
            invariant
                board@ == grid,
                old(board)@ == grid,
                grid.wf(),
                grid.cells.len() <= usize::MAX,
                moves@ == grid.legal_moves(player_marking),
                moves@.len() == grid.empty_indices().len(),
                opposite_marking == opponent(player_marking),
                is_max,
                k <= moves.len(),
                10 - i32::MAX <= depth,
                depth + grid.empty_indices().len() <= i32::MAX - 9,
                k == 0 ==> best == i32::MIN,
                k > 0 ==> best == best_of(grid, depth as int, player_marking, is_max, k as nat),
            decreases moves.len() - k,
        {
            proof {
                lemma_legal_move(grid, player_marking, k as int);
            }
            let m = &moves[k];
            board.apply_move(m);
            let value = minimax(board, depth + 1, opposite_marking, !is_max);
            board.undo_move(m);
            if value > best {
                best = value;
            }
            k += 1;
        }
        best
    } else {
        let mut best: i32 = i32::MAX;
        let mut k: usize = 0;
        while k < moves.len()
            invariant
                board@ == grid,
                old(board)@ == grid,
                grid.wf(),
                grid.cells.len() <= usize::MAX,
                moves@ == grid.legal_moves(player_marking),
                moves@.len() == grid.empty_indices().len(),
                opposite_marking == opponent(player_marking),
                !is_max,
                k <= moves.len(),
                10 - i32::MAX <= depth,
                depth + grid.empty_indices().len() <= i32::MAX - 9,
                k == 0 ==> best == i32::MAX,
                k > 0 ==> best == best_of(grid, depth as int, player_marking, is_max, k as nat),
            decreases moves.len() - k,
        {
            proof {
                lemma_legal_move(grid, player_marking, k as int);
            }
            let m = &moves[k];
            board.apply_move(m);
            let value = minimax(board, depth + 1, opposite_marking, !is_max);
            board.undo_move(m);
            if value < best {
                best = value;
            }
            k += 1;
        }
        best
    }
}

impl Board {
    /// The best move of `player_marking`, or none where the game is decided
    /// or the board is full. Each legal move is tried and valued by
    /// `minimax` with the opponent to move; of the moves of greatest value
    /// the first in row-major order is chosen. The board is left as it was.
    pub fn next_move(&mut self, player_marking: CellMarking) -> (chosen: Option<Move>)
        requires
            old(self).wf(),
            old(self)@.cells.len() <= MAX_SEARCH_CELLS || old(self)@.empty_indices().len()
                <= MAX_SEARCH_CELLS,
        ensures
            final(self)@ == old(self)@,
            match chosen {
                Some(m) => {
                    &&& old(self)@.winner() is None
                    &&& m.marking == player_marking
                    &&& old(self)@.valid(m.position.0 as int, m.position.1 as int)
                    &&& is_best_reply(
                        old(self)@,
                        player_marking,
                        old(self)@.index_of(m.position.0 as int, m.position.1 as int),
                    )
                },
                None => old(self)@.winner() is Some || old(self)@.is_full(),
            },
    {
        if self.has_won().is_some() {
            return None;
        }
        let moves = self.moves(player_marking);
        let mut best: i32 = i32::MIN;
        let mut best_move: Option<Move> = None;
        let opposite_marking = player_marking.opposite();
        let ghost grid = self@;
        let ghost empty = grid.empty_indices();
        let ghost best_k: int = 0;
        proof {
            self.lemma_sizes_fit();
            lemma_no_empty_indices(grid);
            lemma_empty_below(grid.cells, grid.cells.len());
        }
        let mut k: usize = 0;
        while k < moves.len()
            invariant
                self@ == grid,
                old(self)@ == grid,
                grid.wf(),
                grid.cells.len() <= usize::MAX,
                empty == grid.empty_indices(),
                empty.len() <= MAX_SEARCH_CELLS,
                moves@ == grid.legal_moves(player_marking),
                moves@.len() == empty.len(),
                opposite_marking == opponent(player_marking),
                k <= moves.len(),
                k == 0 ==> best_move is None,
                k > 0 ==> 0 <= best_k < k && best_move == Some(moves@[best_k]) && best
                    == move_value(grid, player_marking, empty[best_k]),
                forall|j: int|
                    0 <= j < k ==> move_value(grid, player_marking, #[trigger] empty[j]) <= best,
                forall|j: int|
                    0 <= j < best_k ==> move_value(grid, player_marking, #[trigger] empty[j])
                        < best,
            decreases moves.len() - k,
        {
            proof {
                lemma_legal_move(grid, player_marking, k as int);
            }
            let m = moves[k].clone();
            self.apply_move(&m);
            let move_value = minimax(self, 0, opposite_marking, false);
            self.undo_move(&m);
            if best_move.is_none() || move_value > best {
                best = move_value;
                best_move = Some(m);
                proof {
                    best_k = k as int;
                }
            }
            k += 1;
        }
        proof {
            if moves.len() > 0 {
                lemma_legal_move(grid, player_marking, best_k);
                let index = empty[best_k];
                assert forall|other: int| grid.is_empty_at(other) implies move_value(
                    grid,
                    player_marking,
                    other,
                ) <= move_value(grid, player_marking, index) && (other < index ==> move_value(
                    grid,
                    player_marking,
                    other,
                ) < move_value(grid, player_marking, index)) by {
                    assert(grid.cells[other].mark is None);
                    assert(empty.contains(other));
                    let j = choose|j: int| 0 <= j < empty.len() && empty[j] == other;
                    assert(move_value(grid, player_marking, empty[j]) <= best);
                    if other < index && j >= best_k {
                        if j > best_k {
                            assert(empty[best_k] < empty[j]);
                        }
                    }
                }
            }
        }
        best_move
    }
}

} // verus!
