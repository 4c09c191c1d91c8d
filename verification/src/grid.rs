//! The mathematical model of a board: a row-major sequence of cells with its
//! two dimensions.
//!
//! `row_size` is the length of a row, that is the number of columns;
//! `col_size` is the length of a column, that is the number of rows.

use vstd::prelude::*;
use vstd::arithmetic::div_mod::{lemma_fundamental_div_mod, lemma_fundamental_div_mod_converse};
use crate::marking::{Cell, CellMarking, Move};

verus! {

/// A grid of `col_size` rows and `row_size` columns; the cell at
/// `(row, col)` is `cells[row * row_size + col]`.
pub struct Grid {
    pub cells: Seq<Cell>,
    pub row_size: nat,
    pub col_size: nat,
}

impl Grid {
    /// Both dimensions are positive and there is exactly one cell per position.
    pub open spec fn wf(self) -> bool {
        &&& self.row_size > 0
        &&& self.col_size > 0
        &&& self.cells.len() == self.row_size * self.col_size
    }

    /// `(row, col)` names a square of the grid.
    pub open spec fn valid(self, row: int, col: int) -> bool {
        0 <= row < self.col_size && 0 <= col < self.row_size
    }

    /// The linear index of `(row, col)`.
    pub open spec fn index_of(self, row: int, col: int) -> int {
        row * self.row_size + col
    }

    /// The `(row, col)` position of a linear index.
    pub open spec fn pos_of(self, index: int) -> (int, int) {
        (index / (self.row_size as int), index % (self.row_size as int))
    }

    /// What stands at `(row, col)`.
    pub open spec fn mark_at(self, row: int, col: int) -> Option<CellMarking> {
        self.cells[self.index_of(row, col)].mark
    }

    /// The cell at linear index `index` holds no marking.
    pub open spec fn is_empty_at(self, index: int) -> bool {
        0 <= index < self.cells.len() && self.cells[index].mark is None
    }

    /// No cell is empty.
    pub open spec fn is_full(self) -> bool {
        forall|index: int| !self.is_empty_at(index)
    }

    /// The grid with the cell at `index` replaced.
    pub open spec fn with_cell(self, index: int, cell: Cell) -> Grid {
        Grid { cells: self.cells.update(index, cell), ..self }
    }

    /// The grid with `marking` written at `index`.
    pub open spec fn place(self, index: int, marking: CellMarking) -> Grid {
        self.with_cell(index, Cell { mark: Some(marking) })
    }

    /// The grid with the cell at `index` emptied.
    pub open spec fn clear(self, index: int) -> Grid {
        self.with_cell(index, Cell { mark: None })
    }

    /// The grid after `m` is applied: its marking stands at its position; a
    /// move to a position outside the grid changes nothing.
    pub open spec fn apply(self, m: Move) -> Grid {
        if self.valid(m.position.0 as int, m.position.1 as int) {
            self.place(self.index_of(m.position.0 as int, m.position.1 as int), m.marking)
        } else {
            self
        }
    }

    /// The grid after `m` is taken back: its position is empty; a move to a
    /// position outside the grid changes nothing.
    pub open spec fn undo(self, m: Move) -> Grid {
        if self.valid(m.position.0 as int, m.position.1 as int) {
            self.clear(self.index_of(m.position.0 as int, m.position.1 as int))
        } else {
            self
        }
    }

    /// The grid of the same shape with every cell empty.
    pub open spec fn blank(row_size: nat, col_size: nat) -> Grid {
        Grid {
            cells: Seq::new(row_size * col_size, |i: int| Cell { mark: None }),
            row_size,
            col_size,
        }
    }
}

/// The character that shows the content of a cell.
pub open spec fn symbol(mark: Option<CellMarking>) -> char {
    match mark {
        Some(CellMarking::X) => 'X',
        Some(CellMarking::O) => 'O',
        None => '_',
    }
}

impl Grid {
    /// The character at offset `i` of the textual snapshot: each row takes
    /// `row_size + 1` characters, its cells and a line feed.
    pub open spec fn text_char(self, i: int) -> char {
        let width: int = self.row_size as int + 1;
        if i % width == self.row_size {
            '\n'
        } else {
            symbol(self.mark_at(i / width, i % width))
        }
    }

    /// The textual snapshot: one character per cell, row after row, a line
    /// feed after each row.
    pub open spec fn text(self) -> Seq<char> {
        Seq::new(self.col_size * (self.row_size + 1), |i: int| self.text_char(i))
    }
}

/// The indices below `n` of the empty cells, in increasing order.
pub open spec fn empty_below(cells: Seq<Cell>, n: nat) -> Seq<int>
    decreases n,
{
    if n == 0 {
        Seq::empty()
    } else {
        let earlier = empty_below(cells, (n - 1) as nat);
        if n <= cells.len() && cells[n - 1].mark is None {
            earlier.push(n - 1)
        } else {
            earlier
        }
    }
}

impl Grid {
    /// The linear indices of the empty cells, in increasing order.
    pub open spec fn empty_indices(self) -> Seq<int> {
        empty_below(self.cells, self.cells.len())
    }

    /// The move that writes `marking` at linear index `index`.
    pub open spec fn move_at(self, index: int, marking: CellMarking) -> Move {
        Move {
            position: (self.pos_of(index).0 as usize, self.pos_of(index).1 as usize),
            marking,
        }
    }

    /// The legal moves of `marking`: one for each empty cell, in row-major
    /// order.
    pub open spec fn legal_moves(self, marking: CellMarking) -> Seq<Move> {
        Seq::new(
            self.empty_indices().len(),
            |k: int| self.move_at(self.empty_indices()[k], marking),
        )
    }
}

/// `empty_below(cells, n)` lists exactly the empty cells below `n`, each
/// once, in strictly increasing order.
pub proof fn lemma_empty_below(cells: Seq<Cell>, n: nat)
    requires
        n <= cells.len(),
    ensures
        empty_below(cells, n).len() <= n,
        forall|k: int|
            0 <= k < empty_below(cells, n).len() ==> {
                &&& 0 <= #[trigger] empty_below(cells, n)[k] < n
                &&& cells[empty_below(cells, n)[k]].mark is None
            },
        forall|j: int, k: int|
            0 <= j < k < empty_below(cells, n).len() ==> #[trigger] empty_below(cells, n)[j]
                < #[trigger] empty_below(cells, n)[k],
        forall|i: int|
            0 <= i < n && (#[trigger] cells[i]).mark is None ==> empty_below(cells, n).contains(i),
    decreases n,
{
    if n > 0 {
        let earlier = empty_below(cells, (n - 1) as nat);
        lemma_empty_below(cells, (n - 1) as nat);
        let now = empty_below(cells, n);
        if cells[n - 1].mark is None {
            assert(now == earlier.push(n - 1));
            assert(now[earlier.len() as int] == n - 1);
            assert forall|i: int| 0 <= i < n && (#[trigger] cells[i]).mark is None implies now.contains(
                i,
            ) by {
                if i < n - 1 {
                    let k = choose|k: int| 0 <= k < earlier.len() && earlier[k] == i;
                    assert(now[k] == i);
                }
            }
        }
    }
}

/// Writing a marking into an empty cell leaves one empty cell fewer.
pub proof fn lemma_place_fills_one(g: Grid, index: int, marking: CellMarking)
    requires
        g.is_empty_at(index),
    ensures
        g.place(index, marking).empty_indices().len() + 1 == g.empty_indices().len(),
{
    lemma_update_empty_below(g.cells, g.cells.len(), index, Cell { mark: Some(marking) });
}

/// How replacing one cell changes the number of empty cells below `n`.
proof fn lemma_update_empty_below(cells: Seq<Cell>, n: nat, index: int, cell: Cell)
    requires
        n <= cells.len(),
        0 <= index < cells.len(),
    ensures
        empty_below(cells.update(index, cell), n).len() + (if index < n && cells[index].mark is None {
            1int
        } else {
            0int
        }) == empty_below(cells, n).len() + (if index < n && cell.mark is None {
            1int
        } else {
            0int
        }),
    decreases n,
{
    if n > 0 {
        lemma_update_empty_below(cells, (n - 1) as nat, index, cell);
    }
}

/// A grid is full exactly when its list of empty indices is empty, and that
/// list is never longer than the grid.
pub proof fn lemma_no_empty_indices(g: Grid)
    ensures
        g.empty_indices().len() == 0 <==> g.is_full(),
        g.empty_indices().len() <= g.cells.len(),
{
    lemma_empty_below(g.cells, g.cells.len());
    let e = g.empty_indices();
    if e.len() == 0 {
        assert forall|i: int| !g.is_empty_at(i) by {
            if g.is_empty_at(i) {
                assert(g.cells[i].mark is None);
                assert(e.contains(i));
            }
        }
    } else {
        assert(g.is_empty_at(e[0]));
    }
}

/// Taking back a marking written into an empty cell restores the grid.
pub proof fn lemma_clear_after_place(g: Grid, index: int, marking: CellMarking)
    requires
        g.is_empty_at(index),
    ensures
        g.place(index, marking).clear(index) == g,
{
    assert(g.place(index, marking).clear(index).cells =~= g.cells);
}

/// Taking back a move that was applied to an empty cell, or to a position
/// outside the grid, restores the grid.
pub proof fn lemma_undo_after_apply(g: Grid, m: Move)
    requires
        g.wf(),
        g.valid(m.position.0 as int, m.position.1 as int) ==> g.mark_at(
            m.position.0 as int,
            m.position.1 as int,
        ) is None,
    ensures
        g.apply(m).undo(m) == g,
{
    if g.valid(m.position.0 as int, m.position.1 as int) {
        lemma_pos_of_index_of(g, m.position.0 as int, m.position.1 as int);
        lemma_clear_after_place(
            g,
            g.index_of(m.position.0 as int, m.position.1 as int),
            m.marking,
        );
    }
}

/// A valid position has a linear index inside the grid, and the position of
/// that index is the position itself.
pub proof fn lemma_pos_of_index_of(g: Grid, row: int, col: int)
    requires
        g.wf(),
        g.valid(row, col),
    ensures
        0 <= row * g.row_size <= g.index_of(row, col) < g.cells.len(),
        g.pos_of(g.index_of(row, col)) == (row, col),
{
    let w = g.row_size as int;
    let h = g.col_size as int;
    assert(row * w + col < h * w) by (nonlinear_arith)
        requires 0 <= row < h, 0 <= col < w;
    assert(0 <= row * w) by (nonlinear_arith)
        requires 0 <= row, 0 < w;
    assert(h * w == w * h) by (nonlinear_arith);
    assert(row * w == w * row) by (nonlinear_arith);
    lemma_fundamental_div_mod_converse(row * w + col, w, row, col);
}

/// An index inside the grid has a valid position, and the linear index of
/// that position is the index itself.
pub proof fn lemma_index_of_pos_of(g: Grid, index: int)
    requires
        g.wf(),
        0 <= index < g.cells.len(),
    ensures
        g.valid(g.pos_of(index).0, g.pos_of(index).1),
        g.index_of(g.pos_of(index).0, g.pos_of(index).1) == index,
{
    let w = g.row_size as int;
    let h = g.col_size as int;
    lemma_fundamental_div_mod(index, w);
    let q = index / w;
    let r = index % w;
    assert(w * q == q * w) by (nonlinear_arith);
    assert(0 <= q < h) by (nonlinear_arith)
        requires 0 <= index < w * h, index == w * q + r, 0 <= r < w, 0 < w;
}

} // verus!
