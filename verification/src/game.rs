//! The board: the grid of cells with the operations that read and change it.

use vstd::prelude::*;
use vstd::arithmetic::div_mod::lemma_fundamental_div_mod_converse;
use vstd::string::StringExecFns;
use crate::grid::{Grid, empty_below, lemma_pos_of_index_of, lemma_index_of_pos_of};
use crate::marking::{Cell, CellMarking, Move};

verus! {

/// Side length of the default board.
pub const BOARD_LENGTH: usize = 3;

/// A rectangular board of `col_size` rows and `row_size` columns, its cells
/// stored row after row. The dimensions are fixed when the board is made.
#[derive(Debug, PartialEq)]
pub struct Board {
    cells: Vec<Cell>,
    row_size: usize,
    col_size: usize,
}

impl View for Board {
    type V = Grid;

    closed spec fn view(&self) -> Grid {
        Grid {
            cells: self.cells@,
            row_size: self.row_size as nat,
            col_size: self.col_size as nat,
        }
    }
}

impl Clone for Board {
    fn clone(&self) -> (copy: Board)
        ensures
            copy@ == self@,
    {
        let copy = Board {
            cells: self.cells.clone(),
            row_size: self.row_size,
            col_size: self.col_size,
        };
        assert(copy.cells@ =~= self.cells@);
        copy
    }
}

impl Board {
    /// The board's invariant: positive dimensions, one cell per position.
    pub open spec fn wf(&self) -> bool {
        self@.wf()
    }

    /// The dimensions and the number of cells of a board fit in `usize`.
    pub proof fn lemma_sizes_fit(&self)
        ensures
            self@.row_size <= usize::MAX,
            self@.col_size <= usize::MAX,
            self@.cells.len() <= usize::MAX,
    {
        assert(self.cells@.len() == self.cells.len());
    }

    /// An empty board of the default size.
    pub fn new() -> (board: Board)
        ensures
            board.wf(),
            board@ == Grid::blank(BOARD_LENGTH as nat, BOARD_LENGTH as nat),
    {
        Board::with_dimensions(BOARD_LENGTH, BOARD_LENGTH)
    }

    /// An empty board of `col_size` rows and `row_size` columns.
    pub fn with_dimensions(row_size: usize, col_size: usize) -> (board: Board)
        requires
            row_size > 0,
            col_size > 0,
            row_size * col_size <= usize::MAX,
        ensures
            board.wf(),
            board@ == Grid::blank(row_size as nat, col_size as nat),
    {
        let default_cell = Cell { mark: None };
        let board = Board { cells: vec![default_cell; row_size * col_size], row_size, col_size };
        assert(board@.cells =~= Grid::blank(row_size as nat, col_size as nat).cells);
        board
    }

    /// The length of a row: the number of columns.
    pub fn row_size(&self) -> (n: usize)
        ensures
            n == self@.row_size,
    {
        self.row_size
    }

    /// The length of a column: the number of rows.
    pub fn col_size(&self) -> (n: usize)
        ensures
            n == self@.col_size,
    {
        self.col_size
    }

    /// The position of a linear index: `index / row_size` is the row,
    /// `index % row_size` the column.
    pub fn index_to_pos(&self, index: usize) -> (pos: (usize, usize))
        requires
            self.wf(),
        ensures
            (pos.0 as int, pos.1 as int) == self@.pos_of(index as int),
            index < self@.cells.len() ==> self@.valid(pos.0 as int, pos.1 as int)
                && self@.index_of(pos.0 as int, pos.1 as int) == index,
    {
        proof {
            if index < self@.cells.len() {
                lemma_index_of_pos_of(self@, index as int);
            }
        }
        let row: usize = index / self.row_size;
        let col: usize = index % self.row_size;
        (row, col)
    }

    /// The linear index of a position: `row * row_size + col`.
    pub fn cell_index(&self, pos: &(usize, usize)) -> (index: usize)
        requires
            self.wf(),
            self@.valid(pos.0 as int, pos.1 as int) || self@.index_of(pos.0 as int, pos.1 as int)
                <= usize::MAX,
        ensures
            index == self@.index_of(pos.0 as int, pos.1 as int),
            self@.valid(pos.0 as int, pos.1 as int) ==> index < self@.cells.len() && self@.pos_of(
                index as int,
            ) == (pos.0 as int, pos.1 as int),
    {
        proof {
            if self@.valid(pos.0 as int, pos.1 as int) {
                lemma_pos_of_index_of(self@, pos.0 as int, pos.1 as int);
                assert(self.cells@.len() == self.cells.len());
            }
            assert(0 <= pos.0 * self.row_size) by (nonlinear_arith);
        }
        pos.0 * self.row_size + pos.1
    }

    /// The cell at `pos`, if `pos` lies on the board.
    pub fn get_cell<'a>(&'a self, pos: &(usize, usize)) -> (found: Option<&'a Cell>)
        requires
            self.wf(),
        ensures
            match found {
                Some(cell) => self@.valid(pos.0 as int, pos.1 as int) && *cell
                    == self@.cells[self@.index_of(pos.0 as int, pos.1 as int)],
                None => !self@.valid(pos.0 as int, pos.1 as int),
            },
    {
        if pos.0 < self.col_size && pos.1 < self.row_size {
            let index: usize = self.cell_index(pos);
            Some(&self.cells[index])
        } else {
            None
        }
    }

    /// The cell at `pos`, to be read or overwritten, if `pos` lies on the
    /// board. Whatever is written into it becomes the content of that square;
    /// the rest of the board stays as it is.
    pub fn get_cell_mut<'a>(&'a mut self, pos: &(usize, usize)) -> (found: Option<&'a mut Cell>)
        requires
            old(self).wf(),
        ensures
            match found {
                Some(cell) => {
                    &&& old(self)@.valid(pos.0 as int, pos.1 as int)
                    &&& *cell == old(self)@.cells[old(self)@.index_of(pos.0 as int, pos.1 as int)]
                    &&& final(self)@ == old(self)@.with_cell(
                        old(self)@.index_of(pos.0 as int, pos.1 as int),
                        *final(cell),
                    )
                },
                None => {
                    &&& !old(self)@.valid(pos.0 as int, pos.1 as int)
                    &&& final(self)@ == old(self)@
                },
            },
    {
        if pos.0 < self.col_size && pos.1 < self.row_size {
            let index: usize = self.cell_index(pos);
            Some(&mut self.cells[index])
        } else {
            None
        }
    }

    /// Writes the move's marking at its position. A position outside the
    /// board is ignored. Whether the cell was empty is not checked.
    pub fn apply_move(&mut self, m: &Move)
        requires
            old(self).wf(),
        ensures
            final(self)@ == old(self)@.apply(*m),
    {
        match self.get_cell_mut(&m.position) {
            Some(cell) => {
                cell.mark = Some(m.marking);
            },
            None => {},
        }
    }

    /// Empties the cell at the move's position, whatever it held. A position
    /// outside the board is ignored.
    pub fn undo_move(&mut self, m: &Move)
        requires
            old(self).wf(),
        ensures
            final(self)@ == old(self)@.undo(*m),
    {
        match self.get_cell_mut(&m.position) {
            Some(cell) => {
                cell.mark = None;
            },
            None => {},
        }
    }

    /// Empties every cell; the dimensions stay.
    pub fn reset(&mut self)
        requires
            old(self).wf(),
        ensures
            final(self)@ == Grid::blank(old(self)@.row_size, old(self)@.col_size),
    {
        let mut i: usize = 0;
        while i < self.cells.len()
            invariant
                i <= self.cells.len(),
                self.cells.len() == old(self).cells.len(),
                self.row_size == old(self).row_size,
                self.col_size == old(self).col_size,
                forall|k: int| 0 <= k < i ==> (#[trigger] self.cells@[k]).mark is None,
            decreases self.cells.len() - i,
        {
            self.cells[i] = Cell { mark: None };
            i += 1;
        }
        assert(self@.cells =~= Grid::blank(old(self)@.row_size, old(self)@.col_size).cells);
    }

    /// One move of `marking` for each empty cell, in row-major order.
    pub fn moves(&self, marking: CellMarking) -> (moves: Vec<Move>)
        requires
            self.wf(),
        ensures
            moves@ == self@.legal_moves(marking),
    {
        let mut moves: Vec<Move> = Vec::new();
        let mut i: usize = 0;
        while i < self.cells.len()
            invariant
                self.wf(),
                i <= self.cells.len(),
                moves@.len() == empty_below(self.cells@, i as nat).len(),
                forall|k: int|
                    0 <= k < moves@.len() ==> #[trigger] moves@[k] == self@.move_at(
                        empty_below(self.cells@, i as nat)[k],
                        marking,
                    ),
            decreases self.cells.len() - i,
        {
            if self.cells[i].mark.is_none() {
                let position = self.index_to_pos(i);
                moves.push(Move { position, marking });
            }
            i += 1;
        }
        assert(moves@ =~= self@.legal_moves(marking));
        moves
    }

    /// The textual snapshot of the board: `X`, `O` or `_` for each cell, row
    /// after row, with a line feed after each row.
    pub fn to_string(&self) -> (text: String)
        requires
            self.wf(),
        ensures
            text@ == self@.text(),
    {
        let mut text = String::new();
        let ghost width = self.row_size + 1;
        let mut row: usize = 0;
        while row < self.col_size
            invariant
                self.wf(),
                width == self.row_size + 1,
                row <= self.col_size,
                text@.len() == row * width,
                forall|i: int| 0 <= i < text@.len() ==> #[trigger] text@[i] == self@.text_char(i),
            decreases self.col_size - row,
        {
            let mut col: usize = 0;
            while col < self.row_size
                invariant
                    self.wf(),
                    width == self.row_size + 1,
                    row < self.col_size,
                    col <= self.row_size,
                    text@.len() == row * width + col,
                    forall|i: int|
                        0 <= i < text@.len() ==> #[trigger] text@[i] == self@.text_char(i),
                decreases self.row_size - col,
            {
                proof {
                    assert(width * row == row * width) by (nonlinear_arith);
                    lemma_fundamental_div_mod_converse(
                        row * width + col,
                        width,
                        row as int,
                        col as int,
                    );
                    reveal_strlit("X");
                    reveal_strlit("O");
                    reveal_strlit("_");
                }
                let cell = self.get_cell(&(row, col)).unwrap();
                let shown: &str = match cell.mark {
                    Some(CellMarking::X) => "X",
                    Some(CellMarking::O) => "O",
                    None => "_",
                };
                assert(shown@ =~= seq![self@.text_char(row * width + col)]);
                text.append(shown);
                col += 1;
            }
            proof {
                assert(width * row == row * width) by (nonlinear_arith);
                lemma_fundamental_div_mod_converse(
                    row * width + col,
                    width,
                    row as int,
                    col as int,
                );
                reveal_strlit("\n");
                assert("\n"@ =~= seq![self@.text_char(row * width + col)]);
                assert((row + 1) * width == row * width + width) by (nonlinear_arith);
            }
            text.append("\n");
            row += 1;
        }
        assert(text@ =~= self@.text());
        text
    }
}

} // verus!
