//! Winning lines: the rows, the columns and the two corner diagonals of a
//! grid, and the marking, if any, that has won.

use vstd::prelude::*;
use crate::grid::Grid;
use crate::marking::{CellMarking, opponent};

verus! {

/// A line is a sequence of `(row, col)` positions.
pub type Line = Seq<(int, int)>;

/// Every cell of the (non-empty) line holds `marking`.
pub open spec fn uniform(g: Grid, line: Line, marking: CellMarking) -> bool {
    &&& line.len() > 0
    &&& forall|k: int|
        0 <= k < line.len() ==> g.mark_at((#[trigger] line[k]).0, line[k].1) == Some(marking)
}

/// The marking that fills the whole line, if there is one.
pub open spec fn line_mark(g: Grid, line: Line) -> Option<CellMarking> {
    if uniform(g, line, CellMarking::X) {
        Some(CellMarking::X)
    } else if uniform(g, line, CellMarking::O) {
        Some(CellMarking::O)
    } else {
        None
    }
}

/// The marking of the first filled line among `lines[from..]`.
pub open spec fn first_mark(g: Grid, lines: Seq<Line>, from: int) -> Option<CellMarking>
    decreases lines.len() - from,
{
    if from < 0 || from >= lines.len() {
        None
    } else if line_mark(g, lines[from]) is Some {
        line_mark(g, lines[from])
    } else {
        first_mark(g, lines, from + 1)
    }
}

/// `count` lines of `length` positions each: line `a` holds `at(a, b)` for
/// `b` from 0.
pub open spec fn family(count: nat, length: nat, at: spec_fn(int, int) -> (int, int)) -> Seq<Line> {
    Seq::new(count, |a: int| Seq::new(length, |b: int| at(a, b)))
}

/// The diagonal line of `length` cells that starts at `(row, col)` and moves
/// one row down and `step` columns right with each cell.
pub open spec fn diagonal(row: int, col: int, step: int, length: nat) -> Line {
    Seq::new(length, |k: int| (row + k, col + k * step))
}

impl Grid {
    /// The rows, top to bottom, each left to right.
    pub open spec fn rows(self) -> Seq<Line> {
        family(self.col_size, self.row_size, |row: int, col: int| (row, col))
    }

    /// The columns, left to right, each top to bottom.
    pub open spec fn columns(self) -> Seq<Line> {
        family(self.row_size, self.col_size, |col: int, row: int| (row, col))
    }

    /// The length of the two diagonals: the shorter dimension.
    pub open spec fn diagonal_len(self) -> nat {
        if self.row_size <= self.col_size {
            self.row_size
        } else {
            self.col_size
        }
    }

    /// The diagonal that starts in the top-left corner and steps down and
    /// right.
    pub open spec fn main_diagonal(self) -> Line {
        diagonal(0, 0, 1, self.diagonal_len())
    }

    /// The diagonal that starts in the top-right corner and steps down and
    /// left.
    pub open spec fn anti_diagonal(self) -> Line {
        diagonal(0, self.row_size - 1, -1, self.diagonal_len())
    }

    /// The two diagonals, the one from the top-left corner first.
    pub open spec fn diagonals(self) -> Seq<Line> {
        seq![self.main_diagonal(), self.anti_diagonal()]
    }

    /// The winner: the marking of the first filled line, looking at the rows,
    /// then the columns, then the two diagonals.
    pub open spec fn winner(self) -> Option<CellMarking> {
        if first_mark(self, self.rows(), 0) is Some {
            first_mark(self, self.rows(), 0)
        } else if first_mark(self, self.columns(), 0) is Some {
            first_mark(self, self.columns(), 0)
        } else {
            first_mark(self, self.diagonals(), 0)
        }
    }
}

/// Lines that are not filled are passed over.
pub proof fn lemma_first_mark_skips(g: Grid, lines: Seq<Line>, from: int, to: int)
    requires
        0 <= from <= to <= lines.len(),
        forall|a: int| from <= a < to ==> line_mark(g, #[trigger] lines[a]) is None,
    ensures
        first_mark(g, lines, from) == first_mark(g, lines, to),
    decreases to - from,
{
    if from < to {
        lemma_first_mark_skips(g, lines, from + 1, to);
    }
}

/// A line has the mark of the marking that fills it, and of no other.
pub proof fn lemma_line_mark(g: Grid, line: Line, marking: CellMarking)
    ensures
        uniform(g, line, marking) <==> line_mark(g, line) == Some(marking),
{
    if uniform(g, line, CellMarking::X) && uniform(g, line, CellMarking::O) {
        assert(g.mark_at(line[0].0, line[0].1) == Some(CellMarking::X));
    }
}

/// A line with an empty cell, or with two cells that differ, has no mark.
pub proof fn lemma_incomplete_line(g: Grid, line: Line, j: int, k: int)
    requires
        0 <= j < line.len(),
        0 <= k < line.len(),
        g.mark_at(line[j].0, line[j].1) is None || g.mark_at(line[j].0, line[j].1) != g.mark_at(
            line[k].0,
            line[k].1,
        ),
    ensures
        line_mark(g, line) is None,
{
}

/// What `first_mark` finds is the mark of the first filled line: no line
/// before it is filled. It finds nothing only where no line is filled.
pub proof fn lemma_first_mark(g: Grid, lines: Seq<Line>, from: int)
    requires
        0 <= from,
    ensures
        match first_mark(g, lines, from) {
            Some(marking) => exists|a: int|
                from <= a < lines.len() && uniform(g, #[trigger] lines[a], marking) && forall|
                    i: int,
                |
                    from <= i < a ==> line_mark(g, #[trigger] lines[i]) is None,
            None => forall|a: int|
                from <= a < lines.len() ==> line_mark(g, #[trigger] lines[a]) is None,
        },
    decreases lines.len() - from,
{
    if from < lines.len() {
        if line_mark(g, lines[from]) is Some {
            lemma_line_mark(g, lines[from], line_mark(g, lines[from]).unwrap());
        } else {
            lemma_first_mark(g, lines, from + 1);
            if first_mark(g, lines, from) is Some {
                let marking = first_mark(g, lines, from).unwrap();
                let a = choose|a: int|
                    from + 1 <= a < lines.len() && uniform(g, #[trigger] lines[a], marking)
                        && forall|i: int|
                        from + 1 <= i < a ==> line_mark(g, #[trigger] lines[i]) is None;
                assert(from <= a < lines.len() && uniform(g, lines[a], marking) && forall|i: int|
                    from <= i < a ==> line_mark(g, #[trigger] lines[i]) is None);
            }
        }
    }
}

/// Where one of the lines is filled, `first_mark` finds a mark.
pub proof fn lemma_first_mark_decides(g: Grid, lines: Seq<Line>, a: int, marking: CellMarking)
    requires
        0 <= a < lines.len(),
        uniform(g, lines[a], marking),
    ensures
        first_mark(g, lines, 0) is Some,
{
    lemma_first_mark(g, lines, 0);
    lemma_line_mark(g, lines[a], marking);
}

/// The winner fills a row, a column or a diagonal; without a winner no row,
/// no column and no diagonal is filled by one marking.
pub proof fn lemma_winner(g: Grid)
    ensures
        match g.winner() {
            Some(marking) => {
                ||| exists|row: int|
                    0 <= row < g.col_size && uniform(g, #[trigger] g.rows()[row], marking)
                ||| exists|col: int|
                    0 <= col < g.row_size && uniform(g, #[trigger] g.columns()[col], marking)
                ||| uniform(g, g.main_diagonal(), marking)
                ||| uniform(g, g.anti_diagonal(), marking)
            },
            None => {
                &&& forall|row: int|
                    0 <= row < g.col_size ==> line_mark(g, #[trigger] g.rows()[row]) is None
                &&& forall|col: int|
                    0 <= col < g.row_size ==> line_mark(g, #[trigger] g.columns()[col]) is None
                &&& line_mark(g, g.main_diagonal()) is None
                &&& line_mark(g, g.anti_diagonal()) is None
            },
        },
{
    lemma_first_mark(g, g.rows(), 0);
    lemma_first_mark(g, g.columns(), 0);
    lemma_first_mark(g, g.diagonals(), 0);
    if first_mark(g, g.rows(), 0) is None && first_mark(g, g.columns(), 0) is None {
        assert(g.diagonals()[0] == g.main_diagonal());
        assert(g.diagonals()[1] == g.anti_diagonal());
    }
}

/// A row filled with one marking wins the game for that marking, unless the
/// first filled row belongs to the opponent.
pub proof fn lemma_filled_row_wins(g: Grid, row: int, marking: CellMarking)
    requires
        g.wf(),
        0 <= row < g.col_size,
        forall|col: int| 0 <= col < g.row_size ==> g.mark_at(row, col) == Some(marking),
        first_mark(g, g.rows(), 0) != Some(opponent(marking)),
    ensures
        g.winner() == Some(marking),
{
    assert(uniform(g, g.rows()[row], marking));
    lemma_first_mark_decides(g, g.rows(), row, marking);
}

/// A column filled with one marking wins the game for that marking, unless
/// the first filled column belongs to the opponent.
pub proof fn lemma_filled_column_wins(g: Grid, col: int, marking: CellMarking)
    requires
        g.wf(),
        0 <= col < g.row_size,
        forall|row: int| 0 <= row < g.col_size ==> g.mark_at(row, col) == Some(marking),
        first_mark(g, g.columns(), 0) != Some(opponent(marking)),
    ensures
        g.winner() == Some(marking),
{
    assert(uniform(g, g.columns()[col], marking));
    lemma_first_mark_decides(g, g.columns(), col, marking);
    lemma_first_mark(g, g.rows(), 0);
    if first_mark(g, g.rows(), 0) == Some(opponent(marking)) {
        let row = choose|row: int|
            0 <= row < g.rows().len() && uniform(g, #[trigger] g.rows()[row], opponent(marking));
        assert(g.rows()[row][col] == (row, col));
        assert(g.mark_at(row, col) == Some(opponent(marking)));
    }
}

/// A corner diagonal filled with one marking wins the game for that marking,
/// unless a filled line that is looked at before it belongs to the opponent:
/// a row, a column or, for the diagonal from the top-right corner, the
/// diagonal from the top-left corner.
pub proof fn lemma_filled_diagonal_wins(g: Grid, which: int, marking: CellMarking)
    requires
        g.wf(),
        0 <= which < 2,
        uniform(g, g.diagonals()[which], marking),
        g.winner() != Some(opponent(marking)),
    ensures
        g.winner() == Some(marking),
{
    lemma_first_mark_decides(g, g.diagonals(), which, marking);
}

} // verus!
