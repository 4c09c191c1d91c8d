//! Win detection on the board.

use vstd::prelude::*;
use crate::game::Board;
use crate::lines::{diagonal, family, first_mark, lemma_first_mark_skips, line_mark, uniform};
use crate::marking::CellMarking;

verus! {

impl Board {
    /// The marking that fills a whole row, a whole column or one of the two
    /// corner diagonals, if there is one. Rows are looked at first, top to
    /// bottom, then columns, left to right, then the diagonal from the
    /// top-left corner, then the one from the top-right corner.
    pub fn has_won(&self) -> (winner: Option<CellMarking>)
        requires
            self.wf(),
        ensures
            winner == self@.winner(),
    {
        let by_row = |row: usize, col: usize| -> (pos: (usize, usize))
            ensures
                pos == (row, col),
            { (row, col) };
        let by_column = |col: usize, row: usize| -> (pos: (usize, usize))
            ensures
                pos == (row, col),
            { (row, col) };
        let ghost row_at = |row: int, col: int| (row, col);
        let ghost column_at = |col: int, row: int| (row, col);
        assert(family(self@.col_size, self@.row_size, row_at) =~~= self@.rows());
        assert(family(self@.row_size, self@.col_size, column_at) =~~= self@.columns());
        match self.check_line(self.col_size(), self.row_size(), by_row, Ghost(row_at)) {
            Some(marking) => Some(marking),
            None => match self.check_line(
                self.row_size(),
                self.col_size(),
                by_column,
                Ghost(column_at),
            ) {
                Some(marking) => Some(marking),
                None => self.check_diagonals(),
            },
        }
    }

    /// Looks at the two corner diagonals, the one from the top-left corner
    /// first. Their length is the shorter dimension of the board.
    fn check_diagonals(&self) -> (found: Option<CellMarking>)
        requires
            self.wf(),
        ensures
            found == first_mark(self@, self@.diagonals(), 0),
    {
        let shortest_length: usize = if self.row_size() <= self.col_size() {
            self.row_size()
        } else {
            self.col_size()
        };
        let top_right: (usize, usize) = (0, self.row_size() - 1);
        proof {
            reveal_with_fuel(first_mark, 3);
        }
        match self.check_diagonal((0, 0), 1, shortest_length) {
            Some(marking) => Some(marking),
            None => self.check_diagonal(top_right, -1, shortest_length),
        }
    }

    /// Looks at the diagonal of `shortest_length` cells that starts at `start`
    /// and moves one row down and one column right (`direction` 1) or left
    /// (`direction` -1) with each cell.
    fn check_diagonal(&self, start: (usize, usize), direction: i32, shortest_length: usize) -> (found:
        Option<CellMarking>)
        requires
            self.wf(),
            direction == 1 || direction == -1,
            start.0 + shortest_length <= self@.col_size,
            direction == 1 ==> start.1 + shortest_length <= self@.row_size,
            direction == -1 ==> shortest_length <= start.1 + 1 <= self@.row_size,
        ensures
            found == line_mark(
                self@,
                diagonal(start.0 as int, start.1 as int, direction as int, shortest_length as nat),
            ),
    {
        let ghost line = diagonal(
            start.0 as int,
            start.1 as int,
            direction as int,
            shortest_length as nat,
        );
        proof {
            self.lemma_sizes_fit();
        }
        let mut diagonal_marking: Option<CellMarking> = None;
        let mut count: usize = 0;
        let mut counter: usize = 0;
        while counter < shortest_length
            invariant_except_break
                count == counter,
            invariant
                self.wf(),
                self@.row_size <= usize::MAX,
                self@.col_size <= usize::MAX,
                direction == 1 || direction == -1,
                start.0 + shortest_length <= self@.col_size,
                direction == 1 ==> start.1 + shortest_length <= self@.row_size,
                direction == -1 ==> shortest_length <= start.1 + 1 <= self@.row_size,
                counter <= shortest_length,
                line == diagonal(
                    start.0 as int,
                    start.1 as int,
                    direction as int,
                    shortest_length as nat,
                ),
                count == 0 ==> diagonal_marking is None,
                count > 0 ==> diagonal_marking is Some,
                forall|k: int|
                    0 <= k < count ==> self@.mark_at((#[trigger] line[k]).0, line[k].1)
                        == diagonal_marking,
            ensures
                count <= shortest_length,
                count == 0 ==> diagonal_marking is None,
                count > 0 ==> diagonal_marking is Some,
                forall|k: int|
                    0 <= k < count ==> self@.mark_at((#[trigger] line[k]).0, line[k].1)
                        == diagonal_marking,
                count < shortest_length ==> line_mark(self@, line) is None,
            decreases shortest_length - counter,
        {
            let row: usize = start.0 + counter;
            let col: usize = if direction > 0 {
                start.1 + counter
            } else {
                start.1 - counter
            };
            let position = (row, col);
            assert(line[counter as int] == (row as int, col as int));
            let cell_marking = match self.get_cell(&position) {
                Some(cell) => cell.mark,
                None => None,
            };
            assert(cell_marking == self@.mark_at(line[counter as int].0, line[counter as int].1));
            if cell_marking.is_some() && diagonal_marking.is_none() {
                diagonal_marking = cell_marking;
            } else if cell_marking.is_none() || diagonal_marking != cell_marking {
                proof {
                    if cell_marking is Some {
                        assert(self@.mark_at(line[0].0, line[0].1) == diagonal_marking);
                    }
                }
                break;
            }
            count += 1;
            counter += 1;
        }
        if count == shortest_length {
            proof {
                if diagonal_marking is Some {
                    assert(uniform(self@, line, diagonal_marking.unwrap()));
                    assert(self@.mark_at(line[0].0, line[0].1) == diagonal_marking);
                }
            }
            diagonal_marking
        } else {
            None
        }
    }

    /// Scans `size1` lines of `size2` cells each, line `a` made of the cells
    /// at `cell_fn(a, b)`, and returns the marking of the first line that one
    /// marking fills. A line is given up at its first empty or differing cell.
    fn check_line<F>(
        &self,
        size1: usize,
        size2: usize,
        cell_fn: F,
        Ghost(at): Ghost<spec_fn(int, int) -> (int, int)>,
    ) -> (found: Option<CellMarking>) where F: Fn(usize, usize) -> (usize, usize)
        requires
            self.wf(),
            forall|a: usize, b: usize| a < size1 && b < size2 ==> call_requires(cell_fn, (a, b)),
            forall|a: usize, b: usize, pos: (usize, usize)|
                a < size1 && b < size2 && call_ensures(cell_fn, (a, b), pos) ==> (
                    pos.0 as int,
                    pos.1 as int,
                ) == at(a as int, b as int),
            forall|a: int, b: int|
                0 <= a < size1 && 0 <= b < size2 ==> self@.valid(
                    (#[trigger] at(a, b)).0,
                    at(a, b).1,
                ),
        ensures
            found == first_mark(self@, family(size1 as nat, size2 as nat, at), 0),
    {
        let ghost lines = family(size1 as nat, size2 as nat, at);
        let mut a: usize = 0;
        while a < size1
            invariant
                self.wf(),
                a <= size1,
                lines == family(size1 as nat, size2 as nat, at),
                forall|a: usize, b: usize|
                    a < size1 && b < size2 ==> call_requires(cell_fn, (a, b)),
                forall|a: usize, b: usize, pos: (usize, usize)|
                    a < size1 && b < size2 && call_ensures(cell_fn, (a, b), pos) ==> (
                        pos.0 as int,
                        pos.1 as int,
                    ) == at(a as int, b as int),
                forall|a: int, b: int|
                    0 <= a < size1 && 0 <= b < size2 ==> self@.valid(
                        (#[trigger] at(a, b)).0,
                        at(a, b).1,
                    ),
                forall|i: int| 0 <= i < a ==> line_mark(self@, #[trigger] lines[i]) is None,
            decreases size1 - a,
        {
            let ghost line = lines[a as int];
            let mut marking: Option<CellMarking> = None;
            let mut count: usize = 0;
            let mut b: usize = 0;
            while b < size2
                invariant_except_break
                    count == b,
                invariant
                    self.wf(),
                    a < size1,
                    b <= size2,
                    line == lines[a as int],
                    lines == family(size1 as nat, size2 as nat, at),
                    forall|a: usize, b: usize|
                        a < size1 && b < size2 ==> call_requires(cell_fn, (a, b)),
                    forall|a: usize, b: usize, pos: (usize, usize)|
                        a < size1 && b < size2 && call_ensures(cell_fn, (a, b), pos) ==> (
                            pos.0 as int,
                            pos.1 as int,
                        ) == at(a as int, b as int),
                    forall|a: int, b: int|
                        0 <= a < size1 && 0 <= b < size2 ==> self@.valid(
                            (#[trigger] at(a, b)).0,
                            at(a, b).1,
                        ),
                    count == 0 ==> marking is None,
                    count > 0 ==> marking is Some,
                    forall|k: int|
                        0 <= k < count ==> self@.mark_at((#[trigger] line[k]).0, line[k].1)
                            == marking,
                ensures
                    count <= size2,
                    count == 0 ==> marking is None,
                    count > 0 ==> marking is Some,
                    forall|k: int|
                        0 <= k < count ==> self@.mark_at((#[trigger] line[k]).0, line[k].1)
                            == marking,
                    count < size2 ==> line_mark(self@, line) is None,
                decreases size2 - b,
            {
                let pos = cell_fn(a, b);
                assert(line[b as int] == at(a as int, b as int));
                let cell_marking = match self.get_cell(&pos) {
                    Some(cell) => cell.mark,
                    None => None,
                };
                assert(cell_marking == self@.mark_at(line[b as int].0, line[b as int].1));
                if cell_marking.is_some() && marking.is_none() {
                    marking = cell_marking;
                } else if cell_marking.is_none() || marking != cell_marking {
                    proof {
                        if cell_marking is Some {
                            assert(self@.mark_at(line[0].0, line[0].1) == marking);
                        }
                    }
                    break;
                }
                count += 1;
                b += 1;
            }
            if count == size2 && !marking.is_none() {
                proof {
                    assert(uniform(self@, line, marking.unwrap()));
                    assert(self@.mark_at(line[0].0, line[0].1) == marking);
                    assert(line_mark(self@, line) == marking);
                    lemma_first_mark_skips(self@, lines, 0, a as int);
                }
                return marking;
            }
            a += 1;
        }
        proof {
            lemma_first_mark_skips(self@, lines, 0, size1 as int);
        }
        None
    }
}

} // verus!
