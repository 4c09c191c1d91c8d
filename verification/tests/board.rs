use tictactoe::{Board, Cell, CellMarking, Move};

const TEST_BOARD_ROW_SIZE: usize = 3;
const TEST_BOARD_COL_SIZE: usize = 5;

fn board_from(rows: &[&str]) -> Board {
    let mut board = Board::with_dimensions(rows[0].len(), rows.len());
    for (row, line) in rows.iter().enumerate() {
        for (col, symbol) in line.chars().enumerate() {
            let marking = match symbol {
                'X' => CellMarking::X,
                'O' => CellMarking::O,
                _ => continue,
            };
            board.apply_move(&Move { position: (row, col), marking });
        }
    }
    board
}

#[test]
fn test_has_won_row() {
    for marked_row in 0..TEST_BOARD_COL_SIZE {
        for marking in [CellMarking::X, CellMarking::O].iter() {
            let mut board = Board::with_dimensions(TEST_BOARD_ROW_SIZE, TEST_BOARD_COL_SIZE);
            for row in 0..TEST_BOARD_COL_SIZE {
                for col in 0..TEST_BOARD_ROW_SIZE {
                    if row == marked_row {
                        let updated_cell = Cell {
                            mark: Some(*marking),
                        };
                        *board.get_cell_mut(&(row, col)).unwrap() = updated_cell;
                    }
                }
            }
            assert_eq!(board.has_won(), Some(*marking));
        }
    }
}

#[test]
fn test_has_won_col() {
    for marked_col in 0..TEST_BOARD_ROW_SIZE {
        for marking in [CellMarking::X, CellMarking::O].iter() {
            let mut board = Board::with_dimensions(TEST_BOARD_ROW_SIZE, TEST_BOARD_COL_SIZE);
            for row in 0..TEST_BOARD_COL_SIZE {
                for col in 0..TEST_BOARD_ROW_SIZE {
                    if col == marked_col {
                        let updated_cell = Cell {
                            mark: Some(*marking),
                        };
                        *board.get_cell_mut(&(row, col)).unwrap() = updated_cell;
                    }
                }
            }
            assert_eq!(board.has_won(), Some(*marking));
        }
    }
}

#[test]
fn test_has_won_diagonal() {
    let mark = Cell {
        mark: Some(CellMarking::X),
    };
    let mut board = Board::with_dimensions(5, 3);
    *board.get_cell_mut(&(0, 0)).unwrap() = mark;
    *board.get_cell_mut(&(1, 1)).unwrap() = mark;
    *board.get_cell_mut(&(2, 2)).unwrap() = mark;
    assert_eq!(board.has_won(), Some(CellMarking::X));

    let mark = Cell {
        mark: Some(CellMarking::O),
    };
    let mut board = Board::with_dimensions(3, 5);
    *board.get_cell_mut(&(0, 2)).unwrap() = mark;
    *board.get_cell_mut(&(1, 1)).unwrap() = mark;
    *board.get_cell_mut(&(2, 0)).unwrap() = mark;
    assert_eq!(board.has_won(), Some(CellMarking::O));
}

#[test]
fn test_has_won_diagonal_incomplete() {
    let mark = Cell {
        mark: Some(CellMarking::X),
    };
    let mut board = Board::with_dimensions(5, 3);
    *board.get_cell_mut(&(0, 0)).unwrap() = mark;
    *board.get_cell_mut(&(2, 2)).unwrap() = mark;
    assert_eq!(board.has_won(), None);
}

#[test]
fn test_index_to_pos() {
    let board = Board::with_dimensions(3, 3);
    for row in 0..board.col_size() {
        for col in 0..board.row_size() {
            let index = board.cell_index(&(row, col));
            assert_eq!(board.index_to_pos(index), (row, col));
        }
    }
}

#[test]
fn new_board_is_three_by_three_and_empty() {
    let board = Board::new();
    assert_eq!(board.row_size(), 3);
    assert_eq!(board.col_size(), 3);
    assert_eq!(board, Board::with_dimensions(3, 3));
    for row in 0..3 {
        for col in 0..3 {
            assert_eq!(board.get_cell(&(row, col)), Some(&Cell { mark: None }));
        }
    }
    assert_eq!(board.has_won(), None);
}

#[test]
fn with_dimensions_keeps_row_and_column_sizes_apart() {
    let board = Board::with_dimensions(5, 2);
    assert_eq!(board.row_size(), 5);
    assert_eq!(board.col_size(), 2);
    assert_eq!(board.moves(CellMarking::X).len(), 10);
    assert!(board.get_cell(&(1, 4)).is_some());
    assert!(board.get_cell(&(2, 0)).is_none());
    assert!(board.get_cell(&(0, 5)).is_none());
}

#[test]
fn cell_index_is_row_times_row_size_plus_column() {
    let board = Board::with_dimensions(5, 3);
    assert_eq!(board.cell_index(&(0, 0)), 0);
    assert_eq!(board.cell_index(&(2, 3)), 13);
    assert_eq!(board.cell_index(&(1, 4)), 9);
    assert_eq!(board.index_to_pos(13), (2, 3));
    assert_eq!(board.index_to_pos(9), (1, 4));
    assert_eq!(board.index_to_pos(14), (2, 4));
}

#[test]
fn index_and_position_are_inverses_on_varied_boards() {
    for (row_size, col_size) in [(1, 1), (3, 3), (3, 5), (5, 3), (1, 7), (4, 2)] {
        let board = Board::with_dimensions(row_size, col_size);
        for index in 0..row_size * col_size {
            let pos = board.index_to_pos(index);
            assert!(pos.0 < col_size && pos.1 < row_size);
            assert_eq!(board.cell_index(&pos), index);
        }
        for row in 0..col_size {
            for col in 0..row_size {
                assert_eq!(board.index_to_pos(board.cell_index(&(row, col))), (row, col));
            }
        }
    }
}

#[test]
fn apply_move_marks_only_its_cell() {
    let mut board = Board::with_dimensions(3, 2);
    board.apply_move(&Move { position: (1, 2), marking: CellMarking::O });
    assert_eq!(board.to_string(), "___\n__O\n");
    board.apply_move(&Move { position: (1, 2), marking: CellMarking::X });
    assert_eq!(board.to_string(), "___\n__X\n");
    assert_eq!(board.get_cell(&(1, 2)), Some(&Cell { mark: Some(CellMarking::X) }));
}

#[test]
fn undo_move_empties_its_cell_whatever_it_held() {
    let mut board = board_from(&["XO_", "___"]);
    board.undo_move(&Move { position: (0, 1), marking: CellMarking::X });
    assert_eq!(board.to_string(), "X__\n___\n");
    board.undo_move(&Move { position: (1, 1), marking: CellMarking::O });
    assert_eq!(board.to_string(), "X__\n___\n");
}

#[test]
fn moves_outside_the_board_are_ignored() {
    let mut board = board_from(&["X__", "_O_", "___"]);
    let saved = board.clone();
    for position in [(3, 0), (0, 3), (0, 5), (7, 7), (usize::MAX, usize::MAX), (usize::MAX, 0)] {
        board.apply_move(&Move { position, marking: CellMarking::X });
        assert_eq!(board, saved);
        board.undo_move(&Move { position, marking: CellMarking::X });
        assert_eq!(board, saved);
        assert!(board.get_cell(&position).is_none());
        assert!(board.get_cell_mut(&position).is_none());
    }
}

#[test]
fn moves_lists_the_empty_cells_in_row_major_order() {
    let board = board_from(&["X_O", "___", "OX_"]);
    let moves = board.moves(CellMarking::O);
    let expected: Vec<Move> = [(0, 1), (1, 0), (1, 1), (1, 2), (2, 2)]
        .iter()
        .map(|&position| Move { position, marking: CellMarking::O })
        .collect();
    assert_eq!(moves, expected);
}

#[test]
fn moves_on_a_wide_board_follow_the_row_length() {
    let board = board_from(&["XXXX_", "_OOOO"]);
    let moves = board.moves(CellMarking::X);
    assert_eq!(
        moves,
        vec![
            Move { position: (0, 4), marking: CellMarking::X },
            Move { position: (1, 0), marking: CellMarking::X },
        ]
    );
}

#[test]
fn moves_of_a_full_board_are_none() {
    let board = board_from(&["XO", "OX"]);
    assert!(board.moves(CellMarking::X).is_empty());
    assert!(board.moves(CellMarking::O).is_empty());
}

#[test]
fn to_string_shows_each_row_on_a_line() {
    assert_eq!(Board::new().to_string(), "___\n___\n___\n");
    let board = board_from(&["X_O", "_X_", "O_X"]);
    assert_eq!(board.to_string(), "X_O\n_X_\nO_X\n");
    let tall = board_from(&["XO", "__", "OX", "X_"]);
    assert_eq!(tall.to_string(), "XO\n__\nOX\nX_\n");
    let single = Board::with_dimensions(1, 1);
    assert_eq!(single.to_string(), "_\n");
}

#[test]
fn to_string_does_not_change_the_board() {
    let board = board_from(&["X_O", "_X_", "O_X"]);
    let saved = board.clone();
    let _ = board.to_string();
    assert_eq!(board, saved);
}

#[test]
fn reset_empties_the_board_and_keeps_its_shape() {
    let mut board = board_from(&["XOX", "OXO", "X_O", "___", "OOO"]);
    board.reset();
    assert_eq!(board, Board::with_dimensions(3, 5));
    assert_eq!(board.row_size(), 3);
    assert_eq!(board.col_size(), 5);
    assert_eq!(board.to_string(), "___\n___\n___\n___\n___\n");
}

#[test]
fn clone_is_equal_and_independent() {
    let mut board = board_from(&["X__", "___", "___"]);
    let copy = board.clone();
    assert_eq!(copy, board);
    board.apply_move(&Move { position: (2, 2), marking: CellMarking::O });
    assert_ne!(copy, board);
    assert_eq!(copy.to_string(), "X__\n___\n___\n");
}

#[test]
fn get_cell_mut_writes_through() {
    let mut board = Board::new();
    board.get_cell_mut(&(1, 1)).unwrap().mark = Some(CellMarking::O);
    assert_eq!(board.get_cell(&(1, 1)).unwrap().mark, Some(CellMarking::O));
    assert_eq!(board.to_string(), "___\n_O_\n___\n");
}

#[test]
fn opposite_swaps_the_markings() {
    assert_eq!(CellMarking::X.opposite(), CellMarking::O);
    assert_eq!(CellMarking::O.opposite(), CellMarking::X);
}

#[test]
fn has_won_sees_each_column_of_a_square_board() {
    for col in 0..3 {
        let mut board = Board::new();
        for row in 0..3 {
            board.apply_move(&Move { position: (row, col), marking: CellMarking::O });
        }
        assert_eq!(board.has_won(), Some(CellMarking::O));
    }
}

#[test]
fn has_won_sees_both_diagonals_of_a_square_board() {
    assert_eq!(board_from(&["X_O", "OX_", "O_X"]).has_won(), Some(CellMarking::X));
    assert_eq!(board_from(&["X_O", "XO_", "O_X"]).has_won(), Some(CellMarking::O));
}

#[test]
fn has_won_ignores_diagonals_that_start_off_a_top_corner() {
    // Three in a diagonal, but starting in the second column of a wide board.
    assert_eq!(board_from(&["_X___", "__X__", "___X_"]).has_won(), None);
    // Three in a diagonal, but starting in the second row of a tall board.
    assert_eq!(board_from(&["___", "X__", "_X_", "__X", "___"]).has_won(), None);
    // The bottom-left to top-right diagonal of a tall board is not a corner diagonal.
    assert_eq!(board_from(&["___", "___", "__O", "_O_", "O__"]).has_won(), None);
}

#[test]
fn has_won_needs_one_marking_along_the_whole_line() {
    assert_eq!(board_from(&["XXO", "___", "___"]).has_won(), None);
    assert_eq!(board_from(&["XX_", "___", "___"]).has_won(), None);
    assert_eq!(board_from(&["X__", "O__", "X__"]).has_won(), None);
    assert_eq!(board_from(&["X__", "_O_", "__X"]).has_won(), None);
    assert_eq!(board_from(&["__O", "_O_", "X__"]).has_won(), None);
}

#[test]
fn has_won_reports_the_first_filled_row() {
    assert_eq!(board_from(&["OOO", "XXX", "___"]).has_won(), Some(CellMarking::O));
    assert_eq!(board_from(&["___", "XXX", "OOO"]).has_won(), Some(CellMarking::X));
}

#[test]
fn has_won_looks_at_rows_before_columns_and_diagonals() {
    // A board of one column and two rows: each row is a line of one cell.
    assert_eq!(board_from(&["X", "O"]).has_won(), Some(CellMarking::X));
    // The column of O is filled, but on a board this narrow each row is filled first.
    assert_eq!(board_from(&["O", "O"]).has_won(), Some(CellMarking::O));
    // Columns before diagonals: column 3 belongs to O, the diagonal to X.
    assert_eq!(board_from(&["X__O", "_X_O"]).has_won(), Some(CellMarking::O));
}

#[test]
fn has_won_on_a_full_board_without_a_line_is_none() {
    assert_eq!(board_from(&["XOX", "XOO", "OXX"]).has_won(), None);
}

#[test]
fn has_won_on_a_single_cell_board() {
    assert_eq!(Board::with_dimensions(1, 1).has_won(), None);
    assert_eq!(board_from(&["O"]).has_won(), Some(CellMarking::O));
}
