use vstd::prelude::*;

use crate::grid::{cell, cells_wf, index_of, SudokuGrid, NUMBER_CELLS_IN_BOX, NUMBER_MAX_CELLS};

verus! {

/// `digit` stands somewhere in row `row`.
pub open spec fn row_has(s: Seq<usize>, row: int, digit: int) -> bool {
    exists|column: int| 0 <= column < 9 && #[trigger] cell(s, row, column) == digit
}

/// Cells `(r1, c1)` and `(r2, c2)` share a row, a column or a box.
pub open spec fn same_unit(r1: int, c1: int, r2: int, c2: int) -> bool {
    r1 == r2 || c1 == c2 || (box_origin(r1) == box_origin(r2) && box_origin(c1) == box_origin(
        c2,
    ))
}

/// No digit repeats within a row, a column or a box.
pub open spec fn is_consistent(s: Seq<usize>) -> bool {
    forall|r1: int, c1: int, r2: int, c2: int|
        0 <= r1 < 9 && 0 <= c1 < 9 && 0 <= r2 < 9 && 0 <= c2 < 9 && (r1 != r2 || c1 != c2)
            && same_unit(r1, c1, r2, c2) && #[trigger] cell(s, r1, c1) != 0 ==> cell(s, r1, c1)
            != #[trigger] cell(s, r2, c2)
}

/// No cell is empty.
pub open spec fn is_full(s: Seq<usize>) -> bool {
    forall|i: int| 0 <= i < 81 ==> #[trigger] s[i] != 0
}

/// A completed grid that keeps every constraint.
pub open spec fn is_solved(s: Seq<usize>) -> bool {
    cells_wf(s) && is_full(s) && is_consistent(s)
}

/// `t` keeps every digit that `s` holds.
pub open spec fn extends(t: Seq<usize>, s: Seq<usize>) -> bool {
    forall|i: int| 0 <= i < 81 && #[trigger] s[i] != 0 ==> t[i] == s[i]
}

proof fn lemma_box_origin(k: int)
    requires
        0 <= k < 9,
    ensures
        box_origin(k) <= k < box_origin(k) + 3,
        box_origin(k) <= 6,
{
}

/// In a solved grid every digit is valid at its own cell once that cell is
/// cleared: it stands nowhere else in its row, column or box.
pub proof fn lemma_solved_cell_is_valid(s: Seq<usize>, row: int, column: int)
    requires
        is_solved(s),
        0 <= row < 9,
        0 <= column < 9,
    ensures
        is_valid(s.update(index_of(row, column), 0), row, column, cell(s, row, column) as int),
{
    let d = cell(s, row, column);
    let t = s.update(index_of(row, column), 0);
    assert(d != 0);
    if row_has(t, row, d as int) {
        let c2 = choose|c2: int| 0 <= c2 < 9 && #[trigger] cell(t, row, c2) == d;
        assert(cell(s, row, c2) == d);
    }
    if column_has(t, column, d as int) {
        let r2 = choose|r2: int| 0 <= r2 < 9 && #[trigger] cell(t, r2, column) == d;
        assert(cell(s, r2, column) == d);
    }
    let br = box_origin(row);
    let bc = box_origin(column);
    if box_has(t, br, bc, d as int) {
        let (i, j) = choose|i: int, j: int|
            0 <= i < 3 && 0 <= j < 3 && #[trigger] cell(t, br + i, bc + j) == d;
        lemma_box_origin(row);
        lemma_box_origin(column);
        assert(index_of(br + i, bc + j) != index_of(row, column));
        assert(cell(s, br + i, bc + j) == d);
    }
}

/// Writing a digit that is valid at an empty cell keeps a consistent grid
/// consistent.
pub proof fn lemma_fill_valid_keeps_consistent(s: Seq<usize>, row: int, column: int, digit: int)
    requires
        cells_wf(s),
        is_consistent(s),
        0 <= row < 9,
        0 <= column < 9,
        cell(s, row, column) == 0,
        1 <= digit <= 9,
        is_valid(s, row, column, digit),
    ensures
        is_consistent(s.update(index_of(row, column), digit as usize)),
{
    let t = s.update(index_of(row, column), digit as usize);
    lemma_box_origin(row);
    lemma_box_origin(column);
    assert forall|r1: int, c1: int, r2: int, c2: int|
        0 <= r1 < 9 && 0 <= c1 < 9 && 0 <= r2 < 9 && 0 <= c2 < 9 && (r1 != r2 || c1 != c2)
            && same_unit(r1, c1, r2, c2) && #[trigger] cell(t, r1, c1) != 0 implies cell(t, r1, c1)
        != #[trigger] cell(t, r2, c2) by {
        let at1 = r1 == row && c1 == column;
        let at2 = r2 == row && c2 == column;
        if at1 {
            lemma_not_in_unit(s, row, column, digit, r2, c2);
        } else if at2 {
            lemma_not_in_unit(s, row, column, digit, r1, c1);
        } else {
            assert(cell(t, r1, c1) == cell(s, r1, c1));
            assert(cell(t, r2, c2) == cell(s, r2, c2));
        }
    }
}

/// A digit valid at `(row, column)` stands in no cell that shares a unit
/// with it.
proof fn lemma_not_in_unit(s: Seq<usize>, row: int, column: int, digit: int, r2: int, c2: int)
    requires
        cells_wf(s),
        0 <= row < 9,
        0 <= column < 9,
        0 <= r2 < 9,
        0 <= c2 < 9,
        same_unit(row, column, r2, c2),
        is_valid(s, row, column, digit),
    ensures
        cell(s, r2, c2) != digit,
{
    lemma_box_origin(row);
    lemma_box_origin(column);
    lemma_box_origin(r2);
    lemma_box_origin(c2);
    if r2 == row {
        assert(!(0 <= c2 < 9 && cell(s, row, c2) == digit));
    } else if c2 == column {
        assert(!(0 <= r2 < 9 && cell(s, r2, column) == digit));
    } else {
        let i = r2 - box_origin(row);
        let j = c2 - box_origin(column);
        assert(!(0 <= i < 3 && 0 <= j < 3 && cell(s, box_origin(row) + i, box_origin(column) + j)
            == digit));
    }
}

/// Whether `guess_number` already stands in row `row` of the grid.
pub fn is_guess_number_present_in_row(grid: &SudokuGrid, row: usize, guess_number: usize) -> (r: bool)
    requires
        grid.wf(),
        row < 9,
    ensures
        r == row_has(grid@, row as int, guess_number as int),
{
    let mut column: usize = 0;
    while column < NUMBER_MAX_CELLS
        invariant
            grid.wf(),
            row < 9,
            column <= 9,
            forall|c: int| 0 <= c < column ==> #[trigger] cell(grid@, row as int, c) != guess_number,
        decreases 9 - column,
    {
        if grid.get(row, column) == guess_number {
            return true;
        }
        column = column + 1;
    }
    false
}

/// `digit` stands somewhere in column `column`.
pub open spec fn column_has(s: Seq<usize>, column: int, digit: int) -> bool {
    exists|row: int| 0 <= row < 9 && #[trigger] cell(s, row, column) == digit
}

/// `digit` stands somewhere in the 3x3 box whose top-left cell is `(box_row, box_column)`.
pub open spec fn box_has(s: Seq<usize>, box_row: int, box_column: int, digit: int) -> bool {
    exists|i: int, j: int|
        0 <= i < 3 && 0 <= j < 3 && #[trigger] cell(s, box_row + i, box_column + j) == digit
}

/// The first row (or column) of the box band that holds row (or column) `k`.
pub open spec fn box_origin(k: int) -> int {
    if k < 3 {
        0
    } else if k < 6 {
        3
    } else {
        6
    }
}

/// `digit` may be written at `(row, column)`: it stands nowhere in that
/// cell's row, column or box.
pub open spec fn is_valid(s: Seq<usize>, row: int, column: int, digit: int) -> bool {
    &&& !row_has(s, row, digit)
    &&& !column_has(s, column, digit)
    &&& !box_has(s, box_origin(row), box_origin(column), digit)
}

/// Whether `guess_number` already stands in column `column` of the grid.
pub fn is_guess_number_present_in_column(grid: &SudokuGrid, column: usize, guess_number: usize) -> (r: bool)
    requires
        grid.wf(),
        column < 9,
    ensures
        r == column_has(grid@, column as int, guess_number as int),
{
    let mut row: usize = 0;
    while row < NUMBER_MAX_CELLS
        invariant
            grid.wf(),
            column < 9,
            row <= 9,
            forall|k: int| 0 <= k < row ==> #[trigger] cell(grid@, k, column as int) != guess_number,
        decreases 9 - row,
    {
        if grid.get(row, column) == guess_number {
            return true;
        }
        row = row + 1;
    }
    false
}

/// Whether `guess_number` already stands in the 3x3 box whose top-left cell
/// is `(box_start_row, box_start_column)`.
pub fn is_guess_number_present_in_box(
    grid: &SudokuGrid,
    box_start_row: usize,
    box_start_column: usize,
    guess_number: usize,
) -> (r: bool)
    requires
        grid.wf(),
        box_start_row <= 6,
        box_start_column <= 6,
    ensures
        r == box_has(grid@, box_start_row as int, box_start_column as int, guess_number as int),
{
    let mut row: usize = 0;
    while row < NUMBER_CELLS_IN_BOX
        invariant
            grid.wf(),
            box_start_row <= 6,
            box_start_column <= 6,
            row <= 3,
            forall|i: int, j: int|
                0 <= i < row && 0 <= j < 3 ==> #[trigger] cell(
                    grid@,
                    box_start_row + i,
                    box_start_column + j,
                ) != guess_number,
        decreases 3 - row,
    {
        let mut column: usize = 0;
        while column < NUMBER_CELLS_IN_BOX
            invariant
                grid.wf(),
                box_start_row <= 6,
                box_start_column <= 6,
                row < 3,
                column <= 3,
                forall|i: int, j: int|
                    0 <= i < row && 0 <= j < 3 ==> #[trigger] cell(
                        grid@,
                        box_start_row + i,
                        box_start_column + j,
                    ) != guess_number,
                forall|j: int|
                    0 <= j < column ==> #[trigger] cell(
                        grid@,
                        box_start_row + row,
                        box_start_column + j,
                    ) != guess_number,
            decreases 3 - column,
        {
            if grid.get(row + box_start_row, column + box_start_column) == guess_number {
                assert(cell(grid@, box_start_row + row as int, box_start_column + column as int)
                    == guess_number);
                return true;
            }
            column = column + 1;
        }
        row = row + 1;
    }
    false
}

/// Whether `guess_number` may be written at `(row, column)`: it is absent from
/// the cell's row, its column and its box.
pub fn is_guess_number_valid_in_cell(grid: &SudokuGrid, row: usize, column: usize, guess_number: usize) -> (r: bool)
    requires
        grid.wf(),
        row < 9,
        column < 9,
    ensures
        r == is_valid(grid@, row as int, column as int, guess_number as int),
{
    let box_row = row - row % NUMBER_CELLS_IN_BOX;
    let box_column = column - column % NUMBER_CELLS_IN_BOX;
    assert(box_row == box_origin(row as int));
    assert(box_column == box_origin(column as int));
    !is_guess_number_present_in_row(grid, row, guess_number)
        && !is_guess_number_present_in_column(grid, column, guess_number)
        && !is_guess_number_present_in_box(grid, box_row, box_column, guess_number)
}

} // verus!
