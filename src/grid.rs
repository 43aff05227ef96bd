use vstd::prelude::*;

verus! {

/// Number of rows, of columns, and of digits.
pub const NUMBER_MAX_CELLS: usize = 9;

/// Side of one box.
pub const NUMBER_CELLS_IN_BOX: usize = 3;

/// Number of cells in a grid.
pub const NUMBER_OF_CELLS: usize = 81;

/// The value of a cell that holds no digit yet.
pub const EMPTY_CELL: usize = 0;

/// Position of cell `(row, column)` in the row-major sequence of cells.
pub open spec fn index_of(row: int, column: int) -> int {
    9 * row + column
}

/// The value at `(row, column)` of a row-major sequence of cells.
pub open spec fn cell(s: Seq<usize>, row: int, column: int) -> usize {
    s[index_of(row, column)]
}

/// A row-major sequence of 81 cells, each 0 (empty) or a digit 1 to 9.
pub open spec fn cells_wf(s: Seq<usize>) -> bool {
    &&& s.len() == 81
    &&& forall|i: int| 0 <= i < 81 ==> #[trigger] s[i] <= 9
}

/// A 9x9 Sudoku grid, stored row by row; 0 marks an empty cell.
pub struct SudokuGrid {
    pub cells: Vec<usize>,
}

impl View for SudokuGrid {
    type V = Seq<usize>;

    open spec fn view(&self) -> Seq<usize> {
        self.cells@
    }
}

impl SudokuGrid {
    /// The grid holds 81 cells, each in 0 to 9.
    pub open spec fn wf(&self) -> bool {
        cells_wf(self@)
    }

    /// A grid whose 81 cells are all empty.
    pub fn new() -> (g: SudokuGrid)
        ensures
            g.wf(),
            forall|i: int| 0 <= i < 81 ==> #[trigger] g@[i] == 0,
    {
        let mut cells: Vec<usize> = Vec::new();
        let mut i: usize = 0;
        while i < NUMBER_OF_CELLS
            invariant
                i <= 81,
                cells@.len() == i,
                forall|k: int| 0 <= k < i ==> #[trigger] cells@[k] == 0,
            decreases 81 - i,
        {
            cells.push(EMPTY_CELL);
            i = i + 1;
        }
        SudokuGrid { cells }
    }

    /// The value at `(row, column)`.
    pub fn get(&self, row: usize, column: usize) -> (v: usize)
        requires
            self.wf(),
            row < 9,
            column < 9,
        ensures
            v == cell(self@, row as int, column as int),
            v <= 9,
    {
        self.cells[row * NUMBER_MAX_CELLS + column]
    }

    /// Writes `value` at `(row, column)`, leaving every other cell as it was.
    pub fn set(&mut self, row: usize, column: usize, value: usize)
        requires
            old(self).wf(),
            row < 9,
            column < 9,
            value <= 9,
        ensures
            final(self).wf(),
            final(self)@ == old(self)@.update(index_of(row as int, column as int), value),
    {
        self.cells.set(row * NUMBER_MAX_CELLS + column, value);
    }
}

} // verus!
