use vstd::prelude::*;

use vstd::string::StringSliceAdditionalSpecFns;

use crate::grid::{cell, SudokuGrid, NUMBER_MAX_CELLS, NUMBER_OF_CELLS};

verus! {

/// Why a text does not describe a grid.
#[derive(Debug, Clone, Copy, PartialEq, Eq, Structural)]
pub enum GridError {
    /// A cell is not a single digit 0 to 9 (a letter, a sign, or two
    /// characters with no whitespace between them).
    MalformedCell,
    /// The text holds well-formed cells, but not exactly 81 of them.
    WrongCellCount,
}

/// Space, tab, line feed, vertical tab, form feed and carriage return.
pub open spec fn is_space_byte(b: u8) -> bool {
    b == 32 || (9 <= b && b <= 13)
}

/// An ASCII decimal digit.
pub open spec fn is_digit_byte(b: u8) -> bool {
    48 <= b && b <= 57
}

/// Where a left-to-right reading of a text stands: the cells read so far,
/// whether the last byte was a digit, and whether every byte so far fitted.
pub struct ScanState {
    pub cells: Seq<usize>,
    pub after_digit: bool,
    pub well_formed: bool,
}

/// The reading after the first `n` bytes of `b`. Cells are single digits
/// separated by whitespace; any other byte, or a digit right after a digit,
/// makes the text malformed.
pub open spec fn scan(b: Seq<u8>, n: int) -> ScanState
    decreases n,
{
    if n <= 0 {
        ScanState { cells: Seq::empty(), after_digit: false, well_formed: true }
    } else {
        let st = scan(b, n - 1);
        let x = b[n - 1];
        if !st.well_formed {
            st
        } else if is_space_byte(x) {
            ScanState { after_digit: false, ..st }
        } else if is_digit_byte(x) && !st.after_digit {
            ScanState {
                cells: st.cells.push((x - 48) as usize),
                after_digit: true,
                well_formed: true,
            }
        } else {
            ScanState { well_formed: false, ..st }
        }
    }
}

/// The reading of the whole text `b`.
pub open spec fn scan_all(b: Seq<u8>) -> ScanState {
    scan(b, b.len() as int)
}

/// Reads a grid from text: 81 cells in row-major order, each a single digit
/// 0 to 9 (0 for an empty cell), separated by whitespace; conventionally
/// nine lines of nine cells.
pub fn parse_sudoku_grid(text: &str) -> (r: Result<SudokuGrid, GridError>)
    ensures
        !scan_all(text.spec_bytes()).well_formed ==> r == Err::<SudokuGrid, GridError>(
            GridError::MalformedCell,
        ),
        scan_all(text.spec_bytes()).well_formed && scan_all(text.spec_bytes()).cells.len() != 81
            ==> r == Err::<SudokuGrid, GridError>(GridError::WrongCellCount),
        scan_all(text.spec_bytes()).well_formed && scan_all(text.spec_bytes()).cells.len() == 81
            ==> r is Ok && r->Ok_0.wf() && r->Ok_0@ == scan_all(text.spec_bytes()).cells,
{
    let bytes = text.as_bytes();
    let mut cells: Vec<usize> = Vec::new();
    let mut after_digit = false;
    let mut i: usize = 0;
    while i < bytes.len()
        invariant
            bytes@ == text.spec_bytes(),
            i <= bytes@.len(),
            scan(bytes@, i as int) == (ScanState {
                cells: cells@,
                after_digit,
                well_formed: true,
            }),
            forall|k: int| 0 <= k < cells@.len() ==> #[trigger] cells@[k] <= 9,
        decreases bytes@.len() - i,
    {
        let x = bytes[i];
        if x == 32 || (9 <= x && x <= 13) {
            after_digit = false;
        } else if 48 <= x && x <= 57 && !after_digit {
            cells.push((x - 48) as usize);
            after_digit = true;
        } else {
            proof {
                lemma_scan_stays_malformed(bytes@, i as int + 1);
            }
            return Err(GridError::MalformedCell);
        }
        i = i + 1;
    }
    if cells.len() != NUMBER_OF_CELLS {
        return Err(GridError::WrongCellCount);
    }
    Ok(SudokuGrid { cells })
}

/// Once a reading is malformed it stays malformed.
proof fn lemma_scan_stays_malformed(b: Seq<u8>, n: int)
    requires
        0 <= n <= b.len(),
        !scan(b, n).well_formed,
    ensures
        !scan_all(b).well_formed,
    decreases b.len() - n,
{
    if n < b.len() {
        lemma_scan_stays_malformed(b, n + 1);
    }
}

/// The text of cell `(row, column)`: its digit and a space, after a ` | `
/// separator where a box begins (before columns 3 and 6).
pub open spec fn cell_text(s: Seq<usize>, row: int, column: int) -> Seq<u8> {
    let digit = seq![(cell(s, row, column) + 48) as u8, 32u8];
    if column == 3 || column == 6 {
        seq![32u8, 124u8, 32u8] + digit
    } else {
        digit
    }
}

/// The text of the first `n` cells of row `row`.
pub open spec fn row_cells_text(s: Seq<usize>, row: int, n: int) -> Seq<u8>
    decreases n,
{
    if n <= 0 {
        Seq::empty()
    } else {
        row_cells_text(s, row, n - 1) + cell_text(s, row, n - 1)
    }
}

/// A horizontal rule of 27 dashes.
pub open spec fn rule_text() -> Seq<u8> {
    Seq::new(27, |i: int| 45u8)
}

/// The line of row `row`; after rows 2 and 5 a horizontal rule follows on a
/// line of its own.
pub open spec fn row_text(s: Seq<usize>, row: int) -> Seq<u8> {
    if row == 2 || row == 5 {
        row_cells_text(s, row, 9) + seq![10u8] + rule_text() + seq![10u8]
    } else {
        row_cells_text(s, row, 9) + seq![10u8]
    }
}

/// The text of the first `n` rows.
pub open spec fn rows_text(s: Seq<usize>, n: int) -> Seq<u8>
    decreases n,
{
    if n <= 0 {
        Seq::empty()
    } else {
        rows_text(s, n - 1) + row_text(s, n - 1)
    }
}

/// The whole grid as text, followed by an empty line.
pub open spec fn grid_text(s: Seq<usize>) -> Seq<u8> {
    rows_text(s, 9) + seq![10u8]
}

/// Lays the grid out as text (ASCII): each row on a line, digits followed by
/// a space, ` | ` between boxes, and a rule of dashes under every third row.
pub fn format_sudoku_grid(grid: &SudokuGrid) -> (r: Vec<u8>)
    requires
        grid.wf(),
    ensures
        r@ == grid_text(grid@),
{
    let mut out: Vec<u8> = Vec::new();
    let mut row: usize = 0;
    while row < NUMBER_MAX_CELLS
        invariant
            grid.wf(),
            row <= 9,
            out@ == rows_text(grid@, row as int),
        decreases 9 - row,
    {
        let mut column: usize = 0;
        while column < NUMBER_MAX_CELLS
            invariant
                grid.wf(),
                row < 9,
                column <= 9,
                out@ == rows_text(grid@, row as int) + row_cells_text(grid@, row as int, column as int),
            decreases 9 - column,
        {
            let ghost before = out@;
            if column == 3 || column == 6 {
                out.push(32u8);
                out.push(124u8);
                out.push(32u8);
            }
            let v = grid.get(row, column);
            out.push((v + 48) as u8);
            out.push(32u8);
            assert(out@ =~= before + cell_text(grid@, row as int, column as int));
            column = column + 1;
        }
        let ghost cells_done = out@;
        if row == 2 || row == 5 {
            out.push(10u8);
            let mut k: usize = 0;
            while k < 27
                invariant
                    k <= 27,
                    out@ == cells_done + seq![10u8] + Seq::new(k as nat, |i: int| 45u8),
                decreases 27 - k,
            {
                out.push(45u8);
                k = k + 1;
                assert(out@ =~= cells_done + seq![10u8] + Seq::new(k as nat, |i: int| 45u8));
            }
            assert(Seq::new(27 as nat, |i: int| 45u8) =~= rule_text());
        }
        out.push(10u8);
        assert(out@ =~= rows_text(grid@, row as int + 1));
        row = row + 1;
    }
    out.push(10u8);
    out
}

} // verus!
