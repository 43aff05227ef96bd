use vstd::prelude::*;

use crate::constraints::{
    box_has, box_origin, column_has, extends, is_consistent, is_full, is_guess_number_valid_in_cell,
    is_solved, is_valid, lemma_fill_valid_keeps_consistent, lemma_solved_cell_is_valid, row_has,
};
use crate::grid::{cell, cells_wf, index_of, SudokuGrid, EMPTY_CELL, NUMBER_MAX_CELLS};

verus! {

/// Number of empty cells among the first `n` cells of `s`.
pub open spec fn empty_count_prefix(s: Seq<usize>, n: int) -> nat
    decreases n,
{
    if n <= 0 {
        0
    } else {
        empty_count_prefix(s, n - 1) + if s[n - 1] == 0 {
            1nat
        } else {
            0nat
        }
    }
}

/// Number of empty cells of `s`.
pub open spec fn empty_count(s: Seq<usize>) -> nat {
    empty_count_prefix(s, s.len() as int)
}

/// Index of the first empty cell at or after index `k`, in row-major
/// order; 81 when there is none.
pub open spec fn first_empty_from(s: Seq<usize>, k: int) -> int
    decreases 81 - k,
{
    if 0 <= k < 81 {
        if s[k] == 0 {
            k
        } else {
            first_empty_from(s, k + 1)
        }
    } else {
        81
    }
}

/// Index of the first empty cell of `s` in row-major order; 81 when the
/// grid is full.
pub open spec fn first_empty(s: Seq<usize>) -> int {
    first_empty_from(s, 0)
}

/// The backtracking search: find the first empty cell in row-major order;
/// when there is none, `s` is the answer; otherwise try the digits there in
/// ascending order.
pub open spec fn search(s: Seq<usize>) -> Option<Seq<usize>>
    decreases empty_count(s), 10int,
{
    let i = first_empty(s);
    if i < 81 {
        try_digits(s, i / 9, i % 9, 1)
    } else {
        Some(s)
    }
}

/// Tries the digits from `digit` up to 9 at the empty cell `(row, column)`:
/// the first digit that is valid there and whose filled-in grid the search
/// completes gives the answer; `None` when no digit does.
pub open spec fn try_digits(s: Seq<usize>, row: int, column: int, digit: int) -> Option<Seq<usize>>
    decreases empty_count(s), 10 - digit,
{
    if cells_wf(s) && 0 <= row < 9 && 0 <= column < 9 && cell(s, row, column) == 0 && 1 <= digit
        <= 9 {
        if is_valid(s, row, column, digit) {
            proof {
                lemma_empty_count_fill(s, index_of(row, column), digit as usize);
            }
            match search(s.update(index_of(row, column), digit as usize)) {
                Some(t) => Some(t),
                None => try_digits(s, row, column, digit + 1),
            }
        } else {
            try_digits(s, row, column, digit + 1)
        }
    } else {
        None
    }
}

proof fn lemma_empty_count_prefix_fill(s: Seq<usize>, i: int, v: usize, n: int)
    requires
        0 <= i < s.len(),
        s[i] == 0,
        v != 0,
        0 <= n <= s.len(),
    ensures
        n <= i ==> empty_count_prefix(s.update(i, v), n) == empty_count_prefix(s, n),
        n > i ==> empty_count_prefix(s.update(i, v), n) + 1 == empty_count_prefix(s, n),
    decreases n,
{
    if n > 0 {
        lemma_empty_count_prefix_fill(s, i, v, n - 1);
    }
}

/// Filling an empty cell leaves one empty cell fewer.
pub proof fn lemma_empty_count_fill(s: Seq<usize>, i: int, v: usize)
    requires
        0 <= i < s.len(),
        s[i] == 0,
        v != 0,
    ensures
        empty_count(s.update(i, v)) < empty_count(s),
{
    lemma_empty_count_prefix_fill(s, i, v, s.len() as int);
}

proof fn lemma_first_empty_from(s: Seq<usize>, k: int, i: int)
    requires
        s.len() == 81,
        0 <= k <= i <= 81,
        forall|j: int| k <= j < i ==> s[j] != 0,
        i < 81 ==> s[i] == 0,
    ensures
        first_empty_from(s, k) == i,
    decreases i - k,
{
    if k < i {
        lemma_first_empty_from(s, k + 1, i);
    }
}

/// The first empty cell is empty and every cell before it is filled; when
/// there is none, every cell is filled.
pub proof fn lemma_first_empty(s: Seq<usize>)
    requires
        s.len() == 81,
    ensures
        0 <= first_empty(s) <= 81,
        first_empty(s) < 81 ==> s[first_empty(s)] == 0,
        forall|j: int| 0 <= j < first_empty(s) ==> s[j] != 0,
{
    lemma_first_empty_from_bounds(s, 0);
}

proof fn lemma_first_empty_from_bounds(s: Seq<usize>, k: int)
    requires
        s.len() == 81,
        0 <= k <= 81,
    ensures
        k <= first_empty_from(s, k) <= 81,
        first_empty_from(s, k) < 81 ==> s[first_empty_from(s, k)] == 0,
        forall|j: int| k <= j < first_empty_from(s, k) ==> s[j] != 0,
    decreases 81 - k,
{
    if k < 81 && s[k] != 0 {
        lemma_first_empty_from_bounds(s, k + 1);
    }
}

proof fn lemma_row_column_of_index(row: int, column: int)
    requires
        0 <= row < 9,
        0 <= column < 9,
    ensures
        index_of(row, column) / 9 == row,
        index_of(row, column) % 9 == column,
{
    assert((9 * row + column) / 9 == row && (9 * row + column) % 9 == column) by (nonlinear_arith)
        requires
            0 <= row < 9,
            0 <= column < 9,
    ;
}

/// Whatever the search returns is a full grid that keeps every digit of
/// `s`; when `s` itself keeps the constraints, it is a solution.
pub proof fn lemma_search_sound(s: Seq<usize>)
    requires
        cells_wf(s),
        search(s) is Some,
    ensures
        cells_wf(search(s)->Some_0),
        is_full(search(s)->Some_0),
        extends(search(s)->Some_0, s),
        is_consistent(s) ==> is_solved(search(s)->Some_0),
    decreases empty_count(s), 10int,
{
    lemma_first_empty(s);
    let i = first_empty(s);
    if i < 81 {
        lemma_try_sound(s, i / 9, i % 9, 1);
    }
}

proof fn lemma_try_sound(s: Seq<usize>, row: int, column: int, digit: int)
    requires
        cells_wf(s),
        try_digits(s, row, column, digit) is Some,
    ensures
        cells_wf(try_digits(s, row, column, digit)->Some_0),
        is_full(try_digits(s, row, column, digit)->Some_0),
        extends(try_digits(s, row, column, digit)->Some_0, s),
        is_consistent(s) ==> is_solved(try_digits(s, row, column, digit)->Some_0),
    decreases empty_count(s), 10 - digit,
{
    let idx = index_of(row, column);
    if is_valid(s, row, column, digit) {
        let s1 = s.update(idx, digit as usize);
        lemma_empty_count_fill(s, idx, digit as usize);
        if search(s1) is Some {
            lemma_search_sound(s1);
            if is_consistent(s) {
                lemma_fill_valid_keeps_consistent(s, row, column, digit);
            }
            let t = search(s1)->Some_0;
            assert forall|i: int| 0 <= i < 81 && #[trigger] s[i] != 0 implies t[i] == s[i] by {
                assert(s1[i] == s[i]);
            }
        } else {
            lemma_try_sound(s, row, column, digit + 1);
        }
    } else {
        lemma_try_sound(s, row, column, digit + 1);
    }
}

/// Validity only grows as cells are cleared: a digit valid at a cell of `t`
/// stays valid in any grid whose digits all stand in `t` too.
proof fn lemma_valid_in_subgrid(s: Seq<usize>, t: Seq<usize>, row: int, column: int, digit: int)
    requires
        s.len() == 81,
        t.len() == 81,
        extends(t, s),
        digit != 0,
        0 <= row < 9,
        0 <= column < 9,
        is_valid(t, row, column, digit),
    ensures
        is_valid(s, row, column, digit),
{
    if row_has(s, row, digit) {
        let c2 = choose|c2: int| 0 <= c2 < 9 && #[trigger] cell(s, row, c2) == digit;
        assert(s[index_of(row, c2)] != 0);
        assert(cell(t, row, c2) == digit);
    }
    if column_has(s, column, digit) {
        let r2 = choose|r2: int| 0 <= r2 < 9 && #[trigger] cell(s, r2, column) == digit;
        assert(s[index_of(r2, column)] != 0);
        assert(cell(t, r2, column) == digit);
    }
    let br = box_origin(row);
    let bc = box_origin(column);
    if box_has(s, br, bc, digit) {
        let (i, j) = choose|i: int, j: int|
            0 <= i < 3 && 0 <= j < 3 && #[trigger] cell(s, br + i, bc + j) == digit;
        assert(s[index_of(br + i, bc + j)] != 0);
        assert(cell(t, br + i, bc + j) == digit);
    }
}

/// The search fails only where no solution exists: when some solved grid
/// keeps every digit of `s`, the search returns a grid.
pub proof fn lemma_search_complete(s: Seq<usize>, t: Seq<usize>)
    requires
        cells_wf(s),
        is_solved(t),
        extends(t, s),
    ensures
        search(s) is Some,
    decreases empty_count(s), 10int,
{
    lemma_first_empty(s);
    let i = first_empty(s);
    if i < 81 {
        let row = i / 9;
        let column = i % 9;
        assert(index_of(row, column) == i);
        assert(t[i] != 0);
        lemma_try_complete(s, row, column, 1, t);
    }
}

proof fn lemma_try_complete(s: Seq<usize>, row: int, column: int, digit: int, t: Seq<usize>)
    requires
        cells_wf(s),
        is_solved(t),
        extends(t, s),
        0 <= row < 9,
        0 <= column < 9,
        cell(s, row, column) == 0,
        1 <= digit <= cell(t, row, column),
    ensures
        try_digits(s, row, column, digit) is Some,
    decreases empty_count(s), 10 - digit,
{
    let idx = index_of(row, column);
    let target = cell(t, row, column) as int;
    if digit == target {
        lemma_solved_cell_is_valid(t, row, column);
        let cleared = t.update(idx, 0);
        assert forall|i: int| 0 <= i < 81 && #[trigger] s[i] != 0 implies cleared[i] == s[i] by {}
        lemma_valid_in_subgrid(s, cleared, row, column, digit);
        let s1 = s.update(idx, digit as usize);
        lemma_empty_count_fill(s, idx, digit as usize);
        assert forall|i: int| 0 <= i < 81 && #[trigger] s1[i] != 0 implies t[i] == s1[i] by {
            if i != idx {
                assert(s1[i] == s[i]);
            }
        }
        lemma_search_complete(s1, t);
    } else {
        if is_valid(s, row, column, digit) {
            lemma_empty_count_fill(s, idx, digit as usize);
        }
        lemma_try_complete(s, row, column, digit + 1, t);
    }
}

/// `a` comes no later than `b` in row-major lexicographic order: equal, or
/// smaller at the first cell where they differ.
pub open spec fn lex_le(a: Seq<usize>, b: Seq<usize>) -> bool {
    a == b || exists|k: int|
        0 <= k < 81 && (forall|j: int| 0 <= j < k ==> a[j] == b[j]) && #[trigger] a[k] < b[k]
}

/// The search returns the first solution in its order: of all solved grids
/// that keep every digit of `s`, the least in row-major lexicographic order.
pub proof fn lemma_search_least(s: Seq<usize>, u: Seq<usize>)
    requires
        cells_wf(s),
        is_solved(u),
        extends(u, s),
    ensures
        search(s) is Some,
        lex_le(search(s)->Some_0, u),
    decreases empty_count(s), 10int,
{
    lemma_first_empty(s);
    let i = first_empty(s);
    if i < 81 {
        let row = i / 9;
        let column = i % 9;
        assert(index_of(row, column) == i);
        assert(u[i] != 0);
        lemma_try_least(s, row, column, 1, u);
    } else {
        assert(s =~= u);
    }
}

proof fn lemma_try_least(s: Seq<usize>, row: int, column: int, digit: int, u: Seq<usize>)
    requires
        cells_wf(s),
        is_solved(u),
        extends(u, s),
        0 <= row < 9,
        0 <= column < 9,
        cell(s, row, column) == 0,
        forall|j: int| 0 <= j < index_of(row, column) ==> s[j] != 0,
        1 <= digit <= cell(u, row, column),
    ensures
        try_digits(s, row, column, digit) is Some,
        lex_le(try_digits(s, row, column, digit)->Some_0, u),
    decreases empty_count(s), 10 - digit,
{
    let idx = index_of(row, column);
    let target = cell(u, row, column) as int;
    lemma_try_complete(s, row, column, digit, u);
    if is_valid(s, row, column, digit) {
        let s1 = s.update(idx, digit as usize);
        lemma_empty_count_fill(s, idx, digit as usize);
        if digit == target {
            assert forall|i: int| 0 <= i < 81 && #[trigger] s1[i] != 0 implies u[i] == s1[i] by {
                if i != idx {
                    assert(s1[i] == s[i]);
                }
            }
            lemma_search_least(s1, u);
        } else if search(s1) is Some {
            lemma_search_sound(s1);
            let t = search(s1)->Some_0;
            assert(s1[idx] != 0);
            assert forall|j: int| 0 <= j < idx implies t[j] == u[j] by {
                assert(s[j] != 0);
                assert(s1[j] == s[j]);
            }
            assert(t[idx] < u[idx]);
        } else {
            lemma_try_least(s, row, column, digit + 1, u);
        }
    } else {
        if digit == target {
            lemma_solved_cell_is_valid(u, row, column);
            let cleared = u.update(idx, 0);
            assert forall|i: int| 0 <= i < 81 && #[trigger] s[i] != 0 implies cleared[i] == s[i] by {}
            lemma_valid_in_subgrid(s, cleared, row, column, digit);
        }
        lemma_try_least(s, row, column, digit + 1, u);
    }
}

/// Finds the first empty cell in row-major order. When there is one, writes
/// its coordinates to `row_in` and `column_in` and returns true; otherwise
/// returns false and leaves them as they were.
pub fn find_empty_cell(grid: &SudokuGrid, row_in: &mut usize, column_in: &mut usize) -> (r: bool)
    requires
        grid.wf(),
    ensures
        r == (first_empty(grid@) < 81),
        r ==> *final(row_in) < 9 && *final(column_in) < 9 && index_of(
            *final(row_in) as int,
            *final(column_in) as int,
        ) == first_empty(grid@),
        !r ==> *final(row_in) == *old(row_in) && *final(column_in) == *old(column_in),
{
    let mut row: usize = 0;
    while row < NUMBER_MAX_CELLS
        invariant
            grid.wf(),
            row <= 9,
            forall|j: int| 0 <= j < 9 * row ==> grid@[j] != 0,
            *row_in == *old(row_in),
            *column_in == *old(column_in),
        decreases 9 - row,
    {
        let mut column: usize = 0;
        while column < NUMBER_MAX_CELLS
            invariant
                grid.wf(),
                row < 9,
                column <= 9,
                forall|j: int| 0 <= j < 9 * row + column ==> grid@[j] != 0,
                *row_in == *old(row_in),
                *column_in == *old(column_in),
            decreases 9 - column,
        {
            if grid.get(row, column) == EMPTY_CELL {
                proof {
                    lemma_first_empty_from(grid@, 0, 9 * row + column);
                }
                *row_in = row;
                *column_in = column;
                return true;
            }
            column = column + 1;
        }
        row = row + 1;
    }
    proof {
        lemma_first_empty_from(grid@, 0, 81);
    }
    false
}

/// Solves the grid by backtracking: fills the empty cells in row-major
/// order, trying the digits 1 to 9 in ascending order at each, and undoes a
/// digit whose branch fails. Returns whether a completion was found. On
/// success the grid is full, keeps every digit it started with, and is the
/// first solution in that order (the least in row-major lexicographic
/// order); on failure no solution exists and the grid is left exactly as it
/// was.
pub fn solve_sudoku(grid: &mut SudokuGrid) -> (r: bool)
    requires
        old(grid).wf(),
    ensures
        final(grid).wf(),
        r == search(old(grid)@) is Some,
        r ==> final(grid)@ == search(old(grid)@)->Some_0,
        !r ==> final(grid)@ == old(grid)@,
        r ==> is_full(final(grid)@) && extends(final(grid)@, old(grid)@),
        r && is_consistent(old(grid)@) ==> is_solved(final(grid)@),
        !r ==> forall|t: Seq<usize>| #[trigger] is_solved(t) ==> !extends(t, old(grid)@),
        r ==> forall|t: Seq<usize>| #[trigger] is_solved(t) && extends(t, old(grid)@) ==> lex_le(
            final(grid)@,
            t,
        ),
    decreases empty_count(old(grid)@),
{
    let ghost s0 = grid@;
    proof {
        assert forall|t: Seq<usize>| #[trigger] is_solved(t) && extends(t, s0) implies search(
            s0,
        ) is Some && lex_le(search(s0)->Some_0, t) by {
            lemma_search_least(s0, t);
        }
    }
    let mut row: usize = 0;
    let mut column: usize = 0;
    if !find_empty_cell(grid, &mut row, &mut column) {
        proof {
            lemma_search_sound(s0);
        }
        return true;
    }
    proof {
        lemma_row_column_of_index(row as int, column as int);
        lemma_first_empty(s0);
    }
    let mut guess_number: usize = 1;
    while guess_number <= NUMBER_MAX_CELLS
        invariant
            grid.wf(),
            grid@ == s0,
            s0 == old(grid)@,
            row < 9,
            column < 9,
            cell(s0, row as int, column as int) == 0,
            1 <= guess_number <= 10,
            search(s0) == try_digits(s0, row as int, column as int, guess_number as int),
        decreases 10 - guess_number,
    {
        if is_guess_number_valid_in_cell(grid, row, column, guess_number) {
            grid.set(row, column, guess_number);
            proof {
                lemma_empty_count_fill(s0, index_of(row as int, column as int), guess_number);
            }
            if solve_sudoku(grid) {
                proof {
                    lemma_search_sound(s0);
                    assert forall|t: Seq<usize>| #[trigger]
                        is_solved(t) && extends(t, s0) implies lex_le(grid@, t) by {
                        lemma_search_least(s0, t);
                    }
                }
                return true;
            }
            grid.set(row, column, EMPTY_CELL);
            assert(grid@ =~= s0);
        }
        guess_number = guess_number + 1;
    }
    false
}

} // verus!
