use djcv_sudoku::constraints::{
    is_guess_number_present_in_box, is_guess_number_present_in_column,
    is_guess_number_present_in_row, is_guess_number_valid_in_cell,
};
use djcv_sudoku::grid::SudokuGrid;
use djcv_sudoku::solver::{find_empty_cell, solve_sudoku};
use djcv_sudoku::text::{format_sudoku_grid, parse_sudoku_grid, GridError};

const CLASSIC: &str = "0 0 0 0 2 0 3 0 5
0 7 8 1 0 0 0 0 0
0 9 0 0 0 0 0 0 0
0 3 0 0 0 7 0 0 4
0 0 0 0 9 0 0 0 0
1 0 0 6 0 0 0 2 0
0 0 0 0 0 0 0 4 0
0 0 0 0 0 5 7 9 0
6 0 2 0 1 0 0 0 0
";

const CLASSIC_SOLVED: &str = "4 6 1 9 2 8 3 7 5
3 7 8 1 5 4 2 6 9
2 9 5 3 7 6 4 8 1
5 3 6 2 8 7 9 1 4
7 2 4 5 9 1 6 3 8
1 8 9 6 4 3 5 2 7
9 5 7 8 3 2 1 4 6
8 1 3 4 6 5 7 9 2
6 4 2 7 1 9 8 5 3
";

const FIRST_OF_EMPTY: &str = "1 2 3 4 5 6 7 8 9
4 5 6 7 8 9 1 2 3
7 8 9 1 2 3 4 5 6
2 1 4 3 6 5 8 9 7
3 6 5 8 9 7 2 1 4
8 9 7 2 1 4 3 6 5
5 3 1 6 4 2 9 7 8
6 4 2 9 7 8 5 3 1
9 7 8 5 3 1 6 4 2
";

fn grid(text: &str) -> SudokuGrid {
    match parse_sudoku_grid(text) {
        Ok(g) => g,
        Err(e) => panic!("cannot read grid: {:?}", e),
    }
}

fn digits(text: &str) -> Vec<usize> {
    grid(text).cells
}

#[test]
fn already_solved_grid_is_returned_unchanged() {
    let mut g = grid(CLASSIC_SOLVED);
    assert!(solve_sudoku(&mut g));
    assert_eq!(g.cells, digits(CLASSIC_SOLVED));
}

#[test]
fn classic_puzzle_solves_to_fixture() {
    let mut g = grid(CLASSIC);
    assert!(solve_sudoku(&mut g));
    assert_eq!(g.cells, digits(CLASSIC_SOLVED));
}

#[test]
fn solved_output_keeps_every_given_digit() {
    let start = digits(CLASSIC);
    let mut g = grid(CLASSIC);
    assert!(solve_sudoku(&mut g));
    for i in 0..81 {
        assert_ne!(g.cells[i], 0);
        if start[i] != 0 {
            assert_eq!(g.cells[i], start[i]);
        }
    }
}

#[test]
fn cell_without_candidate_fails_and_unwinds() {
    let mut cells = vec![0usize; 81];
    for c in 0..8 {
        cells[c] = c + 1;
    }
    cells[9 + 8] = 9;
    let mut g = SudokuGrid { cells: cells.clone() };
    assert!(!solve_sudoku(&mut g));
    assert_eq!(g.cells, cells);
}

#[test]
fn contradiction_after_search_fails_and_unwinds() {
    // The solved classic grid with its first row changed to "0 4 1 9 2 8 3 7 5":
    // column 0 then needs a 4, which row 0 already holds.
    let mut cells = digits(CLASSIC_SOLVED);
    cells[0] = 0;
    cells[1] = 4;
    cells[40] = 0;
    cells[80] = 0;
    let before = cells.clone();
    let mut g = SudokuGrid { cells };
    assert!(!solve_sudoku(&mut g));
    assert_eq!(g.cells, before);
}

#[test]
fn single_empty_cell_gets_its_only_digit() {
    let mut cells = digits(CLASSIC_SOLVED);
    assert_eq!(cells[40], 9);
    cells[40] = 0;
    let mut g = SudokuGrid { cells };
    assert!(solve_sudoku(&mut g));
    assert_eq!(g.cells, digits(CLASSIC_SOLVED));
}

#[test]
fn empty_grid_gives_first_solution_in_search_order() {
    let mut g = SudokuGrid::new();
    assert!(solve_sudoku(&mut g));
    assert_eq!(g.cells, digits(FIRST_OF_EMPTY));
}

#[test]
fn repeated_runs_give_the_same_grid() {
    let mut a = grid(CLASSIC);
    let mut b = grid(CLASSIC);
    assert_eq!(solve_sudoku(&mut a), solve_sudoku(&mut b));
    assert_eq!(a.cells, b.cells);
}

#[test]
fn every_cell_of_a_solved_grid_is_valid_when_cleared() {
    let solved = digits(CLASSIC_SOLVED);
    for row in 0..9 {
        for column in 0..9 {
            let mut g = SudokuGrid { cells: solved.clone() };
            let d = g.get(row, column);
            g.set(row, column, 0);
            assert!(is_guess_number_valid_in_cell(&g, row, column, d));
            for other in 1..10 {
                if other != d {
                    assert!(!is_guess_number_valid_in_cell(&g, row, column, other));
                }
            }
        }
    }
}

#[test]
fn presence_checks_on_classic_puzzle() {
    let g = grid(CLASSIC);
    assert!(is_guess_number_present_in_row(&g, 0, 2));
    assert!(is_guess_number_present_in_row(&g, 0, 5));
    assert!(!is_guess_number_present_in_row(&g, 0, 1));
    assert!(is_guess_number_present_in_column(&g, 0, 6));
    assert!(is_guess_number_present_in_column(&g, 0, 1));
    assert!(!is_guess_number_present_in_column(&g, 0, 2));
    assert!(is_guess_number_present_in_box(&g, 0, 0, 9));
    assert!(is_guess_number_present_in_box(&g, 6, 6, 7));
    assert!(!is_guess_number_present_in_box(&g, 6, 6, 1));
    assert!(!is_guess_number_valid_in_cell(&g, 0, 0, 1));
    assert!(is_guess_number_valid_in_cell(&g, 0, 0, 4));
}

#[test]
fn find_empty_cell_scans_row_major() {
    let g = grid(CLASSIC);
    let mut row = 7;
    let mut column = 7;
    assert!(find_empty_cell(&g, &mut row, &mut column));
    assert_eq!((row, column), (0, 0));

    let mut cells = digits(CLASSIC_SOLVED);
    cells[5 * 9 + 3] = 0;
    cells[5 * 9 + 7] = 0;
    cells[8 * 9 + 0] = 0;
    let g = SudokuGrid { cells };
    assert!(find_empty_cell(&g, &mut row, &mut column));
    assert_eq!((row, column), (5, 3));
}

#[test]
fn find_empty_cell_on_full_grid_leaves_coordinates() {
    let g = grid(CLASSIC_SOLVED);
    let mut row = 4;
    let mut column = 2;
    assert!(!find_empty_cell(&g, &mut row, &mut column));
    assert_eq!((row, column), (4, 2));
}

#[test]
fn parse_reads_cells_row_major() {
    let g = grid(CLASSIC);
    assert_eq!(g.get(0, 4), 2);
    assert_eq!(g.get(1, 1), 7);
    assert_eq!(g.get(8, 0), 6);
    assert_eq!(g.get(8, 8), 0);
}

#[test]
fn parse_accepts_tabs_and_extra_spaces() {
    let text = CLASSIC.replace(' ', " \t ");
    assert_eq!(digits(&text), digits(CLASSIC));
}

#[test]
fn parse_rejects_letters() {
    let text = CLASSIC.replacen('7', "x", 1);
    assert_eq!(parse_sudoku_grid(&text).err(), Some(GridError::MalformedCell));
}

#[test]
fn parse_rejects_two_digit_values() {
    let text = CLASSIC.replacen("2", "12", 1);
    assert_eq!(parse_sudoku_grid(&text).err(), Some(GridError::MalformedCell));
}

#[test]
fn parse_rejects_negative_values() {
    let text = CLASSIC.replacen("2", "-2", 1);
    assert_eq!(parse_sudoku_grid(&text).err(), Some(GridError::MalformedCell));
}

#[test]
fn parse_rejects_missing_cells() {
    let text = "1 2 3\n4 5 6\n";
    assert_eq!(parse_sudoku_grid(text).err(), Some(GridError::WrongCellCount));
    assert_eq!(parse_sudoku_grid("").err(), Some(GridError::WrongCellCount));
}

#[test]
fn parse_rejects_extra_cells() {
    let text = format!("{}0\n", CLASSIC);
    assert_eq!(parse_sudoku_grid(&text).err(), Some(GridError::WrongCellCount));
}

#[test]
fn new_grid_is_empty() {
    let g = SudokuGrid::new();
    assert_eq!(g.cells, vec![0usize; 81]);
}

#[test]
fn set_changes_one_cell() {
    let mut g = SudokuGrid::new();
    g.set(3, 5, 8);
    assert_eq!(g.get(3, 5), 8);
    assert_eq!(g.cells.iter().filter(|&&v| v != 0).count(), 1);
    assert_eq!(g.cells[3 * 9 + 5], 8);
}

#[test]
fn format_lays_out_boxes_and_rules() {
    let g = grid(CLASSIC_SOLVED);
    let text = String::from_utf8(format_sudoku_grid(&g)).unwrap();
    let rule = "-".repeat(27);
    let expected = format!(
        "4 6 1  | 9 2 8  | 3 7 5 \n\
         3 7 8  | 1 5 4  | 2 6 9 \n\
         2 9 5  | 3 7 6  | 4 8 1 \n{rule}\n\
         5 3 6  | 2 8 7  | 9 1 4 \n\
         7 2 4  | 5 9 1  | 6 3 8 \n\
         1 8 9  | 6 4 3  | 5 2 7 \n{rule}\n\
         9 5 7  | 8 3 2  | 1 4 6 \n\
         8 1 3  | 4 6 5  | 7 9 2 \n\
         6 4 2  | 7 1 9  | 8 5 3 \n\n"
    );
    assert_eq!(text, expected);
}

#[test]
fn format_writes_zero_for_empty_cells() {
    let g = SudokuGrid::new();
    let text = String::from_utf8(format_sudoku_grid(&g)).unwrap();
    assert!(text.starts_with("0 0 0  | 0 0 0  | 0 0 0 \n"));
    assert_eq!(text.lines().count(), 12);
}
