use game_of_life::engine::board::{Board, BoardError, Cells};
use game_of_life::engine::cell::Cell;

fn board_of(grid: &str) -> Board {
    Board::from_grid(grid).unwrap()
}

#[test]
#[should_panic]
fn board_an_empty_grid_cannot_be_parsed() {
    let grid = "";
    Board::from_grid(grid).unwrap();
}

#[test]
fn board_a_grid_with_all_empty_cells_is_empty() {
    let grid = ". . .\n. . .";
    let board = board_of(grid);
    assert!(board.is_empty());
}

#[test]
fn board_the_board_dimensions_are_derived_from_the_grid() {
    let grid = ". . .\n. . .";
    let board = board_of(grid);
    assert_eq!(board.height(), 2);
    assert_eq!(board.width(), 3);
}

#[test]
fn board_a_grid_with_single_cell() {
    let grid = ". * .\n. . .";
    let board = board_of(grid);
    assert_eq!(board.cells(), &Cells::from_slice(&[Cell::new(0, 1)]));
}

#[test]
fn board_leading_and_trailing_spaces_are_ignored() {
    let grid = "      . .    \n     . *     \n     . .   ";
    let board = board_of(grid);
    assert_eq!(board.cells(), &Cells::from_slice(&[Cell::new(1, 1)]));
    assert_eq!(board.width(), 2);
    assert_eq!(board.height(), 3);
}

#[test]
fn board_leading_and_trailing_empty_lines_are_ignored() {
    let grid =
        r"
                        . . . .
                        ";
    let board = board_of(grid);
    assert_eq!(board.width(), 4);
    assert_eq!(board.height(), 1);
}

#[test]
fn board_a_grid_with_all_cells() {
    let grid = r"
            * * *
            * * *
        ";
    let board = board_of(grid);
    assert_eq!(board.width(), 3);
    assert_eq!(board.height(), 2);
    let mut expected = Cells::new();
    for r in 0..=1 {
        for c in 0..=2 {
            expected.insert(Cell::new(r, c));
        }
    }
    assert_eq!(board.cells(), &expected);
}

#[test]
fn an_empty_board_evolves_to_empty() {
    let board = board_of(r"
                                    . . . .
                                    . . . .
                                    . . . .
                                    . . . .
                                    ");

    let board = board.evolve();

    assert!(board.is_empty());
}

#[test]
fn a_glider_evolves() {
    let glider1 = board_of(r". . . . .
                                  . * . * .
                                  . . * * .
                                  . . * . .
                                  . . . . .");

    let glider2 = board_of(r". . . . .
                                  . . . * .
                                  . * . * .
                                  . . * * .
                                  . . . . .");

    assert_eq!(glider1.evolve(), glider2);
}

#[test]
fn an_empty_grid_is_invalid_input() {
    assert_eq!(Board::from_grid("").err(), Some(BoardError::InvalidInput));
}

#[test]
fn a_grid_of_white_space_is_invalid_input() {
    assert_eq!(Board::from_grid(" \n\t \r\n  ").err(), Some(BoardError::InvalidInput));
    assert_eq!(Board::from_grid("\u{a0}\u{2003}\u{3000}").err(), Some(BoardError::InvalidInput));
}

#[test]
fn invalid_input_says_that_the_grid_is_empty() {
    assert_eq!(BoardError::InvalidInput.message(), "Grid cannot be empty");
}

#[test]
fn a_single_dead_token_is_a_board_of_one_cell() {
    let board = board_of(".");
    assert_eq!(board.height(), 1);
    assert_eq!(board.width(), 1);
    assert!(board.is_empty());
}

#[test]
fn a_single_live_token_is_alive_at_the_origin() {
    let board = board_of("*");
    assert_eq!(board.cells(), &Cells::from_slice(&[Cell::new(0, 0)]));
    assert!(board.contains(Cell::new(0, 0)));
    assert!(!board.contains(Cell::new(0, 1)));
    assert!(!board.is_empty());
}

#[test]
fn any_token_but_the_star_is_dead() {
    let board = board_of("x ** *. o\n# * 1 .*");
    assert_eq!(board.cells(), &Cells::from_slice(&[Cell::new(1, 1)]));
    assert_eq!(board.height(), 2);
    assert_eq!(board.width(), 4);
}

#[test]
fn two_spaces_hold_an_empty_token() {
    let board = board_of(". .  *");
    assert_eq!(board.width(), 4);
    assert_eq!(board.cells(), &Cells::from_slice(&[Cell::new(0, 3)]));
}

#[test]
fn the_width_is_that_of_the_last_line() {
    let board = board_of("* * *\n.");
    assert_eq!(board.height(), 2);
    assert_eq!(board.width(), 1);
    assert_eq!(
        board.cells(),
        &Cells::from_slice(&[Cell::new(0, 0), Cell::new(0, 1), Cell::new(0, 2)])
    );
    let board = board_of(".\n* * *");
    assert_eq!(board.width(), 3);
}

#[test]
fn a_blank_line_in_the_middle_is_a_row() {
    let board = board_of("*\n\n*");
    assert_eq!(board.height(), 3);
    assert_eq!(board.width(), 1);
    assert_eq!(board.cells(), &Cells::from_slice(&[Cell::new(0, 0), Cell::new(2, 0)]));
}

#[test]
fn carriage_returns_are_trimmed_from_each_line() {
    let board = board_of(". *\r\n* .\r\n");
    assert_eq!(board.height(), 2);
    assert_eq!(board.width(), 2);
    assert_eq!(board.cells(), &Cells::from_slice(&[Cell::new(0, 1), Cell::new(1, 0)]));
}

#[test]
fn a_tab_between_tokens_does_not_part_them() {
    let board = board_of("*\t* *");
    assert_eq!(board.width(), 2);
    assert_eq!(board.cells(), &Cells::from_slice(&[Cell::new(0, 1)]));
}

#[test]
fn a_board_of_a_size_is_empty() {
    let board = Board::from_size(5, 4);
    assert_eq!(board.height(), 5);
    assert_eq!(board.width(), 4);
    assert!(board.is_empty());
    assert_eq!(board.cells().len(), 0);
}

#[test]
fn the_empty_board_has_no_size() {
    let board = Board::empty();
    assert_eq!(board.height(), 0);
    assert_eq!(board.width(), 0);
    assert!(board.is_empty());
    assert_eq!(board, Board::from_size(0, 0));
}

#[test]
fn a_new_board_keeps_what_it_is_given() {
    let cells = Cells::from_slice(&[Cell::new(-1, 7), Cell::new(2, 2)]);
    let board = Board::new(cells, 3, 9);
    assert_eq!(board.height, 3);
    assert_eq!(board.width, 9);
    assert!(board.contains(Cell::new(-1, 7)));
    assert!(board.contains(Cell::new(2, 2)));
    assert!(!board.contains(Cell::new(7, -1)));
    assert_eq!(board.cells().len(), 2);
}

#[test]
fn boards_are_equal_by_cells_and_size() {
    let one = Board::new(Cells::from_slice(&[Cell::new(0, 0), Cell::new(1, 1)]), 2, 2);
    let same = Board::new(Cells::from_slice(&[Cell::new(1, 1), Cell::new(0, 0)]), 2, 2);
    let wider = Board::new(Cells::from_slice(&[Cell::new(0, 0), Cell::new(1, 1)]), 2, 3);
    let taller = Board::new(Cells::from_slice(&[Cell::new(0, 0), Cell::new(1, 1)]), 3, 2);
    let other = Board::new(Cells::from_slice(&[Cell::new(0, 0), Cell::new(1, 0)]), 2, 2);
    let fewer = Board::new(Cells::from_slice(&[Cell::new(0, 0)]), 2, 2);
    assert_eq!(one, same);
    assert_ne!(one, wider);
    assert_ne!(one, taller);
    assert_ne!(one, other);
    assert_ne!(one, fewer);
    assert_ne!(fewer, one);
}

#[test]
fn white_space_is_what_the_standard_library_trims() {
    for code in 0..=0x10FFFFu32 {
        if let Some(c) = char::from_u32(code) {
            let grid = format!("{}*{}", c, c);
            let board = board_of(&grid);
            assert_eq!(board.contains(Cell::new(0, 0)), c.is_whitespace(), "{:?}", c);
            assert_eq!(board.height(), 1);
        }
    }
}

#[test]
fn the_grid_is_read_as_the_standard_library_splits_it() {
    let grids = [
        "*",
        " * ",
        "* *\n* *",
        "\n\n* . *\n\n. *  * \n   \n*\n",
        ". .\t*\n*\u{a0}* *\r\n  * *  *",
        "** * *\n * \n\n\n. * . * . *",
        "a\nb c\n* * * * *",
    ];
    for grid in grids {
        let board = board_of(grid);
        let mut expected = Cells::new();
        let mut height = 0;
        let mut width = 0;
        for (y, line) in grid.trim().split("\n").enumerate() {
            height = y + 1;
            for (x, token) in line.trim().split(" ").enumerate() {
                width = x + 1;
                if token == "*" {
                    expected.insert(Cell::new(y as isize, x as isize));
                }
            }
        }
        assert_eq!(board, Board::new(expected, height, width), "{:?}", grid);
    }
}
