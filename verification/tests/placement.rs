use minesweeper::layout::{
    blank_grid, check_placement, collect_around, draw_mines, lay_mines, position, try_place,
    DRAWS_PER_CELL,
};
use minesweeper::{ConfigError, Point};

#[test]
fn position_finds_the_first_match() {
    let list: Vec<Point> = vec![(1, 2), (3, 4), (1, 2)];
    assert_eq!(position(&list, (1, 2)), Some(0));
    assert_eq!(position(&list, (3, 4)), Some(1));
    assert_eq!(position(&list, (2, 1)), None);
    assert_eq!(position(&Vec::new(), (0, 0)), None);
}

#[test]
fn collect_around_keeps_to_the_grid() {
    assert_eq!(collect_around(1, 1, (0, 0)), Vec::<Point>::new());
    assert_eq!(collect_around(2, 1, (0, 0)), vec![(1, 0)]);
    assert_eq!(collect_around(2, 2, (1, 1)), vec![(0, 0), (0, 1), (1, 0)]);
    assert_eq!(collect_around(5, 5, (0, 2)), vec![(0, 1), (0, 3), (1, 1), (1, 2), (1, 3)]);
    assert_eq!(collect_around(5, 5, (5, 2)), vec![(4, 1), (4, 2), (4, 3)]);
}

#[test]
fn try_place_takes_a_free_cell_once() {
    let mut mines: Vec<Point> = Vec::new();
    assert!(try_place(&mut mines, 3, 2, (2, 1)));
    assert!(!try_place(&mut mines, 3, 2, (2, 1)));
    assert!(!try_place(&mut mines, 3, 2, (3, 0)));
    assert!(!try_place(&mut mines, 3, 2, (0, 2)));
    assert!(try_place(&mut mines, 3, 2, (0, 0)));
    assert_eq!(mines, vec![(2, 1), (0, 0)]);
}

#[test]
fn check_placement_names_each_fault() {
    assert_eq!(check_placement(3, 3, &vec![(0, 0), (2, 2)]), None);
    assert_eq!(check_placement(3, 3, &Vec::new()), None);
    assert_eq!(check_placement(usize::MAX, 3, &Vec::new()), Some(ConfigError::TooLarge));
    assert_eq!(check_placement(1, 1, &vec![(0, 0)]), Some(ConfigError::TooManyMines));
    assert_eq!(check_placement(3, 3, &vec![(0, 3)]), Some(ConfigError::OutOfBounds));
    assert_eq!(check_placement(3, 3, &vec![(1, 1), (1, 1)]), Some(ConfigError::Duplicate));
}

#[test]
fn blank_grid_is_all_zero() {
    assert_eq!(blank_grid(3, 2), vec![vec![0i8, 0, 0], vec![0, 0, 0]]);
    assert_eq!(blank_grid(0, 2), vec![Vec::<i8>::new(), Vec::new()]);
    assert_eq!(blank_grid(2, 0), Vec::<Vec<i8>>::new());
}

#[test]
fn lay_mines_numbers_the_grid() {
    let grid = lay_mines(4, 3, &vec![(0, 0), (1, 1), (3, 2)]);
    assert_eq!(grid, vec![vec![-1i8, 2, 1, 0], vec![2, -1, 2, 1], vec![1, 1, 2, -1]]);
    let grid = lay_mines(3, 3, &vec![(1, 1), (0, 0), (1, 0), (2, 0), (0, 1), (2, 1), (0, 2), (2, 2)]);
    assert_eq!(grid, vec![vec![-1i8, -1, -1], vec![-1, -1, -1], vec![-1, 5, -1]]);
    let grid = lay_mines(3, 3, &vec![(0, 0), (1, 0), (2, 0), (0, 1), (2, 1), (0, 2), (1, 2), (2, 2)]);
    assert_eq!(grid[1][1], 8);
}

#[test]
fn draw_mines_gives_distinct_cells_of_the_grid() {
    for &(w, h, n) in &[(5usize, 4usize, 19usize), (10, 10, 50), (3, 3, 0), (1, 2, 1)] {
        let mines = draw_mines(w, h, n);
        assert_eq!(mines.len(), n);
        assert_eq!(check_placement(w, h, &mines), None);
    }
    assert_eq!(DRAWS_PER_CELL, 64);
}
