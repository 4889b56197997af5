use minesweeper::{ConfigError, GameState, Minesweeper, Point};

fn board(dimensions: (usize, usize), mines: &[Point]) -> Minesweeper {
    Minesweeper::with_mines(dimensions, &mines.to_vec()).unwrap()
}

fn revealed_cells(game: &Minesweeper, dimensions: (usize, usize)) -> Vec<Point> {
    let mut cells = Vec::new();
    for y in 0..dimensions.1 {
        for x in 0..dimensions.0 {
            if game.is_revealed((x, y)) {
                cells.push((x, y));
            }
        }
    }
    cells
}

fn brute_force_count(game: &Minesweeper, dimensions: (usize, usize), p: Point) -> i8 {
    let mut count = 0;
    for dy in -1i64..=1 {
        for dx in -1i64..=1 {
            if dx == 0 && dy == 0 {
                continue;
            }
            let x = p.0 as i64 + dx;
            let y = p.1 as i64 + dy;
            if x >= 0 && y >= 0 && (x as usize) < dimensions.0 && (y as usize) < dimensions.1 {
                if game.is_mine((x as usize, y as usize)) {
                    count += 1;
                }
            }
        }
    }
    count
}

#[test]
fn center_mine_numbers_the_eight_border_cells() {
    let game = board((3, 3), &[(1, 1)]);
    for y in 0..3 {
        for x in 0..3 {
            if (x, y) == (1, 1) {
                assert!(game.is_mine((x, y)));
                assert_eq!(game.mine_count((x, y)), -1);
            } else {
                assert!(!game.is_mine((x, y)));
                assert_eq!(game.mine_count((x, y)), 1);
            }
        }
    }
}

#[test]
fn center_mine_reveal_of_a_corner_reveals_only_the_corner() {
    let mut game = board((3, 3), &[(1, 1)]);
    game.reveal_tile((2, 2));
    assert_eq!(revealed_cells(&game, (3, 3)), vec![(2, 2)]);
    assert_eq!(game.total_revealed(), 1);
    assert_eq!(*game.current_state(), GameState::Playing);
}

#[test]
fn center_mine_reveal_of_the_mine_loses() {
    let mut game = board((3, 3), &[(1, 1)]);
    game.reveal_tile((1, 1));
    assert_eq!(*game.current_state(), GameState::Lose);
    assert_eq!(game.total_revealed(), 0);
}

#[test]
fn corner_mine_numbers_match_brute_force() {
    let game = board((3, 3), &[(0, 0)]);
    let expected: [[i8; 3]; 3] = [[-1, 1, 0], [1, 1, 0], [0, 0, 0]];
    for y in 0..3 {
        for x in 0..3 {
            assert_eq!(game.mine_count((x, y)), expected[y][x]);
            if !game.is_mine((x, y)) {
                assert_eq!(game.mine_count((x, y)), brute_force_count(&game, (3, 3), (x, y)));
            }
        }
    }
    assert_eq!(game.total_mines(), 1);
}

#[test]
fn corner_mine_reveal_of_the_mine_loses() {
    let mut game = board((3, 3), &[(0, 0)]);
    game.reveal_tile((0, 0));
    assert_eq!(*game.current_state(), GameState::Lose);
    assert_eq!(game.total_revealed(), 0);
}

#[test]
fn corner_mine_reveal_of_the_far_corner_opens_every_safe_cell() {
    let mut game = board((3, 3), &[(0, 0)]);
    game.reveal_tile((2, 2));
    assert_eq!(game.total_revealed(), 8);
    assert!(!game.is_revealed((0, 0)));
    assert_eq!(*game.current_state(), GameState::Win);
}

#[test]
fn corner_mine_reveal_next_to_the_mine_reveals_one_cell() {
    let mut game = board((3, 3), &[(0, 0)]);
    game.reveal_tile((1, 1));
    assert_eq!(revealed_cells(&game, (3, 3)), vec![(1, 1)]);
    assert_eq!(*game.current_state(), GameState::Playing);
}

#[test]
fn empty_board_opens_whole_from_any_cell() {
    for y in 0..5 {
        for x in 0..5 {
            let mut game = board((5, 5), &[]);
            assert_eq!(*game.current_state(), GameState::Playing);
            game.reveal_tile((x, y));
            assert_eq!(game.total_revealed(), 25);
            assert_eq!(revealed_cells(&game, (5, 5)).len(), 25);
            assert_eq!(*game.current_state(), GameState::Win);
        }
    }
}

#[test]
fn empty_random_board_opens_whole() {
    let mut game = Minesweeper::new((5, 5), 0).unwrap();
    assert_eq!(game.total_mines(), 0);
    game.reveal_tile((3, 1));
    assert_eq!(game.total_revealed(), 25);
    assert_eq!(*game.current_state(), GameState::Win);
}

#[test]
fn random_board_has_the_requested_mines() {
    for &(w, h, n) in &[(9usize, 9usize, 10usize), (18, 14, 40), (24, 20, 99), (4, 4, 15), (1, 1, 0), (7, 1, 6)] {
        let game = Minesweeper::new((w, h), n).unwrap();
        assert_eq!(game.total_mines(), n);
        assert_eq!(game.total_flags(), 0);
        assert_eq!(game.total_revealed(), 0);
        assert_eq!(*game.current_state(), GameState::Playing);
        let mut found = 0;
        for y in 0..h {
            for x in 0..w {
                if game.is_mine((x, y)) {
                    found += 1;
                }
                assert!(!game.is_revealed((x, y)));
                assert!(!game.is_flagged((x, y)));
            }
        }
        assert_eq!(found, n);
        assert!(!game.is_mine((w, 0)));
        assert!(!game.is_mine((0, h)));
    }
}

#[test]
fn random_board_numbers_match_brute_force() {
    let (w, h) = (12, 9);
    let game = Minesweeper::new((w, h), 30).unwrap();
    for y in 0..h {
        for x in 0..w {
            if game.is_mine((x, y)) {
                assert_eq!(game.mine_count((x, y)), -1);
            } else {
                assert_eq!(game.mine_count((x, y)), brute_force_count(&game, (w, h), (x, y)));
            }
        }
    }
}

#[test]
fn random_boards_differ() {
    let first = Minesweeper::new((20, 20), 1).unwrap();
    let mut differs = false;
    for _ in 0..50 {
        let next = Minesweeper::new((20, 20), 1).unwrap();
        for y in 0..20 {
            for x in 0..20 {
                if first.is_mine((x, y)) != next.is_mine((x, y)) {
                    differs = true;
                }
            }
        }
    }
    assert!(differs);
}

#[test]
fn random_mines_are_not_the_first_free_cells() {
    let game = Minesweeper::new((30, 30), 5).unwrap();
    let at_the_front = (0..5).all(|x| game.is_mine((x, 0)));
    assert!(!at_the_front);
}

#[test]
fn too_many_mines_are_refused() {
    assert_eq!(Minesweeper::new((2, 2), 4).err(), Some(ConfigError::TooManyMines));
    assert_eq!(Minesweeper::new((2, 2), 5).err(), Some(ConfigError::TooManyMines));
    assert_eq!(Minesweeper::new((0, 5), 0).err(), Some(ConfigError::TooManyMines));
    assert_eq!(Minesweeper::new((5, 0), 0).err(), Some(ConfigError::TooManyMines));
    assert!(Minesweeper::new((2, 2), 3).is_ok());
    let four: Vec<Point> = vec![(0, 0), (1, 0), (0, 1), (1, 1)];
    assert_eq!(Minesweeper::with_mines((2, 2), &four).err(), Some(ConfigError::TooManyMines));
    assert_eq!(Minesweeper::with_mines((0, 0), &Vec::new()).err(), Some(ConfigError::TooManyMines));
}

#[test]
fn too_large_a_grid_is_refused() {
    assert_eq!(Minesweeper::new((usize::MAX, 2), 1).err(), Some(ConfigError::TooLarge));
    assert_eq!(
        Minesweeper::with_mines((usize::MAX, usize::MAX), &Vec::new()).err(),
        Some(ConfigError::TooLarge)
    );
}

#[test]
fn a_mine_off_the_grid_is_refused() {
    let mines: Vec<Point> = vec![(0, 0), (3, 0)];
    assert_eq!(Minesweeper::with_mines((3, 3), &mines).err(), Some(ConfigError::OutOfBounds));
    let mines: Vec<Point> = vec![(0, 3)];
    assert_eq!(Minesweeper::with_mines((3, 3), &mines).err(), Some(ConfigError::OutOfBounds));
}

#[test]
fn a_repeated_mine_is_refused() {
    let mines: Vec<Point> = vec![(1, 2), (0, 0), (1, 2)];
    assert_eq!(Minesweeper::with_mines((3, 3), &mines).err(), Some(ConfigError::Duplicate));
}

#[test]
fn the_first_reason_wins() {
    let mines: Vec<Point> = vec![(9, 9), (9, 9)];
    assert_eq!(Minesweeper::with_mines((3, 3), &mines).err(), Some(ConfigError::OutOfBounds));
    let mines: Vec<Point> = vec![(9, 9), (9, 9), (0, 0), (0, 0)];
    assert_eq!(Minesweeper::with_mines((2, 2), &mines).err(), Some(ConfigError::TooManyMines));
}

#[test]
fn queries_off_the_grid_give_defaults() {
    let mut game = board((3, 2), &[(2, 1)]);
    for p in [(3, 0), (0, 2), (3, 2), (usize::MAX, usize::MAX), (usize::MAX, 0)] {
        assert!(!game.is_mine(p));
        assert!(!game.is_flagged(p));
        assert!(!game.is_revealed(p));
        assert_eq!(game.mine_count(p), 0);
        assert!(game.out_of_bounds(p));
        game.reveal_tile(p);
        game.toggle_flag(p);
        assert_eq!(game.total_flags(), 0);
        assert_eq!(game.total_revealed(), 0);
        assert_eq!(*game.current_state(), GameState::Playing);
    }
    assert!(!game.out_of_bounds((2, 1)));
}

#[test]
fn neighbors_come_column_by_column() {
    let game = board((3, 3), &[]);
    assert_eq!(
        game.neighbors((1, 1)),
        vec![(0, 0), (0, 1), (0, 2), (1, 0), (1, 2), (2, 0), (2, 1), (2, 2)]
    );
    assert_eq!(game.neighbors((0, 0)), vec![(0, 1), (1, 0), (1, 1)]);
    assert_eq!(game.neighbors((2, 2)), vec![(1, 1), (1, 2), (2, 1)]);
    assert_eq!(game.neighbors((2, 0)), vec![(1, 0), (1, 1), (2, 1)]);
    assert_eq!(game.neighbors((3, 3)), vec![(2, 2)]);
    assert_eq!(game.neighbors((4, 4)), Vec::<Point>::new());
    assert_eq!(game.neighbors((usize::MAX, usize::MAX)), Vec::<Point>::new());
    let line = board((1, 4), &[]);
    assert_eq!(line.neighbors((0, 1)), vec![(0, 0), (0, 2)]);
}

#[test]
fn revealing_a_mine_loses_and_the_game_stays_over() {
    let mut game = board((4, 4), &[(0, 0), (3, 3)]);
    game.reveal_tile((3, 3));
    assert_eq!(*game.current_state(), GameState::Lose);
    game.toggle_flag((1, 1));
    assert_eq!(*game.current_state(), GameState::Lose);
    game.toggle_flag((1, 1));
    assert_eq!(*game.current_state(), GameState::Lose);
    game.reveal_tile((0, 1));
    assert_ne!(*game.current_state(), GameState::Playing);
    game.reveal_tile((0, 0));
    assert_eq!(*game.current_state(), GameState::Lose);
    game.reveal_tile((9, 9));
    assert_eq!(*game.current_state(), GameState::Lose);
}

#[test]
fn a_won_game_does_not_return_to_play() {
    let mut game = board((2, 1), &[(0, 0)]);
    game.reveal_tile((1, 0));
    assert_eq!(*game.current_state(), GameState::Win);
    game.toggle_flag((0, 0));
    assert_eq!(*game.current_state(), GameState::Win);
    game.reveal_tile((1, 0));
    assert_ne!(*game.current_state(), GameState::Playing);
    game.toggle_flag((0, 0));
    game.reveal_tile((0, 0));
    assert_ne!(*game.current_state(), GameState::Playing);
}

#[test]
fn revealing_the_last_safe_cell_wins() {
    let mines: [Point; 3] = [(1, 0), (0, 1), (1, 1)];
    let mut game = board((3, 2), &mines);
    game.reveal_tile((0, 0));
    assert_eq!(*game.current_state(), GameState::Playing);
    assert_eq!(game.total_revealed(), 1);
    game.reveal_tile((2, 0));
    assert_eq!(*game.current_state(), GameState::Playing);
    assert_eq!(game.total_revealed(), 2);
    game.reveal_tile((2, 1));
    assert_eq!(*game.current_state(), GameState::Win);
    assert_eq!(game.total_revealed(), 3 * 2 - 3);
    assert_eq!(game.total_revealed(), 3 * 2 - game.total_mines());
}

#[test]
fn flood_fill_stops_at_the_numbered_border() {
    // . . 1 M .
    // . . 1 1 1
    // . . . . .
    // 1 1 . . .
    // M 1 . . .
    let mut game = board((5, 5), &[(3, 0), (0, 4)]);
    game.reveal_tile((0, 0));
    let shown = revealed_cells(&game, (5, 5));
    let mut expected: Vec<Point> = Vec::new();
    for y in 0..5 {
        for x in 0..5 {
            if (x, y) != (3, 0) && (x, y) != (0, 4) && (x, y) != (4, 0) {
                expected.push((x, y));
            }
        }
    }
    assert_eq!(shown, expected);
    assert_eq!(game.total_revealed(), 22);
    assert_eq!(*game.current_state(), GameState::Playing);
    game.reveal_tile((4, 0));
    assert_eq!(*game.current_state(), GameState::Win);
    assert_eq!(game.total_revealed(), 23);
}

#[test]
fn flood_fill_is_held_by_a_wall_of_numbers() {
    // . 1 M 1 .
    // . 1 M 1 .
    // . 1 M 1 .
    let mut game = board((5, 3), &[(2, 0), (2, 1), (2, 2)]);
    assert_eq!(game.mine_count((1, 1)), 3);
    assert_eq!(game.mine_count((1, 0)), 2);
    game.reveal_tile((0, 1));
    assert_eq!(
        revealed_cells(&game, (5, 3)),
        vec![(0, 0), (1, 0), (0, 1), (1, 1), (0, 2), (1, 2)]
    );
    assert_eq!(*game.current_state(), GameState::Playing);
    game.reveal_tile((4, 2));
    assert_eq!(game.total_revealed(), 12);
    assert_eq!(*game.current_state(), GameState::Win);
}

#[test]
fn flood_fill_goes_around_flags() {
    let mut game = board((3, 1), &[]);
    game.toggle_flag((1, 0));
    game.reveal_tile((0, 0));
    assert_eq!(revealed_cells(&game, (3, 1)), vec![(0, 0)]);
    assert!(game.is_flagged((1, 0)));
    assert_eq!(*game.current_state(), GameState::Playing);
    game.toggle_flag((1, 0));
    game.reveal_tile((0, 0));
    assert_eq!(game.total_revealed(), 3);
    assert_eq!(*game.current_state(), GameState::Win);
}

#[test]
fn chord_reveals_the_unflagged_neighbors() {
    // M 1 . .
    // 1 1 . .
    // 1 1 1 1
    // M 1 1 M
    let mut game = board((4, 4), &[(0, 0), (3, 3), (0, 3)]);
    assert_eq!(game.mine_count((1, 1)), 1);
    game.reveal_tile((1, 1));
    assert_eq!(revealed_cells(&game, (4, 4)), vec![(1, 1)]);
    // without a flag around it a second reveal does nothing
    game.reveal_tile((1, 1));
    assert_eq!(revealed_cells(&game, (4, 4)), vec![(1, 1)]);
    game.toggle_flag((0, 0));
    game.reveal_tile((1, 1));
    let shown = revealed_cells(&game, (4, 4));
    for n in [(0, 1), (0, 2), (1, 0), (1, 2), (2, 0), (2, 1), (2, 2)] {
        assert!(shown.contains(&n));
    }
    assert!(!game.is_revealed((0, 0)));
    assert!(game.is_flagged((0, 0)));
    // (2, 0) and (2, 1) are blank: the cascade runs on from them
    assert!(game.is_revealed((3, 0)));
    assert!(game.is_revealed((3, 1)));
    assert!(game.is_revealed((3, 2)));
    assert!(!game.is_revealed((3, 3)));
    assert!(!game.is_revealed((0, 3)));
    assert!(!game.is_revealed((1, 3)));
    assert!(!game.is_revealed((2, 3)));
    assert_eq!(game.total_revealed(), 11);
    assert_eq!(*game.current_state(), GameState::Playing);
}

#[test]
fn chord_among_numbers_reveals_exactly_the_neighbors() {
    // M 2 M
    // 2 4 2
    // M 2 M
    let mut game = board((3, 3), &[(0, 0), (2, 0), (0, 2), (2, 2)]);
    assert_eq!(game.mine_count((1, 1)), 4);
    assert_eq!(game.mine_count((1, 0)), 2);
    game.reveal_tile((1, 1));
    for p in [(0, 0), (2, 0), (0, 2)] {
        game.toggle_flag(p);
    }
    // three flags for the number four: nothing happens
    game.reveal_tile((1, 1));
    assert_eq!(revealed_cells(&game, (3, 3)), vec![(1, 1)]);
    game.toggle_flag((2, 2));
    game.reveal_tile((1, 1));
    assert_eq!(
        revealed_cells(&game, (3, 3)),
        vec![(1, 0), (0, 1), (1, 1), (2, 1), (1, 2)]
    );
    assert_eq!(game.total_flags(), 4);
    assert_eq!(*game.current_state(), GameState::Win);
}

#[test]
fn chord_with_every_mine_flagged_opens_the_rest() {
    // M 2 M 1
    // 2 3 1 1
    // M 1 . .
    // 1 1 . .
    let mut game = board((4, 4), &[(0, 0), (2, 0), (0, 2)]);
    assert_eq!(game.mine_count((1, 1)), 3);
    game.reveal_tile((1, 1));
    game.toggle_flag((0, 0));
    game.toggle_flag((2, 0));
    game.reveal_tile((1, 1));
    assert_eq!(revealed_cells(&game, (4, 4)), vec![(1, 1)]);
    game.toggle_flag((0, 2));
    game.reveal_tile((1, 1));
    let shown = revealed_cells(&game, (4, 4));
    for n in [(1, 0), (0, 1), (1, 1), (2, 1), (1, 2), (2, 2)] {
        assert!(shown.contains(&n));
    }
    // (2, 2) is blank, so the cascade goes on from it
    for n in [(3, 1), (3, 2), (3, 3), (2, 3), (1, 3)] {
        assert!(shown.contains(&n));
    }
    assert!(!game.is_revealed((3, 0)));
    assert!(!game.is_revealed((0, 3)));
    assert_eq!(game.total_revealed(), 11);
    assert_eq!(game.total_flags(), 3);
    assert_eq!(*game.current_state(), GameState::Playing);
}

#[test]
fn chord_with_a_wrong_flag_loses() {
    let mut game = board((3, 3), &[(0, 0)]);
    game.reveal_tile((1, 1));
    game.toggle_flag((2, 2));
    game.reveal_tile((1, 1));
    assert_eq!(*game.current_state(), GameState::Lose);
    assert!(!game.is_revealed((0, 0)));
    assert!(!game.is_revealed((2, 2)));
    for n in [(0, 1), (0, 2), (1, 0), (1, 2), (2, 0), (2, 1)] {
        assert!(game.is_revealed(n));
    }
    assert_eq!(game.total_revealed(), 7);
}

#[test]
fn chord_that_meets_the_mine_last_ends_lost() {
    // the mine at (2,2) is the last neighbor of (1,1) to be visited
    let mut game = board((3, 3), &[(2, 2)]);
    game.reveal_tile((1, 1));
    game.toggle_flag((0, 0));
    game.reveal_tile((1, 1));
    assert_eq!(*game.current_state(), GameState::Lose);
    assert_eq!(game.total_revealed(), 7);
}

#[test]
fn second_reveal_of_a_blank_cell_spreads_again() {
    let mut game = board((3, 3), &[]);
    game.toggle_flag((0, 0));
    for p in [(0, 1), (1, 0), (1, 1)] {
        game.toggle_flag(p);
    }
    game.reveal_tile((2, 2));
    assert_eq!(game.total_revealed(), 5);
    game.toggle_flag((1, 1));
    game.reveal_tile((2, 2));
    assert!(game.is_revealed((1, 1)));
    // (1,1) is blank, and its neighbors that carry a flag stay shut
    assert_eq!(game.total_revealed(), 6);
    assert_eq!(game.total_flags(), 3);
    assert_eq!(*game.current_state(), GameState::Playing);
}

#[test]
fn a_flag_on_a_revealed_cell_is_not_set() {
    let mut game = board((3, 3), &[(1, 1)]);
    game.reveal_tile((0, 0));
    game.toggle_flag((0, 0));
    assert!(!game.is_flagged((0, 0)));
    assert!(game.is_revealed((0, 0)));
    assert_eq!(game.total_flags(), 0);
}

#[test]
fn a_flagged_cell_is_not_revealed() {
    let mut game = board((3, 3), &[(1, 1)]);
    game.toggle_flag((0, 0));
    game.toggle_flag((1, 1));
    game.reveal_tile((0, 0));
    game.reveal_tile((1, 1));
    assert!(!game.is_revealed((0, 0)));
    assert!(game.is_flagged((0, 0)));
    assert_eq!(game.total_revealed(), 0);
    assert_eq!(game.total_flags(), 2);
    assert_eq!(*game.current_state(), GameState::Playing);
}

#[test]
fn a_flag_set_and_taken_off_leaves_the_board_as_it_was() {
    let mut game = board((3, 3), &[(1, 1)]);
    game.toggle_flag((2, 0));
    game.toggle_flag((0, 2));
    assert!(game.is_flagged((0, 2)));
    assert_eq!(game.total_flags(), 2);
    game.toggle_flag((0, 2));
    assert!(!game.is_flagged((0, 2)));
    assert!(game.is_flagged((2, 0)));
    assert_eq!(game.total_flags(), 1);
    game.reveal_tile((0, 2));
    assert!(game.is_revealed((0, 2)));
    game.toggle_flag((2, 0));
    assert_eq!(game.total_flags(), 0);
}

#[test]
fn flags_may_outnumber_the_mines() {
    let mut game = board((3, 3), &[(1, 1)]);
    for p in [(0, 0), (1, 0), (2, 0)] {
        game.toggle_flag(p);
    }
    assert_eq!(game.total_flags(), 3);
    assert_eq!(game.total_mines(), 1);
}

#[test]
fn states_compare_and_copy() {
    let state = GameState::Playing;
    let copy = state;
    assert_eq!(state, copy);
    assert_ne!(GameState::Win, GameState::Lose);
    assert_eq!(format!("{:?}", GameState::Lose), "Lose");
}
