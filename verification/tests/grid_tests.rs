use minesweeper_board::coordinate::Coordinate;
use minesweeper_board::error::BoardError;
use minesweeper_board::grid::Grid;
use minesweeper_board::random::SeededRng;
use minesweeper_board::tile::Tile;

fn at(x: u16, y: u16) -> Coordinate {
    Coordinate::new(x, y)
}

fn rows(grid: &Grid) -> Vec<String> {
    let mut out = Vec::new();
    for y in 0..grid.height() {
        let mut row = String::new();
        for x in 0..grid.width() {
            match grid.tile_at(at(x, y)).unwrap() {
                Tile::Bomb => row.push('*'),
                Tile::BombNeighbor(n) => row.push_str(&n.to_string()),
                Tile::Empty => row.push('.'),
            }
        }
        out.push(row);
    }
    out
}

fn count_bombs(grid: &Grid) -> u32 {
    let mut n = 0;
    for y in 0..grid.height() {
        for x in 0..grid.width() {
            if grid.tile_at(at(x, y)).unwrap().is_bomb() {
                n += 1;
            }
        }
    }
    n
}

fn scan_around(grid: &Grid, c: Coordinate) -> u8 {
    let mut n = 0;
    for dy in -1i32..=1 {
        for dx in -1i32..=1 {
            if dx == 0 && dy == 0 {
                continue;
            }
            let x = c.x as i32 + dx;
            let y = c.y as i32 + dy;
            if x < 0 || y < 0 || x >= grid.width() as i32 || y >= grid.height() as i32 {
                continue;
            }
            if grid.tile_at(at(x as u16, y as u16)).unwrap().is_bomb() {
                n += 1;
            }
        }
    }
    n
}

fn assert_hints_match_a_scan(grid: &Grid) {
    for y in 0..grid.height() {
        for x in 0..grid.width() {
            let c = at(x, y);
            let n = scan_around(grid, c);
            match grid.tile_at(c).unwrap() {
                Tile::Bomb => {}
                Tile::BombNeighbor(v) => {
                    assert!(1 <= v && v <= 8);
                    assert_eq!(v, n);
                }
                Tile::Empty => assert_eq!(n, 0),
            }
        }
    }
}

#[test]
fn build_places_the_one_mine_that_the_seed_draws() {
    let grid = Grid::build(4, 4, 1, 0).unwrap();
    assert_eq!(rows(&grid), vec!["....", "....", "..11", "..1*"]);
    assert_eq!(grid.mine_count(), 1);
}

#[test]
fn build_places_the_mines_that_the_seed_draws() {
    let grid = Grid::build(4, 4, 3, 42).unwrap();
    assert_eq!(rows(&grid), vec!["2**1", "2*31", "111.", "...."]);
    let grid = Grid::build(5, 3, 4, 7).unwrap();
    assert_eq!(rows(&grid), vec!["2*2..", "3*41.", "2**1."]);
    let grid = Grid::build(8, 8, 10, 2024).unwrap();
    assert_eq!(
        rows(&grid),
        vec![
            "11.12221", "*112**3*", "111*4*31", "..12321.", ".112*211", ".1*212*1", "1221.111",
            "1*1....."
        ]
    );
}

#[test]
fn build_is_reproducible() {
    for seed in [0u64, 1, 2, 99, u64::MAX] {
        let a = Grid::build(9, 7, 15, seed).unwrap();
        let b = Grid::build(9, 7, 15, seed).unwrap();
        assert_eq!(rows(&a), rows(&b));
    }
}

#[test]
fn build_with_leaves_the_generator_where_the_placing_ended() {
    let mut rng = SeededRng::new(42);
    let grid = Grid::build_with(4, 4, 3, &mut rng).unwrap();
    assert_eq!(rows(&grid), vec!["2**1", "2*31", "111.", "...."]);
    let mut expected = SeededRng::new(42);
    expected.next_u64();
    expected.next_u64();
    expected.next_u64();
    assert_eq!(rng.next_u64(), expected.next_u64());
}

#[test]
fn build_with_leaves_the_generator_alone_when_it_fails() {
    let mut rng = SeededRng::new(5);
    assert_eq!(Grid::build_with(2, 2, 5, &mut rng).err(), Some(BoardError::InvalidConfig));
    let mut untouched = SeededRng::new(5);
    assert_eq!(rng.next_u64(), untouched.next_u64());
}

#[test]
fn mine_count_equals_the_number_of_mine_cells() {
    let boards = [(1u16, 1u16, 0u32), (1, 1, 1), (4, 4, 0), (4, 4, 16), (10, 6, 17), (30, 16, 99)];
    for (w, h, count) in boards {
        for seed in 0..5u64 {
            let grid = Grid::build(w, h, count, seed).unwrap();
            assert_eq!(grid.width(), w);
            assert_eq!(grid.height(), h);
            assert_eq!(grid.mine_count(), count);
            assert_eq!(count_bombs(&grid), count);
        }
    }
}

#[test]
fn hints_equal_a_brute_force_scan() {
    let boards = [(1u16, 1u16, 0u32), (2, 2, 3), (5, 5, 5), (10, 6, 30), (16, 16, 40), (1, 9, 4)];
    for (w, h, count) in boards {
        for seed in 10..14u64 {
            let grid = Grid::build(w, h, count, seed).unwrap();
            assert_hints_match_a_scan(&grid);
        }
    }
}

#[test]
fn build_rejects_a_board_without_cells() {
    assert_eq!(Grid::build(0, 5, 0, 1).err(), Some(BoardError::InvalidConfig));
    assert_eq!(Grid::build(5, 0, 0, 1).err(), Some(BoardError::InvalidConfig));
    assert_eq!(Grid::build(0, 0, 0, 1).err(), Some(BoardError::InvalidConfig));
}

#[test]
fn build_rejects_more_mines_than_cells() {
    assert_eq!(Grid::build(3, 3, 10, 1).err(), Some(BoardError::InvalidConfig));
    assert_eq!(Grid::build(1, 1, 2, 1).err(), Some(BoardError::InvalidConfig));
    assert_eq!(Grid::build(4, 2, u32::MAX, 1).err(), Some(BoardError::InvalidConfig));
}

#[test]
fn build_accepts_a_full_board() {
    let grid = Grid::build(3, 3, 9, 1).unwrap();
    assert_eq!(rows(&grid), vec!["***", "***", "***"]);
    assert_eq!(grid.mine_count(), 9);
}

#[test]
fn build_without_mines_is_all_empty() {
    let grid = Grid::build(4, 4, 0, 3).unwrap();
    for y in 0..4 {
        for x in 0..4 {
            assert_eq!(grid.tile_at(at(x, y)), Ok(Tile::Empty));
        }
    }
}

#[test]
fn from_mines_puts_the_mines_where_they_are_listed() {
    let grid = Grid::from_mines(3, 3, &vec![at(2, 2)]).unwrap();
    assert_eq!(rows(&grid), vec!["...", ".11", ".1*"]);
    assert_eq!(grid.mine_count(), 1);
    assert_eq!(grid.tile_at(at(1, 1)), Ok(Tile::BombNeighbor(1)));
    assert_eq!(grid.tile_at(at(2, 2)), Ok(Tile::Bomb));
    assert_eq!(grid.tile_at(at(0, 0)), Ok(Tile::Empty));
}

#[test]
fn from_mines_counts_a_cell_listed_twice_once() {
    let grid = Grid::from_mines(3, 2, &vec![at(0, 0), at(2, 1), at(0, 0)]).unwrap();
    assert_eq!(grid.mine_count(), 2);
    assert_eq!(rows(&grid), vec!["*21", "12*"]);
}

#[test]
fn from_mines_counts_up_to_eight_around_a_cell() {
    let ring = vec![at(0, 0), at(1, 0), at(2, 0), at(0, 1), at(2, 1), at(0, 2), at(1, 2), at(2, 2)];
    let grid = Grid::from_mines(3, 3, &ring).unwrap();
    assert_eq!(grid.tile_at(at(1, 1)), Ok(Tile::BombNeighbor(8)));
    assert_eq!(grid.mine_count(), 8);
}

#[test]
fn from_mines_rejects_what_does_not_fit() {
    assert_eq!(Grid::from_mines(0, 3, &vec![]).err(), Some(BoardError::InvalidConfig));
    assert_eq!(Grid::from_mines(3, 0, &vec![at(0, 0)]).err(), Some(BoardError::InvalidConfig));
    assert_eq!(Grid::from_mines(3, 3, &vec![at(3, 0)]).err(), Some(BoardError::InvalidCoordinate));
    assert_eq!(
        Grid::from_mines(3, 3, &vec![at(1, 1), at(0, 3)]).err(),
        Some(BoardError::InvalidCoordinate)
    );
}

#[test]
fn tile_at_rejects_a_coordinate_off_the_board() {
    let grid = Grid::build(4, 3, 2, 8).unwrap();
    assert_eq!(grid.tile_at(at(4, 0)), Err(BoardError::InvalidCoordinate));
    assert_eq!(grid.tile_at(at(0, 3)), Err(BoardError::InvalidCoordinate));
    assert_eq!(grid.tile_at(at(u16::MAX, u16::MAX)), Err(BoardError::InvalidCoordinate));
    assert!(grid.tile_at(at(3, 2)).is_ok());
    assert!(grid.contains(at(3, 2)));
    assert!(!grid.contains(at(4, 2)));
}

#[test]
fn neighbors_of_a_cell_inside_the_board() {
    let grid = Grid::build(3, 3, 0, 0).unwrap();
    assert_eq!(
        grid.neighbors_of(at(1, 1)),
        vec![at(0, 0), at(1, 0), at(2, 0), at(0, 1), at(2, 1), at(0, 2), at(1, 2), at(2, 2)]
    );
}

#[test]
fn neighbors_of_a_cell_at_the_edge() {
    let grid = Grid::build(3, 3, 0, 0).unwrap();
    assert_eq!(grid.neighbors_of(at(0, 0)), vec![at(1, 0), at(0, 1), at(1, 1)]);
    assert_eq!(grid.neighbors_of(at(2, 2)), vec![at(1, 1), at(2, 1), at(1, 2)]);
    assert_eq!(
        grid.neighbors_of(at(1, 0)),
        vec![at(0, 0), at(2, 0), at(0, 1), at(1, 1), at(2, 1)]
    );
}

#[test]
fn neighbors_of_on_small_and_large_boards() {
    let single = Grid::build(1, 1, 0, 0).unwrap();
    assert_eq!(single.neighbors_of(at(0, 0)), Vec::<Coordinate>::new());
    let row = Grid::build(3, 1, 0, 0).unwrap();
    assert_eq!(row.neighbors_of(at(1, 0)), vec![at(0, 0), at(2, 0)]);
    let grid = Grid::build(3, 3, 0, 0).unwrap();
    assert_eq!(grid.neighbors_of(at(3, 0)), vec![at(2, 0), at(2, 1)]);
    assert_eq!(grid.neighbors_of(at(u16::MAX, u16::MAX)), Vec::<Coordinate>::new());
}

#[test]
fn neighbors_of_is_stable() {
    let grid = Grid::build(6, 5, 4, 3).unwrap();
    for y in 0..5 {
        for x in 0..6 {
            let first = grid.neighbors_of(at(x, y));
            assert_eq!(first, grid.neighbors_of(at(x, y)));
            for d in &first {
                assert!(grid.contains(*d));
                assert!(d.is_adjacent(&at(x, y)));
            }
        }
    }
}

#[test]
fn cells_touch_when_they_differ_by_one_step() {
    assert!(at(1, 1).is_adjacent(&at(2, 2)));
    assert!(at(1, 1).is_adjacent(&at(0, 1)));
    assert!(!at(1, 1).is_adjacent(&at(1, 1)));
    assert!(!at(1, 1).is_adjacent(&at(3, 1)));
    assert!(!at(0, 0).is_adjacent(&at(u16::MAX, 0)));
    assert!(at(1, 1).is_near(&at(1, 1)));
    assert!(at(1, 1).is_near(&at(2, 0)));
    assert!(!at(1, 1).is_near(&at(1, 3)));
}

#[test]
fn mine_near_looks_at_the_cell_and_around_it() {
    let grid = Grid::from_mines(5, 5, &vec![at(4, 4)]).unwrap();
    assert!(grid.mine_near(at(4, 4)));
    assert!(grid.mine_near(at(3, 3)));
    assert!(grid.mine_near(at(4, 3)));
    assert!(!grid.mine_near(at(2, 2)));
    assert!(!grid.mine_near(at(0, 0)));
}

#[test]
fn cleared_around_moves_the_mines_away() {
    let grid = Grid::build(6, 6, 20, 99).unwrap();
    assert_eq!(rows(&grid), vec!["2**3**", "*5*55*", "14**5*", "25***2", "****42", "**43*1"]);
    let mut rng = SeededRng::new(99);
    for _ in 0..20 {
        rng.next_u64();
    }
    let cleared = grid.cleared_around(at(0, 0), &mut rng).unwrap();
    assert_eq!(rows(&cleared), vec![".2*3**", "14*55*", "*5**5*", "4****2", "****42", "**43*1"]);
    assert_eq!(cleared.mine_count(), 20);
    assert_eq!(count_bombs(&cleared), 20);
    assert!(!cleared.mine_near(at(0, 0)));
    assert_hints_match_a_scan(&cleared);
}

#[test]
fn cleared_around_rejects_what_cannot_be_cleared() {
    let crowded = Grid::build(4, 4, 8, 3).unwrap();
    let mut rng = SeededRng::new(1);
    assert_eq!(crowded.cleared_around(at(1, 1), &mut rng).err(), Some(BoardError::InvalidConfig));
    assert_eq!(
        crowded.cleared_around(at(4, 1), &mut rng).err(),
        Some(BoardError::InvalidCoordinate)
    );
    let roomy = Grid::build(4, 4, 7, 3).unwrap();
    assert_eq!(roomy.cleared_around(at(0, 4), &mut rng).err(), Some(BoardError::InvalidCoordinate));
    let mut untouched = SeededRng::new(1);
    assert_eq!(rng.next_u64(), untouched.next_u64());
    assert!(roomy.cleared_around(at(3, 3), &mut rng).is_ok());
}

#[test]
fn mine_near_off_the_board_looks_at_the_cells_that_touch() {
    let grid = Grid::from_mines(3, 3, &vec![at(2, 0)]).unwrap();
    assert!(grid.mine_near(at(3, 0)));
    assert!(grid.mine_near(at(3, 1)));
    assert!(!grid.mine_near(at(3, 2)));
    assert!(!grid.mine_near(at(9, 9)));
}

#[test]
fn cleared_around_keeps_a_board_that_is_clear_already() {
    let grid = Grid::from_mines(5, 5, &vec![at(4, 4), at(0, 4)]).unwrap();
    let mut rng = SeededRng::new(1);
    let cleared = grid.cleared_around(at(2, 1), &mut rng).unwrap();
    assert_eq!(rows(&cleared), rows(&grid));
    let mut untouched = SeededRng::new(1);
    assert_eq!(rng.next_u64(), untouched.next_u64());
}

#[test]
fn cleared_around_works_on_every_cell_of_a_crowded_board() {
    for y in 0..5u16 {
        for x in 0..5u16 {
            let grid = Grid::build(5, 5, 16, 31).unwrap();
            let mut rng = SeededRng::new(u64::from(x) * 7 + u64::from(y));
            let cleared = grid.cleared_around(at(x, y), &mut rng).unwrap();
            assert_eq!(count_bombs(&cleared), 16);
            assert!(!cleared.mine_near(at(x, y)));
            assert_eq!(cleared.tile_at(at(x, y)), Ok(Tile::Empty));
            assert_hints_match_a_scan(&cleared);
            for cy in 0..5u16 {
                for cx in 0..5u16 {
                    let c = at(cx, cy);
                    if grid.tile_at(c).unwrap().is_bomb() && !c.is_near(&at(x, y)) {
                        assert!(cleared.tile_at(c).unwrap().is_bomb());
                    }
                }
            }
        }
    }
}
