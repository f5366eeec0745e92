use minesweeper_board::coordinate::Coordinate;
use minesweeper_board::engine::BoardConfig;
use minesweeper_board::engine::BoardEngine;
use minesweeper_board::engine::FlagOutcome;
use minesweeper_board::engine::RevealOutcome;
use minesweeper_board::error::BoardError;
use minesweeper_board::grid::Grid;
use minesweeper_board::reveal_state::RevealState;
use minesweeper_board::reveal_state::Status;
use minesweeper_board::tile::Tile;

fn at(x: u16, y: u16) -> Coordinate {
    Coordinate::new(x, y)
}

fn config(width: u16, height: u16, mine_count: u32, seed: u64, safe: bool) -> BoardConfig {
    BoardConfig { width, height, mine_count, seed: Some(seed), safe_first_click: safe }
}

fn session(width: u16, height: u16, mines: &[(u16, u16)]) -> BoardEngine {
    let listed: Vec<Coordinate> = mines.iter().map(|&(x, y)| at(x, y)).collect();
    let grid = Grid::from_mines(width, height, &listed).unwrap();
    BoardEngine::from_grid(grid, false, 0).unwrap()
}

fn statuses(engine: &BoardEngine) -> Vec<String> {
    let mut out = Vec::new();
    for y in 0..engine.grid().height() {
        let mut row = String::new();
        for x in 0..engine.grid().width() {
            row.push(match engine.state().status_at(at(x, y)).unwrap() {
                Status::Covered => '#',
                Status::Uncovered => '.',
                Status::Flagged => 'F',
            });
        }
        out.push(row);
    }
    out
}

fn tiles(engine: &BoardEngine) -> Vec<String> {
    let mut out = Vec::new();
    for y in 0..engine.grid().height() {
        let mut row = String::new();
        for x in 0..engine.grid().width() {
            match engine.grid().tile_at(at(x, y)).unwrap() {
                Tile::Bomb => row.push('*'),
                Tile::BombNeighbor(n) => row.push_str(&n.to_string()),
                Tile::Empty => row.push('.'),
            }
        }
        out.push(row);
    }
    out
}

fn uncovered_cells(outcome: RevealOutcome) -> Vec<Coordinate> {
    match outcome {
        RevealOutcome::Uncovered(cells) => cells,
        other => panic!("expected uncovered cells, got {:?}", other),
    }
}

fn sorted(mut cells: Vec<Coordinate>) -> Vec<Coordinate> {
    cells.sort_by_key(|c| (c.y, c.x));
    cells
}

#[test]
fn a_board_without_mines_opens_in_one_reveal() {
    let mut engine = BoardEngine::new(config(4, 4, 0, 1, false)).unwrap();
    for y in 0..4 {
        for x in 0..4 {
            assert_eq!(engine.grid().tile_at(at(x, y)), Ok(Tile::Empty));
        }
    }
    let cells = uncovered_cells(engine.reveal_cell(at(0, 0)).unwrap());
    assert_eq!(cells.len(), 16);
    let mut all = Vec::new();
    for y in 0..4 {
        for x in 0..4 {
            all.push(at(x, y));
        }
    }
    assert_eq!(sorted(cells), all);
    assert_eq!(statuses(&engine), vec!["....", "....", "....", "...."]);
    assert!(engine.is_won());
    assert!(!engine.is_lost());
}

#[test]
fn one_reveal_can_win_the_game() {
    let mut engine = session(3, 3, &[(2, 2)]);
    assert_eq!(tiles(&engine), vec!["...", ".11", ".1*"]);
    assert!(!engine.is_won());
    let cells = uncovered_cells(engine.reveal_cell(at(0, 0)).unwrap());
    assert_eq!(
        sorted(cells),
        vec![at(0, 0), at(1, 0), at(2, 0), at(0, 1), at(1, 1), at(2, 1), at(0, 2), at(1, 2)]
    );
    assert_eq!(statuses(&engine), vec!["...", "...", "..#"]);
    assert!(engine.is_won());
    assert!(!engine.is_lost());
}

#[test]
fn a_win_needs_every_free_cell_and_no_flag() {
    let mut engine = session(2, 2, &[(0, 0)]);
    assert!(!engine.is_won());
    engine.reveal_cell(at(1, 0)).unwrap();
    engine.reveal_cell(at(0, 1)).unwrap();
    assert!(!engine.is_won());
    engine.reveal_cell(at(1, 1)).unwrap();
    assert!(engine.is_won());
    assert_eq!(engine.toggle_flag(at(0, 0)), Ok(FlagOutcome::Flagged));
    assert!(engine.is_won());
}

#[test]
fn a_board_of_mines_only_is_won_at_once() {
    let engine = session(2, 1, &[(0, 0), (1, 0)]);
    assert!(engine.is_won());
    assert!(!engine.is_lost());
}

#[test]
fn reveal_lists_the_cells_in_the_order_it_reached_them() {
    let mut engine = session(2, 2, &[]);
    assert_eq!(
        engine.reveal_cell(at(0, 0)),
        Ok(RevealOutcome::Uncovered(vec![at(0, 0), at(1, 0), at(0, 1), at(1, 1)]))
    );
}

#[test]
fn reveal_lists_nearer_cells_first() {
    let mut engine = session(3, 3, &[(2, 2)]);
    assert_eq!(
        engine.reveal_cell(at(0, 0)),
        Ok(RevealOutcome::Uncovered(vec![
            at(0, 0),
            at(1, 0),
            at(0, 1),
            at(1, 1),
            at(2, 0),
            at(2, 1),
            at(0, 2),
            at(1, 2)
        ]))
    );
}

#[test]
fn reveal_of_a_hint_uncovers_that_cell_alone() {
    let mut engine = session(3, 3, &[(0, 0)]);
    assert_eq!(engine.reveal_cell(at(1, 1)), Ok(RevealOutcome::Uncovered(vec![at(1, 1)])));
    assert_eq!(statuses(&engine), vec!["###", "#.#", "###"]);
    assert!(!engine.is_won());
}

#[test]
fn reveal_stops_at_hints_and_includes_them() {
    let mut engine = session(5, 1, &[(2, 0)]);
    assert_eq!(tiles(&engine), vec![".1*1."]);
    assert_eq!(
        engine.reveal_cell(at(0, 0)),
        Ok(RevealOutcome::Uncovered(vec![at(0, 0), at(1, 0)]))
    );
    assert_eq!(statuses(&engine), vec!["..###"]);
    assert_eq!(
        engine.reveal_cell(at(4, 0)),
        Ok(RevealOutcome::Uncovered(vec![at(4, 0), at(3, 0)]))
    );
    assert!(engine.is_won());
}

#[test]
fn reveal_of_a_flagged_cell_changes_nothing() {
    let mut engine = session(3, 3, &[(2, 2)]);
    assert_eq!(engine.toggle_flag(at(0, 0)), Ok(FlagOutcome::Flagged));
    assert_eq!(engine.toggle_flag(at(2, 2)), Ok(FlagOutcome::Flagged));
    let before = statuses(&engine);
    assert_eq!(engine.reveal_cell(at(0, 0)), Ok(RevealOutcome::Flagged));
    assert_eq!(engine.reveal_cell(at(2, 2)), Ok(RevealOutcome::Flagged));
    assert_eq!(statuses(&engine), before);
    assert_eq!(before, vec!["F##", "###", "##F"]);
    assert!(!engine.is_lost());
}

#[test]
fn reveal_of_an_uncovered_cell_changes_nothing() {
    let mut engine = session(3, 3, &[(0, 0)]);
    engine.reveal_cell(at(1, 1)).unwrap();
    let before = statuses(&engine);
    assert_eq!(engine.reveal_cell(at(1, 1)), Ok(RevealOutcome::AlreadyUncovered));
    assert_eq!(statuses(&engine), before);
    engine.reveal_cell(at(2, 2)).unwrap();
    let before = statuses(&engine);
    for y in 0..3 {
        for x in 0..3 {
            if (x, y) != (0, 0) {
                assert_eq!(engine.reveal_cell(at(x, y)), Ok(RevealOutcome::AlreadyUncovered));
            }
        }
    }
    assert_eq!(statuses(&engine), before);
}

#[test]
fn reveal_does_not_cross_a_wall_of_flags() {
    let mut engine = session(5, 3, &[]);
    for y in 0..3 {
        assert_eq!(engine.toggle_flag(at(2, y)), Ok(FlagOutcome::Flagged));
    }
    let cells = uncovered_cells(engine.reveal_cell(at(0, 0)).unwrap());
    assert_eq!(sorted(cells), vec![at(0, 0), at(1, 0), at(0, 1), at(1, 1), at(0, 2), at(1, 2)]);
    assert_eq!(statuses(&engine), vec!["..F##", "..F##", "..F##"]);
    assert!(!engine.is_won());
    for y in 0..3 {
        assert_eq!(engine.toggle_flag(at(2, y)), Ok(FlagOutcome::Unflagged));
    }
    assert_eq!(engine.reveal_cell(at(1, 1)), Ok(RevealOutcome::AlreadyUncovered));
    assert_eq!(statuses(&engine), vec!["..###", "..###", "..###"]);
    let cells = uncovered_cells(engine.reveal_cell(at(2, 1)).unwrap());
    assert_eq!(cells.len(), 9);
    assert!(engine.is_won());
}

#[test]
fn reveal_passes_a_single_flag_where_there_is_a_way_round() {
    let mut engine = session(3, 3, &[]);
    engine.toggle_flag(at(1, 1)).unwrap();
    let cells = uncovered_cells(engine.reveal_cell(at(0, 0)).unwrap());
    assert_eq!(cells.len(), 8);
    assert!(!cells.contains(&at(1, 1)));
    assert_eq!(statuses(&engine), vec!["...", ".F.", "..."]);
}

#[test]
fn hitting_a_mine_loses_the_game_for_good() {
    let mut engine = session(3, 3, &[(1, 1), (0, 0)]);
    assert!(!engine.is_lost());
    assert_eq!(engine.reveal_cell(at(1, 1)), Ok(RevealOutcome::HitMine));
    assert!(engine.is_lost());
    assert_eq!(statuses(&engine), vec!["###", "#.#", "###"]);
    assert_eq!(engine.reveal_cell(at(1, 1)), Ok(RevealOutcome::AlreadyUncovered));
    assert_eq!(engine.reveal_cell(at(2, 2)), Ok(RevealOutcome::Uncovered(vec![at(2, 2)])));
    assert_eq!(engine.toggle_flag(at(0, 0)), Ok(FlagOutcome::Flagged));
    assert_eq!(engine.toggle_flag(at(0, 0)), Ok(FlagOutcome::Unflagged));
    assert!(engine.is_lost());
    assert_eq!(engine.reveal_cell(at(0, 0)), Ok(RevealOutcome::HitMine));
    assert!(engine.is_lost());
}

#[test]
fn a_game_never_uncovers_a_cell_twice() {
    for seed in 0..6u64 {
        let mut engine = BoardEngine::new(config(9, 7, 12, seed, false)).unwrap();
        let mut seen: Vec<Coordinate> = Vec::new();
        let mut hit = 0;
        for y in 0..7 {
            for x in 0..9 {
                match engine.reveal_cell(at(x, y)).unwrap() {
                    RevealOutcome::Uncovered(cells) => {
                        assert!(!cells.is_empty());
                        assert_eq!(cells[0], at(x, y));
                        seen.extend(cells);
                    }
                    RevealOutcome::HitMine => {
                        hit += 1;
                        seen.push(at(x, y));
                    }
                    RevealOutcome::AlreadyUncovered => assert!(seen.contains(&at(x, y))),
                    RevealOutcome::Flagged => panic!("nothing was flagged"),
                }
            }
        }
        assert_eq!(hit, 12);
        assert_eq!(seen.len(), 9 * 7);
        let mut unique = seen.clone();
        unique.sort();
        unique.dedup();
        assert_eq!(unique.len(), seen.len());
        assert!(engine.is_won());
        assert!(engine.is_lost());
    }
}

#[test]
fn a_safe_first_reveal_moves_the_mine_away() {
    let mut engine = BoardEngine::new(config(5, 5, 1, 0, true)).unwrap();
    let target = at(0, 2);
    assert_eq!(engine.grid().tile_at(target), Ok(Tile::Bomb));
    let outcome = engine.reveal_cell(target).unwrap();
    assert_ne!(outcome, RevealOutcome::HitMine);
    assert_eq!(engine.grid().tile_at(target), Ok(Tile::Empty));
    assert_eq!(engine.grid().mine_count(), 1);
    assert_eq!(tiles(&engine), vec![".....", ".....", ".....", ".111.", ".1*1."]);
    assert_eq!(uncovered_cells(outcome).len(), 24);
    assert!(!engine.is_lost());
    assert!(engine.is_won());
}

#[test]
fn a_safe_first_reveal_never_hits_a_mine() {
    for seed in 0..20u64 {
        for (x, y) in [(0u16, 0u16), (3, 3), (7, 0), (7, 5), (4, 2)] {
            let mut engine = BoardEngine::new(config(8, 6, 39, seed, true)).unwrap();
            let outcome = engine.reveal_cell(at(x, y)).unwrap();
            let cells = uncovered_cells(outcome);
            assert!(cells.len() >= 4);
            assert!(!engine.is_lost());
            assert_eq!(engine.grid().tile_at(at(x, y)), Ok(Tile::Empty));
            assert!(!engine.grid().mine_near(at(x, y)));
            let mut bombs = 0;
            for cy in 0..6 {
                for cx in 0..8 {
                    if engine.grid().tile_at(at(cx, cy)).unwrap().is_bomb() {
                        bombs += 1;
                        assert_eq!(engine.state().status_at(at(cx, cy)), Ok(Status::Covered));
                    }
                }
            }
            assert_eq!(bombs, 39);
        }
    }
}

#[test]
fn only_the_first_reveal_is_made_safe() {
    let mut engine = BoardEngine::new(config(5, 5, 1, 0, true)).unwrap();
    let outcome = engine.reveal_cell(at(4, 4)).unwrap();
    assert_eq!(uncovered_cells(outcome).len(), 24);
    assert_eq!(tiles(&engine), vec![".....", "11...", "*1...", "11...", "....."]);
    assert_eq!(engine.reveal_cell(at(0, 2)), Ok(RevealOutcome::HitMine));
    assert!(engine.is_lost());
}

#[test]
fn a_reveal_that_is_turned_down_leaves_the_first_reveal_to_come() {
    let mut engine = BoardEngine::new(config(5, 5, 1, 0, true)).unwrap();
    assert_eq!(engine.toggle_flag(at(0, 2)), Ok(FlagOutcome::Flagged));
    assert_eq!(engine.reveal_cell(at(0, 2)), Ok(RevealOutcome::Flagged));
    assert_eq!(engine.reveal_cell(at(9, 9)), Err(BoardError::InvalidCoordinate));
    assert_eq!(engine.grid().tile_at(at(0, 2)), Ok(Tile::Bomb));
    assert_eq!(engine.toggle_flag(at(0, 2)), Ok(FlagOutcome::Unflagged));
    assert_ne!(engine.reveal_cell(at(0, 2)), Ok(RevealOutcome::HitMine));
    assert_eq!(engine.grid().tile_at(at(0, 2)), Ok(Tile::Empty));
}

#[test]
fn without_the_policy_the_first_reveal_can_hit_a_mine() {
    let mut engine = BoardEngine::new(config(5, 5, 1, 0, false)).unwrap();
    assert_eq!(engine.reveal_cell(at(0, 2)), Ok(RevealOutcome::HitMine));
    assert!(engine.is_lost());
}

#[test]
fn toggling_a_flag_twice_covers_the_cell_again() {
    let mut engine = session(3, 3, &[(2, 2)]);
    assert_eq!(engine.state().status_at(at(1, 1)), Ok(Status::Covered));
    assert_eq!(engine.toggle_flag(at(1, 1)), Ok(FlagOutcome::Flagged));
    assert_eq!(engine.state().status_at(at(1, 1)), Ok(Status::Flagged));
    assert_eq!(engine.toggle_flag(at(1, 1)), Ok(FlagOutcome::Unflagged));
    assert_eq!(engine.state().status_at(at(1, 1)), Ok(Status::Covered));
    assert_eq!(statuses(&engine), vec!["###", "###", "###"]);
}

#[test]
fn flagging_an_uncovered_cell_is_rejected() {
    let mut engine = session(3, 3, &[(0, 0)]);
    engine.reveal_cell(at(1, 1)).unwrap();
    let before = statuses(&engine);
    assert_eq!(engine.toggle_flag(at(1, 1)), Ok(FlagOutcome::Rejected));
    assert_eq!(engine.state().status_at(at(1, 1)), Ok(Status::Uncovered));
    assert_eq!(statuses(&engine), before);
}

#[test]
fn flagging_does_not_touch_the_mines_or_other_cells() {
    let mut engine = session(3, 3, &[(0, 0)]);
    let board = tiles(&engine);
    assert_eq!(engine.toggle_flag(at(0, 0)), Ok(FlagOutcome::Flagged));
    assert_eq!(engine.toggle_flag(at(2, 1)), Ok(FlagOutcome::Flagged));
    assert_eq!(statuses(&engine), vec!["F##", "##F", "###"]);
    assert_eq!(tiles(&engine), board);
    assert!(!engine.is_lost());
    assert!(!engine.is_won());
}

#[test]
fn requests_off_the_board_are_turned_down() {
    let mut engine = session(4, 3, &[(1, 1)]);
    let before = statuses(&engine);
    assert_eq!(engine.reveal_cell(at(4, 0)), Err(BoardError::InvalidCoordinate));
    assert_eq!(engine.reveal_cell(at(0, 3)), Err(BoardError::InvalidCoordinate));
    assert_eq!(engine.toggle_flag(at(4, 2)), Err(BoardError::InvalidCoordinate));
    assert_eq!(engine.toggle_flag(at(u16::MAX, 0)), Err(BoardError::InvalidCoordinate));
    assert_eq!(engine.state().status_at(at(4, 0)), Err(BoardError::InvalidCoordinate));
    assert_eq!(statuses(&engine), before);
    assert!(!engine.is_lost());
}

#[test]
fn new_rejects_a_configuration_that_does_not_fit() {
    assert_eq!(BoardEngine::new(config(0, 4, 0, 1, false)).err(), Some(BoardError::InvalidConfig));
    assert_eq!(BoardEngine::new(config(4, 0, 0, 1, false)).err(), Some(BoardError::InvalidConfig));
    assert_eq!(BoardEngine::new(config(4, 4, 17, 1, false)).err(), Some(BoardError::InvalidConfig));
    assert!(BoardEngine::new(config(4, 4, 16, 1, false)).is_ok());
}

#[test]
fn a_safe_first_reveal_reserves_room() {
    assert!(BoardEngine::new(config(4, 4, 7, 1, true)).is_ok());
    assert_eq!(BoardEngine::new(config(4, 4, 8, 1, true)).err(), Some(BoardError::InvalidConfig));
    assert!(BoardEngine::new(config(3, 3, 0, 1, true)).is_ok());
    assert_eq!(BoardEngine::new(config(3, 3, 1, 1, true)).err(), Some(BoardError::InvalidConfig));
    assert!(BoardEngine::new(config(2, 5, 4, 1, true)).is_ok());
    assert_eq!(BoardEngine::new(config(2, 5, 5, 1, true)).err(), Some(BoardError::InvalidConfig));
    assert!(BoardEngine::new(config(1, 1, 0, 1, true)).is_ok());
    assert_eq!(BoardEngine::new(config(1, 1, 1, 1, true)).err(), Some(BoardError::InvalidConfig));
    assert!(BoardEngine::new(config(1, 1, 1, 1, false)).is_ok());
}

#[test]
fn config_validity_matches_what_new_accepts() {
    assert!(config(4, 4, 16, 0, false).is_valid());
    assert!(!config(4, 4, 17, 0, false).is_valid());
    assert!(config(4, 4, 7, 0, true).is_valid());
    assert!(!config(4, 4, 8, 0, true).is_valid());
    assert!(!config(0, 0, 0, 0, false).is_valid());
    assert!(config(u16::MAX, u16::MAX, 4294836225, 0, false).is_valid());
    assert!(!config(u16::MAX, u16::MAX, 4294836226, 0, false).is_valid());
    assert!(!config(u16::MAX, u16::MAX, u32::MAX, 0, true).is_valid());
}

#[test]
fn the_same_seed_gives_the_same_session() {
    let a = BoardEngine::new(config(8, 8, 10, 2024, false)).unwrap();
    let b = BoardEngine::with_seed(config(8, 8, 10, 5, false), 2024).unwrap();
    assert_eq!(tiles(&a), tiles(&b));
    assert_eq!(
        tiles(&a),
        vec![
            "11.12221", "*112**3*", "111*4*31", "..12321.", ".112*211", ".1*212*1", "1221.111",
            "1*1....."
        ]
    );
}

#[test]
fn a_session_without_a_seed_is_well_formed() {
    let cfg =
        BoardConfig { width: 10, height: 8, mine_count: 12, seed: None, safe_first_click: true };
    let mut engine = BoardEngine::new(cfg).unwrap();
    let mut bombs = 0;
    for y in 0..8 {
        for x in 0..10 {
            assert_eq!(engine.state().status_at(at(x, y)), Ok(Status::Covered));
            if engine.grid().tile_at(at(x, y)).unwrap().is_bomb() {
                bombs += 1;
            }
        }
    }
    assert_eq!(bombs, 12);
    assert!(!engine.is_lost());
    assert!(!engine.is_won());
    assert_ne!(engine.reveal_cell(at(5, 5)), Ok(RevealOutcome::HitMine));
}

#[test]
fn from_grid_replays_a_board() {
    let grid = Grid::from_mines(4, 4, &vec![at(3, 3)]).unwrap();
    let mut a = BoardEngine::from_grid(grid.clone(), false, 0).unwrap();
    assert_eq!(a.reveal_cell(at(3, 3)), Ok(RevealOutcome::HitMine));
    assert!(a.is_lost());
    let mut b = BoardEngine::from_grid(grid, false, 0).unwrap();
    assert!(!b.is_lost());
    assert_eq!(uncovered_cells(b.reveal_cell(at(0, 0)).unwrap()).len(), 15);
    assert!(b.is_won());
}

#[test]
fn from_grid_checks_the_room_for_a_safe_first_reveal() {
    let crowded = Grid::build(4, 4, 8, 3).unwrap();
    assert_eq!(BoardEngine::from_grid(crowded, true, 1).err(), Some(BoardError::InvalidConfig));
    let crowded = Grid::build(4, 4, 8, 3).unwrap();
    assert!(BoardEngine::from_grid(crowded, false, 1).is_ok());
    let roomy = Grid::build(4, 4, 7, 3).unwrap();
    let mut engine = BoardEngine::from_grid(roomy, true, 1).unwrap();
    assert_ne!(engine.reveal_cell(at(1, 1)), Ok(RevealOutcome::HitMine));
}

#[test]
fn a_new_state_is_all_covered() {
    let state = RevealState::new(3, 2);
    assert_eq!(state.width(), 3);
    assert_eq!(state.height(), 2);
    for y in 0..2 {
        for x in 0..3 {
            assert_eq!(state.status_at(at(x, y)), Ok(Status::Covered));
        }
    }
    assert_eq!(state.status_at(at(3, 0)), Err(BoardError::InvalidCoordinate));
}
