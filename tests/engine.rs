use game_of_life_rs::{seed_target, CellState, GameOfLife, LifeError};

fn empty(rows: i32, cols: i32) -> GameOfLife {
    GameOfLife::new(rows, cols, 0, 1).unwrap()
}

fn alive_cells(g: &GameOfLife) -> Vec<(i32, i32)> {
    let mut out = Vec::new();
    for x in 0..g.row_count() {
        for y in 0..g.col_count() {
            if g.read_cell(x, y).unwrap() {
                out.push((x, y));
            }
        }
    }
    out
}

fn scanned_count(g: &GameOfLife, x: i32, y: i32) -> i32 {
    let mut n = 0;
    for i in (x - 1)..=(x + 1) {
        for j in (y - 1)..=(y + 1) {
            if (i, j) != (x, y) && g.read_cell(i, j) == Ok(true) {
                n += 1;
            }
        }
    }
    n
}

fn assert_counts_exact(g: &GameOfLife) {
    for x in 0..g.row_count() {
        for y in 0..g.col_count() {
            assert_eq!(g.cell(x, y).unwrap().neighbours_count, scanned_count(g, x, y));
        }
    }
}

fn game_with(rows: i32, cols: i32, live: &[(i32, i32)]) -> GameOfLife {
    let mut g = empty(rows, cols);
    for &(x, y) in live {
        g.toggle_cell(x, y).unwrap();
    }
    g
}

#[test]
fn new_cell_is_dead_with_no_neighbours() {
    let c = CellState::new();
    assert!(!c.alive);
    assert_eq!(c.neighbours_count, 0);
}

#[test]
fn swap_life_flips_only_alive() {
    let mut c = CellState { alive: false, neighbours_count: 5 };
    c.swap_life();
    assert!(c.alive);
    assert_eq!(c.neighbours_count, 5);
    c.swap_life();
    assert!(!c.alive);
}

#[test]
fn empty_game_is_all_dead() {
    let g = empty(4, 7);
    assert_eq!(g.row_count(), 4);
    assert_eq!(g.col_count(), 7);
    assert!(alive_cells(&g).is_empty());
    assert_counts_exact(&g);
}

#[test]
fn seed_target_values() {
    assert_eq!(seed_target(50, 50, 2, 5), 1000);
    assert_eq!(seed_target(3, 3, 1, 2), 4);
    assert_eq!(seed_target(7, 3, 1, 3), 7);
    assert_eq!(seed_target(10, 10, 0, 1), 0);
    assert_eq!(seed_target(10, 10, 1, 1), 100);
}

#[test]
fn seeding_places_exact_count_off_last_row_and_column() {
    let g = GameOfLife::new(50, 50, 2, 5).unwrap();
    let live = alive_cells(&g);
    assert_eq!(live.len(), 1000);
    for &(x, y) in &live {
        assert!(x < 49 && y < 49);
    }
    assert_counts_exact(&g);
}

#[test]
fn seeding_small_board() {
    let g = GameOfLife::new(5, 4, 1, 4).unwrap();
    assert_eq!(alive_cells(&g).len(), 5);
    assert_counts_exact(&g);
}

#[test]
fn seeding_beyond_room_is_degenerate() {
    assert!(matches!(GameOfLife::new(3, 3, 1, 1), Err(LifeError::DegenerateSeed)));
    assert!(matches!(GameOfLife::new(1, 5, 1, 1), Err(LifeError::DegenerateSeed)));
}

#[test]
fn toggle_out_of_bounds_is_refused() {
    let mut g = empty(3, 3);
    assert_eq!(g.toggle_cell(3, 0), Err(LifeError::OutOfBounds));
    assert_eq!(g.toggle_cell(0, -1), Err(LifeError::OutOfBounds));
    assert_eq!(g.read_cell(-1, 0), Err(LifeError::OutOfBounds));
    assert_eq!(g.read_cell(0, 3), Err(LifeError::OutOfBounds));
    assert!(g.cell(5, 5).is_err());
    assert!(alive_cells(&g).is_empty());
}

#[test]
fn toggle_updates_neighbour_counts() {
    let mut g = empty(5, 5);
    assert_eq!(g.toggle_cell(2, 2), Ok(()));
    assert_eq!(g.read_cell(2, 2), Ok(true));
    for x in 0..5 {
        for y in 0..5 {
            let expected = if (x - 2i32).abs() <= 1 && (y - 2i32).abs() <= 1 && (x, y) != (2, 2) {
                1
            } else {
                0
            };
            assert_eq!(g.cell(x, y).unwrap().neighbours_count, expected);
        }
    }
}

#[test]
fn corner_cell_counts_three_neighbours() {
    let mut g = game_with(4, 4, &[(0, 0)]);
    assert_eq!(g.cell(0, 1).unwrap().neighbours_count, 1);
    assert_eq!(g.cell(1, 0).unwrap().neighbours_count, 1);
    assert_eq!(g.cell(1, 1).unwrap().neighbours_count, 1);
    assert_eq!(g.cell(2, 2).unwrap().neighbours_count, 0);
    g.toggle_cell(0, 1).unwrap();
    g.toggle_cell(1, 0).unwrap();
    g.toggle_cell(1, 1).unwrap();
    assert_eq!(g.cell(0, 0).unwrap().neighbours_count, 3);
    assert_counts_exact(&g);
}

#[test]
fn toggle_twice_restores_board() {
    let mut g = game_with(6, 6, &[(1, 1), (2, 3), (4, 4)]);
    let before: Vec<CellState> =
        (0..6).flat_map(|x| (0..6).map(move |y| (x, y))).map(|(x, y)| g.cell(x, y).unwrap()).collect();
    g.toggle_cell(2, 2).unwrap();
    g.toggle_cell(2, 2).unwrap();
    let after: Vec<CellState> =
        (0..6).flat_map(|x| (0..6).map(move |y| (x, y))).map(|(x, y)| g.cell(x, y).unwrap()).collect();
    assert_eq!(before, after);
}

#[test]
fn block_is_still_life() {
    let block = [(2, 2), (2, 3), (3, 2), (3, 3)];
    let mut g = game_with(6, 6, &block);
    g.update_board();
    let mut live = alive_cells(&g);
    live.sort();
    assert_eq!(live, block.to_vec());
    assert_counts_exact(&g);
}

#[test]
fn blinker_has_period_two() {
    let mut g = game_with(5, 5, &[(2, 1), (2, 2), (2, 3)]);
    g.update_board();
    assert_eq!(alive_cells(&g), vec![(1, 2), (2, 2), (3, 2)]);
    assert_counts_exact(&g);
    g.update_board();
    assert_eq!(alive_cells(&g), vec![(2, 1), (2, 2), (2, 3)]);
    assert_counts_exact(&g);
}

#[test]
fn lonely_cell_dies_and_crowded_cell_dies() {
    let mut g = game_with(3, 3, &[(1, 1)]);
    g.update_board();
    assert!(alive_cells(&g).is_empty());
    let mut g = game_with(3, 3, &[(0, 0), (0, 1), (0, 2), (1, 0), (1, 1)]);
    g.update_board();
    assert_eq!(g.read_cell(1, 1), Ok(false));
    assert_counts_exact(&g);
}

#[test]
fn dead_cell_with_three_neighbours_is_born() {
    let mut g = game_with(4, 4, &[(0, 0), (0, 2), (2, 0)]);
    g.update_board();
    assert_eq!(g.read_cell(1, 1), Ok(true));
    assert_counts_exact(&g);
}

#[test]
fn counts_stay_exact_over_toggles_and_generations() {
    let mut g = GameOfLife::new(20, 15, 1, 3).unwrap();
    for k in 0..30 {
        g.toggle_cell((k * 7) % 20, (k * 5) % 15).unwrap();
        if k % 3 == 0 {
            g.update_board();
        }
        assert_counts_exact(&g);
    }
}

#[test]
fn seed_cell_places_only_on_dead_cells() {
    let mut g = empty(4, 4);
    assert!(g.seed_cell(1, 2));
    assert_eq!(g.read_cell(1, 2), Ok(true));
    assert!(!g.seed_cell(1, 2));
    assert_eq!(g.read_cell(1, 2), Ok(true));
    assert_counts_exact(&g);
}

#[test]
fn inc_neighbours_adds_one_around() {
    let mut g = empty(3, 3);
    assert_eq!(g.inc_neighbours(0, 0), Ok(()));
    assert_eq!(g.cell(0, 1).unwrap().neighbours_count, 1);
    assert_eq!(g.cell(1, 1).unwrap().neighbours_count, 1);
    assert_eq!(g.cell(0, 0).unwrap().neighbours_count, 0);
    assert_eq!(g.cell(2, 2).unwrap().neighbours_count, 0);
    assert_eq!(g.read_cell(0, 0), Ok(false));
}

#[test]
fn inc_neighbours_off_board_is_refused() {
    let mut g = empty(3, 3);
    assert_eq!(g.inc_neighbours(-1, 0), Err(LifeError::OutOfBounds));
    assert_eq!(g.inc_neighbours(3, 1), Err(LifeError::OutOfBounds));
    assert_eq!(g.inc_neighbours(1, 3), Err(LifeError::OutOfBounds));
    assert_counts_exact(&g);
}

#[test]
fn seed_draw_places_counts_misses_and_gives_up() {
    let mut g = empty(4, 4);
    assert_eq!(g.seed_draw(1, 1, 0, 2), Ok(0));
    assert_eq!(g.read_cell(1, 1), Ok(true));
    assert_eq!(g.seed_draw(1, 1, 0, 2), Ok(1));
    assert_eq!(g.seed_draw(1, 1, 1, 2), Ok(2));
    assert_eq!(g.seed_draw(1, 1, 2, 2), Err(LifeError::DegenerateSeed));
    assert_eq!(g.seed_draw(2, 2, 2, 2), Ok(2));
    assert_eq!(alive_cells(&g), vec![(1, 1), (2, 2)]);
    assert_counts_exact(&g);
}
