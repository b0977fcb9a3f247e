use bevycraft::automata::{noise_tile, smoothed_tile, CellularAutomataArchitect, ITERATIONS};
use bevycraft::grid::Grid;
use bevycraft::map::TileType;
use bevycraft::map_builder::MapBuilder;
use bevycraft::position::Position;

const W: TileType = TileType::Wall;
const F: TileType = TileType::Floor;

fn level(grid: Grid, tiles: Vec<TileType>) -> MapBuilder {
    let mut mb = MapBuilder::walls(grid);
    mb.map_data = tiles;
    mb
}

#[test]
fn noise_is_floor_above_55() {
    assert_eq!(noise_tile(0), W);
    assert_eq!(noise_tile(55), W);
    assert_eq!(noise_tile(56), F);
    assert_eq!(noise_tile(99), F);
}

#[test]
fn smoothing_rule() {
    assert_eq!(smoothed_tile(0), W);
    assert_eq!(smoothed_tile(1), F);
    assert_eq!(smoothed_tile(4), F);
    assert_eq!(smoothed_tile(5), W);
    assert_eq!(smoothed_tile(8), W);
}

#[test]
fn counts_the_walls_around() {
    let grid = Grid::new(3, 3).unwrap();
    let architect = CellularAutomataArchitect {};
    let mb = level(grid, vec![W; 9]);
    assert_eq!(architect.count_neighbors(&Position::new(1, 1), &mb), 8);
    assert_eq!(architect.count_neighbors(&Position::new(0, 0), &mb), 3);
    assert_eq!(architect.count_neighbors(&Position::new(1, 0), &mb), 5);
    assert_eq!(architect.count_neighbors(&Position::new(5, 5), &mb), 0);
    assert_eq!(architect.count_neighbors(&Position::new(3, 1), &mb), 3);
}

#[test]
fn the_tile_itself_is_no_neighbor() {
    let grid = Grid::new(3, 3).unwrap();
    let architect = CellularAutomataArchitect {};
    let mb = level(grid, vec![F, F, F, F, W, F, F, F, F]);
    assert_eq!(architect.count_neighbors(&Position::new(1, 1), &mb), 0);
    assert_eq!(architect.count_neighbors(&Position::new(0, 0), &mb), 1);
}

#[test]
fn each_neighbor_counts_once() {
    let grid = Grid::new(3, 3).unwrap();
    let architect = CellularAutomataArchitect {};
    for wall in 0..9usize {
        let mut tiles = vec![F; 9];
        tiles[wall] = W;
        let mb = level(grid, tiles);
        let expected = if wall == 4 { 0 } else { 1 };
        assert_eq!(architect.count_neighbors(&Position::new(1, 1), &mb), expected);
    }
}

#[test]
fn one_step_of_the_automaton() {
    let grid = Grid::new(3, 3).unwrap();
    let mut architect = CellularAutomataArchitect {};
    let mut mb = level(grid, vec![W; 9]);
    architect.iteration(&mut mb);
    assert_eq!(mb.map_data, vec![F, W, F, W, W, W, F, W, F]);
    architect.iteration(&mut mb);
    assert_eq!(mb.map_data, vec![F; 9]);
    architect.iteration(&mut mb);
    assert_eq!(mb.map_data, vec![W; 9]);
}

#[test]
fn ten_steps_from_given_noise() {
    assert_eq!(ITERATIONS, 10);
    let grid = Grid::new(3, 3).unwrap();
    let mut architect = CellularAutomataArchitect {};
    let mb = architect.architect_from_noise(grid, vec![W; 9]);
    assert_eq!(mb.map_data, vec![F, W, F, W, W, W, F, W, F]);
    let mb = architect.architect_from_noise(grid, vec![F; 9]);
    assert_eq!(mb.map_data, vec![W; 9]);
    assert!(mb.player_start.is_none());
    assert!(mb.amulet_start.is_none());
    assert!(mb.spawn_locations.is_empty());
}

#[test]
fn same_draws_same_level() {
    let grid = Grid::new(12, 9).unwrap();
    let mut draws = Vec::new();
    let mut state: u32 = 12345;
    for _ in 0..108 {
        state = state.wrapping_mul(1103515245).wrapping_add(12345);
        draws.push(((state >> 16) % 100) as i32);
    }
    let mut architect = CellularAutomataArchitect {};
    let first = architect.architect_from_draws(grid, &draws);
    let second = architect.architect_from_draws(grid, &draws);
    assert_eq!(first.map_data, second.map_data);
    assert_eq!(first.map_data.len(), 108);
    assert_eq!(first.grid, grid);
}

#[test]
fn draws_count_by_the_tile_they_stand_for() {
    let grid = Grid::new(3, 3).unwrap();
    let mut architect = CellularAutomataArchitect {};
    let low = architect.architect_from_draws(grid, &vec![0; 9]);
    let high = architect.architect_from_draws(grid, &vec![55; 9]);
    assert_eq!(low.map_data, high.map_data);
    assert_eq!(low.map_data, vec![F, W, F, W, W, W, F, W, F]);
    let floors = architect.architect_from_draws(grid, &vec![99; 9]);
    assert_eq!(floors.map_data, vec![W; 9]);
}

#[test]
fn random_level_has_one_tile_each() {
    let mut architect = CellularAutomataArchitect {};
    for (w, h) in [(1, 1), (5, 3), (20, 10), (80, 48)] {
        let grid = Grid::new(w, h).unwrap();
        let mb = architect.architect(grid);
        assert_eq!(mb.map_data.len(), (w * h) as usize);
        assert_eq!(mb.grid, grid);
        assert!(mb.map_data.iter().all(|t| *t == W || *t == F));
    }
}
