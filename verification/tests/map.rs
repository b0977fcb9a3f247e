use bevycraft::grid::Grid;
use bevycraft::map::{MapAdapter, TileMapQuery, TileType};
use bevycraft::map_builder::{MapBuilder, MAP_HEIGHT, MAP_WIDTH};
use bevycraft::position::Position;

fn parse(rows: &[&str]) -> MapAdapter {
    let height = rows.len() as i32;
    let width = rows[0].len() as i32;
    let mut tiles = Vec::new();
    for row in rows {
        for c in row.chars() {
            tiles.push(if c == '.' { TileType::Floor } else { TileType::Wall });
        }
    }
    let grid = Grid::new(width, height).unwrap();
    MapAdapter::new(TileMapQuery::new(grid, tiles).unwrap())
}

#[test]
fn snapshot_needs_one_tile_each() {
    let grid = Grid::new(2, 2).unwrap();
    assert!(TileMapQuery::new(grid, vec![TileType::Wall; 3]).is_none());
    assert!(TileMapQuery::new(grid, vec![TileType::Wall; 5]).is_none());
    let q = TileMapQuery::new(grid, vec![TileType::Floor; 4]).unwrap();
    assert_eq!(q.dimensions(), Position::new(2, 2));
}

#[test]
fn can_enter_floors_of_the_grid_only() {
    let map = parse(&["#.#", "..#"]);
    assert!(map.can_enter_tile(Position::new(1, 0)));
    assert!(map.can_enter_tile(Position::new(0, 1)));
    assert!(!map.can_enter_tile(Position::new(0, 0)));
    assert!(!map.can_enter_tile(Position::new(2, 1)));
    assert!(!map.can_enter_tile(Position::new(-1, 0)));
    assert!(!map.can_enter_tile(Position::new(1, 2)));
    assert!(map.cell.can_enter_tile(&Position::new(1, 1)));
    assert_eq!(map.cell.tile_at(Position::new(2, 0)), Some(TileType::Wall));
    assert_eq!(map.cell.tile_at(Position::new(3, 0)), None);
}

#[test]
fn opacity_by_index() {
    let map = parse(&["#.#", "..#"]);
    assert!(map.is_opaque(0));
    assert!(!map.is_opaque(1));
    assert!(map.is_opaque(5));
    assert!(map.is_opaque(6));
    assert!(map.is_opaque(usize::MAX));
}

#[test]
fn exits_come_north_south_west_east() {
    let map = parse(&["...", "...", "..."]);
    // the middle tile has index 4; north is up the y axis
    assert_eq!(map.get_available_exits(4), vec![7, 1, 3, 5]);
    // a corner
    assert_eq!(map.get_available_exits(0), vec![3, 1]);
    assert_eq!(map.get_available_exits(8), vec![5, 7]);
}

#[test]
fn exits_leave_walls_out() {
    let map = parse(&["#.#", "...", "###"]);
    assert_eq!(map.get_available_exits(4), vec![1, 3, 5]);
    assert_eq!(map.get_available_exits(1), vec![4]);
    // a wall has exits too: what counts is the tile that is entered
    assert_eq!(map.get_available_exits(0), vec![3, 1]);
    assert_eq!(map.get_available_exits(9), Vec::<usize>::new());
}

#[test]
fn the_builder_lists_its_exits_west_east_south_north() {
    let grid = Grid::new(3, 3).unwrap();
    let mut mb = MapBuilder::walls(grid);
    mb.apply_horizontal_tunnel(0, 2, 1);
    mb.apply_vertical_tunnel(0, 2, 1);
    assert_eq!(mb.get_available_exits(4), vec![3, 5, 1, 7]);
    assert_eq!(mb.snapshot().get_available_exits(4), vec![7, 1, 3, 5]);
}

#[test]
fn valid_exit_checks_the_destination() {
    let map = parse(&["#.#", "...", "###"]);
    let loc = Position::new(1, 1);
    assert_eq!(map.valid_exit(loc, Position::new(-1, 0)), Some(3));
    assert_eq!(map.valid_exit(loc, Position::new(0, 1)), None);
    assert_eq!(map.valid_exit(loc, Position::new(0, -1)), Some(1));
    assert_eq!(map.valid_exit(Position::new(i32::MAX, 0), Position::new(1, 0)), None);
}

#[test]
fn adapter_geometry() {
    let map = parse(&["...", "..."]);
    assert_eq!(map.dimensions(), Position::new(3, 2));
    assert!(map.in_bounds(Position::new(2, 1)));
    assert!(!map.in_bounds(Position::new(3, 1)));
    assert_eq!(map.point2d_to_index(Position::new(2, 1)), 5);
    assert_eq!(map.index_to_point2d(5), Position::new(2, 1));
}

#[test]
fn default_builder_is_all_walls() {
    let mb = MapBuilder::default();
    assert_eq!(mb.grid.width, MAP_WIDTH);
    assert_eq!(mb.grid.height, MAP_HEIGHT);
    assert_eq!(mb.map_data.len(), 80 * 48);
    assert!(mb.map_data.iter().all(|t| *t == TileType::Wall));
    assert!(mb.player_start.is_none());
}

#[test]
fn new_builder_has_one_tile_each() {
    let mb = MapBuilder::new();
    assert_eq!(mb.map_data.len(), (MAP_WIDTH * MAP_HEIGHT) as usize);
    assert_eq!(mb.dimensions(), Position::new(MAP_WIDTH, MAP_HEIGHT));
}

#[test]
fn vertical_tunnel_is_one_column() {
    let grid = Grid::new(5, 4).unwrap();
    let mut mb = MapBuilder::walls(grid);
    mb.apply_vertical_tunnel(3, 1, 2);
    for y in 0..4 {
        for x in 0..5 {
            let expected = if x == 2 && (1..=3).contains(&y) { TileType::Floor } else { TileType::Wall };
            assert_eq!(mb.map_data[(y * 5 + x) as usize], expected);
        }
    }
}

#[test]
fn horizontal_tunnel_is_one_row() {
    let grid = Grid::new(5, 4).unwrap();
    let mut mb = MapBuilder::walls(grid);
    mb.apply_horizontal_tunnel(1, 3, 2);
    for y in 0..4 {
        for x in 0..5 {
            let expected = if y == 2 && (1..=3).contains(&x) { TileType::Floor } else { TileType::Wall };
            assert_eq!(mb.map_data[(y * 5 + x) as usize], expected);
        }
    }
}

#[test]
fn tunnels_leave_out_what_is_off_the_grid() {
    let grid = Grid::new(3, 3).unwrap();
    let mut mb = MapBuilder::walls(grid);
    mb.apply_horizontal_tunnel(-5, 10, 1);
    assert_eq!(
        mb.map_data,
        vec![
            TileType::Wall, TileType::Wall, TileType::Wall,
            TileType::Floor, TileType::Floor, TileType::Floor,
            TileType::Wall, TileType::Wall, TileType::Wall,
        ]
    );
    mb.apply_vertical_tunnel(i32::MIN, i32::MAX, 7);
    mb.apply_vertical_tunnel(0, 2, -1);
    mb.apply_horizontal_tunnel(0, 2, 3);
    assert_eq!(mb.map_data.iter().filter(|t| **t == TileType::Floor).count(), 3);
}

#[test]
fn builder_queries() {
    let grid = Grid::new(3, 3).unwrap();
    let mut mb = MapBuilder::walls(grid);
    mb.apply_horizontal_tunnel(0, 2, 1);
    assert!(mb.can_enter_tile(Position::new(1, 1)));
    assert!(!mb.can_enter_tile(Position::new(1, 0)));
    assert!(!mb.can_enter_tile(Position::new(3, 1)));
    assert_eq!(mb.try_idx(Position::new(2, 2)), Some(8));
    assert_eq!(mb.try_idx(Position::new(2, 3)), None);
    assert!(mb.in_bounds(Position::new(2, 2)));
    assert!(mb.is_opaque(0));
    assert!(!mb.is_opaque(4));
    assert!(mb.is_opaque(9));
    assert_eq!(mb.valid_exit(Position::new(1, 1), Position::new(1, 0)), Some(5));
    assert_eq!(mb.valid_exit(Position::new(1, 1), Position::new(0, 1)), None);
    assert_eq!(mb.get_available_exits(4), vec![3, 5]);
    let map = mb.snapshot();
    assert_eq!(map.cell.tiles, mb.map_data);
    assert_eq!(map.cell.grid, mb.grid);
}
