use bevycraft::architect::{generate, ArchitectKind};
use bevycraft::grid::Grid;
use bevycraft::map::TileType;
use bevycraft::map_builder::MapBuilder;
use bevycraft::position::Position;
use bevycraft::rect::Rect;
use bevycraft::rooms::{sort_by_x, RoomsArchitect, NUM_ROOMS};

const W: TileType = TileType::Wall;
const F: TileType = TileType::Floor;

fn room(x1: i32, y1: i32, x2: i32, y2: i32) -> Rect {
    Rect { x1, x2, y1, y2 }
}

fn picture(mb: &MapBuilder) -> Vec<String> {
    let mut rows = Vec::new();
    for y in 0..mb.grid.height {
        let mut row = String::new();
        for x in 0..mb.grid.width {
            row.push(if mb.map_data[(y * mb.grid.width + x) as usize] == F { '.' } else { '#' });
        }
        rows.push(row);
    }
    rows
}

#[test]
fn placing_a_room_carves_it() {
    let grid = Grid::new(6, 5).unwrap();
    let mut mb = MapBuilder::walls(grid);
    let mut architect = RoomsArchitect::new();
    assert!(architect.place_room(&mut mb, room(1, 1, 4, 3)));
    assert_eq!(architect.rooms, vec![room(1, 1, 4, 3)]);
    assert_eq!(
        picture(&mb),
        vec![
            "######",
            "#...##",
            "#...##",
            "######",
            "######",
        ]
    );
}

#[test]
fn rooms_that_overlap_or_touch_are_passed_over() {
    let grid = Grid::new(12, 12).unwrap();
    let mut mb = MapBuilder::walls(grid);
    let mut architect = RoomsArchitect::new();
    assert!(architect.place_room(&mut mb, room(2, 2, 5, 5)));
    let before = mb.map_data.clone();
    // overlapping
    assert!(!architect.place_room(&mut mb, room(4, 4, 7, 7)));
    // sharing an edge
    assert!(!architect.place_room(&mut mb, room(5, 2, 8, 5)));
    // touching at a corner
    assert!(!architect.place_room(&mut mb, room(5, 5, 7, 7)));
    assert_eq!(mb.map_data, before);
    assert_eq!(architect.rooms.len(), 1);
    assert!(architect.overlaps(&room(5, 5, 7, 7)));
    assert!(!architect.overlaps(&room(6, 6, 8, 8)));
    // one tile apart
    assert!(architect.place_room(&mut mb, room(6, 2, 8, 5)));
    assert_eq!(architect.rooms.len(), 2);
}

#[test]
fn rooms_that_do_not_fit_are_passed_over() {
    let grid = Grid::new(6, 5).unwrap();
    let mut mb = MapBuilder::walls(grid);
    let mut architect = RoomsArchitect::new();
    assert!(!architect.place_room(&mut mb, room(-1, 1, 3, 3)));
    assert!(!architect.place_room(&mut mb, room(4, 1, 7, 3)));
    assert!(!architect.place_room(&mut mb, room(1, 3, 3, 6)));
    assert!(!architect.place_room(&mut mb, room(2, 2, 2, 4)));
    assert!(!architect.place_room(&mut mb, room(3, 3, 1, 1)));
    assert!(architect.rooms.is_empty());
    assert!(mb.map_data.iter().all(|t| *t == W));
    assert!(RoomsArchitect::fits(&grid, &room(0, 0, 6, 5)));
    assert!(!RoomsArchitect::fits(&grid, &room(0, 0, 7, 5)));
}

#[test]
fn centers_are_halfway() {
    let grid = Grid::new(20, 20).unwrap();
    let mut mb = MapBuilder::walls(grid);
    let mut architect = RoomsArchitect::new();
    assert!(architect.place_room(&mut mb, room(1, 1, 4, 3)));
    assert!(architect.place_room(&mut mb, room(10, 6, 15, 15)));
    assert_eq!(
        architect.centers(&grid),
        vec![Position::new(2, 2), Position::new(12, 10)]
    );
}

#[test]
fn sorting_by_x_is_stable() {
    let positions = vec![
        Position::new(5, 0),
        Position::new(2, 1),
        Position::new(5, 2),
        Position::new(-1, 3),
        Position::new(2, 4),
    ];
    assert_eq!(
        sort_by_x(&positions),
        vec![
            Position::new(-1, 3),
            Position::new(2, 1),
            Position::new(2, 4),
            Position::new(5, 0),
            Position::new(5, 2),
        ]
    );
    assert_eq!(sort_by_x(&Vec::new()), Vec::new());
}

#[test]
fn a_corridor_has_one_bend() {
    let grid = Grid::new(6, 5).unwrap();
    let mut mb = MapBuilder::walls(grid);
    RoomsArchitect::dig_corridor(&mut mb, Position::new(1, 1), Position::new(4, 3), true);
    assert_eq!(
        picture(&mb),
        vec![
            "######",
            "#....#",
            "####.#",
            "####.#",
            "######",
        ]
    );
    let mut mb = MapBuilder::walls(grid);
    RoomsArchitect::dig_corridor(&mut mb, Position::new(1, 1), Position::new(4, 3), false);
    assert_eq!(
        picture(&mb),
        vec![
            "######",
            "#.####",
            "#.####",
            "#....#",
            "######",
        ]
    );
}

#[test]
fn corridors_join_the_rooms_from_west_to_east() {
    let grid = Grid::new(16, 9).unwrap();
    let mut mb = MapBuilder::walls(grid);
    let mut architect = RoomsArchitect::new();
    // placed out of order: the middle room last
    assert!(architect.place_room(&mut mb, room(1, 1, 4, 4)));
    assert!(architect.place_room(&mut mb, room(12, 1, 15, 4)));
    assert!(architect.place_room(&mut mb, room(6, 5, 9, 8)));
    architect.build_corridors_with(&mut mb, &vec![true, false]);
    assert_eq!(
        picture(&mb),
        vec![
            "################",
            "#...########...#",
            "#..............#",
            "#...###.####...#",
            "#######.########",
            "######...#######",
            "######...#######",
            "######...#######",
            "################",
        ]
    );
}

#[test]
fn corridors_of_one_room_or_none() {
    let grid = Grid::new(8, 8).unwrap();
    let mut mb = MapBuilder::walls(grid);
    let mut architect = RoomsArchitect::new();
    architect.build_corridors_with(&mut mb, &Vec::new());
    assert!(mb.map_data.iter().all(|t| *t == W));
    assert!(architect.place_room(&mut mb, room(1, 1, 3, 3)));
    let before = mb.map_data.clone();
    architect.build_corridors_with(&mut mb, &Vec::new());
    assert_eq!(mb.map_data, before);
}

#[test]
fn starts_are_chosen_by_the_middle() {
    let grid = Grid::new(16, 9).unwrap();
    let mut mb = MapBuilder::walls(grid);
    let mut architect = RoomsArchitect::new();
    assert!(architect.place_room(&mut mb, room(1, 1, 4, 4)));
    assert!(architect.place_room(&mut mb, room(12, 1, 15, 4)));
    assert!(architect.place_room(&mut mb, room(6, 5, 9, 8)));
    architect.build_corridors_with(&mut mb, &vec![true, false]);
    assert!(architect.choose_starts(&mut mb));
    // the middle of the grid is (8, 4); the centre (7, 6) is closest
    assert_eq!(mb.player_start, Some(Position::new(7, 6)));
    assert_eq!(mb.spawn_locations, vec![Position::new(2, 2), Position::new(13, 2)]);
    // the farthest tiles are the two east corners of the eastern room, twelve
    // steps away; the one of smaller index is in the row 1
    assert_eq!(mb.amulet_start, Some(Position::new(14, 1)));
}

#[test]
fn no_room_no_start() {
    let grid = Grid::new(8, 8).unwrap();
    let mut mb = MapBuilder::walls(grid);
    let architect = RoomsArchitect::new();
    assert!(!architect.choose_starts(&mut mb));
    assert!(mb.player_start.is_none());
    assert!(mb.amulet_start.is_none());
}

fn is_floor(mb: &MapBuilder, p: Position) -> bool {
    mb.can_enter_tile(p)
}

#[test]
fn random_rooms_level() {
    let grid = Grid::new(80, 48).unwrap();
    let mut made = 0;
    for _ in 0..5 {
        let mut architect = RoomsArchitect::new();
        if let Some(mb) = architect.architect(grid) {
            made += 1;
            assert_eq!(mb.map_data.len(), 80 * 48);
            assert_eq!(architect.rooms.len(), NUM_ROOMS);
            for (i, a) in architect.rooms.iter().enumerate() {
                assert!(1 <= a.x1 && a.x1 < 70 && 1 <= a.y1 && a.y1 < 38);
                assert!(2 <= a.x2 - a.x1 && a.x2 - a.x1 < 10);
                assert!(2 <= a.y2 - a.y1 && a.y2 - a.y1 < 10);
                for y in a.y1..a.y2 {
                    for x in a.x1..a.x2 {
                        assert!(is_floor(&mb, Position::new(x, y)));
                    }
                }
                for b in &architect.rooms[i + 1..] {
                    let apart = a.x1 > b.x2 || a.x2 < b.x1 || a.y1 > b.y2 || a.y2 < b.y1;
                    assert!(apart);
                }
            }
            let start = mb.player_start.unwrap();
            assert!(is_floor(&mb, start));
            assert!(is_floor(&mb, mb.amulet_start.unwrap()));
            assert_eq!(mb.spawn_locations.len(), NUM_ROOMS - 1);
            for p in &mb.spawn_locations {
                assert!(is_floor(&mb, *p));
                assert_ne!(*p, start);
            }
        }
    }
    assert!(made > 0);
}

#[test]
fn a_grid_too_small_for_rooms() {
    let grid = Grid::new(11, 30).unwrap();
    let mut architect = RoomsArchitect::new();
    assert!(architect.architect(grid).is_none());
    assert!(architect.rooms.is_empty());
}

#[test]
fn generation_always_makes_a_level() {
    let small = Grid::new(11, 11).unwrap();
    let mb = generate(ArchitectKind::Rooms, small);
    assert_eq!(mb.map_data.len(), 121);
    assert!(mb.player_start.is_none());
    let grid = Grid::new(80, 48).unwrap();
    let mb = generate(ArchitectKind::Rooms, grid);
    assert_eq!(mb.map_data.len(), 80 * 48);
    assert!(mb.player_start.is_some());
    let mb = generate(ArchitectKind::CellularAutomata, grid);
    assert_eq!(mb.map_data.len(), 80 * 48);
    assert!(mb.player_start.is_none());
}

fn grid_of_rooms() -> Vec<Rect> {
    let mut candidates = Vec::new();
    for j in 0..4 {
        for i in 0..5 {
            candidates.push(room(1 + 8 * i, 1 + 8 * j, 4 + 8 * i, 4 + 8 * j));
        }
    }
    candidates
}

#[test]
fn a_level_of_given_candidates() {
    let grid = Grid::new(80, 48).unwrap();
    let mut candidates = grid_of_rooms();
    // one that touches the first, one that does not fit, and one too many
    candidates.insert(1, room(4, 1, 7, 4));
    candidates.insert(5, room(78, 1, 82, 4));
    candidates.push(room(60, 40, 63, 43));
    let flips = vec![true; NUM_ROOMS - 1];
    let mut architect = RoomsArchitect::new();
    let mb = architect.architect_with(grid, &candidates, &flips).unwrap();
    assert_eq!(architect.rooms, grid_of_rooms());
    // the same level, made step by step
    let mut by_hand = RoomsArchitect::new();
    let mut expected = MapBuilder::walls(grid);
    for candidate in grid_of_rooms() {
        assert!(by_hand.place_room(&mut expected, candidate));
    }
    by_hand.build_corridors_with(&mut expected, &flips);
    assert!(by_hand.choose_starts(&mut expected));
    assert_eq!(mb.map_data, expected.map_data);
    assert_eq!(mb.player_start, expected.player_start);
    assert_eq!(mb.amulet_start, expected.amulet_start);
    assert_eq!(mb.spawn_locations, expected.spawn_locations);
    // the middle of the grid is (40, 24): the centre (34, 26) is closest
    assert_eq!(mb.player_start, Some(Position::new(34, 26)));
    assert_eq!(mb.spawn_locations.len(), NUM_ROOMS - 1);
    assert!(is_floor(&mb, Position::new(1, 1)));
    assert!(!is_floor(&mb, Position::new(4, 4)));
    assert!(!is_floor(&mb, Position::new(60, 40)));
}

#[test]
fn too_few_candidates_make_no_level() {
    let grid = Grid::new(80, 48).unwrap();
    let mut candidates = grid_of_rooms();
    candidates.pop();
    candidates.push(room(1, 1, 4, 4));
    let flips = vec![false; NUM_ROOMS - 1];
    let mut architect = RoomsArchitect::new();
    assert!(architect.architect_with(grid, &candidates, &flips).is_none());
    assert_eq!(architect.rooms.len(), NUM_ROOMS - 1);
    assert_eq!(architect.rooms[..], grid_of_rooms()[..NUM_ROOMS - 1]);
    assert!(architect.architect_with(grid, &Vec::new(), &flips).is_none());
    assert!(architect.rooms.is_empty());
}

#[test]
fn a_level_needs_a_bend_for_each_corridor() {
    let grid = Grid::new(80, 48).unwrap();
    let candidates = grid_of_rooms();
    let mut architect = RoomsArchitect::new();
    assert!(architect.architect_with(grid, &candidates, &vec![true; NUM_ROOMS]).is_none());
    assert_eq!(architect.rooms.len(), NUM_ROOMS);
    assert!(architect.architect_with(grid, &candidates, &Vec::new()).is_none());
    assert!(architect.architect_with(grid, &candidates, &vec![true; NUM_ROOMS - 1]).is_some());
}

#[test]
fn a_small_grid_fails_whatever_is_drawn() {
    for (w, h) in [(11, 48), (80, 11), (1, 1), (11, 11)] {
        let grid = Grid::new(w, h).unwrap();
        let mut architect = RoomsArchitect::new();
        assert!(architect.architect(grid).is_none());
        assert!(architect.rooms.is_empty());
    }
}

