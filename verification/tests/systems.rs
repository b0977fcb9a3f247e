use bevycraft::ai::{chasing, chasing_with};
use bevycraft::distance::{DistanceField, PATHING_DEPTH};
use bevycraft::entities::{EntityId, WantsToAttack, WantsToMove};
use bevycraft::grid::Grid;
use bevycraft::map::{MapAdapter, TileMapQuery, TileType};
use bevycraft::mobs::{movement, resolve_move, MoveOutcome};
use bevycraft::placement::{closest_to, find_start_positions, most_distant_from};
use bevycraft::player_input::{key_delta, player_input, Key};
use bevycraft::position::Position;
use bevycraft::spawning::{
    assign_spawns, exclude_vicinity, floor_positions, spawn_sites, spawn_sites_with, NUM_MONSTERS,
};
use bevycraft::turn_state::TurnState;

fn parse(rows: &[&str]) -> MapAdapter {
    let height = rows.len() as i32;
    let width = rows[0].len() as i32;
    let mut tiles = Vec::new();
    for row in rows {
        for c in row.chars() {
            tiles.push(if c == '.' { TileType::Floor } else { TileType::Wall });
        }
    }
    let grid = Grid::new(width, height).unwrap();
    MapAdapter::new(TileMapQuery::new(grid, tiles).unwrap())
}

fn open(width: i32, height: i32) -> MapAdapter {
    let grid = Grid::new(width, height).unwrap();
    MapAdapter::new(TileMapQuery::new(grid, vec![TileType::Floor; (width * height) as usize]).unwrap())
}

fn mv(id: u64, x: i32, y: i32) -> WantsToMove {
    WantsToMove { entity: EntityId(id), destination: Position::new(x, y) }
}

#[test]
fn chasers_step_towards_the_player() {
    let map = open(7, 1);
    let movers = vec![(EntityId(2), Position::new(5, 0)), (EntityId(3), Position::new(3, 0))];
    let msgs = chasing(&movers, Position::new(0, 0), &map);
    assert_eq!(msgs, vec![mv(2, 4, 0), mv(3, 2, 0)]);
}

#[test]
fn chasers_next_to_the_player_attack() {
    let map = open(5, 5);
    let player = Position::new(2, 2);
    let movers = vec![
        (EntityId(2), Position::new(3, 2)),
        (EntityId(3), Position::new(2, 1)),
        (EntityId(4), Position::new(3, 3)),
    ];
    let msgs = chasing(&movers, player, &map);
    // the third stands across a corner: it is not next to the player, and
    // takes a step, the first of its two equally good exits: south comes
    // before west
    assert_eq!(msgs, vec![mv(2, 2, 2), mv(3, 2, 2), mv(4, 3, 2)]);
}

#[test]
fn chasers_walk_around_walls() {
    let map = parse(&[
        ".....",
        ".###.",
        ".....",
    ]);
    // both ways round are equally long: south comes before west
    let msgs = chasing(&vec![(EntityId(2), Position::new(4, 2))], Position::new(0, 0), &map);
    assert_eq!(msgs, vec![mv(2, 4, 1)]);
    // and north before west
    let msgs = chasing(&vec![(EntityId(2), Position::new(4, 0))], Position::new(0, 2), &map);
    assert_eq!(msgs, vec![mv(2, 4, 1)]);
    // one way is shorter
    let msgs = chasing(&vec![(EntityId(2), Position::new(3, 2))], Position::new(0, 0), &map);
    assert_eq!(msgs, vec![mv(2, 2, 2)]);
}

#[test]
fn chasers_that_cannot_reach_the_player_stand_still() {
    let map = parse(&["..#.."]);
    let msgs = chasing(&vec![(EntityId(2), Position::new(4, 0))], Position::new(0, 0), &map);
    assert!(msgs.is_empty());
    // walled in, without an exit
    let map = parse(&["..#.#"]);
    let msgs = chasing(&vec![(EntityId(2), Position::new(3, 0))], Position::new(0, 0), &map);
    assert!(msgs.is_empty());
    // off the grid
    let map = open(3, 3);
    let msgs = chasing(&vec![(EntityId(2), Position::new(7, 7))], Position::new(0, 0), &map);
    assert!(msgs.is_empty());
    // the player off the grid
    let msgs = chasing(&vec![(EntityId(2), Position::new(2, 2))], Position::new(-5, 0), &map);
    assert!(msgs.is_empty());
}

#[test]
fn chasing_with_a_given_field() {
    let map = open(4, 1);
    let field = DistanceField::new(&map, &vec![3], PATHING_DEPTH);
    let msgs = chasing_with(&field, &vec![(EntityId(9), Position::new(0, 0))], Position::new(3, 0), &map);
    assert_eq!(msgs, vec![mv(9, 1, 0)]);
}

#[test]
fn moves_into_walls_are_blocked() {
    let map = parse(&["..#"]);
    let mobs = vec![(EntityId(1), Position::new(0, 0))];
    assert_eq!(resolve_move(&mv(1, 2, 0), &map.cell, &mobs), MoveOutcome::Blocked);
    assert_eq!(resolve_move(&mv(1, 3, 0), &map.cell, &mobs), MoveOutcome::Blocked);
    assert_eq!(resolve_move(&mv(1, 0, -1), &map.cell, &mobs), MoveOutcome::Blocked);
    assert_eq!(resolve_move(&mv(1, 1, 0), &map.cell, &mobs), MoveOutcome::Move(mv(1, 1, 0)));
}

#[test]
fn moves_onto_creatures_are_attacks() {
    let map = open(3, 1);
    let mobs = vec![
        (EntityId(1), Position::new(0, 0)),
        (EntityId(2), Position::new(1, 0)),
        (EntityId(3), Position::new(1, 0)),
    ];
    assert_eq!(
        resolve_move(&mv(1, 1, 0), &map.cell, &mobs),
        MoveOutcome::Attack(WantsToAttack { attacker: EntityId(1), victim: EntityId(2) })
    );
    let outcomes = movement(&vec![mv(1, 1, 0), mv(2, 2, 0), mv(3, 5, 0)], &map.cell, &mobs);
    assert_eq!(
        outcomes,
        vec![
            MoveOutcome::Attack(WantsToAttack { attacker: EntityId(1), victim: EntityId(2) }),
            MoveOutcome::Move(mv(2, 2, 0)),
            MoveOutcome::Blocked,
        ]
    );
}

#[test]
fn keys_of_the_player() {
    let hero = EntityId(1);
    let at = Position::new(5, 5);
    assert_eq!(player_input(Key::W, hero, at), Some((Some(mv(1, 5, 6)), TurnState::PlayerTurn)));
    assert_eq!(player_input(Key::A, hero, at), Some((Some(mv(1, 4, 5)), TurnState::PlayerTurn)));
    assert_eq!(player_input(Key::S, hero, at), Some((Some(mv(1, 5, 4)), TurnState::PlayerTurn)));
    assert_eq!(player_input(Key::D, hero, at), Some((Some(mv(1, 6, 5)), TurnState::PlayerTurn)));
    assert_eq!(player_input(Key::Space, hero, at), Some((None, TurnState::PlayerTurn)));
    assert_eq!(player_input(Key::Escape, hero, at), Some((None, TurnState::Pause)));
    assert_eq!(player_input(Key::Other, hero, at), None);
    // keys that ask for no step work on the edge of the range of positions
    let edge = Position::new(i32::MAX, i32::MIN);
    assert_eq!(player_input(Key::Space, hero, edge), Some((None, TurnState::PlayerTurn)));
    assert_eq!(player_input(Key::Escape, hero, edge), Some((None, TurnState::Pause)));
    assert_eq!(player_input(Key::Other, hero, edge), None);
    // and so does a step that stays within it
    assert_eq!(
        player_input(Key::A, hero, edge),
        Some((Some(mv(1, i32::MAX - 1, i32::MIN)), TurnState::PlayerTurn))
    );
    assert_eq!(
        player_input(Key::W, hero, edge),
        Some((Some(mv(1, i32::MAX, i32::MIN + 1)), TurnState::PlayerTurn))
    );
    assert_eq!(key_delta(Key::W), Some(Position::new(0, 1)));
    assert_eq!(key_delta(Key::Space), None);
}

#[test]
fn closest_candidate_is_the_first_of_equals() {
    let target = Position::new(5, 5);
    assert_eq!(closest_to(target, &Vec::new()), None);
    let candidates = vec![
        Position::new(0, 0),
        Position::new(5, 7),
        Position::new(7, 5),
        Position::new(9, 9),
    ];
    assert_eq!(closest_to(target, &candidates), Some(1));
    assert_eq!(closest_to(Position::new(9, 8), &candidates), Some(3));
}

#[test]
fn start_positions() {
    let map = parse(&[
        "#######",
        "#.....#",
        "#.###.#",
        "#.....#",
        "#######",
    ]);
    let floors = floor_positions(&map);
    assert_eq!(floors.len(), 12);
    assert_eq!(floors[0], Position::new(1, 1));
    assert_eq!(floors[5], Position::new(1, 2));
    assert_eq!(floors[11], Position::new(5, 3));
    // the middle of the grid is (3, 2), a wall; (3, 1) and (3, 3) are one
    // step from it, and (3, 1) comes first
    let (player, amulet) = find_start_positions(&floors, &map).unwrap();
    assert_eq!(player, Position::new(3, 1));
    // the farthest floors are (1, 3), (2, 3), ... : (3, 3) is six steps away
    assert_eq!(amulet, Position::new(3, 3));
    assert_eq!(find_start_positions(&Vec::new(), &map), None);
    assert_eq!(find_start_positions(&vec![Position::new(-4, 0)], &map), None);
    assert_eq!(most_distant_from(&map, Position::new(1, 1)), Some(Position::new(5, 3)));
    assert_eq!(most_distant_from(&map, Position::new(9, 9)), None);
    // from a wall, the walk reaches the floors next to it
    assert_eq!(most_distant_from(&map, Position::new(0, 1)), Some(Position::new(5, 3)));
}

#[test]
fn the_vicinity_of_the_player_is_left_out() {
    let origin = Position::new(0, 0);
    let locations = vec![
        Position::new(10, 0),
        Position::new(11, 0),
        Position::new(6, 8),
        Position::new(6, 9),
        Position::new(0, -11),
        Position::new(0, 0),
    ];
    assert_eq!(
        exclude_vicinity(&locations, origin),
        vec![Position::new(11, 0), Position::new(6, 9), Position::new(0, -11)]
    );
}

#[test]
fn sites_of_a_new_game() {
    let map = open(30, 3);
    let sites = spawn_sites(&map).unwrap();
    assert_eq!(sites.player_start, Position::new(15, 1));
    assert_eq!(sites.amulet_start, Position::new(0, 0));
    let mut expected = exclude_vicinity(&floor_positions(&map), sites.player_start);
    let mut got = sites.locations.clone();
    let key = |p: &Position| (p.y, p.x);
    expected.sort_by_key(key);
    got.sort_by_key(key);
    assert_eq!(got, expected);
    assert!(!got.is_empty());
    let walled = parse(&["###", "###"]);
    assert!(spawn_sites(&walled).is_none());
    assert!(spawn_sites_with(&walled, Vec::new()).is_none());
    let order = vec![Position::new(29, 2), Position::new(0, 0)];
    let sites = spawn_sites_with(&map, order.clone()).unwrap();
    assert_eq!(sites.locations, order);
    assert_eq!(sites.player_start, Position::new(15, 1));
}

#[test]
fn locations_are_handed_out_in_order() {
    let locations: Vec<Position> = (0..10).map(|x| Position::new(x, 0)).collect();
    let plan = assign_spawns(&locations, &vec![2, 0, 3], 4);
    assert_eq!(
        plan.items,
        vec![
            (0, Position::new(0, 0)),
            (0, Position::new(1, 0)),
            (2, Position::new(2, 0)),
            (2, Position::new(3, 0)),
            (2, Position::new(4, 0)),
        ]
    );
    assert_eq!(
        plan.monsters,
        vec![Position::new(5, 0), Position::new(6, 0), Position::new(7, 0), Position::new(8, 0)]
    );
}

#[test]
fn who_comes_late_gets_what_is_left() {
    let locations: Vec<Position> = (0..4).map(|x| Position::new(x, 0)).collect();
    let plan = assign_spawns(&locations, &vec![3, usize::MAX, 2], NUM_MONSTERS);
    assert_eq!(
        plan.items,
        vec![
            (0, Position::new(0, 0)),
            (0, Position::new(1, 0)),
            (0, Position::new(2, 0)),
            (1, Position::new(3, 0)),
        ]
    );
    assert!(plan.monsters.is_empty());
    let plan = assign_spawns(&locations, &Vec::new(), NUM_MONSTERS);
    assert!(plan.items.is_empty());
    assert_eq!(plan.monsters, locations);
    assert_eq!(NUM_MONSTERS, 50);
}
