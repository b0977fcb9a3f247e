use bevycraft::data::{tile_texture, BiomeData, DEFAULT_TILE_TEXTURE};
use bevycraft::entities::{
    AmuletBundle, CarriedBy, EntityId, Health, HostileMobBundle, ItemBundle, MobBundle,
    PlayerBundle, WantsToAttack, WantsToMove,
};
use bevycraft::items::{amulet_carried, apply_effect_to_mob, player_picks_up_items, EffectData};
use bevycraft::map::TileType;
use bevycraft::mobs::{combat_damage, kill_mobs, Wounded};
use bevycraft::position::Position;
use bevycraft::turn_state::{end_turn, TurnState};
use bevycraft::world::{tile_center, world_to_tile};

#[test]
fn health_starts_full() {
    let h = Health::new(10);
    assert_eq!(h.hitpoints(), 10);
    assert!(!h.is_dead());
    assert!(Health::new(0).is_dead());
}

#[test]
fn damage_stops_at_zero() {
    let mut h = Health::new(10);
    assert_eq!(h.take_damage(3), 3);
    assert_eq!(h.hitpoints(), 7);
    assert_eq!(h.take_damage(0), 0);
    assert_eq!(h.hitpoints(), 7);
    assert_eq!(h.take_damage(20), 7);
    assert_eq!(h.hitpoints(), 0);
    assert!(h.is_dead());
    assert_eq!(h.take_damage(1), 0);
    assert_eq!(h.take_damage(u32::MAX), 0);
}

#[test]
fn healing_stops_at_the_maximum() {
    let mut h = Health::new(10);
    assert_eq!(h.heal(5), 0);
    h.take_damage(6);
    assert_eq!(h.heal(2), 2);
    assert_eq!(h.hitpoints(), 6);
    assert_eq!(h.heal(u32::MAX), 4);
    assert_eq!(h.hitpoints(), 10);
    let mut top = Health::new(u32::MAX);
    top.take_damage(1);
    assert_eq!(top.heal(u32::MAX), 1);
    assert_eq!(top.hitpoints(), u32::MAX);
}

#[test]
fn bundles_of_creatures() {
    let at = Position::new(3, 4);
    let player = PlayerBundle::new(at);
    assert_eq!(player.mob_bundle.position, at);
    assert_eq!(player.mob_bundle.health.hitpoints(), 10);
    assert_eq!(player.mob_bundle.fov.radius, 8);
    assert!(player.mob_bundle.fov.visible_tiles.is_empty());
    assert_eq!(player.mob_bundle.texture_index, 64);
    let hostile = HostileMobBundle::new(at);
    assert_eq!(hostile.mob_bundle.position, at);
    assert_eq!(hostile.mob_bundle.health.hitpoints(), 1);
    assert_eq!(hostile.mob_bundle.fov.radius, 6);
    assert_eq!(hostile.mob_bundle.texture_index, 103);
    let mob = MobBundle::new(at, Health::new(5), 2, 7);
    assert_eq!(mob.position, at);
    assert_eq!(mob.health.hitpoints(), 5);
    assert_eq!(mob.fov.radius, 2);
    assert_eq!(mob.texture_index, 7);
}

#[test]
fn bundles_of_things() {
    let at = Position::new(1, 2);
    let potion = ItemBundle::new("Healing Potion", at);
    assert_eq!(potion.name, "Healing Potion");
    assert_eq!(potion.position, at);
    let amulet = AmuletBundle::new(at);
    assert_eq!(amulet.name, "Amulet of Yala");
    assert_eq!(amulet.position, at);
    assert_eq!(amulet.texture_index, 124);
}

#[test]
fn attacks_take_one_hit_point_each() {
    let orc = EntityId(7);
    let rat = EntityId(8);
    let hero = EntityId(1);
    let attacks = vec![
        WantsToAttack { attacker: hero, victim: orc },
        WantsToAttack { attacker: hero, victim: rat },
        WantsToAttack { attacker: rat, victim: orc },
    ];
    let mut health = Health::new(5);
    assert_eq!(combat_damage(&attacks, orc, &mut health), 2);
    assert_eq!(health.hitpoints(), 3);
    let mut weak = Health::new(1);
    assert_eq!(combat_damage(&attacks, orc, &mut weak), 1);
    assert!(weak.is_dead());
    let mut bystander = Health::new(4);
    assert_eq!(combat_damage(&attacks, hero, &mut bystander), 0);
    assert_eq!(bystander.hitpoints(), 4);
}

fn wounded(id: u64, left: u32, is_player: bool) -> Wounded {
    let mut health = Health::new(10);
    health.take_damage(10 - left);
    Wounded { entity: EntityId(id), health, is_player }
}

#[test]
fn the_dead_leave_and_the_death_of_the_player_is_reported() {
    let (died, killed) = kill_mobs(&vec![wounded(2, 0, false), wounded(3, 4, false), wounded(4, 0, false)]);
    assert!(!died);
    assert_eq!(killed, vec![EntityId(2), EntityId(4)]);
    let (died, killed) = kill_mobs(&vec![wounded(2, 0, false), wounded(1, 0, true)]);
    assert!(died);
    assert_eq!(killed, vec![EntityId(2)]);
    let (died, killed) = kill_mobs(&vec![wounded(1, 3, true)]);
    assert!(!died);
    assert!(killed.is_empty());
    let (died, killed) = kill_mobs(&Vec::new());
    assert!(!died);
    assert!(killed.is_empty());
}

#[test]
fn defeat_comes_at_the_end_of_the_monsters_turn() {
    let (died, _) = kill_mobs(&vec![wounded(1, 0, true)]);
    assert_eq!(end_turn(TurnState::MonsterTurn, false, died), Some(TurnState::Defeat));
    assert_eq!(end_turn(TurnState::MonsterTurn, true, died), Some(TurnState::Victory));
    assert_eq!(end_turn(TurnState::PlayerTurn, false, died), Some(TurnState::MonsterTurn));
    assert_eq!(end_turn(TurnState::AwaitingInput, false, died), None);
}

#[test]
fn the_player_picks_up_what_lies_there() {
    let hero = EntityId(1);
    let at = Position::new(4, 4);
    let items = vec![
        (EntityId(10), Position::new(4, 4)),
        (EntityId(11), Position::new(4, 5)),
        (EntityId(12), Position::new(4, 4)),
    ];
    assert_eq!(
        player_picks_up_items(hero, at, &items),
        vec![(EntityId(10), CarriedBy(hero)), (EntityId(12), CarriedBy(hero))]
    );
    assert!(player_picks_up_items(hero, Position::new(0, 0), &items).is_empty());
    assert!(amulet_carried(Some(CarriedBy(hero))));
    assert!(!amulet_carried(None));
}

#[test]
fn effects_on_a_creature() {
    let mut health = Health::new(10);
    health.take_damage(7);
    assert!(!apply_effect_to_mob(&mut health, &EffectData::Healing(4)));
    assert_eq!(health.hitpoints(), 7);
    assert!(!apply_effect_to_mob(&mut health, &EffectData::Healing(40)));
    assert_eq!(health.hitpoints(), 10);
    health.take_damage(2);
    assert!(apply_effect_to_mob(&mut health, &EffectData::RevealMap));
    assert_eq!(health.hitpoints(), 8);
}

#[test]
fn textures_of_a_biome() {
    let cave = BiomeData {
        name: String::from("Cave"),
        levels: vec![1, 2],
        wall_texture: Some(35),
        floor_texture: None,
    };
    assert_eq!(tile_texture(Some(&cave), TileType::Wall), 35);
    assert_eq!(tile_texture(Some(&cave), TileType::Floor), 176);
    assert_eq!(tile_texture(None, TileType::Wall), DEFAULT_TILE_TEXTURE);
    assert_eq!(DEFAULT_TILE_TEXTURE, 176);
}

#[test]
fn centers_of_tiles() {
    assert_eq!(tile_center(&Position::new(0, 0)), (-240, -240, 1));
    assert_eq!(tile_center(&Position::new(8, 3)), (16, -144, 1));
    assert_eq!(tile_center(&Position::new(-1, 79)), (-272, 2288, 1));
}

#[test]
fn tiles_of_world_points() {
    assert_eq!(world_to_tile(-256, -256), (0, 0));
    assert_eq!(world_to_tile(-225, -224), (0, 1));
    assert_eq!(world_to_tile(0, 31), (8, 8));
    assert_eq!(world_to_tile(-257, -1000), (0, 0));
    assert_eq!(world_to_tile(i64::MAX, i64::MIN), (u32::MAX, 0));
    for x in 0..80 {
        let center = tile_center(&Position::new(x, 2 * x));
        assert_eq!(world_to_tile(center.0, center.1), (x as u32, 2 * x as u32));
    }
}

#[test]
fn requests_are_plain_values() {
    let m = WantsToMove { entity: EntityId(3), destination: Position::new(1, 1) };
    assert_eq!(m, WantsToMove { entity: EntityId(3), destination: Position::new(1, 1) });
    assert_ne!(m, WantsToMove { entity: EntityId(4), destination: Position::new(1, 1) });
}
