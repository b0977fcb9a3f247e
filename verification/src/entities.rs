//! What the creatures and things of the game are made of: plain values
//! that the host keeps in its store.

use vstd::prelude::*;
use crate::fov::FieldOfView;
use crate::position::Position;

verus! {

/// The name by which the host's store knows a creature or a thing.
#[derive(Clone, Copy, Debug, PartialEq, Eq, Hash, Structural)]
pub struct EntityId(pub u64);

/// Marks the creature that the player steers.
#[derive(Clone, Copy, Debug, PartialEq, Eq, Structural)]
pub struct Player;

/// Marks a creature that is the player's enemy.
#[derive(Clone, Copy, Debug, PartialEq, Eq, Structural)]
pub struct Hostile;

/// Marks a creature: something that moves, sees and can be hurt.
#[derive(Clone, Copy, Debug, PartialEq, Eq, Structural)]
pub struct Mob;

/// Marks a creature that goes after the player.
#[derive(Clone, Copy, Debug, PartialEq, Eq, Structural)]
pub struct ChasingPlayer;

/// Marks a thing that can be picked up.
#[derive(Clone, Copy, Debug, PartialEq, Eq, Structural)]
pub struct Item;

/// Says who carries a thing.
#[derive(Clone, Copy, Debug, PartialEq, Eq, Structural)]
pub struct CarriedBy(pub EntityId);

/// Marks the goal item: who carries it has won.
#[derive(Clone, Copy, Debug, PartialEq, Eq, Structural)]
pub struct AmuletOfYala;

/// A creature asks to move to a tile.
#[derive(Clone, Copy, Debug, PartialEq, Eq, Structural)]
pub struct WantsToMove {
    pub entity: EntityId,
    pub destination: Position,
}

/// A creature asks to attack another.
#[derive(Clone, Copy, Debug, PartialEq, Eq, Structural)]
pub struct WantsToAttack {
    pub attacker: EntityId,
    pub victim: EntityId,
}

/// The hit points of a creature: never more than it can have.
#[derive(Clone, Copy, Debug)]
pub struct Health {
    current: u32,
    max: u32,
}

impl Health {
    #[verifier::type_invariant]
    spec fn within_max(self) -> bool {
        self.current <= self.max
    }

    /// The hit points that are left.
    pub closed spec fn spec_hitpoints(self) -> u32 {
        self.current
    }

    /// The most hit points that the creature can have.
    pub closed spec fn spec_max(self) -> u32 {
        self.max
    }

    /// Full health of `max` hit points.
    pub fn new(max: u32) -> (h: Health)
        ensures
            h.spec_hitpoints() == max,
            h.spec_max() == max,
    {
        Health { current: max, max }
    }

    /// Takes `amount` hit points away, as far as there are any left, and
    /// returns how many were taken.
    pub fn take_damage(&mut self, amount: u32) -> (damage_dealt: u32)
        ensures
            damage_dealt == (if amount <= old(self).spec_hitpoints() {
                amount
            } else {
                old(self).spec_hitpoints()
            }),
            final(self).spec_hitpoints() == old(self).spec_hitpoints() - damage_dealt,
            final(self).spec_max() == old(self).spec_max(),
    {
        proof {
            use_type_invariant(&*self);
        }
        let damage_dealt: u32 = if amount <= self.current { amount } else { self.current };
        self.current = self.current - damage_dealt;
        damage_dealt
    }

    /// Gives `amount` hit points back, as far as the creature can have
    /// them, and returns how many were given.
    pub fn heal(&mut self, amount: u32) -> (health_restored: u32)
        ensures
            health_restored == (if amount <= old(self).spec_max() - old(self).spec_hitpoints() {
                amount as int
            } else {
                old(self).spec_max() - old(self).spec_hitpoints()
            }),
            final(self).spec_hitpoints() == old(self).spec_hitpoints() + health_restored,
            final(self).spec_max() == old(self).spec_max(),
            final(self).spec_hitpoints() <= final(self).spec_max(),
    {
        proof {
            use_type_invariant(&*self);
        }
        let missing: u32 = self.max - self.current;
        let health_restored: u32 = if amount <= missing { amount } else { missing };
        self.current = self.current + health_restored;
        health_restored
    }

    /// Whether no hit point is left.
    pub fn is_dead(&self) -> (dead: bool)
        ensures
            dead == (self.spec_hitpoints() == 0),
    {
        self.current == 0
    }

    /// The hit points that are left.
    pub fn hitpoints(&self) -> (points: u32)
        ensures
            points == self.spec_hitpoints(),
            points <= self.spec_max(),
    {
        proof {
            use_type_invariant(self);
        }
        self.current
    }
}

/// The hit points of the player at the start of a game.
pub const PLAYER_HEALTH: u32 = 10;

/// How far the player sees, in tiles.
pub const PLAYER_FOV_RADIUS: i32 = 8;

/// The picture of the player on the sprite sheet.
pub const PLAYER_TEXTURE: usize = 64;

/// The hit points of a monster.
pub const HOSTILE_HEALTH: u32 = 1;

/// How far a monster sees, in tiles.
pub const HOSTILE_FOV_RADIUS: i32 = 6;

/// The picture of a monster on the sprite sheet.
pub const HOSTILE_TEXTURE: usize = 103;

/// The picture of the goal item on the sprite sheet.
pub const AMULET_TEXTURE: usize = 124;

/// What every creature is spawned with.
#[derive(Clone, Debug)]
pub struct MobBundle {
    pub mob: Mob,
    pub position: Position,
    pub health: Health,
    pub fov: FieldOfView,
    pub texture_index: usize,
}

impl MobBundle {
    /// A creature at `position` that sees nothing yet.
    pub fn new(position: Position, health: Health, fov_radius: i32, texture_index: usize) -> (b:
        MobBundle)
        ensures
            b.position == position,
            b.health == health,
            b.fov.radius == fov_radius,
            b.fov.visible_tiles@.len() == 0,
            b.texture_index == texture_index,
    {
        MobBundle { mob: Mob, position, health, fov: FieldOfView::new(fov_radius), texture_index }
    }
}

/// What the player is spawned with.
#[derive(Clone, Debug)]
pub struct PlayerBundle {
    pub player: Player,
    pub mob_bundle: MobBundle,
}

impl PlayerBundle {
    /// The player at `position`, in full health.
    pub fn new(position: Position) -> (b: PlayerBundle)
        ensures
            b.mob_bundle.position == position,
            b.mob_bundle.health.spec_hitpoints() == PLAYER_HEALTH,
            b.mob_bundle.health.spec_max() == PLAYER_HEALTH,
            b.mob_bundle.fov.radius == PLAYER_FOV_RADIUS,
            b.mob_bundle.fov.visible_tiles@.len() == 0,
            b.mob_bundle.texture_index == PLAYER_TEXTURE,
    {
        PlayerBundle {
            player: Player,
            mob_bundle: MobBundle::new(
                position,
                Health::new(PLAYER_HEALTH),
                PLAYER_FOV_RADIUS,
                PLAYER_TEXTURE,
            ),
        }
    }
}

/// What a monster is spawned with.
#[derive(Clone, Debug)]
pub struct HostileMobBundle {
    pub hostile: Hostile,
    pub chasing: ChasingPlayer,
    pub mob_bundle: MobBundle,
}

impl HostileMobBundle {
    /// A monster at `position`, in full health, that goes after the player.
    pub fn new(position: Position) -> (b: HostileMobBundle)
        ensures
            b.mob_bundle.position == position,
            b.mob_bundle.health.spec_hitpoints() == HOSTILE_HEALTH,
            b.mob_bundle.health.spec_max() == HOSTILE_HEALTH,
            b.mob_bundle.fov.radius == HOSTILE_FOV_RADIUS,
            b.mob_bundle.fov.visible_tiles@.len() == 0,
            b.mob_bundle.texture_index == HOSTILE_TEXTURE,
    {
        HostileMobBundle {
            hostile: Hostile,
            chasing: ChasingPlayer,
            mob_bundle: MobBundle::new(
                position,
                Health::new(HOSTILE_HEALTH),
                HOSTILE_FOV_RADIUS,
                HOSTILE_TEXTURE,
            ),
        }
    }
}

/// What a thing that can be picked up is spawned with.
#[derive(Clone, Debug)]
pub struct ItemBundle {
    pub item: Item,
    pub name: String,
    pub position: Position,
}

impl ItemBundle {
    /// A thing of the given name at `position`.
    pub fn new(name: &str, position: Position) -> (b: ItemBundle)
        ensures
            b.name@ == name@,
            b.position == position,
    {
        ItemBundle { item: Item, name: name.to_owned(), position }
    }
}

/// What the goal item is spawned with.
#[derive(Clone, Debug)]
pub struct AmuletBundle {
    pub amulet: AmuletOfYala,
    pub item: Item,
    pub name: String,
    pub position: Position,
    pub texture_index: usize,
}

impl AmuletBundle {
    /// The goal item at `position`.
    pub fn new(position: Position) -> (b: AmuletBundle)
        ensures
            b.name@ == "Amulet of Yala"@,
            b.position == position,
            b.texture_index == AMULET_TEXTURE,
    {
        AmuletBundle {
            amulet: AmuletOfYala,
            item: Item,
            name: "Amulet of Yala".to_owned(),
            position,
            texture_index: AMULET_TEXTURE,
        }
    }
}

} // verus!
