//! Things that lie on the level: picking them up, and what they do when
//! they are used.

use vstd::prelude::*;
use crate::entities::{CarriedBy, EntityId, Health};
use crate::position::Position;

verus! {

/// What a thing does to the creature that uses it.
#[derive(Clone, Copy, Debug, PartialEq, Eq, Structural)]
pub enum EffectData {
    /// Gives hit points back.
    Healing(u32),
    /// Lets the whole level be seen.
    RevealMap,
}

/// Those of the first `n` things that lie at `player_pos`, in their order,
/// each with the note that `player` carries it now.
pub open spec fn picked_up(
    player: EntityId,
    player_pos: Position,
    items: Seq<(EntityId, Position)>,
    n: nat,
) -> Seq<(EntityId, CarriedBy)>
    decreases n,
{
    if n == 0 {
        Seq::empty()
    } else {
        let before = picked_up(player, player_pos, items, (n - 1) as nat);
        if items[n - 1].1 == player_pos {
            before.push((items[n - 1].0, CarriedBy(player)))
        } else {
            before
        }
    }
}

/// The player, having moved to `player_pos`, picks up every thing that lies
/// there.
pub fn player_picks_up_items(
    player: EntityId,
    player_pos: Position,
    items: &Vec<(EntityId, Position)>,
) -> (carried: Vec<(EntityId, CarriedBy)>)
    ensures
        carried@ == picked_up(player, player_pos, items@, items@.len()),
{
    let mut carried: Vec<(EntityId, CarriedBy)> = Vec::new();
    let mut k: usize = 0;
    while k < items.len()
        invariant
            k <= items@.len(),
            carried@ == picked_up(player, player_pos, items@, k as nat),
        decreases items@.len() - k,
    {
        let (item, pos) = items[k];
        if pos.x == player_pos.x && pos.y == player_pos.y {
            carried.push((item, CarriedBy(player)));
        }
        k = k + 1;
    }
    carried
}

/// Whether the goal item is carried: the fact that decides a game.
pub fn amulet_carried(amulet_carrier: Option<CarriedBy>) -> (carried: bool)
    ensures
        carried == amulet_carrier.is_some(),
{
    amulet_carrier.is_some()
}

/// Lets `effect` work on a creature with the given health. Healing gives
/// hit points back, as far as the creature can have them. Returns whether
/// the level is to be revealed.
pub fn apply_effect_to_mob(health: &mut Health, effect: &EffectData) -> (reveal_map: bool)
    ensures
        final(health).spec_max() == old(health).spec_max(),
        match *effect {
            EffectData::Healing(amount) => !reveal_map && final(health).spec_hitpoints() == (
            if amount <= old(health).spec_max() - old(health).spec_hitpoints() {
                old(health).spec_hitpoints() + amount
            } else {
                old(health).spec_max() as int
            }),
            EffectData::RevealMap => reveal_map && final(health).spec_hitpoints() == old(
                health,
            ).spec_hitpoints(),
        },
{
    match *effect {
        EffectData::Healing(amount) => {
            health.heal(amount);
            false
        },
        EffectData::RevealMap => true,
    }
}

} // verus!
