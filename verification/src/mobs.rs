//! What becomes of the creatures' requests: moves, attacks, wounds and
//! deaths.

use vstd::prelude::*;
use crate::entities::{EntityId, Health, WantsToAttack, WantsToMove};
use crate::map::TileMapQuery;
use crate::position::Position;

verus! {

/// What becomes of a request to move.
#[derive(Clone, Copy, Debug, PartialEq, Eq, Structural)]
pub enum MoveOutcome {
    /// The tile cannot be entered: nothing happens.
    Blocked,
    /// A creature stands on the tile: it is attacked.
    Attack(WantsToAttack),
    /// The tile is free: the creature moves there.
    Move(WantsToMove),
}

/// The index of the first of the creatures that stands at `destination`,
/// where one does.
pub open spec fn first_mob_at(mobs: Seq<(EntityId, Position)>, destination: Position) -> Option<
    int,
>
    decreases mobs.len(),
{
    if mobs.len() == 0 {
        None
    } else {
        match first_mob_at(mobs.drop_last(), destination) {
            Some(k) => Some(k),
            None => if mobs.last().1 == destination {
                Some(mobs.len() - 1)
            } else {
                None
            },
        }
    }
}

/// What becomes of the request `msg` on the level `map` with the creatures
/// `mobs`: nothing where the tile cannot be entered, an attack on the first
/// creature that stands on the tile where one does, the move where none
/// does.
pub open spec fn spec_resolve_move(
    msg: WantsToMove,
    map: TileMapQuery,
    mobs: Seq<(EntityId, Position)>,
) -> MoveOutcome {
    if !map.spec_can_enter_tile(msg.destination) {
        MoveOutcome::Blocked
    } else {
        match first_mob_at(mobs, msg.destination) {
            Some(k) => MoveOutcome::Attack(
                WantsToAttack { attacker: msg.entity, victim: mobs[k].0 },
            ),
            None => MoveOutcome::Move(msg),
        }
    }
}

/// What `first_mob_at` finds is the first creature at the tile.
pub proof fn lemma_first_mob_at(mobs: Seq<(EntityId, Position)>, destination: Position)
    ensures
        match first_mob_at(mobs, destination) {
            Some(k) => 0 <= k < mobs.len() && mobs[k].1 == destination && forall|j: int|
                0 <= j < k ==> (#[trigger] mobs[j]).1 != destination,
            None => forall|j: int| 0 <= j < mobs.len() ==> (#[trigger] mobs[j]).1 != destination,
        },
    decreases mobs.len(),
{
    if mobs.len() > 0 {
        let front = mobs.drop_last();
        lemma_first_mob_at(front, destination);
        match first_mob_at(front, destination) {
            Some(k) => {
                assert(front[k] == mobs[k]);
                assert forall|j: int| 0 <= j < k implies (#[trigger] mobs[j]).1 != destination by {
                    assert(front[j] == mobs[j]);
                }
            },
            None => {
                assert forall|j: int| 0 <= j < mobs.len() - 1 implies (#[trigger] mobs[j]).1
                    != destination by {
                    assert(front[j] == mobs[j]);
                }
            },
        }
    }
}

/// Decides what becomes of one request to move.
pub fn resolve_move(msg: &WantsToMove, map: &TileMapQuery, mobs: &Vec<(EntityId, Position)>) -> (r:
    MoveOutcome)
    requires
        map.wf(),
    ensures
        r == spec_resolve_move(*msg, *map, mobs@),
{
    if !map.can_enter_tile(&msg.destination) {
        return MoveOutcome::Blocked;
    }
    let mut k: usize = 0;
    assert(mobs@.take(0) =~= Seq::empty());
    while k < mobs.len()
        invariant
            k <= mobs@.len(),
            map.spec_can_enter_tile(msg.destination),
            first_mob_at(mobs@.take(k as int), msg.destination).is_none(),
        decreases mobs@.len() - k,
    {
        let (mob, pos) = mobs[k];
        proof {
            let now = mobs@.take(k + 1);
            assert(now.drop_last() =~= mobs@.take(k as int));
            assert(now.last() == mobs@[k as int]);
            if pos == msg.destination {
                lemma_first_mob_stays(now, mobs@, msg.destination);
            }
        }
        if pos.x == msg.destination.x && pos.y == msg.destination.y {
            return MoveOutcome::Attack(WantsToAttack { attacker: msg.entity, victim: mob });
        }
        k = k + 1;
    }
    assert(mobs@.take(mobs@.len() as int) =~= mobs@);
    MoveOutcome::Move(*msg)
}

/// A creature found among the first of the creatures is found among all of
/// them.
pub proof fn lemma_first_mob_stays(
    front: Seq<(EntityId, Position)>,
    mobs: Seq<(EntityId, Position)>,
    destination: Position,
)
    requires
        front.len() <= mobs.len(),
        front == mobs.take(front.len() as int),
        first_mob_at(front, destination).is_some(),
    ensures
        first_mob_at(mobs, destination) == first_mob_at(front, destination),
    decreases mobs.len(),
{
    if front.len() < mobs.len() {
        let shorter = mobs.drop_last();
        assert(shorter.take(front.len() as int) =~= front);
        lemma_first_mob_stays(front, shorter, destination);
    } else {
        assert(front =~= mobs);
    }
}

/// Decides what becomes of the requests to move, each against the level
/// and the creatures as they stand: no request sees what another brings
/// about.
pub fn movement(msgs: &Vec<WantsToMove>, map: &TileMapQuery, mobs: &Vec<(EntityId, Position)>) -> (outcomes:
    Vec<MoveOutcome>)
    requires
        map.wf(),
    ensures
        outcomes@.len() == msgs@.len(),
        forall|k: int|
            0 <= k < msgs@.len() ==> #[trigger] outcomes@[k] == spec_resolve_move(
                msgs@[k],
                *map,
                mobs@,
            ),
{
    let mut outcomes: Vec<MoveOutcome> = Vec::new();
    let mut k: usize = 0;
    while k < msgs.len()
        invariant
            map.wf(),
            k <= msgs@.len(),
            outcomes@.len() == k,
            forall|j: int|
                0 <= j < k ==> #[trigger] outcomes@[j] == spec_resolve_move(msgs@[j], *map, mobs@),
        decreases msgs@.len() - k,
    {
        outcomes.push(resolve_move(&msgs[k], map, mobs));
        k = k + 1;
    }
    outcomes
}

/// How many of the first `n` attacks are on `victim`.
pub open spec fn hits_on(attacks: Seq<WantsToAttack>, victim: EntityId, n: nat) -> nat
    decreases n,
{
    if n == 0 {
        0
    } else {
        hits_on(attacks, victim, (n - 1) as nat) + (if attacks[n - 1].victim == victim {
            1nat
        } else {
            0nat
        })
    }
}

/// Wounds the creature `entity` by the attacks on it: each takes one hit
/// point, as long as there is one. Returns the hit points taken.
pub fn combat_damage(attacks: &Vec<WantsToAttack>, entity: EntityId, health: &mut Health) -> (taken:
    u32)
    ensures
        taken == (if hits_on(attacks@, entity, attacks@.len()) <= old(health).spec_hitpoints() {
            hits_on(attacks@, entity, attacks@.len()) as int
        } else {
            old(health).spec_hitpoints() as int
        }),
        final(health).spec_hitpoints() == old(health).spec_hitpoints() - taken,
        final(health).spec_max() == old(health).spec_max(),
{
    let mut taken: u32 = 0;
    let mut k: usize = 0;
    while k < attacks.len()
        invariant
            k <= attacks@.len(),
            taken == (if hits_on(attacks@, entity, k as nat) <= old(health).spec_hitpoints() {
                hits_on(attacks@, entity, k as nat) as int
            } else {
                old(health).spec_hitpoints() as int
            }),
            health.spec_hitpoints() == old(health).spec_hitpoints() - taken,
            health.spec_max() == old(health).spec_max(),
        decreases attacks@.len() - k,
    {
        if attacks[k].victim.0 == entity.0 {
            let dealt: u32 = health.take_damage(1);
            taken = taken + dealt;
        }
        k = k + 1;
    }
    taken
}

/// A creature whose health has changed: who it is, its health, and whether
/// it is the player.
#[derive(Clone, Copy, Debug)]
pub struct Wounded {
    pub entity: EntityId,
    pub health: Health,
    pub is_player: bool,
}

/// The dead among the first `n` creatures that are not the player, in
/// their order.
pub open spec fn dead_mobs(mobs: Seq<Wounded>, n: nat) -> Seq<EntityId>
    decreases n,
{
    if n == 0 {
        Seq::empty()
    } else {
        let before = dead_mobs(mobs, (n - 1) as nat);
        let mob = mobs[n - 1];
        if mob.health.spec_hitpoints() == 0 && !mob.is_player {
            before.push(mob.entity)
        } else {
            before
        }
    }
}

/// The player is among the first `n` creatures, and dead.
pub open spec fn player_died(mobs: Seq<Wounded>, n: nat) -> bool {
    exists|k: int|
        0 <= k < n && (#[trigger] mobs[k]).is_player && mobs[k].health.spec_hitpoints() == 0
}

/// Looks after the creatures whose health has changed. The dead that are
/// not the player leave the game: they are returned, in their order. Of the
/// player it is only reported whether it has died: what follows from that
/// is for the turn scheduler to decide when the phase ends.
pub fn kill_mobs(mobs: &Vec<Wounded>) -> (r: (bool, Vec<EntityId>))
    ensures
        r.0 == player_died(mobs@, mobs@.len()),
        r.1@ == dead_mobs(mobs@, mobs@.len()),
{
    let mut died: bool = false;
    let mut killed: Vec<EntityId> = Vec::new();
    let mut k: usize = 0;
    while k < mobs.len()
        invariant
            k <= mobs@.len(),
            died == player_died(mobs@, k as nat),
            killed@ == dead_mobs(mobs@, k as nat),
        decreases mobs@.len() - k,
    {
        let mob = &mobs[k];
        if mob.health.is_dead() {
            if mob.is_player {
                died = true;
            } else {
                killed.push(mob.entity);
            }
        }
        proof {
            if player_died(mobs@, (k + 1) as nat) && !player_died(mobs@, k as nat) {
                let j = choose|j: int|
                    0 <= j < k + 1 && (#[trigger] mobs@[j]).is_player
                        && mobs@[j].health.spec_hitpoints() == 0;
                assert(j == k);
            }
            if player_died(mobs@, k as nat) {
                let j = choose|j: int|
                    0 <= j < k && (#[trigger] mobs@[j]).is_player && mobs@[j].health.spec_hitpoints()
                        == 0;
                assert(0 <= j < k + 1 && mobs@[j].is_player);
            }
            if mob.is_player && mob.health.spec_hitpoints() == 0 {
                assert(mobs@[k as int].is_player);
            }
        }
        k = k + 1;
    }
    (died, killed)
}

} // verus!
