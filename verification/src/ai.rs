//! How monsters go after the player: each takes the step that brings it
//! nearest, and strikes when it stands next to the player.

use vstd::prelude::*;
use crate::distance::{DistanceField, PATHING_DEPTH};
use crate::entities::{EntityId, WantsToMove};
use crate::map::MapAdapter;
use crate::position::Position;

verus! {

/// The tile that the player stands on, as the sources of a distance field:
/// none where the player is off the grid.
pub open spec fn chase_targets(map: MapAdapter, player_pos: Position) -> Seq<usize> {
    if map.grid().spec_in_bounds(player_pos) {
        seq![map.grid().spec_index(player_pos) as usize]
    } else {
        Seq::empty()
    }
}

/// Where a chaser at `pos` asks to move, given the distance field of the
/// player's tile. A chaser that is off the grid or has no exit asks for
/// nothing. One that stands next to the player, or on the player's tile,
/// asks for the player's tile, which is an attack. Any other asks for its
/// lowest exit, and for nothing where that is its own tile: where no step
/// brings it nearer, it stands still.
pub open spec fn chase_step(
    field: DistanceField,
    map: MapAdapter,
    pos: Position,
    player_pos: Position,
) -> Option<Position> {
    if !map.grid().spec_in_bounds(pos) {
        None
    } else {
        let idx = map.grid().spec_index(pos) as usize;
        match field.spec_find_lowest_exit(idx, map.spec_exits(idx as int)) {
            None => None,
            Some(exit) => if pos.spec_distance_squared(player_pos) < 2 {
                Some(player_pos)
            } else if exit == idx {
                None
            } else {
                Some(map.grid().spec_coord(exit as int))
            },
        }
    }
}

/// What the first `n` chasers ask for, in their order.
pub open spec fn chase_moves(
    field: DistanceField,
    map: MapAdapter,
    movers: Seq<(EntityId, Position)>,
    player_pos: Position,
    n: nat,
) -> Seq<WantsToMove>
    decreases n,
{
    if n == 0 {
        Seq::empty()
    } else {
        let before = chase_moves(field, map, movers, player_pos, (n - 1) as nat);
        match chase_step(field, map, movers[n - 1].1, player_pos) {
            Some(destination) => before.push(WantsToMove { entity: movers[n - 1].0, destination }),
            None => before,
        }
    }
}

/// What the chasers ask for, given the distance field of the player's
/// tile.
pub fn chasing_with(
    field: &DistanceField,
    movers: &Vec<(EntityId, Position)>,
    player_pos: Position,
    map: &MapAdapter,
) -> (msgs: Vec<WantsToMove>)
    requires
        map.wf(),
        field.wf(),
        field.grid == map.grid(),
    ensures
        msgs@ == chase_moves(*field, *map, movers@, player_pos, movers@.len()),
{
    let mut msgs: Vec<WantsToMove> = Vec::new();
    let mut k: usize = 0;
    while k < movers.len()
        invariant
            map.wf(),
            field.wf(),
            field.grid == map.grid(),
            k <= movers@.len(),
            msgs@ == chase_moves(*field, *map, movers@, player_pos, k as nat),
        decreases movers@.len() - k,
    {
        let (entity, pos) = movers[k];
        if let Some(idx) = map.cell.grid.try_idx(pos) {
            if let Some(exit) = field.find_lowest_exit(idx, map) {
                if pos.distance_squared(player_pos) < 2 {
                    msgs.push(WantsToMove { entity, destination: player_pos });
                } else if exit != idx {
                    msgs.push(WantsToMove { entity, destination: map.index_to_point2d(exit) });
                }
            }
        }
        k = k + 1;
    }
    msgs
}

/// What the chasers ask for when the monsters are to move: the distance
/// field of the player's tile is computed anew, and each chaser takes its
/// step by it.
pub fn chasing(movers: &Vec<(EntityId, Position)>, player_pos: Position, map: &MapAdapter) -> (msgs:
    Vec<WantsToMove>)
    requires
        map.wf(),
    ensures
        exists|field: DistanceField|
            {
                &&& field.grid == map.grid()
                &&& field.max_depth == PATHING_DEPTH
                &&& field.describes(map.tiles(), chase_targets(*map, player_pos))
                &&& msgs@ == #[trigger] chase_moves(field, *map, movers@, player_pos, movers@.len())
            },
{
    let mut search_targets: Vec<usize> = Vec::new();
    if let Some(player_idx) = map.cell.grid.try_idx(player_pos) {
        search_targets.push(player_idx);
    }
    let dijkstra_map = DistanceField::new(map, &search_targets, PATHING_DEPTH);
    chasing_with(&dijkstra_map, movers, player_pos, map)
}

} // verus!
