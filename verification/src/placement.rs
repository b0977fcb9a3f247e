//! Where things start: the player near the middle of the level, the goal
//! item as far from the player as a walk can get.

use vstd::prelude::*;
use crate::distance::{
    is_source, lemma_shortest_unique, lemma_within_source_or_floor, shortest, DistanceField,
    PATHING_DEPTH,
};
use crate::grid::Grid;
use crate::map::{floor_at, MapAdapter, TileType};
use crate::position::Position;

verus! {

/// The candidate `best` is the first of the candidates that is as close to
/// `target` as any of them, in a straight line.
pub open spec fn is_closest(target: Position, candidates: Seq<Position>, best: int) -> bool {
    &&& 0 <= best < candidates.len()
    &&& forall|k: int|
        0 <= k < candidates.len() ==> candidates[best].spec_distance_squared(target) <= (
        #[trigger] candidates[k]).spec_distance_squared(target)
    &&& forall|k: int|
        0 <= k < best ==> candidates[best].spec_distance_squared(target) < (
        #[trigger] candidates[k]).spec_distance_squared(target)
}

/// The index of the candidate closest to `target` in a straight line; of
/// several that are equally close, the first. `None` where there is no
/// candidate.
pub fn closest_to(target: Position, candidates: &Vec<Position>) -> (r: Option<usize>)
    ensures
        r.is_none() <==> candidates@.len() == 0,
        r matches Some(best) ==> is_closest(target, candidates@, best as int),
{
    if candidates.len() == 0 {
        return None;
    }
    let mut best: usize = 0;
    let mut best_distance: u128 = candidates[0].distance_squared(target);
    let mut k: usize = 1;
    while k < candidates.len()
        invariant
            1 <= k <= candidates@.len(),
            best < k,
            best_distance == candidates@[best as int].spec_distance_squared(target),
            forall|j: int|
                0 <= j < k ==> best_distance <= (#[trigger] candidates@[j]).spec_distance_squared(
                    target,
                ),
            forall|j: int|
                0 <= j < best ==> best_distance < (#[trigger] candidates@[j]).spec_distance_squared(
                    target,
                ),
        decreases candidates@.len() - k,
    {
        let distance: u128 = candidates[k].distance_squared(target);
        if distance < best_distance {
            best = k;
            best_distance = distance;
        }
        k = k + 1;
    }
    Some(best)
}

/// The shortest walk from a source to the tile with index `i` has `d`
/// steps, fewer than `limit`; no tile that a walk of fewer than `limit`
/// steps reaches is further from the sources, and every such tile of a
/// smaller index is nearer to them.
pub open spec fn farthest_at(
    grid: Grid,
    tiles: Seq<TileType>,
    sources: Seq<usize>,
    limit: nat,
    i: int,
    d: nat,
) -> bool {
    &&& 0 <= i < grid.spec_len()
    &&& d < limit
    &&& shortest(grid, tiles, sources, grid.spec_coord(i).x as int, grid.spec_coord(i).y as int, d)
    &&& forall|j: int, e: nat|
        0 <= j < grid.spec_len() && e < limit && #[trigger] shortest(
            grid,
            tiles,
            sources,
            grid.spec_coord(j).x as int,
            grid.spec_coord(j).y as int,
            e,
        ) ==> e <= d && (j < i ==> e < d)
}

/// The tile with index `i` is the most distant tile that a walk of fewer
/// than `limit` steps reaches from the sources; of several that are
/// equally distant, the one of smallest index.
pub open spec fn is_most_distant(
    grid: Grid,
    tiles: Seq<TileType>,
    sources: Seq<usize>,
    limit: nat,
    i: int,
) -> bool {
    exists|d: nat| farthest_at(grid, tiles, sources, limit, i, d)
}

/// The tile of largest cost of a field is the most distant tile.
pub proof fn lemma_most_distant(
    field: DistanceField,
    tiles: Seq<TileType>,
    sources: Seq<usize>,
    best: int,
)
    requires
        field.describes(tiles, sources),
        0 <= best < field.map@.len(),
        field.spec_cost(best).is_some(),
        forall|i: int|
            0 <= i < field.map@.len() && field.spec_cost(i).is_some() ==> field.map@[i]
                <= field.map@[best],
        forall|i: int| 0 <= i < best && field.spec_cost(i).is_some() ==> field.map@[i] < field.map@[best],
    ensures
        farthest_at(
            field.grid,
            tiles,
            sources,
            field.max_depth as nat,
            best,
            field.map@[best] as nat,
        ),
{
    let grid = field.grid;
    let d = field.map@[best] as nat;
    assert(field.spec_cost(best) == Some(d));
    assert forall|j: int, e: nat|
        0 <= j < grid.spec_len() && e < field.max_depth && #[trigger] shortest(
            grid,
            tiles,
            sources,
            grid.spec_coord(j).x as int,
            grid.spec_coord(j).y as int,
            e,
        ) implies e <= d && (j < best ==> e < d) by {
        let x = grid.spec_coord(j).x as int;
        let y = grid.spec_coord(j).y as int;
        match field.spec_cost(j) {
            Some(c) => {
                lemma_shortest_unique(grid, tiles, sources, x, y, c, e);
            },
            None => {},
        }
    }
}

/// The most distant tile that a walk from `start` reaches. `None` where
/// `start` is off the grid.
pub fn most_distant_from(map: &MapAdapter, start: Position) -> (r: Option<Position>)
    requires
        map.wf(),
    ensures
        r.is_some() <==> map.grid().spec_in_bounds(start),
        r matches Some(a) ==> map.grid().spec_in_bounds(a) && is_most_distant(
            map.grid(),
            map.tiles(),
            seq![map.grid().spec_index(start) as usize],
            PATHING_DEPTH as nat,
            map.grid().spec_index(a),
        ),
{
    let ghost grid = map.grid();
    let ghost tiles = map.tiles();
    match map.cell.grid.try_idx(start) {
        None => None,
        Some(start_idx) => {
            let mut starts: Vec<usize> = Vec::new();
            starts.push(start_idx);
            assert(starts@ =~= seq![grid.spec_index(start) as usize]);
            let field = DistanceField::new(map, &starts, PATHING_DEPTH);
            proof {
                grid.lemma_coord_of_index(start);
                assert(starts@[0] == start_idx);
                assert(is_source(grid, starts@, start.x as int, start.y as int));
                assert(crate::distance::within(grid, tiles, starts@, start.x as int, start.y as int, 0));
                assert(field.spec_cost(start_idx as int).is_some());
            }
            match field.most_distant_reachable() {
                None => None,
                Some(best) => {
                    proof {
                        grid.lemma_index_in_range(best);
                        lemma_most_distant(field, tiles, starts@, grid.spec_index(best));
                    }
                    Some(best)
                },
            }
        },
    }
}

/// A tile that a walk reaches from a source on a floor is a floor.
pub proof fn lemma_most_distant_is_floor(
    grid: Grid,
    tiles: Seq<TileType>,
    start: Position,
    limit: nat,
    a: Position,
)
    requires
        grid.wf(),
        grid.spec_in_bounds(start),
        grid.spec_in_bounds(a),
        floor_at(grid, tiles, start.x as int, start.y as int),
        is_most_distant(grid, tiles, seq![grid.spec_index(start) as usize], limit, grid.spec_index(a)),
    ensures
        floor_at(grid, tiles, a.x as int, a.y as int),
{
    let sources = seq![grid.spec_index(start) as usize];
    let i = grid.spec_index(a);
    let d = choose|d: nat| farthest_at(grid, tiles, sources, limit, i, d);
    grid.lemma_coord_of_index(a);
    grid.lemma_index_in_range(a);
    grid.lemma_index_in_range(start);
    lemma_within_source_or_floor(grid, tiles, sources, a.x as int, a.y as int, d);
    if is_source(grid, sources, a.x as int, a.y as int) {
        assert(sources[0] == grid.spec_index(start) as usize);
        grid.lemma_index_injective(a, start);
    }
}

/// Where the player and the goal item start on the level: the player on
/// the first of the locations closest to the middle of the level, the goal
/// item on the most distant tile that a walk from there reaches. `None`
/// where there is no location, or the closest one is off the grid.
pub fn find_start_positions(spawnable_locations: &Vec<Position>, map: &MapAdapter) -> (r: Option<
    (Position, Position),
>)
    requires
        map.wf(),
    ensures
        r.is_some() <==> exists|b: int|
            is_closest(middle_of(map.grid()), spawnable_locations@, b) && map.grid().spec_in_bounds(
                #[trigger] spawnable_locations@[b],
            ),
        r matches Some((player_start, amulet_start)) ==> {
            &&& exists|b: int|
                is_closest(middle_of(map.grid()), spawnable_locations@, b)
                    && #[trigger] spawnable_locations@[b] == player_start
            &&& map.grid().spec_in_bounds(player_start)
            &&& map.grid().spec_in_bounds(amulet_start)
            &&& is_most_distant(
                map.grid(),
                map.tiles(),
                seq![map.grid().spec_index(player_start) as usize],
                PATHING_DEPTH as nat,
                map.grid().spec_index(amulet_start),
            )
        },
{
    let dims = map.dimensions();
    let center = Position { x: dims.x / 2, y: dims.y / 2 };
    match closest_to(center, spawnable_locations) {
        None => {
            assert forall|b: int| !is_closest(middle_of(map.grid()), spawnable_locations@, b) by {}
            None
        },
        Some(best) => {
            let player_start = spawnable_locations[best];
            proof {
                assert forall|b: int|
                    is_closest(middle_of(map.grid()), spawnable_locations@, b) implies b
                    == best by {
                    lemma_closest_unique(center, spawnable_locations@, b, best as int);
                }
            }
            match most_distant_from(map, player_start) {
                None => None,
                Some(amulet_start) => Some((player_start, amulet_start)),
            }
        },
    }
}

/// The middle of the grid: half its width and half its height.
pub open spec fn middle_of(grid: Grid) -> Position {
    Position { x: (grid.width / 2) as i32, y: (grid.height / 2) as i32 }
}

/// There is one closest candidate at most.
pub proof fn lemma_closest_unique(target: Position, candidates: Seq<Position>, a: int, b: int)
    requires
        is_closest(target, candidates, a),
        is_closest(target, candidates, b),
    ensures
        a == b,
{
    let da = candidates[a].spec_distance_squared(target);
    let db = candidates[b].spec_distance_squared(target);
    assert(da <= db);
    assert(db <= da);
}


/// Where there is a candidate, one is the closest.
pub proof fn lemma_closest_exists(target: Position, candidates: Seq<Position>)
    requires
        candidates.len() > 0,
    ensures
        exists|b: int| is_closest(target, candidates, b),
    decreases candidates.len(),
{
    if candidates.len() == 1 {
        assert(is_closest(target, candidates, 0));
    } else {
        let front = candidates.drop_last();
        lemma_closest_exists(target, front);
        let b = choose|b: int| is_closest(target, front, b);
        let last = candidates.len() - 1;
        assert(front[b] == candidates[b]);
        if candidates[last].spec_distance_squared(target) < candidates[b].spec_distance_squared(
            target,
        ) {
            assert forall|k: int| 0 <= k < candidates.len() implies candidates[last].spec_distance_squared(
                target,
            ) <= (#[trigger] candidates[k]).spec_distance_squared(target) by {
                if k < last {
                    assert(front[k] == candidates[k]);
                }
            }
            assert forall|k: int| 0 <= k < last implies candidates[last].spec_distance_squared(
                target,
            ) < (#[trigger] candidates[k]).spec_distance_squared(target) by {
                assert(front[k] == candidates[k]);
            }
            assert(is_closest(target, candidates, last));
        } else {
            assert forall|k: int| 0 <= k < candidates.len() implies candidates[b].spec_distance_squared(
                target,
            ) <= (#[trigger] candidates[k]).spec_distance_squared(target) by {
                if k < last {
                    assert(front[k] == candidates[k]);
                }
            }
            assert forall|k: int| 0 <= k < b implies candidates[b].spec_distance_squared(target) < (
            #[trigger] candidates[k]).spec_distance_squared(target) by {
                assert(front[k] == candidates[k]);
            }
            assert(is_closest(target, candidates, b));
        }
    }
}

} // verus!
