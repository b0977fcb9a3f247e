//! Where the creatures and things of a new game are put.

use vstd::prelude::*;
use crate::distance::PATHING_DEPTH;
use crate::grid::Grid;
use crate::map::{MapAdapter, TileType};
use crate::placement::{find_start_positions, is_closest, is_most_distant, middle_of};
use crate::position::Position;
use crate::rng::shuffle;

verus! {

/// How many monsters a level has, where it has room for them.
pub const NUM_MONSTERS: usize = 50;

/// How far from the player's start, in tiles and in a straight line,
/// nothing is spawned.
pub const MIN_DISTANCE: u32 = 10;

/// The positions of the floors among the first `n` tiles, in the order of
/// the tiles.
pub open spec fn floors(grid: Grid, tiles: Seq<TileType>, n: nat) -> Seq<Position>
    decreases n,
{
    if n == 0 {
        Seq::empty()
    } else {
        let before = floors(grid, tiles, (n - 1) as nat);
        if tiles[n - 1] == TileType::Floor {
            before.push(grid.spec_coord(n - 1))
        } else {
            before
        }
    }
}

/// Those of the first `n` locations that are further than `MIN_DISTANCE`
/// from `origin`, in their order.
pub open spec fn beyond_vicinity(locations: Seq<Position>, origin: Position, n: nat) -> Seq<
    Position,
>
    decreases n,
{
    if n == 0 {
        Seq::empty()
    } else {
        let before = beyond_vicinity(locations, origin, (n - 1) as nat);
        if locations[n - 1].spec_distance_squared(origin) > MIN_DISTANCE * MIN_DISTANCE {
            before.push(locations[n - 1])
        } else {
            before
        }
    }
}

/// The positions of the floors of the level, row by row.
pub fn floor_positions(map: &MapAdapter) -> (locations: Vec<Position>)
    requires
        map.wf(),
    ensures
        locations@ == floors(map.grid(), map.tiles(), map.tiles().len()),
{
    let mut locations: Vec<Position> = Vec::new();
    let mut idx: usize = 0;
    while idx < map.cell.tiles.len()
        invariant
            map.wf(),
            idx <= map.tiles().len(),
            locations@ == floors(map.grid(), map.tiles(), idx as nat),
        decreases map.tiles().len() - idx,
    {
        match map.cell.tiles[idx] {
            TileType::Floor => {
                locations.push(map.index_to_point2d(idx));
            },
            TileType::Wall => {},
        }
        idx = idx + 1;
    }
    locations
}

/// The locations without those in the vicinity of `origin`.
pub fn exclude_vicinity(locations: &Vec<Position>, origin: Position) -> (far: Vec<Position>)
    ensures
        far@ == beyond_vicinity(locations@, origin, locations@.len()),
{
    let mut far: Vec<Position> = Vec::new();
    let mut k: usize = 0;
    while k < locations.len()
        invariant
            k <= locations@.len(),
            far@ == beyond_vicinity(locations@, origin, k as nat),
        decreases locations@.len() - k,
    {
        if locations[k].distance_squared(origin) > (MIN_DISTANCE as u128) * (MIN_DISTANCE as u128) {
            far.push(locations[k]);
        }
        k = k + 1;
    }
    far
}

/// Where a new game starts, and where its creatures and things may be put.
#[derive(Clone, Debug)]
pub struct SpawnSites {
    pub player_start: Position,
    pub amulet_start: Position,
    /// The floors outside the vicinity of the player's start, in the order
    /// in which they are to be used.
    pub locations: Vec<Position>,
}

/// The player starts on the floor closest to the middle of the level, and
/// the goal item lies on the most distant tile that a walk from there
/// reaches.
pub open spec fn starts_found(map: MapAdapter, player_start: Position, amulet_start: Position) -> bool {
    &&& exists|b: int|
        is_closest(
            middle_of(map.grid()),
            floors(map.grid(), map.tiles(), map.tiles().len()),
            b,
        ) && #[trigger] floors(map.grid(), map.tiles(), map.tiles().len())[b] == player_start
    &&& map.grid().spec_in_bounds(player_start)
    &&& map.grid().spec_in_bounds(amulet_start)
    &&& is_most_distant(
        map.grid(),
        map.tiles(),
        seq![map.grid().spec_index(player_start) as usize],
        PATHING_DEPTH as nat,
        map.grid().spec_index(amulet_start),
    )
}

/// Given the floors outside the vicinity of the player's start in some
/// order, the sites of a new game: `None` on a level without a floor.
pub fn spawn_sites_with(map: &MapAdapter, order: Vec<Position>) -> (r: Option<SpawnSites>)
    requires
        map.wf(),
    ensures
        r.is_some() <==> floors(map.grid(), map.tiles(), map.tiles().len()).len() > 0,
        r matches Some(sites) ==> starts_found(*map, sites.player_start, sites.amulet_start)
            && sites.locations@ == order@,
{
    let spawnable_locations = floor_positions(map);
    proof {
        lemma_floors_in_bounds(map.grid(), map.tiles(), map.tiles().len());
    }
    match find_start_positions(&spawnable_locations, map) {
        None => {
            proof {
                if spawnable_locations@.len() > 0 {
                    crate::placement::lemma_closest_exists(
                        middle_of(map.grid()),
                        spawnable_locations@,
                    );
                    let b = choose|b: int|
                        is_closest(middle_of(map.grid()), spawnable_locations@, b);
                    assert(map.grid().spec_in_bounds(spawnable_locations@[b]));
                }
            }
            None
        },
        Some((player_start, amulet_start)) => Some(
            SpawnSites { player_start, amulet_start, locations: order },
        ),
    }
}

/// The sites of a new game: the starts of the player and of the goal item,
/// and the floors outside the vicinity of the player's start, shuffled by
/// the random source of the thread. `None` on a level without a floor.
pub fn spawn_sites(map: &MapAdapter) -> (r: Option<SpawnSites>)
    requires
        map.wf(),
    ensures
        r.is_some() <==> floors(map.grid(), map.tiles(), map.tiles().len()).len() > 0,
        r matches Some(sites) ==> starts_found(*map, sites.player_start, sites.amulet_start)
            && sites.locations@.to_multiset() == beyond_vicinity(
            floors(map.grid(), map.tiles(), map.tiles().len()),
            sites.player_start,
            floors(map.grid(), map.tiles(), map.tiles().len()).len(),
        ).to_multiset(),
{
    let spawnable_locations = floor_positions(map);
    match spawn_sites_with(map, Vec::new()) {
        None => None,
        Some(sites) => {
            let mut locations = exclude_vicinity(&spawnable_locations, sites.player_start);
            let mut rng = rand::thread_rng();
            shuffle(&mut rng, &mut locations);
            Some(
                SpawnSites {
                    player_start: sites.player_start,
                    amulet_start: sites.amulet_start,
                    locations,
                },
            )
        },
    }
}

/// Every floor is a tile of the grid.
pub proof fn lemma_floors_in_bounds(grid: Grid, tiles: Seq<TileType>, n: nat)
    requires
        grid.wf(),
        n <= tiles.len() == grid.spec_len(),
    ensures
        forall|k: int|
            0 <= k < floors(grid, tiles, n).len() ==> grid.spec_in_bounds(
                #[trigger] floors(grid, tiles, n)[k],
            ),
    decreases n,
{
    if n > 0 {
        let before = floors(grid, tiles, (n - 1) as nat);
        lemma_floors_in_bounds(grid, tiles, (n - 1) as nat);
        grid.lemma_coord_in_bounds(n - 1);
        assert forall|k: int| 0 <= k < floors(grid, tiles, n).len() implies grid.spec_in_bounds(
            #[trigger] floors(grid, tiles, n)[k],
        ) by {
            if k < before.len() {
                assert(floors(grid, tiles, n)[k] == before[k]);
            }
        }
    }
}

/// How many of the locations are used up once the first `n` kinds of things
/// have each taken as many as they are to have, or all that were left.
pub open spec fn taken(available: nat, counts: Seq<usize>, n: nat) -> nat
    decreases n,
{
    if n == 0 {
        0
    } else {
        let before = taken(available, counts, (n - 1) as nat);
        if before + counts[n - 1] <= available {
            (before + counts[n - 1]) as nat
        } else {
            available
        }
    }
}

/// The places of the things of the first `n` kinds: each kind, in turn,
/// takes the next locations, as many as it is to have or all that are left.
pub open spec fn items_placed(locations: Seq<Position>, counts: Seq<usize>, n: nat) -> Seq<
    (usize, Position),
>
    decreases n,
{
    if n == 0 {
        Seq::empty()
    } else {
        let kind = (n - 1) as usize;
        items_placed(locations, counts, (n - 1) as nat) + Seq::new(
            (taken(locations.len(), counts, n) - taken(locations.len(), counts, (n - 1) as nat)) as nat,
            |k: int| (kind, locations[taken(locations.len(), counts, (n - 1) as nat) + k]),
        )
    }
}

/// Where the things and the monsters of a new game are put.
#[derive(Clone, Debug)]
pub struct SpawnPlan {
    /// The place of each thing, with the index of its kind.
    pub items: Vec<(usize, Position)>,
    pub monsters: Vec<Position>,
}

/// Hands the locations out, in their order: first to the kinds of things,
/// in turn, each as many as `item_counts` gives it, then to the monsters,
/// `num_monsters` of them. Who comes when the locations have run out gets
/// none.
pub fn assign_spawns(locations: &Vec<Position>, item_counts: &Vec<usize>, num_monsters: usize) -> (plan:
    SpawnPlan)
    ensures
        plan.items@ == items_placed(locations@, item_counts@, item_counts@.len()),
        plan.monsters@ == locations@.subrange(
            taken(locations@.len(), item_counts@, item_counts@.len()) as int,
            (if taken(locations@.len(), item_counts@, item_counts@.len()) + num_monsters
                <= locations@.len() {
                taken(locations@.len(), item_counts@, item_counts@.len()) + num_monsters
            } else {
                locations@.len() as int
            }),
        ),
{
    let total: usize = locations.len();
    let mut items: Vec<(usize, Position)> = Vec::new();
    let mut next: usize = 0;
    let mut kind: usize = 0;
    while kind < item_counts.len()
        invariant
            total == locations@.len(),
            kind <= item_counts@.len(),
            next == taken(locations@.len(), item_counts@, kind as nat),
            next <= total,
            items@ == items_placed(locations@, item_counts@, kind as nat),
        decreases item_counts@.len() - kind,
    {
        let left: usize = total - next;
        let count: usize = if item_counts[kind] <= left { item_counts[kind] } else { left };
        let ghost before = items@;
        let ghost start = next;
        let mut k: usize = 0;
        while k < count
            invariant
                total == locations@.len(),
                kind < item_counts@.len(),
                start + count <= total,
                k <= count,
                next == start + k,
                items@ == before + Seq::new(
                    k as nat,
                    |j: int| (kind, locations@[start + j]),
                ),
            decreases count - k,
        {
            items.push((kind, locations[next]));
            proof {
                assert(items@ =~= before + Seq::new(
                    (k + 1) as nat,
                    |j: int| (kind, locations@[start + j]),
                ));
            }
            next = next + 1;
            k = k + 1;
        }
        kind = kind + 1;
    }
    let left: usize = total - next;
    let count: usize = if num_monsters <= left { num_monsters } else { left };
    let mut monsters: Vec<Position> = Vec::new();
    let mut k: usize = 0;
    while k < count
        invariant
            total == locations@.len(),
            next + count <= total,
            k <= count,
            monsters@ == locations@.subrange(next as int, next + k),
        decreases count - k,
    {
        monsters.push(locations[next + k]);
        proof {
            assert(monsters@ =~= locations@.subrange(next as int, next + k + 1));
        }
        k = k + 1;
    }
    SpawnPlan { items, monsters }
}

} // verus!
