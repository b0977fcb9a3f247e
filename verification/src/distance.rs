//! Distance fields: for a set of source tiles, the number of steps of the
//! shortest walk from a source to every tile that one reaches.
//!
//! A walk moves between tiles that share an edge, and every tile it enters
//! is a floor. The tile it starts on is a source, whatever it is made of.

use vstd::prelude::*;
use crate::grid::Grid;
use crate::map::{floor_at, MapAdapter, TileType};
use crate::position::Position;

verus! {

/// The cost of a tile that no walk of fewer than `max_depth` steps reaches.
pub const UNREACHABLE: u32 = 0xffff_ffff;

/// How far the distance fields of the game reach: a tile that only walks of
/// this many steps or more lead to counts as out of reach.
pub const PATHING_DEPTH: u32 = 1024;

/// The tile at `(x, y)` is on the grid and is one of the sources.
pub open spec fn is_source(grid: Grid, sources: Seq<usize>, x: int, y: int) -> bool {
    grid.in_bounds_at(x, y) && sources.contains(grid.index_at(x, y) as usize)
}

/// Some walk of at most `k` steps leads from a source to the tile at
/// `(x, y)`.
pub open spec fn within(
    grid: Grid,
    tiles: Seq<TileType>,
    sources: Seq<usize>,
    x: int,
    y: int,
    k: nat,
) -> bool
    decreases k,
{
    if k == 0 {
        is_source(grid, sources, x, y)
    } else {
        ||| within(grid, tiles, sources, x, y, (k - 1) as nat)
        ||| (floor_at(grid, tiles, x, y) && (within(grid, tiles, sources, x - 1, y, (k - 1) as nat)
            || within(grid, tiles, sources, x + 1, y, (k - 1) as nat) || within(
            grid,
            tiles,
            sources,
            x,
            y - 1,
            (k - 1) as nat,
        ) || within(grid, tiles, sources, x, y + 1, (k - 1) as nat)))
    }
}

/// The shortest walk from a source to the tile at `(x, y)` has exactly `d`
/// steps.
pub open spec fn shortest(
    grid: Grid,
    tiles: Seq<TileType>,
    sources: Seq<usize>,
    x: int,
    y: int,
    d: nat,
) -> bool {
    within(grid, tiles, sources, x, y, d) && (d == 0 || !within(
        grid,
        tiles,
        sources,
        x,
        y,
        (d - 1) as nat,
    ))
}

/// Only tiles of the grid are reached.
pub proof fn lemma_within_in_bounds(
    grid: Grid,
    tiles: Seq<TileType>,
    sources: Seq<usize>,
    x: int,
    y: int,
    k: nat,
)
    requires
        within(grid, tiles, sources, x, y, k),
    ensures
        grid.in_bounds_at(x, y),
    decreases k,
{
    if k > 0 && within(grid, tiles, sources, x, y, (k - 1) as nat) {
        lemma_within_in_bounds(grid, tiles, sources, x, y, (k - 1) as nat);
    }
}

/// What is reached in `k` steps is reached in any larger number of steps.
pub proof fn lemma_within_monotone(
    grid: Grid,
    tiles: Seq<TileType>,
    sources: Seq<usize>,
    x: int,
    y: int,
    k: nat,
    m: nat,
)
    requires
        within(grid, tiles, sources, x, y, k),
        k <= m,
    ensures
        within(grid, tiles, sources, x, y, m),
    decreases m - k,
{
    if k < m {
        lemma_within_monotone(grid, tiles, sources, x, y, k, (m - 1) as nat);
    }
}

/// The length of the shortest walk to a tile is one number.
pub proof fn lemma_shortest_unique(
    grid: Grid,
    tiles: Seq<TileType>,
    sources: Seq<usize>,
    x: int,
    y: int,
    c: nat,
    e: nat,
)
    requires
        shortest(grid, tiles, sources, x, y, c),
        shortest(grid, tiles, sources, x, y, e),
    ensures
        c == e,
{
    if c < e {
        lemma_within_monotone(grid, tiles, sources, x, y, c, (e - 1) as nat);
    }
    if e < c {
        lemma_within_monotone(grid, tiles, sources, x, y, e, (c - 1) as nat);
    }
}

/// A tile reached by a walk is a source or a floor.
pub proof fn lemma_within_source_or_floor(
    grid: Grid,
    tiles: Seq<TileType>,
    sources: Seq<usize>,
    x: int,
    y: int,
    k: nat,
)
    requires
        within(grid, tiles, sources, x, y, k),
    ensures
        is_source(grid, sources, x, y) || floor_at(grid, tiles, x, y),
    decreases k,
{
    if k > 0 && within(grid, tiles, sources, x, y, (k - 1) as nat) {
        lemma_within_source_or_floor(grid, tiles, sources, x, y, (k - 1) as nat);
    }
}

/// If one more step reaches nothing new after `d` steps, no number of
/// further steps does.
pub proof fn lemma_within_saturated(
    grid: Grid,
    tiles: Seq<TileType>,
    sources: Seq<usize>,
    d: nat,
    x: int,
    y: int,
    k: nat,
)
    requires
        forall|a: int, b: int| #[trigger]
            within(grid, tiles, sources, a, b, d + 1) ==> within(grid, tiles, sources, a, b, d),
        within(grid, tiles, sources, x, y, k),
    ensures
        within(grid, tiles, sources, x, y, d),
    decreases k,
{
    if k <= d {
        lemma_within_monotone(grid, tiles, sources, x, y, k, d);
    } else {
        let j = (k - 1) as nat;
        if within(grid, tiles, sources, x, y, j) {
            lemma_within_saturated(grid, tiles, sources, d, x, y, j);
        } else {
            if within(grid, tiles, sources, x - 1, y, j) {
                lemma_within_saturated(grid, tiles, sources, d, x - 1, y, j);
            } else if within(grid, tiles, sources, x + 1, y, j) {
                lemma_within_saturated(grid, tiles, sources, d, x + 1, y, j);
            } else if within(grid, tiles, sources, x, y - 1, j) {
                lemma_within_saturated(grid, tiles, sources, d, x, y - 1, j);
            } else {
                lemma_within_saturated(grid, tiles, sources, d, x, y + 1, j);
            }
            assert(within(grid, tiles, sources, x, y, d + 1));
        }
    }
}


/// What the search knows of the tile with index `i` while it fills the
/// costs up to `limit`, having reached every tile within `depth` steps: a
/// tile without a cost is not within `depth` steps, and a cost is the
/// length of the shortest walk.
spec fn cell_settled(
    grid: Grid,
    tiles: Seq<TileType>,
    sources: Seq<usize>,
    costs: Seq<u32>,
    i: int,
    limit: nat,
    depth: nat,
) -> bool {
    let p = grid.spec_coord(i);
    if costs[i] == UNREACHABLE {
        !within(grid, tiles, sources, p.x as int, p.y as int, depth)
    } else {
        costs[i] <= limit && shortest(grid, tiles, sources, p.x as int, p.y as int, costs[i] as nat)
    }
}

/// `frontier` lists exactly the tiles whose cost is `d`.
spec fn frontier_is(costs: Seq<u32>, frontier: Seq<usize>, d: nat) -> bool {
    &&& forall|k: int|
        0 <= k < frontier.len() ==> #[trigger] frontier[k] < costs.len() && costs[frontier[k] as int]
            == d
    &&& forall|i: int|
        0 <= i < costs.len() && #[trigger] costs[i] == d ==> frontier.contains(i as usize)
}

/// The state of the search while it expands the tiles at `depth`.
spec fn level_ok(
    grid: Grid,
    tiles: Seq<TileType>,
    sources: Seq<usize>,
    costs: Seq<u32>,
    depth: nat,
    frontier: Seq<usize>,
    next: Seq<usize>,
) -> bool {
    &&& costs.len() == grid.spec_len()
    &&& forall|i: int|
        0 <= i < costs.len() ==> #[trigger] cell_settled(
            grid,
            tiles,
            sources,
            costs,
            i,
            depth + 1,
            depth,
        )
    &&& frontier_is(costs, frontier, depth)
    &&& frontier_is(costs, next, depth + 1)
}

/// The state of the search between two levels.
spec fn settled(
    grid: Grid,
    tiles: Seq<TileType>,
    sources: Seq<usize>,
    costs: Seq<u32>,
    depth: nat,
    frontier: Seq<usize>,
) -> bool {
    &&& costs.len() == grid.spec_len()
    &&& forall|i: int|
        0 <= i < costs.len() ==> #[trigger] cell_settled(grid, tiles, sources, costs, i, depth, depth)
    &&& frontier_is(costs, frontier, depth)
}

/// If the tile at `(x, y)` can be entered it has a cost.
spec fn relaxed(grid: Grid, tiles: Seq<TileType>, costs: Seq<u32>, x: int, y: int) -> bool {
    floor_at(grid, tiles, x, y) ==> costs[grid.index_at(x, y)] != UNREACHABLE
}

/// Every exit of the tile with index `f` has a cost.
spec fn expanded(grid: Grid, tiles: Seq<TileType>, costs: Seq<u32>, f: int) -> bool {
    let p = grid.spec_coord(f);
    &&& relaxed(grid, tiles, costs, p.x - 1, p.y as int)
    &&& relaxed(grid, tiles, costs, p.x + 1, p.y as int)
    &&& relaxed(grid, tiles, costs, p.x as int, p.y - 1)
    &&& relaxed(grid, tiles, costs, p.x as int, p.y + 1)
}

/// The costs `after` keep every cost of `before`.
spec fn keeps_costs(before: Seq<u32>, after: Seq<u32>) -> bool {
    &&& before.len() == after.len()
    &&& forall|i: int|
        0 <= i < before.len() && #[trigger] before[i] != UNREACHABLE ==> after[i] == before[i]
}

proof fn lemma_relaxed_stays(
    grid: Grid,
    tiles: Seq<TileType>,
    before: Seq<u32>,
    after: Seq<u32>,
    x: int,
    y: int,
)
    requires
        grid.wf(),
        before.len() == grid.spec_len(),
        keeps_costs(before, after),
        relaxed(grid, tiles, before, x, y),
    ensures
        relaxed(grid, tiles, after, x, y),
{
    if floor_at(grid, tiles, x, y) {
        grid.lemma_index_at_in_range(x, y);
        assert(before[grid.index_at(x, y)] != UNREACHABLE);
    }
}

proof fn lemma_expanded_stays(
    grid: Grid,
    tiles: Seq<TileType>,
    before: Seq<u32>,
    after: Seq<u32>,
    f: int,
)
    requires
        grid.wf(),
        before.len() == grid.spec_len(),
        keeps_costs(before, after),
        expanded(grid, tiles, before, f),
    ensures
        expanded(grid, tiles, after, f),
{
    let p = grid.spec_coord(f);
    lemma_relaxed_stays(grid, tiles, before, after, p.x - 1, p.y as int);
    lemma_relaxed_stays(grid, tiles, before, after, p.x + 1, p.y as int);
    lemma_relaxed_stays(grid, tiles, before, after, p.x as int, p.y - 1);
    lemma_relaxed_stays(grid, tiles, before, after, p.x as int, p.y + 1);
}

/// `delta` is one step to the west, east, south or north.
pub open spec fn is_step(delta: Position) -> bool {
    ||| (delta.x == -1 && delta.y == 0)
    ||| (delta.x == 1 && delta.y == 0)
    ||| (delta.x == 0 && delta.y == -1)
    ||| (delta.x == 0 && delta.y == 1)
}

/// Gives the tile at `loc + delta` the cost `depth + 1` if it can be
/// entered and has no cost yet.
fn relax(
    map: &MapAdapter,
    starts: &Vec<usize>,
    frontier: &Vec<usize>,
    costs: &mut Vec<u32>,
    next: &mut Vec<usize>,
    loc: Position,
    delta: Position,
    depth: u32,
)
    requires
        map.wf(),
        depth < UNREACHABLE - 1,
        level_ok(
            map.grid(),
            map.tiles(),
            starts@,
            old(costs)@,
            depth as nat,
            frontier@,
            old(next)@,
        ),
        map.grid().spec_in_bounds(loc),
        old(costs)@[map.grid().spec_index(loc)] == depth,
        is_step(delta),
    ensures
        level_ok(
            map.grid(),
            map.tiles(),
            starts@,
            final(costs)@,
            depth as nat,
            frontier@,
            final(next)@,
        ),
        keeps_costs(old(costs)@, final(costs)@),
        relaxed(map.grid(), map.tiles(), final(costs)@, loc.x + delta.x, loc.y + delta.y),
{
    let ghost grid = map.grid();
    let ghost tiles = map.tiles();
    let ghost sources = starts@;
    let ghost d = depth as nat;
    let ghost before = costs@;
    let ghost next_before = next@;
    let ghost qx = loc.x + delta.x;
    let ghost qy = loc.y + delta.y;
    let ghost q = Position { x: qx as i32, y: qy as i32 };
    proof {
        grid.lemma_index_in_range(loc);
        grid.lemma_coord_of_index(loc);
        if grid.in_bounds_at(qx, qy) {
            grid.lemma_index_in_range(q);
            grid.lemma_coord_of_index(q);
        }
    }
    if let Some(e) = map.valid_exit(loc, delta) {
        assert(e == grid.index_at(qx, qy));
        if costs[e] == UNREACHABLE {
            costs.set(e, depth + 1);
            next.push(e);
            proof {
                let li = grid.spec_index(loc);
                assert(cell_settled(grid, tiles, sources, before, li, d + 1, d));
                assert(cell_settled(grid, tiles, sources, before, e as int, d + 1, d));
                assert(within(grid, tiles, sources, loc.x as int, loc.y as int, d));
                assert(within(grid, tiles, sources, qx, qy, d + 1));
                assert forall|i: int| 0 <= i < costs@.len() implies #[trigger] cell_settled(
                    grid,
                    tiles,
                    sources,
                    costs@,
                    i,
                    d + 1,
                    d,
                ) by {
                    assert(cell_settled(grid, tiles, sources, before, i, d + 1, d));
                }
                assert forall|k: int| 0 <= k < next@.len() implies #[trigger] next@[k]
                    < costs@.len() && costs@[next@[k] as int] == d + 1 by {
                    if k < next_before.len() {
                        assert(next@[k] == next_before[k]);
                    }
                }
                assert forall|i: int| 0 <= i < costs@.len() && #[trigger] costs@[i] == d
                    + 1 implies next@.contains(i as usize) by {
                    if i == e {
                        assert(next@[next_before.len() as int] == e);
                    } else {
                        assert(before[i] == d + 1);
                        let k = choose|k: int|
                            0 <= k < next_before.len() && next_before[k] == i as usize;
                        assert(next@[k] == i as usize);
                    }
                }
                assert forall|i: int| 0 <= i < costs@.len() && #[trigger] costs@[i]
                    == d implies frontier@.contains(i as usize) by {
                    assert(before[i] == d);
                }
            }
        }
    }
}


/// While the tiles at `depth` are being expanded, a neighbour of a floor
/// that still has no cost is not within `depth` steps, once every tile at
/// `depth` has been expanded.
proof fn lemma_neighbor_not_within(
    grid: Grid,
    tiles: Seq<TileType>,
    sources: Seq<usize>,
    costs: Seq<u32>,
    depth: nat,
    frontier: Seq<usize>,
    next: Seq<usize>,
    i: int,
    qx: int,
    qy: int,
)
    requires
        grid.wf(),
        level_ok(grid, tiles, sources, costs, depth, frontier, next),
        forall|k: int|
            0 <= k < frontier.len() ==> expanded(grid, tiles, costs, #[trigger] frontier[k] as int),
        0 <= i < costs.len(),
        costs[i] == UNREACHABLE,
        floor_at(grid, tiles, grid.spec_coord(i).x as int, grid.spec_coord(i).y as int),
        ({
            let p = grid.spec_coord(i);
            ||| (qx == p.x - 1 && qy == p.y)
            ||| (qx == p.x + 1 && qy == p.y)
            ||| (qx == p.x && qy == p.y - 1)
            ||| (qx == p.x && qy == p.y + 1)
        }),
    ensures
        !within(grid, tiles, sources, qx, qy, depth),
{
    let p = grid.spec_coord(i);
    grid.lemma_coord_in_bounds(i);
    assert(cell_settled(grid, tiles, sources, costs, i, depth + 1, depth));
    if within(grid, tiles, sources, qx, qy, depth) {
        lemma_within_in_bounds(grid, tiles, sources, qx, qy, depth);
        let q = Position { x: qx as i32, y: qy as i32 };
        grid.lemma_index_in_range(q);
        grid.lemma_coord_of_index(q);
        let j = grid.spec_index(q);
        assert(cell_settled(grid, tiles, sources, costs, j, depth + 1, depth));
        if costs[j] < depth {
            lemma_within_monotone(
                grid,
                tiles,
                sources,
                qx,
                qy,
                costs[j] as nat,
                (depth - 1) as nat,
            );
            assert(within(grid, tiles, sources, p.x as int, p.y as int, depth));
        } else {
            assert(costs[j] == depth);
            let k = choose|k: int| 0 <= k < frontier.len() && frontier[k] == j as usize;
            assert(expanded(grid, tiles, costs, frontier[k] as int));
            assert(relaxed(grid, tiles, costs, p.x as int, p.y as int));
        }
    }
}

/// When every tile at `depth` has been expanded, every tile within
/// `depth + 1` steps has its cost.
proof fn lemma_level_done(
    grid: Grid,
    tiles: Seq<TileType>,
    sources: Seq<usize>,
    costs: Seq<u32>,
    depth: nat,
    frontier: Seq<usize>,
    next: Seq<usize>,
)
    requires
        grid.wf(),
        level_ok(grid, tiles, sources, costs, depth, frontier, next),
        forall|k: int|
            0 <= k < frontier.len() ==> expanded(grid, tiles, costs, #[trigger] frontier[k] as int),
    ensures
        settled(grid, tiles, sources, costs, depth + 1, next),
{
    assert forall|i: int| 0 <= i < costs.len() implies #[trigger] cell_settled(
        grid,
        tiles,
        sources,
        costs,
        i,
        depth + 1,
        depth + 1,
    ) by {
        assert(cell_settled(grid, tiles, sources, costs, i, depth + 1, depth));
        if costs[i] == UNREACHABLE {
            let p = grid.spec_coord(i);
            let x = p.x as int;
            let y = p.y as int;
            if floor_at(grid, tiles, x, y) {
                lemma_neighbor_not_within(grid, tiles, sources, costs, depth, frontier, next, i, x - 1, y);
                lemma_neighbor_not_within(grid, tiles, sources, costs, depth, frontier, next, i, x + 1, y);
                lemma_neighbor_not_within(grid, tiles, sources, costs, depth, frontier, next, i, x, y - 1);
                lemma_neighbor_not_within(grid, tiles, sources, costs, depth, frontier, next, i, x, y + 1);
            }
            assert(!within(grid, tiles, sources, x, y, depth + 1));
        }
    }
}

/// When no tile is at `depth`, one more step reaches nothing new.
proof fn lemma_empty_frontier(
    grid: Grid,
    tiles: Seq<TileType>,
    sources: Seq<usize>,
    costs: Seq<u32>,
    depth: nat,
    x: int,
    y: int,
)
    requires
        grid.wf(),
        settled(grid, tiles, sources, costs, depth, Seq::<usize>::empty()),
        within(grid, tiles, sources, x, y, depth + 1),
    ensures
        within(grid, tiles, sources, x, y, depth),
{
    if !within(grid, tiles, sources, x, y, depth) {
        let (qx, qy) = if within(grid, tiles, sources, x - 1, y, depth) {
            (x - 1, y)
        } else if within(grid, tiles, sources, x + 1, y, depth) {
            (x + 1, y)
        } else if within(grid, tiles, sources, x, y - 1, depth) {
            (x, y - 1)
        } else {
            (x, y + 1)
        };
        assert(within(grid, tiles, sources, qx, qy, depth));
        lemma_within_in_bounds(grid, tiles, sources, qx, qy, depth);
        let q = Position { x: qx as i32, y: qy as i32 };
        grid.lemma_index_in_range(q);
        grid.lemma_coord_of_index(q);
        let j = grid.spec_index(q);
        assert(cell_settled(grid, tiles, sources, costs, j, depth, depth));
        if costs[j] == depth {
            assert(Seq::<usize>::empty().contains(j as usize));
        }
        lemma_within_monotone(grid, tiles, sources, qx, qy, costs[j] as nat, (depth - 1) as nat);
    }
}

/// The distance field of a level for a set of source tiles.
///
/// `map` holds one cost for each tile, row by row: the number of steps of
/// the shortest walk from a source to the tile, or `UNREACHABLE` where no
/// walk of fewer than `max_depth` steps leads there.
#[derive(Clone, Debug)]
pub struct DistanceField {
    pub map: Vec<u32>,
    pub grid: Grid,
    pub max_depth: u32,
}

impl DistanceField {
    /// The cost of the tile with index `idx`: `None` where it was not
    /// reached.
    pub open spec fn spec_cost(&self, idx: int) -> Option<nat> {
        if self.map@[idx] == UNREACHABLE {
            None
        } else {
            Some(self.map@[idx] as nat)
        }
    }

    /// The field has one cost for each tile of its grid.
    pub open spec fn wf(&self) -> bool {
        self.grid.wf() && self.map@.len() == self.grid.spec_len()
    }

    /// The field holds the distances on the level `tiles` from `sources`:
    /// every cost is the length of the shortest walk from a source and is
    /// below `max_depth`, and a tile without a cost is reached by no walk of
    /// fewer than `max_depth` steps.
    pub open spec fn describes(&self, tiles: Seq<TileType>, sources: Seq<usize>) -> bool {
        &&& self.wf()
        &&& forall|i: int|
            0 <= i < self.map@.len() ==> {
                let p = self.grid.spec_coord(i);
                match #[trigger] self.spec_cost(i) {
                    Some(d) => d < self.max_depth && shortest(
                        self.grid,
                        tiles,
                        sources,
                        p.x as int,
                        p.y as int,
                        d,
                    ),
                    None => forall|k: nat|
                        k < self.max_depth ==> !#[trigger] within(
                            self.grid,
                            tiles,
                            sources,
                            p.x as int,
                            p.y as int,
                            k,
                        ),
                }
            }
    }

    /// Computes the distance field of `map` for the sources `starts`, given
    /// as tile indices; an index that names no tile is no source. Tiles that
    /// only walks of `max_depth` steps or more reach get no cost.
    pub fn new(map: &MapAdapter, starts: &Vec<usize>, max_depth: u32) -> (field: DistanceField)
        requires
            map.wf(),
        ensures
            field.grid == map.grid(),
            field.max_depth == max_depth,
            field.describes(map.tiles(), starts@),
    {
        let ghost grid = map.grid();
        let ghost tiles = map.tiles();
        let ghost sources = starts@;
        let n: usize = map.cell.grid.len();
        let mut costs: Vec<u32> = Vec::new();
        let mut c: usize = 0;
        while c < n
            invariant
                c <= n,
                costs@.len() == c,
                forall|i: int| 0 <= i < c ==> costs@[i] == UNREACHABLE,
            decreases n - c,
        {
            costs.push(UNREACHABLE);
            c = c + 1;
        }
        if max_depth == 0 {
            return DistanceField { map: costs, grid: map.cell.grid, max_depth };
        }
        let mut frontier: Vec<usize> = Vec::new();
        let mut s: usize = 0;
        while s < starts.len()
            invariant
                s <= starts.len(),
                costs@.len() == n,
                forall|i: int| 0 <= i < n ==> #[trigger] costs@[i] == 0 || costs@[i] == UNREACHABLE,
                forall|i: int|
                    0 <= i < n && #[trigger] costs@[i] == 0 ==> starts@.contains(i as usize),
                forall|k: int| 0 <= k < s && #[trigger] starts@[k] < n ==> costs@[starts@[k] as int] == 0,
                frontier_is(costs@, frontier@, 0),
            decreases starts.len() - s,
        {
            let st: usize = starts[s];
            if st < n && costs[st] == UNREACHABLE {
                let ghost before = costs@;
                let ghost frontier_before = frontier@;
                costs.set(st, 0);
                frontier.push(st);
                proof {
                    assert forall|i: int| 0 <= i < n && #[trigger] costs@[i] == 0 implies frontier@.contains(
                        i as usize,
                    ) by {
                        if i == st {
                            assert(frontier@[frontier_before.len() as int] == st);
                        } else {
                            assert(before[i] == 0);
                            let k = choose|k: int|
                                0 <= k < frontier_before.len() && frontier_before[k] == i as usize;
                            assert(frontier@[k] == i as usize);
                        }
                    }
                    assert forall|k: int| 0 <= k < frontier@.len() implies #[trigger] frontier@[k]
                        < costs@.len() && costs@[frontier@[k] as int] == 0 by {
                        if k < frontier_before.len() {
                            assert(frontier@[k] == frontier_before[k]);
                        }
                    }
                }
            }
            s = s + 1;
        }
        let mut depth: u32 = 0;
        proof {
            assert forall|i: int| 0 <= i < costs@.len() implies #[trigger] cell_settled(
                grid,
                tiles,
                sources,
                costs@,
                i,
                0,
                0,
            ) by {
                grid.lemma_coord_in_bounds(i);
                if costs@[i] == UNREACHABLE {
                    if sources.contains(i as usize) {
                        let k = choose|k: int| 0 <= k < sources.len() && sources[k] == i as usize;
                        assert(costs@[starts@[k] as int] == 0);
                    }
                }
            }
        }
        while frontier.len() > 0 && depth + 1 < max_depth
            invariant
                map.wf(),
                grid == map.grid(),
                tiles == map.tiles(),
                sources == starts@,
                depth < max_depth,
                settled(grid, tiles, sources, costs@, depth as nat, frontier@),
            decreases max_depth - depth,
        {
            let mut next: Vec<usize> = Vec::new();
            let mut j: usize = 0;
            proof {
                assert forall|i: int| 0 <= i < costs@.len() implies #[trigger] cell_settled(
                    grid,
                    tiles,
                    sources,
                    costs@,
                    i,
                    depth as nat + 1,
                    depth as nat,
                ) by {
                    assert(cell_settled(grid, tiles, sources, costs@, i, depth as nat, depth as nat));
                }
                assert forall|i: int| 0 <= i < costs@.len() && #[trigger] costs@[i] == depth
                    + 1 implies next@.contains(i as usize) by {
                    assert(cell_settled(grid, tiles, sources, costs@, i, depth as nat, depth as nat));
                }
            }
            while j < frontier.len()
                invariant
                    map.wf(),
                    grid == map.grid(),
                    tiles == map.tiles(),
                    sources == starts@,
                    depth + 1 < max_depth,
                    j <= frontier.len(),
                    level_ok(grid, tiles, sources, costs@, depth as nat, frontier@, next@),
                    forall|k: int|
                        0 <= k < j ==> expanded(grid, tiles, costs@, #[trigger] frontier@[k] as int),
                decreases frontier.len() - j,
            {
                let f: usize = frontier[j];
                let loc = map.index_to_point2d(f);
                let ghost c0 = costs@;
                relax(map, starts, &frontier, &mut costs, &mut next, loc, Position { x: -1, y: 0 }, depth);
                let ghost c1 = costs@;
                relax(map, starts, &frontier, &mut costs, &mut next, loc, Position { x: 1, y: 0 }, depth);
                let ghost c2 = costs@;
                relax(map, starts, &frontier, &mut costs, &mut next, loc, Position { x: 0, y: -1 }, depth);
                let ghost c3 = costs@;
                relax(map, starts, &frontier, &mut costs, &mut next, loc, Position { x: 0, y: 1 }, depth);
                proof {
                    let x = loc.x as int;
                    let y = loc.y as int;
                    assert(keeps_costs(c1, costs@));
                    assert(keeps_costs(c2, costs@));
                    assert(keeps_costs(c0, costs@));
                    lemma_relaxed_stays(grid, tiles, c1, costs@, x - 1, y);
                    lemma_relaxed_stays(grid, tiles, c2, costs@, x + 1, y);
                    lemma_relaxed_stays(grid, tiles, c3, costs@, x, y - 1);
                    assert(expanded(grid, tiles, costs@, f as int));
                    assert forall|k: int| 0 <= k < j implies expanded(
                        grid,
                        tiles,
                        costs@,
                        #[trigger] frontier@[k] as int,
                    ) by {
                        lemma_expanded_stays(grid, tiles, c0, costs@, frontier@[k] as int);
                    }
                }
                j = j + 1;
            }
            proof {
                lemma_level_done(grid, tiles, sources, costs@, depth as nat, frontier@, next@);
            }
            frontier = next;
            depth = depth + 1;
        }
        let field = DistanceField { map: costs, grid: map.cell.grid, max_depth };
        proof {
            assert forall|i: int| 0 <= i < field.map@.len() implies ({
                let p = field.grid.spec_coord(i);
                match #[trigger] field.spec_cost(i) {
                    Some(d) => d < field.max_depth && shortest(
                        field.grid,
                        tiles,
                        sources,
                        p.x as int,
                        p.y as int,
                        d,
                    ),
                    None => forall|k: nat|
                        k < field.max_depth ==> !#[trigger] within(
                            field.grid,
                            tiles,
                            sources,
                            p.x as int,
                            p.y as int,
                            k,
                        ),
                }
            }) by {
                let p = grid.spec_coord(i);
                let x = p.x as int;
                let y = p.y as int;
                assert(cell_settled(grid, tiles, sources, costs@, i, depth as nat, depth as nat));
                if costs@[i] == UNREACHABLE {
                    assert forall|k: nat| k < max_depth implies !#[trigger] within(
                        grid,
                        tiles,
                        sources,
                        x,
                        y,
                        k,
                    ) by {
                        if within(grid, tiles, sources, x, y, k) {
                            if k <= depth {
                                lemma_within_monotone(grid, tiles, sources, x, y, k, depth as nat);
                            } else {
                                assert(frontier@ =~= Seq::<usize>::empty());
                                assert forall|a: int, b: int| #[trigger]
                                    within(grid, tiles, sources, a, b, depth as nat + 1) implies within(
                                    grid,
                                    tiles,
                                    sources,
                                    a,
                                    b,
                                    depth as nat,
                                ) by {
                                    lemma_empty_frontier(grid, tiles, sources, costs@, depth as nat, a, b);
                                }
                                lemma_within_saturated(grid, tiles, sources, depth as nat, x, y, k);
                            }
                        }
                    }
                }
            }
        }
        field
    }
}


/// The first of the candidates with the smallest cost.
pub open spec fn lowest_candidate(costs: Seq<u32>, candidates: Seq<usize>) -> usize
    recommends
        candidates.len() > 0,
    decreases candidates.len(),
{
    if candidates.len() <= 1 {
        candidates[0]
    } else {
        let best = lowest_candidate(costs, candidates.drop_last());
        let last = candidates.last();
        if costs[last as int] < costs[best as int] {
            last
        } else {
            best
        }
    }
}

/// The lowest candidate is one of the candidates, and none has a smaller
/// cost.
pub proof fn lemma_lowest_candidate(costs: Seq<u32>, candidates: Seq<usize>)
    requires
        candidates.len() > 0,
    ensures
        candidates.contains(lowest_candidate(costs, candidates)),
        forall|k: int|
            0 <= k < candidates.len() ==> costs[lowest_candidate(costs, candidates) as int]
                <= costs[#[trigger] candidates[k] as int],
    decreases candidates.len(),
{
    if candidates.len() <= 1 {
        assert(candidates[0] == lowest_candidate(costs, candidates));
    } else {
        let front = candidates.drop_last();
        lemma_lowest_candidate(costs, front);
        let best = lowest_candidate(costs, front);
        let k = choose|k: int| 0 <= k < front.len() && front[k] == best;
        assert(candidates[k] == best);
        assert(candidates[candidates.len() - 1] == candidates.last());
        assert forall|k: int| 0 <= k < candidates.len() implies costs[lowest_candidate(
            costs,
            candidates,
        ) as int] <= costs[#[trigger] candidates[k] as int] by {
            if k < front.len() {
                assert(front[k] == candidates[k]);
            }
        }
    }
}

impl DistanceField {
    /// The step that `find_lowest_exit` picks at the tile `position` with
    /// the given exits: none where there is no exit, else the first tile of
    /// smallest cost among `position` itself and its exits, in their order.
    pub open spec fn spec_find_lowest_exit(&self, position: usize, exits: Seq<usize>) -> Option<
        usize,
    > {
        if exits.len() == 0 {
            None
        } else {
            Some(lowest_candidate(self.map@, seq![position] + exits))
        }
    }

    /// The best single step from the tile `position` towards the sources:
    /// the exit of smallest cost. The tile itself stands first among the
    /// candidates, so the result is `position` where no exit has a smaller
    /// cost than it, which says to stay; among exits of equal cost the first
    /// wins. `None` where the tile has no exit.
    pub fn find_lowest_exit(&self, position: usize, map: &MapAdapter) -> (r: Option<usize>)
        requires
            self.wf(),
            map.wf(),
            self.grid == map.grid(),
        ensures
            r == self.spec_find_lowest_exit(position, map.spec_exits(position as int)),
            r matches Some(e) ==> e < self.map@.len(),
    {
        let exits = map.get_available_exits(position);
        if exits.len() == 0 {
            return None;
        }
        let ghost candidates = seq![position] + exits@;
        proof {
            let loc = self.grid.spec_coord(position as int);
            self.grid.lemma_coord_in_bounds(position as int);
            lemma_exits_in_range(self.grid, map.tiles(), loc.x as int, loc.y as int);
        }
        let mut best: usize = position;
        let mut i: usize = 0;
        assert(candidates.take(1) =~= seq![position]);
        while i < exits.len()
            invariant
                i <= exits.len(),
                candidates == seq![position] + exits@,
                best == lowest_candidate(self.map@, candidates.take(i + 1)),
                best < self.map@.len(),
                position < self.map@.len(),
                forall|k: int| 0 <= k < exits@.len() ==> #[trigger] exits@[k] < self.map@.len(),
            decreases exits.len() - i,
        {
            let e: usize = exits[i];
            proof {
                let now = candidates.take(i + 2);
                assert(now.drop_last() =~= candidates.take(i + 1));
                assert(now.last() == e);
            }
            if self.map[e] < self.map[best] {
                best = e;
            }
            i = i + 1;
        }
        assert(candidates.take(exits.len() + 1) =~= candidates);
        Some(best)
    }

    /// The position of the tile of largest cost, for placing something as
    /// far from the sources as a walk can get; among tiles of equal cost the
    /// one of smallest index. `None` where no tile has a cost.
    pub fn most_distant_reachable(&self) -> (r: Option<Position>)
        requires
            self.wf(),
        ensures
            r.is_none() <==> forall|i: int| 0 <= i < self.map@.len() ==> self.spec_cost(i).is_none(),
            r matches Some(p) ==> {
                &&& self.grid.spec_in_bounds(p)
                &&& self.spec_cost(self.grid.spec_index(p)).is_some()
                &&& forall|i: int|
                    0 <= i < self.map@.len() && self.spec_cost(i).is_some() ==> self.map@[i]
                        <= self.map@[self.grid.spec_index(p)]
                &&& forall|i: int|
                    0 <= i < self.grid.spec_index(p) && self.spec_cost(i).is_some() ==> self.map@[i]
                        < self.map@[self.grid.spec_index(p)]
            },
    {
        match self.most_distant_index() {
            Some(best) => Some(self.grid.index_to_point2d(best)),
            None => None,
        }
    }

    /// The index of the tile of largest cost; among tiles of equal cost the
    /// smallest index. `None` where no tile has a cost.
    pub fn most_distant_index(&self) -> (r: Option<usize>)
        ensures
            r.is_none() <==> forall|i: int| 0 <= i < self.map@.len() ==> self.spec_cost(i).is_none(),
            r matches Some(best) ==> {
                &&& best < self.map@.len()
                &&& self.spec_cost(best as int).is_some()
                &&& forall|i: int|
                    0 <= i < self.map@.len() && self.spec_cost(i).is_some() ==> self.map@[i]
                        <= self.map@[best as int]
                &&& forall|i: int|
                    0 <= i < best && self.spec_cost(i).is_some() ==> self.map@[i]
                        < self.map@[best as int]
            },
    {
        let mut best: Option<usize> = None;
        let mut i: usize = 0;
        while i < self.map.len()
            invariant
                i <= self.map@.len(),
                best.is_none() <==> forall|k: int| 0 <= k < i ==> self.spec_cost(k).is_none(),
                best matches Some(b) ==> {
                    &&& b < i
                    &&& self.spec_cost(b as int).is_some()
                    &&& forall|k: int|
                        0 <= k < i && self.spec_cost(k).is_some() ==> self.map@[k]
                            <= self.map@[b as int]
                    &&& forall|k: int|
                        0 <= k < b && self.spec_cost(k).is_some() ==> self.map@[k]
                            < self.map@[b as int]
                },
            decreases self.map@.len() - i,
        {
            let cost: u32 = self.map[i];
            if cost != UNREACHABLE {
                match best {
                    None => {
                        best = Some(i);
                    },
                    Some(b) => {
                        if cost > self.map[b] {
                            best = Some(i);
                        }
                    },
                }
            }
            i = i + 1;
        }
        best
    }
}

/// Every exit of a tile of the grid is the index of a tile.
pub proof fn lemma_exits_in_range(grid: Grid, tiles: Seq<TileType>, x: int, y: int)
    requires
        grid.wf(),
    ensures
        forall|k: int|
            0 <= k < crate::map::neighbor_exits_at(grid, tiles, x, y).len()
                ==> #[trigger] crate::map::neighbor_exits_at(grid, tiles, x, y)[k] < grid.spec_len(),
{
    if grid.in_bounds_at(x - 1, y) {
        grid.lemma_index_at_in_range(x - 1, y);
    }
    if grid.in_bounds_at(x + 1, y) {
        grid.lemma_index_at_in_range(x + 1, y);
    }
    if grid.in_bounds_at(x, y - 1) {
        grid.lemma_index_at_in_range(x, y - 1);
    }
    if grid.in_bounds_at(x, y + 1) {
        grid.lemma_index_at_in_range(x, y + 1);
    }
}

} // verus!
