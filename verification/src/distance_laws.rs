//! What holds of every distance field: distances on an open grid, tiles
//! that walls enclose, and the descent along lowest exits.

use vstd::prelude::*;
use crate::distance::{
    is_source, lemma_lowest_candidate, lemma_within_in_bounds, lemma_within_monotone,
    lemma_within_source_or_floor, lowest_candidate, shortest, within, DistanceField,
};
use crate::grid::Grid;
use crate::map::{exit_at, floor_at, neighbor_exits_at, MapAdapter, TileType};
use crate::position::{magnitude, Position};

verus! {

/// Manhattan distance from the tile `s` to the tile at `(x, y)`.
pub open spec fn manhattan_at(s: Position, x: int, y: int) -> int {
    magnitude(x - s.x) + magnitude(y - s.y)
}

/// Every tile of the level is a floor.
pub open spec fn all_floor(grid: Grid, tiles: Seq<TileType>) -> bool {
    &&& tiles.len() == grid.spec_len()
    &&& forall|i: int| 0 <= i < tiles.len() ==> #[trigger] tiles[i] == TileType::Floor
}

/// On a level of floors only, with the single source `s`, a tile is within
/// `k` steps exactly if its Manhattan distance from `s` is at most `k`.
pub proof fn lemma_open_grid_within(
    grid: Grid,
    tiles: Seq<TileType>,
    s: Position,
    x: int,
    y: int,
    k: nat,
)
    requires
        grid.wf(),
        all_floor(grid, tiles),
        grid.spec_in_bounds(s),
        grid.in_bounds_at(x, y),
    ensures
        within(grid, tiles, seq![grid.spec_index(s) as usize], x, y, k) <==> manhattan_at(s, x, y)
            <= k,
    decreases k,
{
    let sources = seq![grid.spec_index(s) as usize];
    let m = manhattan_at(s, x, y);
    let t = Position { x: x as i32, y: y as i32 };
    grid.lemma_index_in_range(s);
    grid.lemma_index_in_range(t);
    assert(sources[0] == grid.spec_index(s) as usize);
    if is_source(grid, sources, x, y) {
        grid.lemma_index_injective(s, t);
    }
    if k == 0 {
    } else {
        let j = (k - 1) as nat;
        lemma_open_grid_within(grid, tiles, s, x, y, j);
        if grid.in_bounds_at(x - 1, y) {
            lemma_open_grid_within(grid, tiles, s, x - 1, y, j);
        }
        if grid.in_bounds_at(x + 1, y) {
            lemma_open_grid_within(grid, tiles, s, x + 1, y, j);
        }
        if grid.in_bounds_at(x, y - 1) {
            lemma_open_grid_within(grid, tiles, s, x, y - 1, j);
        }
        if grid.in_bounds_at(x, y + 1) {
            lemma_open_grid_within(grid, tiles, s, x, y + 1, j);
        }
        if within(grid, tiles, sources, x - 1, y, j) {
            lemma_within_in_bounds(grid, tiles, sources, x - 1, y, j);
        }
        if within(grid, tiles, sources, x + 1, y, j) {
            lemma_within_in_bounds(grid, tiles, sources, x + 1, y, j);
        }
        if within(grid, tiles, sources, x, y - 1, j) {
            lemma_within_in_bounds(grid, tiles, sources, x, y - 1, j);
        }
        if within(grid, tiles, sources, x, y + 1, j) {
            lemma_within_in_bounds(grid, tiles, sources, x, y + 1, j);
        }
        assert(floor_at(grid, tiles, x, y));
    }
}

/// On a level of floors only, the field of a single source `s` gives every
/// tile `t` its Manhattan distance from `s`, as long as that is below the
/// field's `max_depth`; a tile further away has no cost.
pub proof fn lemma_open_grid_manhattan(
    field: DistanceField,
    tiles: Seq<TileType>,
    s: Position,
    t: Position,
)
    requires
        all_floor(field.grid, tiles),
        field.grid.spec_in_bounds(s),
        field.grid.spec_in_bounds(t),
        field.describes(tiles, seq![field.grid.spec_index(s) as usize]),
    ensures
        field.spec_cost(field.grid.spec_index(t)) == (if s.spec_manhattan(t) < field.max_depth {
            Some(s.spec_manhattan(t) as nat)
        } else {
            None
        }),
{
    let grid = field.grid;
    let sources = seq![grid.spec_index(s) as usize];
    let i = grid.spec_index(t);
    let x = t.x as int;
    let y = t.y as int;
    let m = manhattan_at(s, x, y);
    assert(m == s.spec_manhattan(t));
    grid.lemma_index_in_range(t);
    grid.lemma_coord_of_index(t);
    match field.spec_cost(i) {
        Some(d) => {
            lemma_open_grid_within(grid, tiles, s, x, y, d);
            if d > 0 {
                lemma_open_grid_within(grid, tiles, s, x, y, (d - 1) as nat);
            }
        },
        None => {
            if m < field.max_depth {
                lemma_open_grid_within(grid, tiles, s, x, y, m as nat);
                assert(within(grid, tiles, sources, x, y, m as nat));
            }
        },
    }
}

/// The tile at `(x, y)` has no floor among its four neighbours, and, if it
/// is a floor itself, no source among them either.
pub open spec fn enclosed(
    grid: Grid,
    tiles: Seq<TileType>,
    sources: Seq<usize>,
    x: int,
    y: int,
) -> bool {
    &&& !floor_at(grid, tiles, x - 1, y) && !floor_at(grid, tiles, x + 1, y)
    &&& !floor_at(grid, tiles, x, y - 1) && !floor_at(grid, tiles, x, y + 1)
    &&& floor_at(grid, tiles, x, y) ==> {
        &&& !is_source(grid, sources, x - 1, y) && !is_source(grid, sources, x + 1, y)
        &&& !is_source(grid, sources, x, y - 1) && !is_source(grid, sources, x, y + 1)
    }
}

/// No walk reaches an enclosed tile that is not a source itself.
pub proof fn lemma_enclosed_not_within(
    grid: Grid,
    tiles: Seq<TileType>,
    sources: Seq<usize>,
    x: int,
    y: int,
    k: nat,
)
    requires
        enclosed(grid, tiles, sources, x, y),
        !is_source(grid, sources, x, y),
    ensures
        !within(grid, tiles, sources, x, y, k),
    decreases k,
{
    if k > 0 {
        let j = (k - 1) as nat;
        lemma_enclosed_not_within(grid, tiles, sources, x, y, j);
        if within(grid, tiles, sources, x - 1, y, j) {
            lemma_within_source_or_floor(grid, tiles, sources, x - 1, y, j);
        }
        if within(grid, tiles, sources, x + 1, y, j) {
            lemma_within_source_or_floor(grid, tiles, sources, x + 1, y, j);
        }
        if within(grid, tiles, sources, x, y - 1, j) {
            lemma_within_source_or_floor(grid, tiles, sources, x, y - 1, j);
        }
        if within(grid, tiles, sources, x, y + 1, j) {
            lemma_within_source_or_floor(grid, tiles, sources, x, y + 1, j);
        }
    }
}

/// A tile without a floor among its four neighbours has no cost in the
/// field of any set of sources that it is not part of. Where the tile is a
/// floor itself, the sources must not hold one of its neighbours either: a
/// walk may start on a wall, and would step from there onto the tile.
pub proof fn lemma_enclosed_unreachable(
    field: DistanceField,
    tiles: Seq<TileType>,
    sources: Seq<usize>,
    c: Position,
)
    requires
        field.describes(tiles, sources),
        field.grid.spec_in_bounds(c),
        !is_source(field.grid, sources, c.x as int, c.y as int),
        enclosed(field.grid, tiles, sources, c.x as int, c.y as int),
    ensures
        field.spec_cost(field.grid.spec_index(c)).is_none(),
{
    let grid = field.grid;
    let i = grid.spec_index(c);
    grid.lemma_index_in_range(c);
    grid.lemma_coord_of_index(c);
    match field.spec_cost(i) {
        Some(d) => {
            lemma_enclosed_not_within(grid, tiles, sources, c.x as int, c.y as int, d);
        },
        None => {},
    }
}

/// Every source that is a tile of the grid is a floor.
pub open spec fn sources_on_floor(grid: Grid, tiles: Seq<TileType>, sources: Seq<usize>) -> bool {
    forall|x: int, y: int| #[trigger]
        is_source(grid, sources, x, y) ==> floor_at(grid, tiles, x, y)
}

/// `(qx, qy)` is one step to the west, east, south or north of `(x, y)`.
pub open spec fn adjacent(x: int, y: int, qx: int, qy: int) -> bool {
    ||| (qx == x - 1 && qy == y)
    ||| (qx == x + 1 && qy == y)
    ||| (qx == x && qy == y - 1)
    ||| (qx == x && qy == y + 1)
}

/// A neighbour that can be entered is listed among the exits.
pub proof fn lemma_exit_listed(grid: Grid, tiles: Seq<TileType>, x: int, y: int, qx: int, qy: int)
    requires
        adjacent(x, y, qx, qy),
        floor_at(grid, tiles, qx, qy),
    ensures
        neighbor_exits_at(grid, tiles, x, y).contains(grid.index_at(qx, qy) as usize),
{
    let a = exit_at(grid, tiles, x, y + 1);
    let b = exit_at(grid, tiles, x, y - 1);
    let c = exit_at(grid, tiles, x - 1, y);
    let all = neighbor_exits_at(grid, tiles, x, y);
    let e = grid.index_at(qx, qy) as usize;
    if qx == x && qy == y + 1 {
        assert(all[0] == e);
    } else if qx == x && qy == y - 1 {
        assert(all[a.len() as int] == e);
    } else if qx == x - 1 && qy == y {
        assert(all[(a.len() + b.len()) as int] == e);
    } else {
        assert(all[(a.len() + b.len() + c.len()) as int] == e);
    }
}

/// Every exit is the index of a neighbour that can be entered.
pub proof fn lemma_exit_origin(grid: Grid, tiles: Seq<TileType>, x: int, y: int, k: int) -> (q: (
    int,
    int,
))
    requires
        0 <= k < neighbor_exits_at(grid, tiles, x, y).len(),
    ensures
        adjacent(x, y, q.0, q.1),
        floor_at(grid, tiles, q.0, q.1),
        neighbor_exits_at(grid, tiles, x, y)[k] == grid.index_at(q.0, q.1) as usize,
{
    let a = exit_at(grid, tiles, x, y + 1);
    let b = exit_at(grid, tiles, x, y - 1);
    let c = exit_at(grid, tiles, x - 1, y);
    if k < a.len() {
        (x, y + 1)
    } else if k < a.len() + b.len() {
        (x, y - 1)
    } else if k < a.len() + b.len() + c.len() {
        (x - 1, y)
    } else {
        (x + 1, y)
    }
}

/// The cost of a floor next to a tile with the cost `d` is `d - 1` at the
/// least.
proof fn lemma_neighbor_cost(
    field: DistanceField,
    tiles: Seq<TileType>,
    sources: Seq<usize>,
    x: int,
    y: int,
    d: nat,
    qx: int,
    qy: int,
)
    requires
        field.describes(tiles, sources),
        floor_at(field.grid, tiles, x, y),
        shortest(field.grid, tiles, sources, x, y, d),
        0 < d < field.max_depth,
        adjacent(x, y, qx, qy),
        field.grid.in_bounds_at(qx, qy),
    ensures
        field.map@[field.grid.index_at(qx, qy)] >= d - 1,
        within(field.grid, tiles, sources, qx, qy, (d - 1) as nat) ==> field.map@[field.grid.index_at(
            qx,
            qy,
        )] == d - 1,
{
    let grid = field.grid;
    let q = Position { x: qx as i32, y: qy as i32 };
    grid.lemma_index_in_range(q);
    grid.lemma_coord_of_index(q);
    let j = grid.spec_index(q);
    match field.spec_cost(j) {
        Some(c) => {
            if c < d - 1 {
                lemma_within_monotone(grid, tiles, sources, qx, qy, c, (d - 2) as nat);
                assert(within(grid, tiles, sources, x, y, (d - 1) as nat));
            }
            if c > d - 1 && within(grid, tiles, sources, qx, qy, (d - 1) as nat) {
                lemma_within_monotone(grid, tiles, sources, qx, qy, (d - 1) as nat, (c - 1) as nat);
            }
        },
        None => {
            if within(grid, tiles, sources, qx, qy, (d - 1) as nat) {
                assert(!within(grid, tiles, sources, qx, qy, (d - 1) as nat));
            }
        },
    }
}

/// Where every source stands on a floor, the lowest exit of a tile with a
/// cost above zero is an exit whose cost is smaller by exactly one.
pub proof fn lemma_lowest_exit_descends(
    field: DistanceField,
    map: MapAdapter,
    sources: Seq<usize>,
    position: usize,
)
    requires
        map.wf(),
        field.grid == map.grid(),
        field.describes(map.tiles(), sources),
        sources_on_floor(map.grid(), map.tiles(), sources),
        position < field.map@.len(),
        field.spec_cost(position as int) matches Some(d) && d > 0,
    ensures
        field.spec_find_lowest_exit(position, map.spec_exits(position as int)) matches Some(e)
            && map.spec_exits(position as int).contains(e) && e < field.map@.len()
            && field.spec_cost(e as int) == Some((field.map@[position as int] - 1) as nat),
{
    let grid = field.grid;
    let tiles = map.tiles();
    let d = field.map@[position as int] as nat;
    let p = grid.spec_coord(position as int);
    let x = p.x as int;
    let y = p.y as int;
    grid.lemma_coord_in_bounds(position as int);
    let exits = map.spec_exits(position as int);
    assert(exits == neighbor_exits_at(grid, tiles, x, y));
    assert(shortest(grid, tiles, sources, x, y, d));
    let j = (d - 1) as nat;
    let (qx, qy) = if within(grid, tiles, sources, x - 1, y, j) {
        (x - 1, y)
    } else if within(grid, tiles, sources, x + 1, y, j) {
        (x + 1, y)
    } else if within(grid, tiles, sources, x, y - 1, j) {
        (x, y - 1)
    } else {
        (x, y + 1)
    };
    assert(within(grid, tiles, sources, qx, qy, j));
    lemma_within_in_bounds(grid, tiles, sources, qx, qy, j);
    lemma_within_source_or_floor(grid, tiles, sources, qx, qy, j);
    assert(floor_at(grid, tiles, qx, qy));
    lemma_exit_listed(grid, tiles, x, y, qx, qy);
    lemma_neighbor_cost(field, tiles, sources, x, y, d, qx, qy);
    grid.lemma_index_at_in_range(qx, qy);
    let via = grid.index_at(qx, qy) as usize;
    let candidates = seq![position] + exits;
    let m = choose|m: int| 0 <= m < exits.len() && exits[m] == via;
    assert(candidates[m + 1] == via);
    lemma_lowest_candidate(field.map@, candidates);
    let best = lowest_candidate(field.map@, candidates);
    assert(field.map@[best as int] <= field.map@[candidates[m + 1] as int]);
    let b = choose|b: int| 0 <= b < candidates.len() && candidates[b] == best;
    assert(b > 0);
    assert(exits[b - 1] == best);
    let (rx, ry) = lemma_exit_origin(grid, tiles, x, y, b - 1);
    lemma_neighbor_cost(field, tiles, sources, x, y, d, rx, ry);
    grid.lemma_index_at_in_range(rx, ry);
}

/// The tile reached from `position` by taking the lowest exit `k` times.
pub open spec fn follow(field: DistanceField, map: MapAdapter, position: usize, k: nat) -> usize
    decreases k,
{
    if k == 0 {
        position
    } else {
        match field.spec_find_lowest_exit(position, map.spec_exits(position as int)) {
            Some(e) => follow(field, map, e, (k - 1) as nat),
            None => position,
        }
    }
}

/// Where every source stands on a floor, taking the lowest exit again and
/// again from a tile with the cost `d` lowers the cost by one with each
/// step, and so reaches a source after exactly `d` steps.
pub proof fn lemma_follow_reaches_source(
    field: DistanceField,
    map: MapAdapter,
    sources: Seq<usize>,
    position: usize,
    k: nat,
)
    requires
        map.wf(),
        field.grid == map.grid(),
        field.describes(map.tiles(), sources),
        sources_on_floor(map.grid(), map.tiles(), sources),
        position < field.map@.len(),
        field.spec_cost(position as int) matches Some(d) && k <= d,
    ensures
        follow(field, map, position, k) < field.map@.len(),
        field.spec_cost(follow(field, map, position, k) as int) == Some(
            (field.map@[position as int] - k) as nat,
        ),
        k == field.map@[position as int] ==> sources.contains(follow(field, map, position, k)),
    decreases k,
{
    if k == 0 {
        if field.map@[position as int] == 0 {
            field.grid.lemma_coord_in_bounds(position as int);
        }
    } else {
        lemma_lowest_exit_descends(field, map, sources, position);
        let e = field.spec_find_lowest_exit(position, map.spec_exits(position as int))->0;
        lemma_follow_reaches_source(field, map, sources, e, (k - 1) as nat);
    }
}


/// On a corridor of floors, one tile high, with its single source at one
/// of the two ends, every tile within the field's reach has the number of
/// steps to the source as its cost, and taking the lowest exit that many
/// times leads to the source.
pub proof fn lemma_corridor_descent(field: DistanceField, map: MapAdapter, source: usize, c: usize)
    requires
        map.wf(),
        field.grid == map.grid(),
        map.grid().height == 1,
        all_floor(map.grid(), map.tiles()),
        source == 0 || source == map.grid().width - 1,
        field.describes(map.tiles(), seq![source]),
        c < map.grid().width,
        magnitude(c - source) < field.max_depth,
    ensures
        field.spec_cost(c as int) == Some(magnitude(c - source) as nat),
        follow(field, map, c, magnitude(c - source) as nat) == source,
{
    let grid = map.grid();
    let tiles = map.tiles();
    let sources = seq![source];
    let s = Position { x: source as i32, y: 0 };
    let t = Position { x: c as i32, y: 0 };
    assert(grid.spec_index(s) == source);
    assert(grid.spec_index(t) == c);
    lemma_open_grid_manhattan(field, tiles, s, t);
    assert forall|x: int, y: int| #[trigger] is_source(grid, sources, x, y) implies floor_at(
        grid,
        tiles,
        x,
        y,
    ) by {
        grid.lemma_index_at_in_range(x, y);
    }
    lemma_follow_reaches_source(field, map, sources, c, magnitude(c - source) as nat);
    let end = follow(field, map, c, magnitude(c - source) as nat);
    let k = choose|k: int| 0 <= k < sources.len() && sources[k] == end;
    assert(sources[k] == source);
}

/// A walk: a sequence of tiles that starts on a source and goes on by
/// steps to the west, east, south or north, each onto a floor of the grid.
pub open spec fn is_walk(
    grid: Grid,
    tiles: Seq<TileType>,
    sources: Seq<usize>,
    walk: Seq<(int, int)>,
) -> bool {
    &&& walk.len() > 0
    &&& is_source(grid, sources, walk[0].0, walk[0].1)
    &&& forall|i: int|
        0 < i < walk.len() ==> adjacent(
            walk[i - 1].0,
            walk[i - 1].1,
            (#[trigger] walk[i]).0,
            walk[i].1,
        ) && floor_at(grid, tiles, walk[i].0, walk[i].1)
}

/// The tile that a walk ends on is within as many steps as the walk takes.
pub proof fn lemma_walk_is_within(
    grid: Grid,
    tiles: Seq<TileType>,
    sources: Seq<usize>,
    walk: Seq<(int, int)>,
)
    requires
        is_walk(grid, tiles, sources, walk),
    ensures
        within(grid, tiles, sources, walk.last().0, walk.last().1, (walk.len() - 1) as nat),
    decreases walk.len(),
{
    if walk.len() > 1 {
        let front = walk.drop_last();
        assert forall|i: int| 0 < i < front.len() implies adjacent(
            front[i - 1].0,
            front[i - 1].1,
            (#[trigger] front[i]).0,
            front[i].1,
        ) && floor_at(grid, tiles, front[i].0, front[i].1) by {
            assert(front[i] == walk[i]);
            assert(front[i - 1] == walk[i - 1]);
        }
        assert(front[0] == walk[0]);
        lemma_walk_is_within(grid, tiles, sources, front);
        let last = walk[walk.len() - 1];
        assert(front.last() == walk[walk.len() - 2]);
        assert(adjacent(walk[walk.len() - 2].0, walk[walk.len() - 2].1, last.0, last.1));
    }
}

/// To a tile within `k` steps leads a walk of at most `k` steps.
pub proof fn lemma_within_has_walk(
    grid: Grid,
    tiles: Seq<TileType>,
    sources: Seq<usize>,
    x: int,
    y: int,
    k: nat,
) -> (walk: Seq<(int, int)>)
    requires
        within(grid, tiles, sources, x, y, k),
    ensures
        is_walk(grid, tiles, sources, walk),
        walk.last() == (x, y),
        walk.len() <= k + 1,
    decreases k,
{
    if k == 0 {
        seq![(x, y)]
    } else {
        let j = (k - 1) as nat;
        if within(grid, tiles, sources, x, y, j) {
            lemma_within_has_walk(grid, tiles, sources, x, y, j)
        } else {
            let (qx, qy) = if within(grid, tiles, sources, x - 1, y, j) {
                (x - 1, y)
            } else if within(grid, tiles, sources, x + 1, y, j) {
                (x + 1, y)
            } else if within(grid, tiles, sources, x, y - 1, j) {
                (x, y - 1)
            } else {
                (x, y + 1)
            };
            let front = lemma_within_has_walk(grid, tiles, sources, qx, qy, j);
            let walk = front.push((x, y));
            assert(walk[0] == front[0]);
            assert forall|i: int| 0 < i < walk.len() implies adjacent(
                walk[i - 1].0,
                walk[i - 1].1,
                (#[trigger] walk[i]).0,
                walk[i].1,
            ) && floor_at(grid, tiles, walk[i].0, walk[i].1) by {
                if i < front.len() {
                    assert(walk[i] == front[i]);
                    assert(walk[i - 1] == front[i - 1]);
                } else {
                    assert(walk[i - 1] == front.last());
                }
            }
            walk
        }
    }
}


/// What a walk reaches goes by the tiles that are sources, not by the order
/// in which they are given, nor by how often.
pub proof fn lemma_sources_as_set(
    grid: Grid,
    tiles: Seq<TileType>,
    first: Seq<usize>,
    second: Seq<usize>,
    x: int,
    y: int,
    k: nat,
)
    requires
        forall|s: usize| first.contains(s) <==> second.contains(s),
    ensures
        within(grid, tiles, first, x, y, k) == within(grid, tiles, second, x, y, k),
    decreases k,
{
    if k > 0 {
        let j = (k - 1) as nat;
        lemma_sources_as_set(grid, tiles, first, second, x, y, j);
        lemma_sources_as_set(grid, tiles, first, second, x - 1, y, j);
        lemma_sources_as_set(grid, tiles, first, second, x + 1, y, j);
        lemma_sources_as_set(grid, tiles, first, second, x, y - 1, j);
        lemma_sources_as_set(grid, tiles, first, second, x, y + 1, j);
    }
}

/// The field of a level is one: two fields of the same reach that hold the
/// distances on the same level, from sources that are the same tiles, hold
/// the same costs.
pub proof fn lemma_field_determined(
    first: DistanceField,
    second: DistanceField,
    tiles: Seq<TileType>,
    first_sources: Seq<usize>,
    second_sources: Seq<usize>,
)
    requires
        first.grid == second.grid,
        first.max_depth == second.max_depth,
        first.describes(tiles, first_sources),
        second.describes(tiles, second_sources),
        forall|s: usize| first_sources.contains(s) <==> second_sources.contains(s),
    ensures
        first.map@ == second.map@,
{
    let grid = first.grid;
    assert forall|i: int| 0 <= i < first.map@.len() implies first.map@[i] == second.map@[i] by {
        let p = grid.spec_coord(i);
        let x = p.x as int;
        let y = p.y as int;
        match (first.spec_cost(i), second.spec_cost(i)) {
            (Some(c), Some(e)) => {
                lemma_sources_as_set(grid, tiles, first_sources, second_sources, x, y, c);
                if c > 0 {
                    lemma_sources_as_set(
                        grid,
                        tiles,
                        first_sources,
                        second_sources,
                        x,
                        y,
                        (c - 1) as nat,
                    );
                }
                crate::distance::lemma_shortest_unique(grid, tiles, second_sources, x, y, c, e);
            },
            (Some(c), None) => {
                lemma_sources_as_set(grid, tiles, first_sources, second_sources, x, y, c);
                assert(!within(grid, tiles, second_sources, x, y, c));
            },
            (None, Some(e)) => {
                lemma_sources_as_set(grid, tiles, first_sources, second_sources, x, y, e);
                assert(!within(grid, tiles, first_sources, x, y, e));
            },
            (None, None) => {},
        }
    }
    assert(first.map@ =~= second.map@);
}

} // verus!
