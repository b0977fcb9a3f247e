//! The architect of rooms and corridors: rooms that do not touch, joined
//! from west to east by corridors with one bend.

use vstd::prelude::*;
use vstd::arithmetic::div_mod::{lemma_fundamental_div_mod, lemma_fundamental_div_mod_converse};
use rand::rngs::ThreadRng;
use crate::combinations::tuple_windows;
use crate::distance::PATHING_DEPTH;
use crate::grid::Grid;
use crate::map::{floor_at, TileType};
use crate::map_builder::{carved_column, carved_row, MapBuilder};
use crate::placement::{
    closest_to, is_closest, is_most_distant, lemma_most_distant_is_floor, middle_of,
    most_distant_from,
};
use crate::position::Position;
use crate::rect::{rect_center, rect_intersect, rect_points, rect_with_size, Rect};
use crate::rng::gen_range;

verus! {

/// How many rooms a level has.
pub const NUM_ROOMS: usize = 20;

/// The architect of rooms and corridors, with the rooms it has placed.
#[derive(Clone, Debug)]
pub struct RoomsArchitect {
    pub rooms: Vec<Rect>,
}

/// The room lies on the grid, holds a tile, and the sums of its opposite
/// edges, of which its centre is made, are in the range of `i32`.
pub open spec fn room_fits(grid: Grid, room: Rect) -> bool {
    &&& 0 <= room.x1 < room.x2 <= grid.width
    &&& 0 <= room.y1 < room.y2 <= grid.height
    &&& room.x1 + room.x2 <= i32::MAX
    &&& room.y1 + room.y2 <= i32::MAX
}

/// The tiles after a room has been carved: the tiles of the room are
/// floors, the others are as they were.
pub open spec fn carved_room(grid: Grid, tiles: Seq<TileType>, room: Rect) -> Seq<TileType> {
    Seq::new(
        tiles.len(),
        |i: int|
            if room.spec_contains(grid.spec_coord(i).x as int, grid.spec_coord(i).y as int) {
                TileType::Floor
            } else {
                tiles[i]
            },
    )
}

/// The tiles after the first `n` of the rooms have been carved, one after
/// the other.
pub open spec fn carved_rooms(grid: Grid, tiles: Seq<TileType>, rooms: Seq<Rect>, n: nat) -> Seq<
    TileType,
>
    decreases n,
{
    if n == 0 {
        tiles
    } else {
        carved_room(grid, carved_rooms(grid, tiles, rooms, (n - 1) as nat), rooms[n - 1])
    }
}

/// A level of walls only.
pub open spec fn all_walls(grid: Grid) -> Seq<TileType> {
    Seq::new(grid.spec_len() as nat, |i: int| TileType::Wall)
}

/// The room is one that the architect draws: two to nine tiles wide and
/// high, with its west and south edges at least one tile inside the grid
/// and more than ten tiles before the far edges.
pub open spec fn room_drawn(grid: Grid, room: Rect) -> bool {
    &&& 1 <= room.x1 < grid.width - 10
    &&& 1 <= room.y1 < grid.height - 10
    &&& 2 <= room.x2 - room.x1 < 10
    &&& 2 <= room.y2 - room.y1 < 10
}

/// Carving goes by the rooms that are carved, not by those that follow.
pub proof fn lemma_carved_rooms_prefix(
    grid: Grid,
    tiles: Seq<TileType>,
    rooms: Seq<Rect>,
    more: Seq<Rect>,
    n: nat,
)
    requires
        n <= rooms.len() <= more.len(),
        forall|k: int| 0 <= k < rooms.len() ==> rooms[k] == more[k],
    ensures
        carved_rooms(grid, tiles, rooms, n) == carved_rooms(grid, tiles, more, n),
    decreases n,
{
    if n > 0 {
        lemma_carved_rooms_prefix(grid, tiles, rooms, more, (n - 1) as nat);
    }
}

/// No two of the rooms overlap or touch.
pub open spec fn rooms_apart(rooms: Seq<Rect>) -> bool {
    forall|i: int, j: int|
        0 <= i < rooms.len() && 0 <= j < rooms.len() && i != j ==> !(#[trigger] rooms[i]).spec_intersect(
            #[trigger] rooms[j],
        )
}

/// Every room lies on the grid and all its tiles are floors.
pub open spec fn rooms_carved(grid: Grid, tiles: Seq<TileType>, rooms: Seq<Rect>) -> bool {
    forall|k: int|
        0 <= k < rooms.len() ==> room_fits(grid, #[trigger] rooms[k]) && forall|x: int, y: int|
            rooms[k].spec_contains(x, y) ==> #[trigger] floor_at(grid, tiles, x, y)
}

/// Every floor of `before` is a floor of `after`.
pub open spec fn keeps_floors(before: Seq<TileType>, after: Seq<TileType>) -> bool {
    &&& before.len() == after.len()
    &&& forall|i: int|
        0 <= i < before.len() && before[i] == TileType::Floor ==> #[trigger] after[i]
            == TileType::Floor
}

/// One of the first `k` points is `p`.
spec fn listed(points: Seq<Position>, k: int, p: Position) -> bool {
    exists|j: int| 0 <= j < k && #[trigger] points[j] == p
}

/// The points that `rect_points` gives for a room are the tiles of the
/// room.
proof fn lemma_points_are_room(room: Rect, points: Seq<Position>, p: Position)
    requires
        room.x1 < room.x2,
        room.y1 < room.y2,
        points.len() == room.spec_columns() * room.spec_rows(),
        forall|k: int|
            0 <= k < points.len() ==> (#[trigger] points[k]).x == room.x1 + k % room.spec_columns()
                && points[k].y == room.y1 + k / room.spec_columns(),
    ensures
        listed(points, points.len() as int, p) <==> room.spec_contains(p.x as int, p.y as int),
{
    let cols = room.spec_columns();
    let rows = room.spec_rows();
    if listed(points, points.len() as int, p) {
        let j = choose|j: int| 0 <= j < points.len() && #[trigger] points[j] == p;
        lemma_fundamental_div_mod(j, cols);
        let q = j / cols;
        let r = j % cols;
        assert(0 <= q < rows) by (nonlinear_arith)
            requires
                j == cols * q + r,
                0 <= r < cols,
                0 <= j < cols * rows,
                cols > 0,
        ;
    }
    if room.spec_contains(p.x as int, p.y as int) {
        let q = p.y - room.y1;
        let r = p.x - room.x1;
        let j = q * cols + r;
        lemma_fundamental_div_mod_converse(j, cols, q, r);
        assert(0 <= j < cols * rows) by (nonlinear_arith)
            requires
                j == q * cols + r,
                0 <= r < cols,
                0 <= q < rows,
        ;
        assert(points[j] == p);
    }
}

impl RoomsArchitect {
    /// An architect that has placed no room yet.
    pub fn new() -> (a: RoomsArchitect)
        ensures
            a.rooms@.len() == 0,
    {
        RoomsArchitect { rooms: Vec::new() }
    }

    /// What the architect keeps true of its rooms on the level `mb`.
    pub open spec fn laid_out(&self, mb: &MapBuilder) -> bool {
        &&& mb.wf()
        &&& rooms_apart(self.rooms@)
        &&& rooms_carved(mb.grid, mb.map_data@, self.rooms@)
    }

    /// Whether `room` fits the grid.
    pub fn fits(grid: &Grid, room: &Rect) -> (b: bool)
        ensures
            b == room_fits(*grid, *room),
    {
        0 <= room.x1 && room.x1 < room.x2 && room.x2 <= grid.width && 0 <= room.y1 && room.y1
            < room.y2 && room.y2 <= grid.height && room.x1 as i64 + room.x2 as i64 <= 0x7fff_ffff
            && room.y1 as i64 + room.y2 as i64 <= 0x7fff_ffff
    }

    /// Whether `room` overlaps or touches a room that has been placed.
    pub fn overlaps(&self, room: &Rect) -> (b: bool)
        ensures
            b == exists|k: int|
                0 <= k < self.rooms@.len() && (#[trigger] self.rooms@[k]).spec_intersect(*room),
    {
        let mut k: usize = 0;
        while k < self.rooms.len()
            invariant
                k <= self.rooms@.len(),
                forall|j: int| 0 <= j < k ==> !(#[trigger] self.rooms@[j]).spec_intersect(*room),
            decreases self.rooms@.len() - k,
        {
            if rect_intersect(&self.rooms[k], room) {
                return true;
            }
            k = k + 1;
        }
        false
    }

    /// Places `room` if it fits the grid and neither overlaps nor touches a
    /// room placed before: its tiles become floors and it joins the rooms.
    /// A room that is not placed changes nothing.
    pub fn place_room(&mut self, mb: &mut MapBuilder, room: Rect) -> (placed: bool)
        requires
            old(mb).wf(),
        ensures
            placed <==> (room_fits(old(mb).grid, room) && !exists|k: int|
                0 <= k < old(self).rooms@.len() && (#[trigger] old(self).rooms@[k]).spec_intersect(
                    room,
                )),
            placed ==> final(self).rooms@ == old(self).rooms@.push(room) && final(mb).map_data@
                == carved_room(old(mb).grid, old(mb).map_data@, room),
            !placed ==> final(self).rooms@ == old(self).rooms@ && final(mb).map_data@ == old(
                mb,
            ).map_data@,
            final(mb).wf(),
            final(mb).grid == old(mb).grid,
            final(mb).player_start == old(mb).player_start,
            final(mb).amulet_start == old(mb).amulet_start,
            final(mb).spawn_locations == old(mb).spawn_locations,
            old(self).laid_out(old(mb)) ==> final(self).laid_out(final(mb)),
    {
        if !Self::fits(&mb.grid, &room) || self.overlaps(&room) {
            return false;
        }
        let ghost grid = mb.grid;
        let ghost before = mb.map_data@;
        proof {
            assert(room.spec_columns() * room.spec_rows() <= grid.width * grid.height)
                by (nonlinear_arith)
                requires
                    0 < room.spec_columns() <= grid.width,
                    0 < room.spec_rows() <= grid.height,
            ;
        }
        let points = rect_points(&room);
        let mut k: usize = 0;
        while k < points.len()
            invariant
                mb.wf(),
                mb.grid == grid,
                mb.player_start == old(mb).player_start,
                mb.amulet_start == old(mb).amulet_start,
                mb.spawn_locations == old(mb).spawn_locations,
                before.len() == grid.spec_len(),
                k <= points@.len(),
                forall|i: int|
                    0 <= i < before.len() ==> #[trigger] mb.map_data@[i] == (if listed(
                        points@,
                        k as int,
                        grid.spec_coord(i),
                    ) {
                        TileType::Floor
                    } else {
                        before[i]
                    }),
            decreases points@.len() - k,
        {
            let p = points[k];
            let ghost prev = mb.map_data@;
            if let Some(idx) = mb.try_idx(p) {
                mb.map_data.set(idx, TileType::Floor);
                proof {
                    grid.lemma_coord_of_index(p);
                }
            }
            proof {
                assert forall|i: int| 0 <= i < before.len() implies #[trigger] mb.map_data@[i] == (
                if listed(points@, k + 1, grid.spec_coord(i)) {
                    TileType::Floor
                } else {
                    before[i]
                }) by {
                    let c = grid.spec_coord(i);
                    grid.lemma_coord_in_bounds(i);
                    if listed(points@, k as int, c) {
                        let j = choose|j: int| 0 <= j < k && #[trigger] points@[j] == c;
                        assert(points@[j] == c);
                    }
                    if c == p {
                        assert(points@[k as int] == c);
                    }
                    if listed(points@, k + 1, c) {
                        let j = choose|j: int| 0 <= j < k + 1 && #[trigger] points@[j] == c;
                        if j < k {
                            assert(listed(points@, k as int, c));
                        }
                    }
                }
            }
            k = k + 1;
        }
        proof {
            let target = carved_room(grid, before, room);
            assert forall|i: int| 0 <= i < before.len() implies mb.map_data@[i] == target[i] by {
                lemma_points_are_room(room, points@, grid.spec_coord(i));
            }
            assert(mb.map_data@ =~= target);
        }
        let ghost rooms_before = self.rooms@;
        self.rooms.push(room);
        proof {
            if old(self).laid_out(old(mb)) {
                lemma_carving_keeps_rooms(grid, before, rooms_before, room);
                assert forall|i: int, j: int|
                    0 <= i < self.rooms@.len() && 0 <= j < self.rooms@.len() && i
                        != j implies !(#[trigger] self.rooms@[i]).spec_intersect(
                    #[trigger] self.rooms@[j],
                ) by {
                    if i < rooms_before.len() && j < rooms_before.len() {
                        assert(!rooms_before[i].spec_intersect(rooms_before[j]));
                    } else if i < rooms_before.len() {
                        assert(!rooms_before[i].spec_intersect(room));
                    } else {
                        assert(!rooms_before[j].spec_intersect(room));
                    }
                }
            }
        }
        true
    }
}

/// Carving a room that fits the grid leaves every room carved that was, and
/// the new one is carved too.
pub proof fn lemma_carving_keeps_rooms(
    grid: Grid,
    tiles: Seq<TileType>,
    rooms: Seq<Rect>,
    room: Rect,
)
    requires
        grid.wf(),
        tiles.len() == grid.spec_len(),
        rooms_carved(grid, tiles, rooms),
        room_fits(grid, room),
    ensures
        rooms_carved(grid, carved_room(grid, tiles, room), rooms.push(room)),
        keeps_floors(tiles, carved_room(grid, tiles, room)),
{
    let after = carved_room(grid, tiles, room);
    let all = rooms.push(room);
    assert forall|k: int| 0 <= k < all.len() implies room_fits(grid, #[trigger] all[k]) && forall|
        x: int,
        y: int,
    |
        all[k].spec_contains(x, y) ==> #[trigger] floor_at(grid, after, x, y) by {
        assert forall|x: int, y: int| all[k].spec_contains(x, y) implies #[trigger] floor_at(
            grid,
            after,
            x,
            y,
        ) by {
            let p = Position { x: x as i32, y: y as i32 };
            grid.lemma_index_in_range(p);
            grid.lemma_coord_of_index(p);
            if k < rooms.len() {
                assert(rooms[k] == all[k]);
                assert(floor_at(grid, tiles, x, y));
            }
        }
    }
}


/// Where `p` goes into positions that are ordered by their `x`: behind the
/// last of them that is not further east than `p`.
pub open spec fn slot_by_x(sorted: Seq<Position>, p: Position) -> int
    decreases sorted.len(),
{
    if sorted.len() == 0 {
        0
    } else if sorted.last().x <= p.x {
        sorted.len() as int
    } else {
        slot_by_x(sorted.drop_last(), p)
    }
}

/// The positions ordered from west to east by their `x`; positions with the
/// same `x` stay in the order in which they came.
pub open spec fn sorted_by_x(positions: Seq<Position>) -> Seq<Position>
    decreases positions.len(),
{
    if positions.len() == 0 {
        Seq::empty()
    } else {
        let front = sorted_by_x(positions.drop_last());
        front.insert(slot_by_x(front, positions.last()), positions.last())
    }
}

/// No position stands before one that is further west.
pub open spec fn ordered_by_x(positions: Seq<Position>) -> bool {
    forall|i: int, j: int| 0 <= i < j < positions.len() ==> positions[i].x <= positions[j].x
}

/// The slot is a place in the sequence; what stands from it on is further
/// east than `p`, and what stands just before it is not.
pub proof fn lemma_slot_by_x(sorted: Seq<Position>, p: Position)
    ensures
        0 <= slot_by_x(sorted, p) <= sorted.len(),
        forall|k: int| slot_by_x(sorted, p) <= k < sorted.len() ==> (#[trigger] sorted[k]).x > p.x,
        slot_by_x(sorted, p) > 0 ==> sorted[slot_by_x(sorted, p) - 1].x <= p.x,
    decreases sorted.len(),
{
    if sorted.len() > 0 && sorted.last().x > p.x {
        let front = sorted.drop_last();
        lemma_slot_by_x(front, p);
        assert forall|k: int| slot_by_x(sorted, p) <= k < sorted.len() implies sorted[k].x
            > p.x by {
            if k < front.len() {
                assert(front[k] == sorted[k]);
            }
        }
        if slot_by_x(sorted, p) > 0 {
            assert(front[slot_by_x(sorted, p) - 1] == sorted[slot_by_x(sorted, p) - 1]);
        }
    }
}

/// Sorting gives the same positions, each as often as before, in order
/// from west to east.
pub proof fn lemma_sorted_by_x(positions: Seq<Position>)
    ensures
        sorted_by_x(positions).len() == positions.len(),
        ordered_by_x(sorted_by_x(positions)),
        sorted_by_x(positions).to_multiset() == positions.to_multiset(),
    decreases positions.len(),
{
    broadcast use vstd::seq_lib::group_to_multiset_ensures;

    if positions.len() == 0 {
        assert(positions =~= Seq::empty());
    } else {
        let front_in = positions.drop_last();
        let p = positions.last();
        lemma_sorted_by_x(front_in);
        let front = sorted_by_x(front_in);
        lemma_slot_by_x(front, p);
        let j = slot_by_x(front, p);
        let out = front.insert(j, p);
        assert forall|a: int, b: int| 0 <= a < b < out.len() implies out[a].x <= out[b].x by {
            if j > 0 && a < j {
                assert(front[a].x <= front[j - 1].x);
            }
            if b < j {
                assert(front[a].x <= front[b].x);
            } else if a > j {
                assert(front[a - 1].x <= front[b - 1].x);
            }
        }
        assert(out.remove(j) =~= front);
        assert(out[j] == p);
        assert(out.to_multiset() =~= front.to_multiset().insert(p));
        assert(positions =~= front_in.push(p));
        assert(positions.to_multiset() =~= front_in.to_multiset().insert(p));
    }
}

/// The positions ordered from west to east by their `x`; positions with the
/// same `x` stay in the order in which they came.
pub fn sort_by_x(positions: &Vec<Position>) -> (sorted: Vec<Position>)
    ensures
        sorted@ == sorted_by_x(positions@),
{
    let mut sorted: Vec<Position> = Vec::new();
    let mut i: usize = 0;
    assert(positions@.take(0) =~= Seq::empty());
    while i < positions.len()
        invariant
            i <= positions@.len(),
            sorted@ == sorted_by_x(positions@.take(i as int)),
        decreases positions@.len() - i,
    {
        let p = positions[i];
        proof {
            lemma_sorted_by_x(positions@.take(i as int));
        }
        let mut j: usize = sorted.len();
        assert(sorted@.take(j as int) =~= sorted@);
        while j > 0 && sorted[j - 1].x > p.x
            invariant
                j <= sorted@.len(),
                slot_by_x(sorted@, p) == slot_by_x(sorted@.take(j as int), p),
            decreases j,
        {
            assert(sorted@.take(j as int).drop_last() =~= sorted@.take(j - 1));
            j = j - 1;
        }
        sorted.insert(j, p);
        proof {
            let now = positions@.take(i + 1);
            assert(now.drop_last() =~= positions@.take(i as int));
            assert(now.last() == p);
        }
        i = i + 1;
    }
    assert(positions@.take(positions@.len() as int) =~= positions@);
    sorted
}

/// The tiles after a corridor with one bend has been dug from `prev` to
/// `new`: along the row of `prev` and then the column of `new`, or along
/// the column of `prev` and then the row of `new`.
pub open spec fn corridor(
    grid: Grid,
    tiles: Seq<TileType>,
    prev: Position,
    new: Position,
    horizontal_first: bool,
) -> Seq<TileType> {
    if horizontal_first {
        carved_column(
            grid,
            carved_row(grid, tiles, prev.x as int, new.x as int, prev.y as int),
            prev.y as int,
            new.y as int,
            new.x as int,
        )
    } else {
        carved_row(
            grid,
            carved_column(grid, tiles, prev.y as int, new.y as int, prev.x as int),
            prev.x as int,
            new.x as int,
            new.y as int,
        )
    }
}

/// The tiles after the first `n` corridors have been dug, each from one of
/// the `stops` to the next, with the bend that `flips` gives it.
pub open spec fn corridors(
    grid: Grid,
    tiles: Seq<TileType>,
    stops: Seq<Position>,
    flips: Seq<bool>,
    n: nat,
) -> Seq<TileType>
    decreases n,
{
    if n == 0 {
        tiles
    } else {
        corridor(
            grid,
            corridors(grid, tiles, stops, flips, (n - 1) as nat),
            stops[n - 1],
            stops[n as int],
            flips[n - 1],
        )
    }
}

/// The centres of the rooms, in the order of the rooms.
pub open spec fn centers_of(rooms: Seq<Rect>) -> Seq<Position> {
    Seq::new(rooms.len(), |k: int| rooms[k].spec_center())
}

/// Digging a tunnel turns no floor into a wall.
pub proof fn lemma_tunnel_keeps_floors(grid: Grid, tiles: Seq<TileType>, a: int, b: int, c: int)
    ensures
        keeps_floors(tiles, carved_row(grid, tiles, a, b, c)),
        keeps_floors(tiles, carved_column(grid, tiles, a, b, c)),
{
}

/// Floors kept through one change and then through another are kept
/// through both.
pub proof fn lemma_keeps_floors_twice(
    first: Seq<TileType>,
    second: Seq<TileType>,
    third: Seq<TileType>,
)
    requires
        keeps_floors(first, second),
        keeps_floors(second, third),
    ensures
        keeps_floors(first, third),
{
    assert forall|i: int| 0 <= i < first.len() && first[i] == TileType::Floor implies #[trigger] third[i]
        == TileType::Floor by {
        assert(second[i] == TileType::Floor);
    }
}

/// Digging a corridor turns no floor into a wall.
pub proof fn lemma_corridor_keeps_floors(
    grid: Grid,
    tiles: Seq<TileType>,
    prev: Position,
    new: Position,
    horizontal_first: bool,
)
    ensures
        keeps_floors(tiles, corridor(grid, tiles, prev, new, horizontal_first)),
{
    if horizontal_first {
        let row = carved_row(grid, tiles, prev.x as int, new.x as int, prev.y as int);
        lemma_tunnel_keeps_floors(grid, tiles, prev.x as int, new.x as int, prev.y as int);
        lemma_tunnel_keeps_floors(grid, row, prev.y as int, new.y as int, new.x as int);
        lemma_keeps_floors_twice(
            tiles,
            row,
            carved_column(grid, row, prev.y as int, new.y as int, new.x as int),
        );
    } else {
        let column = carved_column(grid, tiles, prev.y as int, new.y as int, prev.x as int);
        lemma_tunnel_keeps_floors(grid, tiles, prev.y as int, new.y as int, prev.x as int);
        lemma_tunnel_keeps_floors(grid, column, prev.x as int, new.x as int, new.y as int);
        lemma_keeps_floors_twice(
            tiles,
            column,
            carved_row(grid, column, prev.x as int, new.x as int, new.y as int),
        );
    }
}

/// Digging corridors, one after the other, turns no floor into a wall.
pub proof fn lemma_corridors_keep_floors(
    grid: Grid,
    tiles: Seq<TileType>,
    stops: Seq<Position>,
    flips: Seq<bool>,
    n: nat,
)
    ensures
        keeps_floors(tiles, corridors(grid, tiles, stops, flips, n)),
    decreases n,
{
    if n > 0 {
        let before = corridors(grid, tiles, stops, flips, (n - 1) as nat);
        lemma_corridors_keep_floors(grid, tiles, stops, flips, (n - 1) as nat);
        lemma_corridor_keeps_floors(grid, before, stops[n - 1], stops[n as int], flips[n - 1]);
        lemma_keeps_floors_twice(tiles, before, corridors(grid, tiles, stops, flips, n));
    }
}

/// Rooms stay carved where no floor turns into a wall.
pub proof fn lemma_floors_keep_rooms(
    grid: Grid,
    before: Seq<TileType>,
    after: Seq<TileType>,
    rooms: Seq<Rect>,
)
    requires
        grid.wf(),
        before.len() == grid.spec_len(),
        keeps_floors(before, after),
        rooms_carved(grid, before, rooms),
    ensures
        rooms_carved(grid, after, rooms),
{
    assert forall|k: int| 0 <= k < rooms.len() implies room_fits(grid, #[trigger] rooms[k])
        && forall|x: int, y: int|
        rooms[k].spec_contains(x, y) ==> #[trigger] floor_at(grid, after, x, y) by {
        assert forall|x: int, y: int| rooms[k].spec_contains(x, y) implies #[trigger] floor_at(
            grid,
            after,
            x,
            y,
        ) by {
            assert(floor_at(grid, before, x, y));
            grid.lemma_index_at_in_range(x, y);
        }
    }
}

impl RoomsArchitect {
    /// The centres of the rooms, in the order of the rooms.
    pub fn centers(&self, grid: &Grid) -> (centers: Vec<Position>)
        requires
            forall|k: int| 0 <= k < self.rooms@.len() ==> room_fits(*grid, #[trigger] self.rooms@[k]),
        ensures
            centers@ == centers_of(self.rooms@),
    {
        let mut centers: Vec<Position> = Vec::new();
        let mut k: usize = 0;
        while k < self.rooms.len()
            invariant
                k <= self.rooms@.len(),
                forall|j: int|
                    0 <= j < self.rooms@.len() ==> room_fits(*grid, #[trigger] self.rooms@[j]),
                centers@.len() == k,
                forall|j: int| 0 <= j < k ==> centers@[j] == self.rooms@[j].spec_center(),
            decreases self.rooms@.len() - k,
        {
            assert(room_fits(*grid, self.rooms@[k as int]));
            centers.push(rect_center(&self.rooms[k]));
            k = k + 1;
        }
        assert(centers@ =~= centers_of(self.rooms@));
        centers
    }

    /// Digs one corridor with one bend from `prev` to `new`.
    pub fn dig_corridor(mb: &mut MapBuilder, prev: Position, new: Position, horizontal_first: bool)
        requires
            old(mb).wf(),
        ensures
            final(mb).wf(),
            final(mb).grid == old(mb).grid,
            final(mb).player_start == old(mb).player_start,
            final(mb).amulet_start == old(mb).amulet_start,
            final(mb).spawn_locations == old(mb).spawn_locations,
            final(mb).map_data@ == corridor(
                old(mb).grid,
                old(mb).map_data@,
                prev,
                new,
                horizontal_first,
            ),
    {
        if horizontal_first {
            mb.apply_horizontal_tunnel(prev.x, new.x, prev.y);
            mb.apply_vertical_tunnel(prev.y, new.y, new.x);
        } else {
            mb.apply_vertical_tunnel(prev.y, new.y, prev.x);
            mb.apply_horizontal_tunnel(prev.x, new.x, new.y);
        }
    }

    /// Joins the rooms: with their centres ordered from west to east, a
    /// corridor is dug from each centre to the next. The corridor `k` runs
    /// along the row first where `flips[k]` is true, along the column first
    /// where it is false.
    pub fn build_corridors_with(&self, mb: &mut MapBuilder, flips: &Vec<bool>)
        requires
            old(mb).wf(),
            forall|k: int|
                0 <= k < self.rooms@.len() ==> room_fits(old(mb).grid, #[trigger] self.rooms@[k]),
            flips@.len() + 1 == self.rooms@.len() || (flips@.len() == 0 && self.rooms@.len() == 0),
        ensures
            final(mb).wf(),
            final(mb).grid == old(mb).grid,
            final(mb).player_start == old(mb).player_start,
            final(mb).amulet_start == old(mb).amulet_start,
            final(mb).spawn_locations == old(mb).spawn_locations,
            final(mb).map_data@ == corridors(
                old(mb).grid,
                old(mb).map_data@,
                sorted_by_x(centers_of(self.rooms@)),
                flips@,
                flips@.len(),
            ),
            keeps_floors(old(mb).map_data@, final(mb).map_data@),
            self.laid_out(old(mb)) ==> self.laid_out(final(mb)),
    {
        let ghost grid = mb.grid;
        let ghost before = mb.map_data@;
        let centers = self.centers(&mb.grid);
        let stops = sort_by_x(&centers);
        proof {
            lemma_sorted_by_x(centers@);
        }
        let pairs = tuple_windows(&stops);
        let mut k: usize = 0;
        while k < pairs.len()
            invariant
                mb.wf(),
                mb.grid == grid,
                mb.player_start == old(mb).player_start,
                mb.amulet_start == old(mb).amulet_start,
                mb.spawn_locations == old(mb).spawn_locations,
                before.len() == grid.spec_len(),
                k <= pairs@.len(),
                pairs@.len() == flips@.len(),
                pairs@.len() + 1 == stops@.len() || (pairs@.len() == 0 && stops@.len() == 0),
                forall|j: int|
                    0 <= j < pairs@.len() ==> (#[trigger] pairs@[j]).0 == stops@[j] && pairs@[j].1
                        == stops@[j + 1],
                mb.map_data@ == corridors(grid, before, stops@, flips@, k as nat),
            decreases pairs@.len() - k,
        {
            let pair = pairs[k];
            Self::dig_corridor(mb, pair.0, pair.1, flips[k]);
            k = k + 1;
        }
        proof {
            lemma_corridors_keep_floors(grid, before, stops@, flips@, flips@.len());
            if self.laid_out(old(mb)) {
                lemma_floors_keep_rooms(grid, before, mb.map_data@, self.rooms@);
            }
        }
    }
}


/// How many rooms the architect tries to place before it gives a level up.
pub const MAX_ROOM_ATTEMPTS: usize = 1000;

/// The centre of a room that fits the grid is a tile of the room.
pub proof fn lemma_center_in_room(grid: Grid, room: Rect)
    requires
        room_fits(grid, room),
    ensures
        room.spec_contains(room.spec_center().x as int, room.spec_center().y as int),
        grid.spec_in_bounds(room.spec_center()),
{
}

/// What the architect chooses besides the tiles: the player starts at the
/// centre of the first of the rooms closest to the middle of the grid, the
/// centres of the other rooms, in the order of the rooms, are where
/// monsters and items may be put, and the goal item lies on the most
/// distant tile that a walk from the player's start reaches.
pub open spec fn starts_chosen(rooms: Seq<Rect>, mb: &MapBuilder) -> bool {
    exists|b: int|
        {
            &&& #[trigger] is_closest(middle_of(mb.grid), centers_of(rooms), b)
            &&& mb.player_start == Some(rooms[b].spec_center())
            &&& mb.spawn_locations@ == centers_of(rooms).remove(b)
            &&& mb.amulet_start matches Some(a) && mb.grid.spec_in_bounds(a) && is_most_distant(
                mb.grid,
                mb.map_data@,
                seq![mb.grid.spec_index(rooms[b].spec_center()) as usize],
                PATHING_DEPTH as nat,
                mb.grid.spec_index(a),
            )
        }
}

/// The level of the given rooms: on a grid of walls the rooms are carved,
/// then the corridors are dug from west to east, each with the bend that
/// `flips` gives it.
pub open spec fn level_of(grid: Grid, rooms: Seq<Rect>, flips: Seq<bool>) -> Seq<TileType> {
    corridors(
        grid,
        carved_rooms(grid, all_walls(grid), rooms, rooms.len()),
        sorted_by_x(centers_of(rooms)),
        flips,
        flips.len(),
    )
}

/// `room` overlaps or touches one of the rooms.
pub open spec fn touches_any(rooms: Seq<Rect>, room: Rect) -> bool {
    exists|k: int| 0 <= k < rooms.len() && (#[trigger] rooms[k]).spec_intersect(room)
}

/// The rooms on a level that had none after the first `n` of the candidates
/// have been tried, one after the other: a candidate becomes a room if it
/// fits the grid and neither overlaps nor touches a room placed before it.
pub open spec fn rooms_tried(grid: Grid, candidates: Seq<Rect>, n: nat) -> Seq<Rect>
    decreases n,
{
    if n == 0 {
        Seq::empty()
    } else {
        let before = rooms_tried(grid, candidates, (n - 1) as nat);
        let candidate = candidates[n - 1];
        if room_fits(grid, candidate) && !touches_any(before, candidate) {
            before.push(candidate)
        } else {
            before
        }
    }
}

/// `rooms` is what the architect has after it has tried the candidates, and
/// these are a full run of its attempts: every candidate is a room as the
/// architect draws them, none was tried once `NUM_ROOMS` rooms were there,
/// and the run ended with all rooms there or with the last of
/// `MAX_ROOM_ATTEMPTS` attempts. On a grid under twelve tiles wide or high
/// there is no attempt.
pub open spec fn attempts_made(grid: Grid, candidates: Seq<Rect>, rooms: Seq<Rect>) -> bool {
    &&& candidates.len() <= MAX_ROOM_ATTEMPTS
    &&& forall|k: int| 0 <= k < candidates.len() ==> room_drawn(grid, #[trigger] candidates[k])
    &&& rooms == rooms_tried(grid, candidates, candidates.len())
    &&& forall|n: nat|
        n < candidates.len() ==> (#[trigger] rooms_tried(grid, candidates, n)).len() < NUM_ROOMS
    &&& (grid.width < 12 || grid.height < 12) ==> candidates.len() == 0
    &&& (grid.width >= 12 && grid.height >= 12) ==> rooms.len() == NUM_ROOMS || candidates.len()
        == MAX_ROOM_ATTEMPTS
}

/// The rooms on a level that had none after the first `n` of the candidates
/// have been gone through, one after the other, with the trying at an end
/// as soon as `NUM_ROOMS` rooms are there.
pub open spec fn rooms_filled(grid: Grid, candidates: Seq<Rect>, n: nat) -> Seq<Rect>
    decreases n,
{
    if n == 0 {
        Seq::empty()
    } else {
        let before = rooms_filled(grid, candidates, (n - 1) as nat);
        let candidate = candidates[n - 1];
        if before.len() < NUM_ROOMS && room_fits(grid, candidate) && !touches_any(
            before,
            candidate,
        ) {
            before.push(candidate)
        } else {
            before
        }
    }
}

/// There are never more than `NUM_ROOMS` rooms, and once they are all there
/// no further candidate changes them.
pub proof fn lemma_rooms_filled_stays(grid: Grid, candidates: Seq<Rect>, n: nat, m: nat)
    requires
        n <= m,
    ensures
        rooms_filled(grid, candidates, n).len() <= NUM_ROOMS,
        rooms_filled(grid, candidates, n).len() == NUM_ROOMS ==> rooms_filled(grid, candidates, m)
            == rooms_filled(grid, candidates, n),
    decreases m,
{
    if n > 0 {
        lemma_rooms_filled_stays(grid, candidates, (n - 1) as nat, (n - 1) as nat);
    }
    if n < m {
        lemma_rooms_filled_stays(grid, candidates, n, (m - 1) as nat);
    }
}

/// A full run of attempts leaves the rooms that going through its
/// candidates gives.
pub proof fn lemma_attempts_fill(grid: Grid, candidates: Seq<Rect>, rooms: Seq<Rect>, n: nat)
    requires
        attempts_made(grid, candidates, rooms),
        n <= candidates.len(),
    ensures
        rooms_filled(grid, candidates, n) == rooms_tried(grid, candidates, n),
        n == candidates.len() ==> rooms_filled(grid, candidates, n) == rooms,
    decreases n,
{
    if n > 0 {
        lemma_attempts_fill(grid, candidates, rooms, (n - 1) as nat);
        assert(rooms_tried(grid, candidates, (n - 1) as nat).len() < NUM_ROOMS);
    }
}

/// What has been placed after `n` attempts goes by the candidates tried,
/// not by those that follow.
pub proof fn lemma_rooms_tried_prefix(
    grid: Grid,
    candidates: Seq<Rect>,
    more: Seq<Rect>,
    n: nat,
)
    requires
        n <= candidates.len() <= more.len(),
        forall|k: int| 0 <= k < candidates.len() ==> candidates[k] == more[k],
    ensures
        rooms_tried(grid, candidates, n) == rooms_tried(grid, more, n),
    decreases n,
{
    if n > 0 {
        lemma_rooms_tried_prefix(grid, candidates, more, (n - 1) as nat);
    }
}

/// A place has been chosen, and it is a floor of the grid.
pub open spec fn on_floor(grid: Grid, tiles: Seq<TileType>, place: Option<Position>) -> bool {
    place matches Some(p) && floor_at(grid, tiles, p.x as int, p.y as int)
}

impl RoomsArchitect {
    /// Places rooms of random place and size, each two to nine tiles wide
    /// and high and at least a tile away from the edges, until there are
    /// `NUM_ROOMS` of them or `MAX_ROOM_ATTEMPTS` have been tried. Rooms
    /// that would overlap or touch one placed before are passed over.
    /// Returns whether all rooms are there. A grid under twelve tiles wide
    /// or high has no place for such rooms.
    fn build_random_rooms(&mut self, mb: &mut MapBuilder, rng: &mut ThreadRng) -> (done: bool)
        requires
            old(self).laid_out(old(mb)),
            old(self).rooms@.len() == 0,
        ensures
            final(self).laid_out(final(mb)),
            forall|k: int|
                0 <= k < final(self).rooms@.len() ==> room_drawn(
                    old(mb).grid,
                    #[trigger] final(self).rooms@[k],
                ),
            final(mb).map_data@ == carved_rooms(
                old(mb).grid,
                old(mb).map_data@,
                final(self).rooms@,
                final(self).rooms@.len(),
            ),
            final(self).rooms@.len() <= NUM_ROOMS,
            final(mb).grid == old(mb).grid,
            final(mb).player_start == old(mb).player_start,
            final(mb).amulet_start == old(mb).amulet_start,
            final(mb).spawn_locations == old(mb).spawn_locations,
            keeps_floors(old(mb).map_data@, final(mb).map_data@),
            done == (final(self).rooms@.len() >= NUM_ROOMS),
            exists|candidates: Seq<Rect>| #[trigger]
                attempts_made(old(mb).grid, candidates, final(self).rooms@),
    {
        let width: i32 = mb.grid.width;
        let height: i32 = mb.grid.height;
        let ghost grid = mb.grid;
        let ghost mut tried: Seq<Rect> = Seq::empty();
        if width < 12 || height < 12 {
            proof {
                assert(self.rooms@ =~= rooms_tried(grid, tried, 0));
                assert(attempts_made(grid, tried, self.rooms@));
            }
            return self.rooms.len() >= NUM_ROOMS;
        }
        let mut attempts: usize = 0;
        assert(self.rooms@ =~= rooms_tried(grid, tried, 0));
        while self.rooms.len() < NUM_ROOMS && attempts < MAX_ROOM_ATTEMPTS
            invariant
                grid == old(mb).grid,
                tried.len() == attempts,
                forall|k: int| 0 <= k < tried.len() ==> room_drawn(grid, #[trigger] tried[k]),
                self.rooms@ == rooms_tried(grid, tried, tried.len()),
                forall|n: nat|
                    n < tried.len() ==> (#[trigger] rooms_tried(grid, tried, n)).len() < NUM_ROOMS,
                self.laid_out(mb),
                mb.grid == old(mb).grid,
                mb.player_start == old(mb).player_start,
                mb.amulet_start == old(mb).amulet_start,
                mb.spawn_locations == old(mb).spawn_locations,
                keeps_floors(old(mb).map_data@, mb.map_data@),
                forall|k: int|
                    0 <= k < self.rooms@.len() ==> room_drawn(mb.grid, #[trigger] self.rooms@[k]),
                mb.map_data@ == carved_rooms(
                    mb.grid,
                    old(mb).map_data@,
                    self.rooms@,
                    self.rooms@.len(),
                ),
                self.rooms@.len() <= NUM_ROOMS,
                width == mb.grid.width,
                height == mb.grid.height,
                width >= 12,
                height >= 12,
                attempts <= MAX_ROOM_ATTEMPTS,
            decreases MAX_ROOM_ATTEMPTS - attempts,
        {
            let x: i32 = gen_range(rng, 1, width - 10);
            let y: i32 = gen_range(rng, 1, height - 10);
            let w: i32 = gen_range(rng, 2, 10);
            let h: i32 = gen_range(rng, 2, 10);
            let room = rect_with_size(x, y, w, h);
            let ghost before = mb.map_data@;
            let ghost rooms_before = self.rooms@;
            let placed = self.place_room(mb, room);
            proof {
                if placed {
                    lemma_carved_rooms_prefix(
                        mb.grid,
                        old(mb).map_data@,
                        rooms_before,
                        self.rooms@,
                        rooms_before.len(),
                    );
                }
                let tried_before = tried;
                tried = tried.push(room);
                assert forall|n: nat| n <= tried_before.len() implies rooms_tried(grid, tried, n)
                    == rooms_tried(grid, tried_before, n) by {
                    lemma_rooms_tried_prefix(grid, tried_before, tried, n);
                }
                assert(rooms_tried(grid, tried, tried_before.len()) == rooms_before);
                assert(touches_any(rooms_before, room) == exists|k: int|
                    0 <= k < rooms_before.len() && (#[trigger] rooms_before[k]).spec_intersect(
                        room,
                    ));
                assert(self.rooms@ == rooms_tried(grid, tried, tried.len()));
            }
            attempts = attempts + 1;
        }
        proof {
            assert(attempts_made(grid, tried, self.rooms@));
        }
        self.rooms.len() >= NUM_ROOMS
    }

    /// Joins the rooms by corridors, each with its bend on a side that a
    /// coin decides.
    fn build_corridors(&mut self, mb: &mut MapBuilder, rng: &mut ThreadRng)
        requires
            old(self).laid_out(old(mb)),
        ensures
            final(self).rooms == old(self).rooms,
            final(self).laid_out(final(mb)),
            final(mb).grid == old(mb).grid,
            final(mb).player_start == old(mb).player_start,
            final(mb).amulet_start == old(mb).amulet_start,
            final(mb).spawn_locations == old(mb).spawn_locations,
            keeps_floors(old(mb).map_data@, final(mb).map_data@),
            exists|flips: Seq<bool>|
                (flips.len() + 1 == old(self).rooms@.len() || (flips.len() == 0 && old(
                    self,
                ).rooms@.len() == 0)) && final(mb).map_data@ == #[trigger] corridors(
                    old(mb).grid,
                    old(mb).map_data@,
                    sorted_by_x(centers_of(old(self).rooms@)),
                    flips,
                    flips.len(),
                ),
    {
        let mut flips: Vec<bool> = Vec::new();
        let mut k: usize = 1;
        while k < self.rooms.len()
            invariant
                1 <= k,
                k <= self.rooms@.len() || (self.rooms@.len() == 0 && k == 1),
                flips@.len() == k - 1,
            decreases self.rooms@.len() - k,
        {
            let coin: i32 = gen_range(rng, 0, 2);
            flips.push(coin == 1);
            k = k + 1;
        }
        self.build_corridors_with(mb, &flips);
    }

    /// Chooses where the player starts, where the goal item lies and where
    /// monsters and items may be put. `false`, and nothing chosen, where
    /// there is no room.
    pub fn choose_starts(&self, mb: &mut MapBuilder) -> (chosen: bool)
        requires
            self.laid_out(old(mb)),
        ensures
            chosen == (self.rooms@.len() > 0),
            final(mb).grid == old(mb).grid,
            final(mb).map_data == old(mb).map_data,
            chosen ==> starts_chosen(self.rooms@, final(mb)),
            chosen ==> on_floor(final(mb).grid, final(mb).map_data@, final(mb).player_start),
            chosen ==> on_floor(final(mb).grid, final(mb).map_data@, final(mb).amulet_start),
            !chosen ==> *final(mb) == *old(mb),
    {
        let ghost grid = mb.grid;
        let ghost tiles = mb.map_data@;
        let centers = self.centers(&mb.grid);
        let dims = mb.dimensions();
        let middle = Position { x: dims.x / 2, y: dims.y / 2 };
        match closest_to(middle, &centers) {
            None => false,
            Some(best) => {
                let player_start = centers[best];
                proof {
                    lemma_center_in_room(grid, self.rooms@[best as int]);
                    assert(floor_at(grid, tiles, player_start.x as int, player_start.y as int));
                }
                let map = mb.snapshot();
                let amulet_start = most_distant_from(&map, player_start);
                proof {
                    lemma_most_distant_is_floor(
                        grid,
                        tiles,
                        player_start,
                        PATHING_DEPTH as nat,
                        amulet_start->0,
                    );
                }
                let mut spawn_locations = centers;
                spawn_locations.remove(best);
                mb.player_start = Some(player_start);
                mb.amulet_start = amulet_start;
                mb.spawn_locations = spawn_locations;
                assert(is_closest(middle_of(mb.grid), centers_of(self.rooms@), best as int));
                true
            },
        }
    }

    /// Makes a level of rooms and corridors out of the given candidates for
    /// rooms and the given bends of the corridors. The candidates are gone
    /// through in their order until `NUM_ROOMS` of them have become rooms;
    /// the architect holds these rooms afterwards. The level is made where
    /// all rooms are there and there is a bend for each corridor, one fewer
    /// than rooms; `None` where not.
    pub fn architect_with(&mut self, grid: Grid, candidates: &Vec<Rect>, flips: &Vec<bool>) -> (r:
        Option<MapBuilder>)
        requires
            grid.wf(),
        ensures
            final(self).rooms@ == rooms_filled(grid, candidates@, candidates@.len()),
            r.is_some() <==> final(self).rooms@.len() == NUM_ROOMS && flips@.len() + 1
                == NUM_ROOMS,
            r matches Some(mb) ==> {
                &&& final(self).laid_out(&mb)
                &&& mb.grid == grid
                &&& mb.map_data@ == level_of(grid, final(self).rooms@, flips@)
                &&& starts_chosen(final(self).rooms@, &mb)
                &&& on_floor(grid, mb.map_data@, mb.player_start)
                &&& on_floor(grid, mb.map_data@, mb.amulet_start)
            },
    {
        self.rooms = Vec::new();
        let mut mb = MapBuilder::walls(grid);
        assert(mb.map_data@ =~= all_walls(grid));
        let mut k: usize = 0;
        while k < candidates.len() && self.rooms.len() < NUM_ROOMS
            invariant
                k <= candidates@.len(),
                self.laid_out(&mb),
                mb.grid == grid,
                self.rooms@ == rooms_filled(grid, candidates@, k as nat),
                mb.map_data@ == carved_rooms(
                    grid,
                    all_walls(grid),
                    self.rooms@,
                    self.rooms@.len(),
                ),
            decreases candidates@.len() - k,
        {
            let ghost rooms_before = self.rooms@;
            let placed = self.place_room(&mut mb, candidates[k]);
            proof {
                if placed {
                    lemma_carved_rooms_prefix(
                        grid,
                        all_walls(grid),
                        rooms_before,
                        self.rooms@,
                        rooms_before.len(),
                    );
                }
            }
            k = k + 1;
        }
        proof {
            lemma_rooms_filled_stays(grid, candidates@, k as nat, candidates@.len());
        }
        if self.rooms.len() != NUM_ROOMS || flips.len() != NUM_ROOMS - 1 {
            return None;
        }
        self.build_corridors_with(&mut mb, flips);
        let chosen = self.choose_starts(&mut mb);
        Some(mb)
    }

    /// Makes a level of rooms and corridors on the given grid, with the
    /// random source of the thread. `None` where the rooms could not all be
    /// placed, as on a grid under twelve tiles wide or high: the architect
    /// then holds the rooms that it did place. Whatever is drawn, the rooms
    /// are what a full run of attempts leaves, and the level is made exactly
    /// where these are all the rooms.
    pub fn architect(&mut self, grid: Grid) -> (r: Option<MapBuilder>)
        requires
            grid.wf(),
        ensures
            exists|candidates: Seq<Rect>| #[trigger]
                attempts_made(grid, candidates, final(self).rooms@),
            final(self).rooms@.len() <= NUM_ROOMS,
            r.is_some() <==> final(self).rooms@.len() == NUM_ROOMS,
            grid.width < 12 || grid.height < 12 ==> r.is_none(),
            r matches Some(mb) ==> {
                &&& final(self).laid_out(&mb)
                &&& mb.grid == grid
                &&& final(self).rooms@.len() == NUM_ROOMS
                &&& forall|k: int|
                    0 <= k < final(self).rooms@.len() ==> room_drawn(
                        grid,
                        #[trigger] final(self).rooms@[k],
                    )
                &&& exists|flips: Seq<bool>|
                    flips.len() + 1 == NUM_ROOMS && mb.map_data@ == #[trigger] level_of(
                        grid,
                        final(self).rooms@,
                        flips,
                    )
                &&& starts_chosen(final(self).rooms@, &mb)
                &&& on_floor(grid, mb.map_data@, mb.player_start)
                &&& on_floor(grid, mb.map_data@, mb.amulet_start)
            },
    {
        self.rooms = Vec::new();
        let mut mb = MapBuilder::walls(grid);
        assert(mb.map_data@ =~= all_walls(grid));
        let mut rng = rand::thread_rng();
        if !self.build_random_rooms(&mut mb, &mut rng) {
            return None;
        }
        let ghost carved = mb.map_data@;
        self.build_corridors(&mut mb, &mut rng);
        proof {
            let flips = choose|flips: Seq<bool>|
                (flips.len() + 1 == self.rooms@.len() || (flips.len() == 0 && self.rooms@.len()
                    == 0)) && mb.map_data@ == #[trigger] corridors(
                    grid,
                    carved,
                    sorted_by_x(centers_of(self.rooms@)),
                    flips,
                    flips.len(),
                );
            assert(mb.map_data@ == level_of(grid, self.rooms@, flips));
        }
        let chosen = self.choose_starts(&mut mb);
        Some(mb)
    }
}

} // verus!
