//! Field of view: the tiles that an observer sees within a radius.
//!
//! Sight runs along straight lines of tiles. A tile within the radius is
//! seen if it is on the grid and every tile of the line strictly between
//! the observer and it is a floor. So a wall is seen itself, and hides what
//! lies behind it.

use vstd::prelude::*;
use vstd::arithmetic::div_mod::lemma_fundamental_div_mod_converse;
use crate::grid::Grid;
use crate::map::{floor_at, MapAdapter, TileType};
use crate::position::{magnitude, Position};

verus! {

/// The number of steps of the line of sight from `o` to `t`: the larger of
/// the two coordinate differences.
pub open spec fn line_steps(o: Position, t: Position) -> int {
    if magnitude(t.x - o.x) >= magnitude(t.y - o.y) {
        magnitude(t.x - o.x)
    } else {
        magnitude(t.y - o.y)
    }
}

/// How far the line has moved along one axis after `i` of its `n` steps,
/// where it moves by `d` in all: `i * d / n`, rounded to the nearest
/// integer, and away from zero where two are equally near.
pub open spec fn line_offset(i: int, d: int, n: int) -> int {
    if d >= 0 {
        (2 * i * d + n) / (2 * n)
    } else {
        -((2 * i * (-d) + n) / (2 * n))
    }
}

/// The tile that the line of sight from `o` to `t` crosses after `i` steps.
pub open spec fn line_cell(o: Position, t: Position, i: int) -> (int, int) {
    let n = line_steps(o, t);
    (o.x + line_offset(i, t.x - o.x, n), o.y + line_offset(i, t.y - o.y, n))
}

/// Every tile strictly between `o` and `t` on the line of sight is a floor.
pub open spec fn clear_line(grid: Grid, tiles: Seq<TileType>, o: Position, t: Position) -> bool {
    forall|i: int|
        0 < i < line_steps(o, t) ==> floor_at(
            grid,
            tiles,
            (#[trigger] line_cell(o, t, i)).0,
            line_cell(o, t, i).1,
        )
}

/// The observer at `o` sees the tile `t` within the radius `r`: its own
/// tile whatever the radius, and any other tile that is on the grid, no
/// further away than the radius, and at the end of a clear line of sight.
/// So nothing but the observer's own tile is seen within a negative radius.
pub open spec fn visible_from(
    grid: Grid,
    tiles: Seq<TileType>,
    o: Position,
    r: int,
    t: Position,
) -> bool {
    ||| t == o
    ||| {
        &&& r >= 0
        &&& o.spec_distance_squared(t) <= r * r
        &&& grid.spec_in_bounds(t)
        &&& clear_line(grid, tiles, o, t)
    }
}

/// Whether every tile strictly between `o` and `t` on the line of sight is
/// a floor.
pub fn line_is_clear(map: &MapAdapter, o: Position, t: Position) -> (b: bool)
    requires
        map.wf(),
    ensures
        b == clear_line(map.grid(), map.tiles(), o, t),
{
    let ghost grid = map.grid();
    let ghost tiles = map.tiles();
    let dx: i64 = t.x as i64 - o.x as i64;
    let dy: i64 = t.y as i64 - o.y as i64;
    let ax: i64 = if dx >= 0 { dx } else { -dx };
    let ay: i64 = if dy >= 0 { dy } else { -dy };
    let n: i64 = if ax >= ay { ax } else { ay };
    assert(n == line_steps(o, t));
    let mut i: i64 = 1;
    while i < n
        invariant
            map.wf(),
            grid == map.grid(),
            tiles == map.tiles(),
            1 <= i,
            n == line_steps(o, t),
            dx == t.x - o.x,
            dy == t.y - o.y,
            ax == magnitude(dx as int),
            ay == magnitude(dy as int),
            0 <= ax <= n <= 0xffff_ffff,
            0 <= ay <= n,
            forall|j: int|
                0 < j < i ==> floor_at(
                    grid,
                    tiles,
                    (#[trigger] line_cell(o, t, j)).0,
                    line_cell(o, t, j).1,
                ),
        decreases n - i,
    {
        assert(0 <= 2 * i * ax <= 2 * 0xffff_ffff * 0xffff_ffff) by (nonlinear_arith)
            requires 0 <= i <= 0xffff_ffff, 0 <= ax <= 0xffff_ffff;
        assert(0 <= 2 * i * ay <= 2 * 0xffff_ffff * 0xffff_ffff) by (nonlinear_arith)
            requires 0 <= i <= 0xffff_ffff, 0 <= ay <= 0xffff_ffff;
        let qx: i128 = (2 * (i as i128) * (ax as i128) + n as i128) / (2 * (n as i128));
        let qy: i128 = (2 * (i as i128) * (ay as i128) + n as i128) / (2 * (n as i128));
        assert(0 <= qx <= 2 * 0xffff_ffff * 0xffff_ffff + 0xffff_ffff) by (nonlinear_arith)
            requires
                qx == (2 * i * ax + n) / (2 * n),
                0 <= 2 * i * ax <= 2 * 0xffff_ffff * 0xffff_ffff,
                0 < n <= 0xffff_ffff,
        ;
        assert(0 <= qy <= 2 * 0xffff_ffff * 0xffff_ffff + 0xffff_ffff) by (nonlinear_arith)
            requires
                qy == (2 * i * ay + n) / (2 * n),
                0 <= 2 * i * ay <= 2 * 0xffff_ffff * 0xffff_ffff,
                0 < n <= 0xffff_ffff,
        ;
        let x: i128 = if dx >= 0 { o.x as i128 + qx } else { o.x as i128 - qx };
        let y: i128 = if dy >= 0 { o.y as i128 + qy } else { o.y as i128 - qy };
        assert(x == line_cell(o, t, i as int).0);
        assert(y == line_cell(o, t, i as int).1);
        if !(0 <= x && x < map.cell.grid.width as i128 && 0 <= y && y < map.cell.grid.height as i128) {
            return false;
        }
        if !map.can_enter_tile(Position { x: x as i32, y: y as i32 }) {
            return false;
        }
        i = i + 1;
    }
    true
}


/// A tile that is seen and is not the observer's own lies on the grid and
/// no further than the radius along either axis.
pub proof fn lemma_visible_in_box(
    grid: Grid,
    tiles: Seq<TileType>,
    o: Position,
    r: int,
    t: Position,
)
    requires
        visible_from(grid, tiles, o, r, t),
        t != o,
    ensures
        r >= 0,
        o.x - r <= t.x <= o.x + r,
        o.y - r <= t.y <= o.y + r,
        grid.spec_in_bounds(t),
{
    let dx = o.x - t.x;
    let dy = o.y - t.y;
    assert(-r <= dx <= r && -r <= dy <= r) by (nonlinear_arith)
        requires
            dx * dx + dy * dy <= r * r,
            r >= 0,
    ;
}

/// The tiles that an observer at `center` sees within `range`: always the
/// observer's own tile, and every tile of the grid no further than `range`
/// from it, in a straight line, to which the line of sight crosses floors
/// only. Within a negative range that is the observer's own tile alone. No
/// tile is listed twice.
pub fn field_of_view_set(center: Position, range: i32, map: &MapAdapter) -> (visible: Vec<Position>)
    requires
        map.wf(),
    ensures
        forall|t: Position|
            visible@.contains(t) <==> visible_from(map.grid(), map.tiles(), center, range as int, t),
        visible@.no_duplicates(),
        visible@.contains(center),
        forall|t: Position| #[trigger]
            visible@.contains(t) && t != center ==> range >= 0 && center.spec_distance_squared(t)
                <= range * range,
{
    let ghost grid = map.grid();
    let ghost tiles = map.tiles();
    let ghost r = range as int;
    let mut visible: Vec<Position> = Vec::new();
    visible.push(center);
    assert(visible@[0] == center);
    if range < 0 {
        return visible;
    }
    let width: i64 = map.cell.grid.width as i64;
    let height: i64 = map.cell.grid.height as i64;
    let lo_x: i64 = center.x as i64 - range as i64;
    let hi_x: i64 = center.x as i64 + range as i64;
    let lo_y: i64 = center.y as i64 - range as i64;
    let hi_y: i64 = center.y as i64 + range as i64;
    let x0: i64 = if lo_x > 0 { lo_x } else { 0 };
    let x1: i64 = if hi_x < width - 1 { hi_x } else { width - 1 };
    let y0: i64 = if lo_y > 0 { lo_y } else { 0 };
    let y1: i64 = if hi_y < height - 1 { hi_y } else { height - 1 };
    assert(0 <= r * r <= 0x7fff_ffff * 0x7fff_ffff) by (nonlinear_arith)
        requires 0 <= r <= 0x7fff_ffff;
    let reach: u128 = (range as u128) * (range as u128);
    assert(reach == r * r) by (nonlinear_arith)
        requires reach == (range as int) * (range as int), r == range as int;
    if x0 > x1 || y0 > y1 {
        assert forall|t: Position| visible@.contains(t) <==> visible_from(
            grid,
            tiles,
            center,
            r,
            t,
        ) by {
            if visible_from(grid, tiles, center, r, t) && t != center {
                lemma_visible_in_box(grid, tiles, center, r, t);
            }
        }
        return visible;
    }
    let mut y: i64 = y0;
    proof {
        assert forall|u: Position|
            visible@.contains(u) <==> (visible_from(grid, tiles, center, r, u) && (u == center
                || u.y < y)) by {
            if visible_from(grid, tiles, center, r, u) && u != center {
                lemma_visible_in_box(grid, tiles, center, r, u);
            }
        }
    }
    while y <= y1
        invariant
            map.wf(),
            grid == map.grid(),
            tiles == map.tiles(),
            r == range as int,
            r >= 0,
            reach == r * r,
            0 <= x0 <= x1 < grid.width,
            0 <= y0 <= y <= y1 + 1 <= grid.height,
            x0 == (if center.x - r > 0 { center.x - r } else { 0 }),
            x1 == (if center.x + r < grid.width - 1 { center.x + r } else { grid.width - 1 }),
            y0 == (if center.y - r > 0 { center.y - r } else { 0 }),
            y1 == (if center.y + r < grid.height - 1 { center.y + r } else { grid.height - 1 }),
            visible@.no_duplicates(),
            forall|t: Position|
                visible@.contains(t) <==> (visible_from(grid, tiles, center, r, t) && (t == center
                    || t.y < y)),
        decreases y1 + 1 - y,
    {
        let mut x: i64 = x0;
        proof {
            assert forall|u: Position|
                visible@.contains(u) <==> (visible_from(grid, tiles, center, r, u) && (u == center
                    || u.y < y || (u.y == y && u.x < x))) by {
                if visible_from(grid, tiles, center, r, u) && u != center {
                    lemma_visible_in_box(grid, tiles, center, r, u);
                }
            }
        }
        while x <= x1
            invariant
                map.wf(),
                grid == map.grid(),
                tiles == map.tiles(),
                r == range as int,
                r >= 0,
                reach == r * r,
                0 <= x0 <= x <= x1 + 1 <= grid.width,
                0 <= y0 <= y <= y1 < grid.height,
                x0 == (if center.x - r > 0 { center.x - r } else { 0 }),
                x1 == (if center.x + r < grid.width - 1 { center.x + r } else { grid.width - 1 }),
                visible@.no_duplicates(),
                forall|t: Position|
                    visible@.contains(t) <==> (visible_from(grid, tiles, center, r, t) && (t
                        == center || t.y < y || (t.y == y && t.x < x))),
            decreases x1 + 1 - x,
        {
            let t = Position { x: x as i32, y: y as i32 };
            let ghost before = visible@;
            let mut seen: bool = false;
            if !(t.x == center.x && t.y == center.y) && center.distance_squared(t) <= reach {
                seen = line_is_clear(map, center, t);
            }
            assert(seen == (t != center && visible_from(grid, tiles, center, r, t)));
            if seen {
                visible.push(t);
                proof {
                    assert(!before.contains(t));
                    assert(visible@ == before.push(t));
                    assert forall|i: int, j: int|
                        0 <= i < visible@.len() && 0 <= j < visible@.len() && i
                            != j implies visible@[i] != visible@[j] by {
                        if i < before.len() {
                            assert(before.contains(visible@[i]));
                        }
                        if j < before.len() {
                            assert(before.contains(visible@[j]));
                        }
                    }
                }
            }
            proof {
                assert forall|u: Position|
                    visible@.contains(u) <==> (visible_from(grid, tiles, center, r, u) && (u
                        == center || u.y < y || (u.y == y && u.x < x + 1))) by {
                    if seen {
                        if before.contains(u) {
                            let k = choose|k: int| 0 <= k < before.len() && before[k] == u;
                            assert(visible@[k] == u);
                        }
                        assert(visible@[before.len() as int] == t);
                        if visible@.contains(u) && u != t {
                            let k = choose|k: int| 0 <= k < visible@.len() && visible@[k] == u;
                            assert(before[k] == u);
                        }
                    }
                }
            }
            x = x + 1;
        }
        proof {
            assert forall|u: Position|
                visible@.contains(u) <==> (visible_from(grid, tiles, center, r, u) && (u == center
                    || u.y < y + 1)) by {
                if visible_from(grid, tiles, center, r, u) && u != center {
                    lemma_visible_in_box(grid, tiles, center, r, u);
                }
            }
        }
        y = y + 1;
    }
    proof {
        assert forall|u: Position| visible@.contains(u) <==> visible_from(
            grid,
            tiles,
            center,
            r,
            u,
        ) by {
            if visible_from(grid, tiles, center, r, u) && u != center {
                lemma_visible_in_box(grid, tiles, center, r, u);
            }
        }
    }
    visible
}

/// What a creature sees: the tiles in its field of view, and how far it
/// sees.
#[derive(Clone, Debug)]
pub struct FieldOfView {
    pub visible_tiles: Vec<Position>,
    pub radius: i32,
}

impl FieldOfView {
    /// A field of view of the given radius in which nothing is seen yet.
    pub fn new(radius: i32) -> (fov: FieldOfView)
        ensures
            fov.radius == radius,
            fov.visible_tiles@.len() == 0,
    {
        FieldOfView { visible_tiles: Vec::new(), radius }
    }

    /// Whether the tile at `position` is in the field of view.
    pub fn can_see(&self, position: Position) -> (b: bool)
        ensures
            b == self.visible_tiles@.contains(position),
    {
        let mut i: usize = 0;
        while i < self.visible_tiles.len()
            invariant
                i <= self.visible_tiles@.len(),
                forall|k: int| 0 <= k < i ==> self.visible_tiles@[k] != position,
            decreases self.visible_tiles@.len() - i,
        {
            let t = self.visible_tiles[i];
            if t.x == position.x && t.y == position.y {
                return true;
            }
            i = i + 1;
        }
        false
    }

    /// Computes the field of view anew for an observer at `position`: what
    /// was seen before is forgotten.
    pub fn update(&mut self, position: Position, map: &MapAdapter)
        requires
            map.wf(),
        ensures
            final(self).radius == old(self).radius,
            final(self).visible_tiles@.no_duplicates(),
            forall|t: Position|
                final(self).visible_tiles@.contains(t) <==> visible_from(
                    map.grid(),
                    map.tiles(),
                    position,
                    old(self).radius as int,
                    t,
                ),
    {
        self.visible_tiles = field_of_view_set(position, self.radius, map);
    }
}


/// The level `tiles` with a wall put at the tile `w`.
pub open spec fn with_wall(grid: Grid, tiles: Seq<TileType>, w: Position) -> Seq<TileType> {
    tiles.update(grid.spec_index(w), TileType::Wall)
}

/// A wall put on the line of sight, strictly between the observer and a
/// tile, hides that tile.
pub proof fn lemma_wall_hides(
    grid: Grid,
    tiles: Seq<TileType>,
    o: Position,
    r: int,
    w: Position,
    t: Position,
    i: int,
)
    requires
        grid.wf(),
        tiles.len() == grid.spec_len(),
        grid.spec_in_bounds(w),
        0 < i < line_steps(o, t),
        line_cell(o, t, i) == (w.x as int, w.y as int),
    ensures
        !visible_from(grid, with_wall(grid, tiles, w), o, r, t),
{
    grid.lemma_index_in_range(w);
    let walled = with_wall(grid, tiles, w);
    assert(!floor_at(grid, walled, line_cell(o, t, i).0, line_cell(o, t, i).1));
}

/// A wall put somewhere else than strictly between the observer and a tile
/// that is seen leaves that tile in sight.
pub proof fn lemma_wall_spares(
    grid: Grid,
    tiles: Seq<TileType>,
    o: Position,
    r: int,
    w: Position,
    u: Position,
)
    requires
        grid.wf(),
        tiles.len() == grid.spec_len(),
        grid.spec_in_bounds(w),
        visible_from(grid, tiles, o, r, u),
        forall|i: int|
            0 < i < line_steps(o, u) ==> #[trigger] line_cell(o, u, i) != (w.x as int, w.y as int),
    ensures
        visible_from(grid, with_wall(grid, tiles, w), o, r, u),
{
    grid.lemma_index_in_range(w);
    let walled = with_wall(grid, tiles, w);
    if u != o {
        assert forall|i: int| 0 < i < line_steps(o, u) implies floor_at(
            grid,
            walled,
            (#[trigger] line_cell(o, u, i)).0,
            line_cell(o, u, i).1,
        ) by {
            let c = line_cell(o, u, i);
            assert(floor_at(grid, tiles, c.0, c.1));
            let p = Position { x: c.0 as i32, y: c.1 as i32 };
            grid.lemma_index_in_range(p);
            if grid.spec_index(p) == grid.spec_index(w) {
                grid.lemma_index_injective(p, w);
            }
        }
    }
}


/// The line of sight moves one tile along its longer axis with each step,
/// so it passes no tile twice and reaches its end with the last step only.
pub proof fn lemma_line_advances(o: Position, t: Position, i: int)
    requires
        0 <= i <= line_steps(o, t),
        o != t,
    ensures
        magnitude(t.x - o.x) >= magnitude(t.y - o.y) ==> line_cell(o, t, i).0 == o.x + (if t.x
            >= o.x {
            i
        } else {
            -i
        }),
        magnitude(t.x - o.x) < magnitude(t.y - o.y) ==> line_cell(o, t, i).1 == o.y + (if t.y
            >= o.y {
            i
        } else {
            -i
        }),
        line_cell(o, t, line_steps(o, t)) == (t.x as int, t.y as int),
        i < line_steps(o, t) ==> line_cell(o, t, i) != (t.x as int, t.y as int),
{
    let n = line_steps(o, t);
    let dx = magnitude(t.x - o.x);
    let dy = magnitude(t.y - o.y);
    assert(n > 0);
    assert(2 * i * n + n == i * (2 * n) + n) by (nonlinear_arith);
    lemma_fundamental_div_mod_converse(2 * i * n + n, 2 * n, i, n);
    assert(2 * n * n + n == n * (2 * n) + n) by (nonlinear_arith);
    lemma_fundamental_div_mod_converse(2 * n * n + n, 2 * n, n, n);
    assert(2 * n * dx + n == dx * (2 * n) + n) by (nonlinear_arith);
    lemma_fundamental_div_mod_converse(2 * n * dx + n, 2 * n, dx, n);
    assert(2 * n * dy + n == dy * (2 * n) + n) by (nonlinear_arith);
    lemma_fundamental_div_mod_converse(2 * n * dy + n, 2 * n, dy, n);
}

/// A wall that is seen stays in sight as a wall: what a tile is made of
/// does not hide the tile itself.
pub proof fn lemma_wall_is_seen(
    grid: Grid,
    tiles: Seq<TileType>,
    o: Position,
    r: int,
    w: Position,
)
    requires
        grid.wf(),
        tiles.len() == grid.spec_len(),
        grid.spec_in_bounds(w),
        visible_from(grid, tiles, o, r, w),
    ensures
        visible_from(grid, with_wall(grid, tiles, w), o, r, w),
{
    if o != w {
        assert forall|i: int| 0 < i < line_steps(o, w) implies #[trigger] line_cell(o, w, i) != (
            w.x as int,
            w.y as int,
        ) by {
            lemma_line_advances(o, w, i);
        }
    }
    lemma_wall_spares(grid, tiles, o, r, w, w);
}

} // verus!
