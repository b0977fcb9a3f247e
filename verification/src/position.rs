//! Integer coordinates on, and off, the tile grid.

use vstd::prelude::*;

verus! {

/// The absolute value.
pub open spec fn magnitude(a: int) -> int {
    if a >= 0 {
        a
    } else {
        -a
    }
}

/// A pair of signed coordinates. A position may lie outside every grid:
/// it is also used for movement deltas and distances.
#[derive(Clone, Copy, Debug, PartialEq, Eq, Hash, Structural)]
pub struct Position {
    pub x: i32,
    pub y: i32,
}

impl Position {
    pub fn new(x: i32, y: i32) -> (p: Position)
        ensures
            p.x == x,
            p.y == y,
    {
        Position { x, y }
    }

    /// Squared Euclidean distance between two positions.
    pub open spec fn spec_distance_squared(self, other: Position) -> int {
        (self.x - other.x) * (self.x - other.x) + (self.y - other.y) * (self.y - other.y)
    }

    /// Manhattan distance between two positions.
    pub open spec fn spec_manhattan(self, other: Position) -> int {
        magnitude(self.x - other.x) + magnitude(self.y - other.y)
    }

    /// Squared Euclidean distance between two positions. The largest value,
    /// between opposite corners of the `i32` plane, is below `2^65`.
    pub fn distance_squared(self, other: Position) -> (d: u128)
        ensures
            d == self.spec_distance_squared(other),
    {
        let dx: i64 = self.x as i64 - other.x as i64;
        let dy: i64 = self.y as i64 - other.y as i64;
        let ax: u128 = if dx >= 0 { dx as u128 } else { (-dx) as u128 };
        let ay: u128 = if dy >= 0 { dy as u128 } else { (-dy) as u128 };
        assert(ax * ax <= 0x1_0000_0000 * 0x1_0000_0000) by (nonlinear_arith)
            requires 0 <= ax <= 0x1_0000_0000;
        assert(ay * ay <= 0x1_0000_0000 * 0x1_0000_0000) by (nonlinear_arith)
            requires 0 <= ay <= 0x1_0000_0000;
        assert(ax * ax == (self.x - other.x) * (self.x - other.x)) by (nonlinear_arith)
            requires ax == self.x - other.x || ax == -(self.x - other.x);
        assert(ay * ay == (self.y - other.y) * (self.y - other.y)) by (nonlinear_arith)
            requires ay == self.y - other.y || ay == -(self.y - other.y);
        ax * ax + ay * ay
    }

    /// The unsigned tile coordinates of this position, where it has any: a
    /// position with a negative coordinate names no tile.
    pub fn to_tile_pos(self) -> (r: Option<(u32, u32)>)
        ensures
            (self.x < 0 || self.y < 0) <==> r.is_none(),
            r matches Some(t) ==> t.0 == self.x && t.1 == self.y,
    {
        if self.x < 0 || self.y < 0 {
            None
        } else {
            Some((self.x as u32, self.y as u32))
        }
    }

    /// The position of the tile with the given unsigned coordinates, where
    /// both fit a signed coordinate.
    pub fn from_tile_pos(tx: u32, ty: u32) -> (r: Option<Position>)
        ensures
            (tx <= i32::MAX && ty <= i32::MAX) <==> r.is_some(),
            r matches Some(p) ==> p.x == tx && p.y == ty,
    {
        if tx <= 0x7fff_ffff && ty <= 0x7fff_ffff {
            Some(Position { x: tx as i32, y: ty as i32 })
        } else {
            None
        }
    }
}

impl Default for Position {
    fn default() -> (p: Position)
        ensures
            p.x == 0,
            p.y == 0,
    {
        Position { x: 0, y: 0 }
    }
}

} // verus!
