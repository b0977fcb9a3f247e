//! Axis-aligned rectangles of tiles: the rooms of a level. The geometry is
//! that of `bracket_geometry`.

use vstd::prelude::*;
use crate::position::Position;

verus! {

/// A rectangle of tiles, from `(x1, y1)` up to, and without, the column
/// `x2` and the row `y2`.
#[derive(Clone, Copy, Debug, PartialEq, Eq, Hash, Structural)]
pub struct Rect {
    pub x1: i32,
    pub x2: i32,
    pub y1: i32,
    pub y2: i32,
}

/// Half of `sum`, rounded towards zero.
pub open spec fn half(sum: int) -> int {
    if sum >= 0 {
        sum / 2
    } else {
        -((-sum) / 2)
    }
}

impl Rect {
    /// Two rectangles overlap if they share a tile, or touch: the columns
    /// `x1..=x2` and the rows `y1..=y2` of the two meet.
    pub open spec fn spec_intersect(&self, other: Rect) -> bool {
        self.x1 <= other.x2 && self.x2 >= other.x1 && self.y1 <= other.y2 && self.y2 >= other.y1
    }

    /// The centre of the rectangle.
    pub open spec fn spec_center(&self) -> Position {
        Position { x: half(self.x1 + self.x2) as i32, y: half(self.y1 + self.y2) as i32 }
    }

    /// The tile at `(x, y)` belongs to the rectangle.
    pub open spec fn spec_contains(&self, x: int, y: int) -> bool {
        self.x1 <= x < self.x2 && self.y1 <= y < self.y2
    }

    /// The number of columns; none where `x2` is not above `x1`.
    pub open spec fn spec_columns(&self) -> int {
        if self.x2 > self.x1 {
            self.x2 - self.x1
        } else {
            0
        }
    }

    /// The number of rows; none where `y2` is not above `y1`.
    pub open spec fn spec_rows(&self) -> int {
        if self.y2 > self.y1 {
            self.y2 - self.y1
        } else {
            0
        }
    }
}

/// Calls `bracket_geometry::prelude::Rect::with_size`: the rectangle with
/// the corner `(x, y)` that is `w` tiles wide and `h` tiles high. The far
/// edges are sums in `i32`, which `requires` keeps in range.
#[verifier::external_body]
pub(crate) fn rect_with_size(x: i32, y: i32, w: i32, h: i32) -> (r: Rect)
    requires
        i32::MIN <= x + w <= i32::MAX,
        i32::MIN <= y + h <= i32::MAX,
    ensures
        r.x1 == x,
        r.y1 == y,
        r.x2 == x + w,
        r.y2 == y + h,
{
    let made = bracket_geometry::prelude::Rect::with_size(x, y, w, h);
    Rect { x1: made.x1, x2: made.x2, y1: made.y1, y2: made.y2 }
}

/// Calls `bracket_geometry::prelude::Rect::intersect` on the two
/// rectangles: whether they overlap or touch.
#[verifier::external_body]
pub(crate) fn rect_intersect(a: &Rect, b: &Rect) -> (r: bool)
    ensures
        r == a.spec_intersect(*b),
{
    let first = bracket_geometry::prelude::Rect::with_exact(a.x1, a.y1, a.x2, a.y2);
    let second = bracket_geometry::prelude::Rect::with_exact(b.x1, b.y1, b.x2, b.y2);
    first.intersect(&second)
}

/// Calls `bracket_geometry::prelude::Rect::center`: the point halfway
/// between the edges, each half rounded towards zero. The sums of opposite
/// edges are taken in `i32`, which `requires` keeps in range.
#[verifier::external_body]
pub(crate) fn rect_center(a: &Rect) -> (p: Position)
    requires
        i32::MIN <= a.x1 + a.x2 <= i32::MAX,
        i32::MIN <= a.y1 + a.y2 <= i32::MAX,
    ensures
        p == a.spec_center(),
{
    let center = bracket_geometry::prelude::Rect::with_exact(a.x1, a.y1, a.x2, a.y2).center();
    Position { x: center.x, y: center.y }
}

/// Calls `bracket_geometry::prelude::Rect::for_each` and collects the
/// points that it hands out: the tiles of the rectangle row by row, from
/// the row `y1` on, each row from the column `x1` on.
#[verifier::external_body]
pub(crate) fn rect_points(a: &Rect) -> (points: Vec<Position>)
    requires
        a.spec_columns() * a.spec_rows() <= usize::MAX,
    ensures
        points@.len() == a.spec_columns() * a.spec_rows(),
        forall|k: int|
            0 <= k < points@.len() ==> (#[trigger] points@[k]).x == a.x1 + k % a.spec_columns()
                && points@[k].y == a.y1 + k / a.spec_columns(),
{
    let mut points: Vec<Position> = Vec::new();
    bracket_geometry::prelude::Rect::with_exact(a.x1, a.y1, a.x2, a.y2).for_each(
        |p| points.push(Position { x: p.x, y: p.y }),
    );
    points
}

} // verus!
