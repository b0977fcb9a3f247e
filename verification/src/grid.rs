//! Geometry of a rectangular tile field: its dimensions, the bounds test and
//! the row-major conversion between positions and tile indices.

use vstd::prelude::*;
use vstd::arithmetic::div_mod::lemma_fundamental_div_mod_converse;
use crate::position::Position;

verus! {

/// The dimensions of a tile field. Tiles are stored row by row: the tile at
/// `(x, y)` has index `y * width + x`.
#[derive(Clone, Copy, Debug, PartialEq, Eq, Hash, Structural)]
pub struct Grid {
    pub width: i32,
    pub height: i32,
}

impl Grid {
    /// Both dimensions are positive and the number of tiles is a `usize`.
    pub open spec fn wf(&self) -> bool {
        &&& 0 < self.width
        &&& 0 < self.height
        &&& self.width * self.height <= usize::MAX
    }

    /// The number of tiles.
    pub open spec fn spec_len(&self) -> int {
        self.width * self.height
    }

    pub open spec fn spec_in_bounds(&self, p: Position) -> bool {
        0 <= p.x < self.width && 0 <= p.y < self.height
    }

    /// The bounds test on a mathematical pair.
    pub open spec fn in_bounds_at(&self, x: int, y: int) -> bool {
        0 <= x < self.width && 0 <= y < self.height
    }

    /// The row-major index of a position. No bounds are checked: off the
    /// grid the value may be negative, or the index of another tile.
    pub open spec fn spec_index(&self, p: Position) -> int {
        p.y * self.width + p.x
    }

    /// The row-major index of a mathematical pair.
    pub open spec fn index_at(&self, x: int, y: int) -> int {
        y * self.width + x
    }

    /// The position of the tile with the given index.
    pub open spec fn spec_coord(&self, idx: int) -> Position {
        Position { x: (idx % (self.width as int)) as i32, y: (idx / (self.width as int)) as i32 }
    }

    /// A grid of the given dimensions; `None` unless both are positive and
    /// the number of tiles fits a `usize`.
    pub fn new(width: i32, height: i32) -> (r: Option<Grid>)
        ensures
            r.is_some() <==> (0 < width && 0 < height && width * height <= usize::MAX),
            r matches Some(g) ==> g.wf() && g.width == width && g.height == height,
    {
        if width <= 0 || height <= 0 {
            return None;
        }
        assert(0 < width * height <= 0x7fff_ffff * 0x7fff_ffff) by (nonlinear_arith)
            requires 0 < width <= 0x7fff_ffff, 0 < height <= 0x7fff_ffff;
        let tiles: u64 = (width as u64) * (height as u64);
        if tiles > usize::MAX as u64 {
            return None;
        }
        Some(Grid { width, height })
    }

    /// The dimensions as a position: `x` is the width, `y` the height.
    pub fn dimensions(&self) -> (d: Position)
        ensures
            d.x == self.width,
            d.y == self.height,
    {
        Position { x: self.width, y: self.height }
    }

    /// The number of tiles.
    pub fn len(&self) -> (n: usize)
        requires
            self.wf(),
        ensures
            n == self.spec_len(),
    {
        assert(0 < self.width * self.height) by (nonlinear_arith)
            requires 0 < self.width, 0 < self.height;
        (self.width as usize) * (self.height as usize)
    }

    /// True exactly for the positions of the grid's tiles.
    pub fn in_bounds(&self, p: Position) -> (b: bool)
        ensures
            b == self.spec_in_bounds(p),
    {
        0 <= p.x && p.x < self.width && 0 <= p.y && p.y < self.height
    }

    /// The row-major index of `p`, without a bounds check. Off the grid the
    /// result may be the index of another tile, or of none; a position whose
    /// row-major index would be negative has no index and is left out.
    pub fn point2d_to_index(&self, p: Position) -> (idx: usize)
        requires
            self.wf(),
            0 <= self.spec_index(p) <= usize::MAX,
        ensures
            idx == self.spec_index(p),
    {
        assert(-0x8000_0000 * 0x8000_0000 <= p.y * self.width <= 0x8000_0000 * 0x8000_0000)
            by (nonlinear_arith)
            requires -0x8000_0000 <= p.y <= 0x8000_0000, 0 < self.width <= 0x8000_0000;
        let v: i64 = (p.y as i64) * (self.width as i64) + (p.x as i64);
        v as usize
    }

    /// The index of `p` if `p` is on the grid, `None` if it is not.
    pub fn try_idx(&self, p: Position) -> (r: Option<usize>)
        requires
            self.wf(),
        ensures
            r.is_some() <==> self.spec_in_bounds(p),
            r matches Some(idx) ==> idx == self.spec_index(p) && idx < self.spec_len(),
    {
        if self.in_bounds(p) {
            proof {
                self.lemma_index_in_range(p);
            }
            Some(self.point2d_to_index(p))
        } else {
            None
        }
    }

    /// The position of the tile with index `idx`.
    pub fn index_to_point2d(&self, idx: usize) -> (p: Position)
        requires
            self.wf(),
            idx < self.spec_len(),
        ensures
            p == self.spec_coord(idx as int),
            self.spec_in_bounds(p),
            self.spec_index(p) == idx,
    {
        proof {
            self.lemma_coord_in_bounds(idx as int);
        }
        let w: usize = self.width as usize;
        Position { x: (idx % w) as i32, y: (idx / w) as i32 }
    }

    /// The index of a tile of the grid is below the number of tiles.
    pub proof fn lemma_index_in_range(&self, p: Position)
        requires
            self.wf(),
            self.spec_in_bounds(p),
        ensures
            0 <= self.spec_index(p) < self.spec_len(),
    {
        self.lemma_index_at_in_range(p.x as int, p.y as int);
    }

    pub proof fn lemma_index_at_in_range(&self, x: int, y: int)
        requires
            self.wf(),
            self.in_bounds_at(x, y),
        ensures
            0 <= self.index_at(x, y) < self.spec_len(),
    {
        let w = self.width as int;
        let h = self.height as int;
        assert(0 <= y * w) by (nonlinear_arith)
            requires 0 <= y, 0 < w;
        assert(y * w + w <= h * w) by (nonlinear_arith)
            requires y + 1 <= h, 0 < w;
    }

    /// Converting a tile's position to its index and back gives the
    /// position again.
    pub proof fn lemma_coord_of_index(&self, p: Position)
        requires
            self.wf(),
            self.spec_in_bounds(p),
        ensures
            self.spec_coord(self.spec_index(p)) == p,
    {
        lemma_fundamental_div_mod_converse(
            self.spec_index(p),
            self.width as int,
            p.y as int,
            p.x as int,
        );
    }

    /// The position of a tile index is on the grid, and its index is the
    /// one that was given.
    pub proof fn lemma_coord_in_bounds(&self, idx: int)
        requires
            self.wf(),
            0 <= idx < self.spec_len(),
        ensures
            self.spec_in_bounds(self.spec_coord(idx)),
            self.spec_index(self.spec_coord(idx)) == idx,
            self.spec_coord(idx).x == idx % (self.width as int),
            self.spec_coord(idx).y == idx / (self.width as int),
    {
        let w = self.width as int;
        let h = self.height as int;
        let q = idx / w;
        let r = idx % w;
        assert(idx == w * q + r && 0 <= r < w) by {
            vstd::arithmetic::div_mod::lemma_fundamental_div_mod(idx, w);
        }
        assert(0 <= q) by (nonlinear_arith)
            requires idx == w * q + r, 0 <= r < w, 0 <= idx, 0 < w;
        assert(q < h) by (nonlinear_arith)
            requires idx == w * q + r, 0 <= r, idx < w * h, 0 < w;
        assert(w * q == q * w) by (nonlinear_arith);
    }

    /// Two tiles of the grid with the same index are the same tile.
    pub proof fn lemma_index_injective(&self, p: Position, q: Position)
        requires
            self.wf(),
            self.spec_in_bounds(p),
            self.spec_in_bounds(q),
            self.spec_index(p) == self.spec_index(q),
        ensures
            p == q,
    {
        self.lemma_coord_of_index(p);
        self.lemma_coord_of_index(q);
    }
}

} // verus!
