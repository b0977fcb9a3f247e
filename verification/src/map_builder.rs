//! The level under construction: the tile field that an architect fills,
//! and what it carves with.

use vstd::prelude::*;
use crate::automata::{smoothed_times, CellularAutomataArchitect, ITERATIONS};
use crate::grid::Grid;
use crate::map::{
    available_exits, can_enter, exits_at, floor_at, valid_exit_of, MapAdapter, TileMapQuery,
    TileType,
};
use crate::position::Position;

verus! {

/// The width of the level of a game, in tiles.
pub const MAP_WIDTH: i32 = 80;

/// The height of the level of a game, in tiles.
pub const MAP_HEIGHT: i32 = 48;

/// A level under construction, and what its architect chose besides the
/// tiles: where the player starts, where the goal item lies, and where
/// monsters and items may be put. An architect that chooses none of these
/// leaves them empty.
#[derive(Clone, Debug)]
pub struct MapBuilder {
    pub map_data: Vec<TileType>,
    pub grid: Grid,
    pub player_start: Option<Position>,
    pub amulet_start: Option<Position>,
    pub spawn_locations: Vec<Position>,
}

/// The tiles after a tunnel has been dug along the column `x`, from the row
/// `y1` to the row `y2`, both included, in either order: the tiles of the
/// grid on that stretch are floors, the others are as they were.
pub open spec fn carved_column(grid: Grid, tiles: Seq<TileType>, y1: int, y2: int, x: int) -> Seq<
    TileType,
> {
    Seq::new(
        tiles.len(),
        |i: int|
            {
                let p = grid.spec_coord(i);
                if p.x == x && ((y1 <= p.y <= y2) || (y2 <= p.y <= y1)) {
                    TileType::Floor
                } else {
                    tiles[i]
                }
            },
    )
}

/// The tiles after a tunnel has been dug along the row `y`, from the column
/// `x1` to the column `x2`, both included, in either order.
pub open spec fn carved_row(grid: Grid, tiles: Seq<TileType>, x1: int, x2: int, y: int) -> Seq<
    TileType,
> {
    Seq::new(
        tiles.len(),
        |i: int|
            {
                let p = grid.spec_coord(i);
                if p.y == y && ((x1 <= p.x <= x2) || (x2 <= p.x <= x1)) {
                    TileType::Floor
                } else {
                    tiles[i]
                }
            },
    )
}

impl MapBuilder {
    /// There is exactly one tile type for each tile of the grid.
    pub open spec fn wf(&self) -> bool {
        self.grid.wf() && self.map_data@.len() == self.grid.spec_len()
    }

    /// A level of the size of a game, made by the cellular automaton.
    pub fn new() -> (mb: MapBuilder)
        ensures
            mb.wf(),
            mb.grid.width == MAP_WIDTH,
            mb.grid.height == MAP_HEIGHT,
            mb.player_start.is_none(),
            mb.amulet_start.is_none(),
            mb.spawn_locations@.len() == 0,
            exists|noise: Seq<TileType>|
                noise.len() == mb.grid.spec_len() && mb.map_data@ == #[trigger] smoothed_times(
                    mb.grid,
                    noise,
                    ITERATIONS as nat,
                ),
    {
        let grid = Grid { width: MAP_WIDTH, height: MAP_HEIGHT };
        assert(grid.width * grid.height == 3840) by (nonlinear_arith)
            requires
                grid.width == 80,
                grid.height == 48,
        ;
        let mut architect = CellularAutomataArchitect {  };
        architect.architect(grid)
    }

    /// A level of the given size that is all walls.
    pub fn walls(grid: Grid) -> (mb: MapBuilder)
        requires
            grid.wf(),
        ensures
            mb.wf(),
            mb.grid == grid,
            forall|i: int| 0 <= i < mb.map_data@.len() ==> mb.map_data@[i] == TileType::Wall,
            mb.player_start.is_none(),
            mb.amulet_start.is_none(),
            mb.spawn_locations@.len() == 0,
    {
        let n: usize = grid.len();
        let mut map_data: Vec<TileType> = Vec::new();
        let mut i: usize = 0;
        while i < n
            invariant
                i <= n,
                map_data@.len() == i,
                forall|k: int| 0 <= k < i ==> map_data@[k] == TileType::Wall,
            decreases n - i,
        {
            map_data.push(TileType::Wall);
            i = i + 1;
        }
        MapBuilder {
            map_data,
            grid,
            player_start: None,
            amulet_start: None,
            spawn_locations: Vec::new(),
        }
    }

    /// The dimensions of the level, in tiles.
    pub fn dimensions(&self) -> (d: Position)
        ensures
            d.x == self.grid.width,
            d.y == self.grid.height,
    {
        self.grid.dimensions()
    }

    pub fn in_bounds(&self, pos: Position) -> (b: bool)
        ensures
            b == self.grid.spec_in_bounds(pos),
    {
        self.grid.in_bounds(pos)
    }

    /// The index of `p` if `p` is on the grid, `None` if it is not.
    pub fn try_idx(&self, p: Position) -> (r: Option<usize>)
        requires
            self.wf(),
        ensures
            r.is_some() <==> self.grid.spec_in_bounds(p),
            r matches Some(idx) ==> idx == self.grid.spec_index(p) && idx < self.map_data@.len(),
    {
        self.grid.try_idx(p)
    }

    /// Whether the tile with index `idx` blocks sight and movement. An index
    /// that names no tile is opaque.
    pub fn is_opaque(&self, idx: usize) -> (b: bool)
        ensures
            b == !(idx < self.map_data@.len() && self.map_data@[idx as int] == TileType::Floor),
    {
        if idx < self.map_data.len() {
            match self.map_data[idx] {
                TileType::Floor => false,
                TileType::Wall => true,
            }
        } else {
            true
        }
    }

    /// A tile can be entered if it is on the grid and is a floor.
    pub fn can_enter_tile(&self, p: Position) -> (b: bool)
        requires
            self.wf(),
        ensures
            b == floor_at(self.grid, self.map_data@, p.x as int, p.y as int),
    {
        can_enter(&self.grid, &self.map_data, p)
    }

    /// The index of the tile at `loc + delta` where that tile can be
    /// entered.
    pub fn valid_exit(&self, loc: Position, delta: Position) -> (r: Option<usize>)
        requires
            self.wf(),
        ensures
            r.is_some() <==> floor_at(self.grid, self.map_data@, loc.x + delta.x, loc.y + delta.y),
            r matches Some(idx) ==> idx == self.grid.index_at(loc.x + delta.x, loc.y + delta.y)
                && idx < self.map_data@.len(),
    {
        valid_exit_of(&self.grid, &self.map_data, loc, delta)
    }

    /// The tiles that can be entered in one step from the tile with index
    /// `idx`: its neighbours to the west, east, south and north, in that
    /// order, as far as they are floors of the grid.
    pub fn get_available_exits(&self, idx: usize) -> (exits: Vec<usize>)
        requires
            self.wf(),
        ensures
            idx < self.map_data@.len() ==> exits@ == exits_at(
                self.grid,
                self.map_data@,
                self.grid.spec_coord(idx as int).x as int,
                self.grid.spec_coord(idx as int).y as int,
            ),
            idx >= self.map_data@.len() ==> exits@.len() == 0,
    {
        available_exits(&self.grid, &self.map_data, idx)
    }

    /// Digs a tunnel, one tile wide, along the column `x` from the row `y1`
    /// to the row `y2`. What lies off the grid is left out.
    pub fn apply_vertical_tunnel(&mut self, y1: i32, y2: i32, x: i32)
        requires
            old(self).wf(),
        ensures
            final(self).wf(),
            final(self).grid == old(self).grid,
            final(self).player_start == old(self).player_start,
            final(self).amulet_start == old(self).amulet_start,
            final(self).spawn_locations == old(self).spawn_locations,
            final(self).map_data@ == carved_column(
                old(self).grid,
                old(self).map_data@,
                y1 as int,
                y2 as int,
                x as int,
            ),
    {
        let ghost grid = self.grid;
        let ghost before = self.map_data@;
        let lo: i32 = if y1 <= y2 { y1 } else { y2 };
        let hi: i32 = if y1 <= y2 { y2 } else { y1 };
        let first: i32 = if lo > 0 { lo } else { 0 };
        let last: i32 = if hi < self.grid.height - 1 { hi } else { self.grid.height - 1 };
        if 0 <= x && x < self.grid.width && first <= last {
            let mut y: i32 = first;
            while y <= last
                invariant
                    self.wf(),
                    self.grid == grid,
                    self.player_start == old(self).player_start,
                    self.amulet_start == old(self).amulet_start,
                    self.spawn_locations == old(self).spawn_locations,
                    before.len() == grid.spec_len(),
                    0 <= x < grid.width,
                    0 <= first <= y <= last + 1 <= grid.height,
                    forall|i: int|
                        0 <= i < before.len() ==> #[trigger] self.map_data@[i] == (if grid.spec_coord(
                            i,
                        ).x == x && first <= grid.spec_coord(i).y < y {
                            TileType::Floor
                        } else {
                            before[i]
                        }),
                decreases last + 1 - y,
            {
                let p = Position { x, y };
                proof {
                    grid.lemma_index_in_range(p);
                    grid.lemma_coord_of_index(p);
                }
                let idx: usize = self.grid.point2d_to_index(p);
                self.map_data.set(idx, TileType::Floor);
                proof {
                    assert forall|i: int| 0 <= i < before.len() implies #[trigger] self.map_data@[i]
                        == (if grid.spec_coord(i).x == x && first <= grid.spec_coord(i).y < y + 1 {
                        TileType::Floor
                    } else {
                        before[i]
                    }) by {
                        grid.lemma_coord_in_bounds(i);
                    }
                }
                y = y + 1;
            }
        }
        proof {
            let target = carved_column(grid, before, y1 as int, y2 as int, x as int);
            assert forall|i: int| 0 <= i < before.len() implies self.map_data@[i] == target[i] by {
                grid.lemma_coord_in_bounds(i);
            }
        }
    }

    /// Digs a tunnel, one tile wide, along the row `y` from the column `x1`
    /// to the column `x2`. What lies off the grid is left out.
    pub fn apply_horizontal_tunnel(&mut self, x1: i32, x2: i32, y: i32)
        requires
            old(self).wf(),
        ensures
            final(self).wf(),
            final(self).grid == old(self).grid,
            final(self).player_start == old(self).player_start,
            final(self).amulet_start == old(self).amulet_start,
            final(self).spawn_locations == old(self).spawn_locations,
            final(self).map_data@ == carved_row(
                old(self).grid,
                old(self).map_data@,
                x1 as int,
                x2 as int,
                y as int,
            ),
    {
        let ghost grid = self.grid;
        let ghost before = self.map_data@;
        let lo: i32 = if x1 <= x2 { x1 } else { x2 };
        let hi: i32 = if x1 <= x2 { x2 } else { x1 };
        let first: i32 = if lo > 0 { lo } else { 0 };
        let last: i32 = if hi < self.grid.width - 1 { hi } else { self.grid.width - 1 };
        if 0 <= y && y < self.grid.height && first <= last {
            let mut x: i32 = first;
            while x <= last
                invariant
                    self.wf(),
                    self.grid == grid,
                    self.player_start == old(self).player_start,
                    self.amulet_start == old(self).amulet_start,
                    self.spawn_locations == old(self).spawn_locations,
                    before.len() == grid.spec_len(),
                    0 <= y < grid.height,
                    0 <= first <= x <= last + 1 <= grid.width,
                    forall|i: int|
                        0 <= i < before.len() ==> #[trigger] self.map_data@[i] == (if grid.spec_coord(
                            i,
                        ).y == y && first <= grid.spec_coord(i).x < x {
                            TileType::Floor
                        } else {
                            before[i]
                        }),
                decreases last + 1 - x,
            {
                let p = Position { x, y };
                proof {
                    grid.lemma_index_in_range(p);
                    grid.lemma_coord_of_index(p);
                }
                let idx: usize = self.grid.point2d_to_index(p);
                self.map_data.set(idx, TileType::Floor);
                proof {
                    assert forall|i: int| 0 <= i < before.len() implies #[trigger] self.map_data@[i]
                        == (if grid.spec_coord(i).y == y && first <= grid.spec_coord(i).x < x + 1 {
                        TileType::Floor
                    } else {
                        before[i]
                    }) by {
                        grid.lemma_coord_in_bounds(i);
                    }
                }
                x = x + 1;
            }
        }
        proof {
            let target = carved_row(grid, before, x1 as int, x2 as int, y as int);
            assert forall|i: int| 0 <= i < before.len() implies self.map_data@[i] == target[i] by {
                grid.lemma_coord_in_bounds(i);
            }
        }
    }

    /// A snapshot of the tiles, for pathing and visibility to read.
    pub fn snapshot(&self) -> (map: MapAdapter)
        requires
            self.wf(),
        ensures
            map.wf(),
            map.grid() == self.grid,
            map.tiles() == self.map_data@,
    {
        let mut tiles: Vec<TileType> = Vec::new();
        let mut i: usize = 0;
        while i < self.map_data.len()
            invariant
                i <= self.map_data@.len(),
                tiles@ == self.map_data@.take(i as int),
            decreases self.map_data@.len() - i,
        {
            tiles.push(self.map_data[i]);
            assert(self.map_data@.take(i + 1) =~= self.map_data@.take(i as int).push(
                self.map_data@[i as int],
            ));
            i = i + 1;
        }
        MapAdapter::new(TileMapQuery { grid: self.grid, tiles })
    }
}

impl Default for MapBuilder {
    /// A level of the size of a game that is all walls.
    fn default() -> (mb: MapBuilder)
        ensures
            mb.wf(),
            mb.grid.width == MAP_WIDTH,
            mb.grid.height == MAP_HEIGHT,
            forall|i: int| 0 <= i < mb.map_data@.len() ==> mb.map_data@[i] == TileType::Wall,
    {
        let grid = Grid { width: MAP_WIDTH, height: MAP_HEIGHT };
        assert(grid.width * grid.height == 3840) by (nonlinear_arith)
            requires
                grid.width == 80,
                grid.height == 48,
        ;
        MapBuilder::walls(grid)
    }
}

} // verus!
