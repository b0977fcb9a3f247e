//! The tile field and the read-only views of it that pathing and
//! visibility work on.

use vstd::prelude::*;
use crate::grid::Grid;
use crate::position::Position;

verus! {

/// What a tile is made of. A wall blocks movement and sight; a floor does
/// neither.
#[derive(Copy, Clone, Debug, PartialEq, Eq, Hash, Structural)]
pub enum TileType {
    Wall,
    Floor,
}

/// The tile at `(x, y)` is on the grid and is a floor.
pub open spec fn floor_at(grid: Grid, tiles: Seq<TileType>, x: int, y: int) -> bool {
    grid.in_bounds_at(x, y) && tiles[grid.index_at(x, y)] == TileType::Floor
}

/// The tile at `(x, y)` is on the grid and is a wall.
pub open spec fn wall_at(grid: Grid, tiles: Seq<TileType>, x: int, y: int) -> bool {
    grid.in_bounds_at(x, y) && tiles[grid.index_at(x, y)] == TileType::Wall
}

/// The index of `(x, y)` as a one-element sequence where that tile can be
/// entered, the empty sequence where it cannot.
pub open spec fn exit_at(grid: Grid, tiles: Seq<TileType>, x: int, y: int) -> Seq<usize> {
    if floor_at(grid, tiles, x, y) {
        seq![grid.index_at(x, y) as usize]
    } else {
        Seq::empty()
    }
}

/// The exits of the tile at `(x, y)`: its neighbours to the west, east,
/// south and north, in that order, as far as they can be entered.
pub open spec fn exits_at(grid: Grid, tiles: Seq<TileType>, x: int, y: int) -> Seq<usize> {
    exit_at(grid, tiles, x - 1, y) + exit_at(grid, tiles, x + 1, y) + exit_at(
        grid,
        tiles,
        x,
        y - 1,
    ) + exit_at(grid, tiles, x, y + 1)
}

/// Whether the tile at `p` is on the grid and is a floor.
pub fn can_enter(grid: &Grid, tiles: &Vec<TileType>, p: Position) -> (b: bool)
    requires
        grid.wf(),
        tiles@.len() == grid.spec_len(),
    ensures
        b == floor_at(*grid, tiles@, p.x as int, p.y as int),
{
    match grid.try_idx(p) {
        Some(idx) => match tiles[idx] {
            TileType::Floor => true,
            TileType::Wall => false,
        },
        None => false,
    }
}

/// The index of the tile at `loc + delta` where that tile is on the grid and
/// is a floor.
pub fn valid_exit_of(grid: &Grid, tiles: &Vec<TileType>, loc: Position, delta: Position) -> (r:
    Option<usize>)
    requires
        grid.wf(),
        tiles@.len() == grid.spec_len(),
    ensures
        r.is_some() <==> floor_at(*grid, tiles@, loc.x + delta.x, loc.y + delta.y),
        r matches Some(idx) ==> idx == grid.index_at(loc.x + delta.x, loc.y + delta.y) && idx
            < grid.spec_len(),
{
    let x: i64 = loc.x as i64 + delta.x as i64;
    let y: i64 = loc.y as i64 + delta.y as i64;
    if 0 <= x && x < grid.width as i64 && 0 <= y && y < grid.height as i64 {
        let destination = Position { x: x as i32, y: y as i32 };
        if can_enter(grid, tiles, destination) {
            proof {
                grid.lemma_index_in_range(destination);
            }
            Some(grid.point2d_to_index(destination))
        } else {
            None
        }
    } else {
        None
    }
}

/// The exits of the tile with index `idx`, in the order west, east, south,
/// north; none for an index that names no tile.
pub fn available_exits(grid: &Grid, tiles: &Vec<TileType>, idx: usize) -> (exits: Vec<usize>)
    requires
        grid.wf(),
        tiles@.len() == grid.spec_len(),
    ensures
        idx < grid.spec_len() ==> exits@ == exits_at(
            *grid,
            tiles@,
            grid.spec_coord(idx as int).x as int,
            grid.spec_coord(idx as int).y as int,
        ),
        idx >= grid.spec_len() ==> exits@.len() == 0,
{
    let mut exits: Vec<usize> = Vec::new();
    if idx >= grid.len() {
        return exits;
    }
    let loc = grid.index_to_point2d(idx);
    if let Some(e) = valid_exit_of(grid, tiles, loc, Position { x: -1, y: 0 }) {
        exits.push(e);
    }
    if let Some(e) = valid_exit_of(grid, tiles, loc, Position { x: 1, y: 0 }) {
        exits.push(e);
    }
    if let Some(e) = valid_exit_of(grid, tiles, loc, Position { x: 0, y: -1 }) {
        exits.push(e);
    }
    if let Some(e) = valid_exit_of(grid, tiles, loc, Position { x: 0, y: 1 }) {
        exits.push(e);
    }
    exits
}

/// The exits of the tile at `(x, y)` in the order in which the live level
/// hands out the neighbours of a tile: north, south, west, east, where
/// north is up the `y` axis.
pub open spec fn neighbor_exits_at(grid: Grid, tiles: Seq<TileType>, x: int, y: int) -> Seq<
    usize,
> {
    exit_at(grid, tiles, x, y + 1) + exit_at(grid, tiles, x, y - 1) + exit_at(
        grid,
        tiles,
        x - 1,
        y,
    ) + exit_at(grid, tiles, x + 1, y)
}

/// The exits of the tile with index `idx`, in the order north, south, west,
/// east; none for an index that names no tile.
pub fn neighbor_exits(grid: &Grid, tiles: &Vec<TileType>, idx: usize) -> (exits: Vec<usize>)
    requires
        grid.wf(),
        tiles@.len() == grid.spec_len(),
    ensures
        idx < grid.spec_len() ==> exits@ == neighbor_exits_at(
            *grid,
            tiles@,
            grid.spec_coord(idx as int).x as int,
            grid.spec_coord(idx as int).y as int,
        ),
        idx >= grid.spec_len() ==> exits@.len() == 0,
{
    let mut exits: Vec<usize> = Vec::new();
    if idx >= grid.len() {
        return exits;
    }
    let loc = grid.index_to_point2d(idx);
    let ghost x = loc.x as int;
    let ghost y = loc.y as int;
    if let Some(e) = valid_exit_of(grid, tiles, loc, Position { x: 0, y: 1 }) {
        exits.push(e);
    }
    assert(exits@ == exit_at(*grid, tiles@, x, y + 1));
    if let Some(e) = valid_exit_of(grid, tiles, loc, Position { x: 0, y: -1 }) {
        exits.push(e);
    }
    assert(exits@ == exit_at(*grid, tiles@, x, y + 1) + exit_at(*grid, tiles@, x, y - 1));
    if let Some(e) = valid_exit_of(grid, tiles, loc, Position { x: -1, y: 0 }) {
        exits.push(e);
    }
    assert(exits@ == exit_at(*grid, tiles@, x, y + 1) + exit_at(*grid, tiles@, x, y - 1) + exit_at(
        *grid,
        tiles@,
        x - 1,
        y,
    ));
    if let Some(e) = valid_exit_of(grid, tiles, loc, Position { x: 1, y: 0 }) {
        exits.push(e);
    }
    exits
}

/// A snapshot of the tiles of a level: one tile type for each tile of the
/// grid, row by row.
#[derive(Clone, Debug)]
pub struct TileMapQuery {
    pub grid: Grid,
    pub tiles: Vec<TileType>,
}

impl TileMapQuery {
    /// There is exactly one tile type for each tile of the grid.
    pub open spec fn wf(&self) -> bool {
        self.grid.wf() && self.tiles@.len() == self.grid.spec_len()
    }

    /// The snapshot of the given tiles; `None` unless there is exactly one
    /// for each tile of the grid.
    pub fn new(grid: Grid, tiles: Vec<TileType>) -> (r: Option<TileMapQuery>)
        requires
            grid.wf(),
        ensures
            r.is_some() <==> tiles@.len() == grid.spec_len(),
            r matches Some(q) ==> q.wf() && q.grid == grid && q.tiles@ == tiles@,
    {
        if tiles.len() == grid.len() {
            Some(TileMapQuery { grid, tiles })
        } else {
            None
        }
    }

    /// The dimensions of the level, in tiles.
    pub fn dimensions(&self) -> (d: Position)
        ensures
            d.x == self.grid.width,
            d.y == self.grid.height,
    {
        self.grid.dimensions()
    }

    /// The type of the tile at `p`, where `p` is on the grid.
    pub fn tile_at(&self, p: Position) -> (r: Option<TileType>)
        requires
            self.wf(),
        ensures
            r.is_some() <==> self.grid.spec_in_bounds(p),
            r matches Some(t) ==> t == self.tiles@[self.grid.spec_index(p)],
    {
        match self.grid.try_idx(p) {
            Some(idx) => Some(self.tiles[idx]),
            None => None,
        }
    }

    pub open spec fn spec_can_enter_tile(&self, p: Position) -> bool {
        floor_at(self.grid, self.tiles@, p.x as int, p.y as int)
    }

    /// A tile can be entered if it is on the grid and is a floor.
    pub fn can_enter_tile(&self, p: &Position) -> (b: bool)
        requires
            self.wf(),
        ensures
            b == self.spec_can_enter_tile(*p),
    {
        can_enter(&self.grid, &self.tiles, *p)
    }
}

/// The view of a level that pathing and visibility read: tiles by index,
/// and the exits of each tile.
#[derive(Clone, Debug)]
pub struct MapAdapter {
    pub cell: TileMapQuery,
}

impl MapAdapter {
    pub open spec fn wf(&self) -> bool {
        self.cell.wf()
    }

    /// The grid of the level.
    pub open spec fn grid(&self) -> Grid {
        self.cell.grid
    }

    /// The tiles of the level, row by row.
    pub open spec fn tiles(&self) -> Seq<TileType> {
        self.cell.tiles@
    }

    pub fn new(tile_map_query: TileMapQuery) -> (m: MapAdapter)
        ensures
            m.cell == tile_map_query,
    {
        MapAdapter { cell: tile_map_query }
    }

    /// The dimensions of the level, in tiles.
    pub fn dimensions(&self) -> (d: Position)
        ensures
            d.x == self.grid().width,
            d.y == self.grid().height,
    {
        self.cell.dimensions()
    }

    pub fn in_bounds(&self, p: Position) -> (b: bool)
        ensures
            b == self.grid().spec_in_bounds(p),
    {
        self.cell.grid.in_bounds(p)
    }

    /// The row-major index of `p`, without a bounds check.
    pub fn point2d_to_index(&self, p: Position) -> (idx: usize)
        requires
            self.wf(),
            0 <= self.grid().spec_index(p) <= usize::MAX,
        ensures
            idx == self.grid().spec_index(p),
    {
        self.cell.grid.point2d_to_index(p)
    }

    /// The position of the tile with index `idx`.
    pub fn index_to_point2d(&self, idx: usize) -> (p: Position)
        requires
            self.wf(),
            idx < self.grid().spec_len(),
        ensures
            p == self.grid().spec_coord(idx as int),
            self.grid().spec_in_bounds(p),
            self.grid().spec_index(p) == idx,
    {
        self.cell.grid.index_to_point2d(idx)
    }

    pub open spec fn spec_is_opaque(&self, idx: int) -> bool {
        !(0 <= idx < self.tiles().len() && self.tiles()[idx] == TileType::Floor)
    }

    /// Whether the tile with index `idx` blocks sight and movement. An index
    /// that names no tile is opaque.
    pub fn is_opaque(&self, idx: usize) -> (b: bool)
        ensures
            b == self.spec_is_opaque(idx as int),
    {
        if idx < self.cell.tiles.len() {
            match self.cell.tiles[idx] {
                TileType::Floor => false,
                TileType::Wall => true,
            }
        } else {
            true
        }
    }

    pub open spec fn spec_can_enter_tile(&self, p: Position) -> bool {
        floor_at(self.grid(), self.tiles(), p.x as int, p.y as int)
    }

    /// A tile can be entered if it is on the grid and is a floor.
    pub fn can_enter_tile(&self, p: Position) -> (b: bool)
        requires
            self.wf(),
        ensures
            b == self.spec_can_enter_tile(p),
    {
        self.cell.can_enter_tile(&p)
    }

    pub open spec fn spec_valid_exit(&self, loc: Position, delta: Position) -> Option<usize> {
        if floor_at(self.grid(), self.tiles(), loc.x + delta.x, loc.y + delta.y) {
            Some(self.grid().index_at(loc.x + delta.x, loc.y + delta.y) as usize)
        } else {
            None
        }
    }

    /// The index of the tile at `loc + delta` where that tile can be
    /// entered.
    pub fn valid_exit(&self, loc: Position, delta: Position) -> (r: Option<usize>)
        requires
            self.wf(),
        ensures
            r == self.spec_valid_exit(loc, delta),
            r matches Some(idx) ==> idx < self.grid().spec_len(),
    {
        proof {
            if self.grid().in_bounds_at(loc.x + delta.x, loc.y + delta.y) {
                self.grid().lemma_index_at_in_range(loc.x + delta.x, loc.y + delta.y);
            }
        }
        valid_exit_of(&self.cell.grid, &self.cell.tiles, loc, delta)
    }

    /// The exits of the tile with index `idx`; an index that names no tile
    /// has none.
    pub open spec fn spec_exits(&self, idx: int) -> Seq<usize> {
        if 0 <= idx < self.grid().spec_len() {
            let loc = self.grid().spec_coord(idx);
            neighbor_exits_at(self.grid(), self.tiles(), loc.x as int, loc.y as int)
        } else {
            Seq::empty()
        }
    }

    /// The tiles that can be entered in one step from the tile with index
    /// `idx`: its neighbours to the north, south, west and east, in that
    /// order, as far as they are floors of the grid. Every exit is one step
    /// away.
    pub fn get_available_exits(&self, idx: usize) -> (exits: Vec<usize>)
        requires
            self.wf(),
        ensures
            exits@ == self.spec_exits(idx as int),
    {
        neighbor_exits(&self.cell.grid, &self.cell.tiles, idx)
    }
}

} // verus!
