//! Between tiles and the points of the world that they are drawn at. A tile
//! is `TILE_SIZE` points wide and high, and the tile `(0, 0)` has its
//! lower left corner at minus half of `TEXTURE_SIZE` on both axes.

use vstd::prelude::*;
use crate::position::Position;

verus! {

/// The width and height of a tile, in points of the world.
pub const TILE_SIZE: i64 = 32;

/// The width and height of the sheet that the level is drawn on.
pub const TEXTURE_SIZE: i64 = 512;

/// The coordinate of the centre of the tiles in column, or row, `tile`.
pub open spec fn spec_center_of(tile: int) -> int {
    tile * 32 + 16 - 256
}

/// The column, or row, of the tiles that hold the world coordinate
/// `world`; the first one for a coordinate before all tiles, the last one
/// that a `u32` can name for a coordinate behind them.
pub open spec fn spec_tile_of(world: int) -> int {
    if world + 256 < 0 {
        0
    } else if (world + 256) / 32 > u32::MAX {
        u32::MAX as int
    } else {
        (world + 256) / 32
    }
}

/// The point of the world at the centre of the tile at `position`; the
/// third coordinate is the layer that creatures and things are drawn on.
pub fn tile_center(position: &Position) -> (center: (i64, i64, i64))
    ensures
        center.0 == spec_center_of(position.x as int),
        center.1 == spec_center_of(position.y as int),
        center.2 == 1,
{
    (
        position.x as i64 * TILE_SIZE + TILE_SIZE / 2 - TEXTURE_SIZE / 2,
        position.y as i64 * TILE_SIZE + TILE_SIZE / 2 - TEXTURE_SIZE / 2,
        1,
    )
}

/// The tile that holds the point `(world_x, world_y)` of the world, each
/// coordinate rounded down to a whole number.
pub fn world_to_tile(world_x: i64, world_y: i64) -> (tile: (u32, u32))
    ensures
        tile.0 == spec_tile_of(world_x as int),
        tile.1 == spec_tile_of(world_y as int),
{
    (axis_to_tile(world_x), axis_to_tile(world_y))
}

fn axis_to_tile(world: i64) -> (tile: u32)
    ensures
        tile == spec_tile_of(world as int),
{
    let shifted: i128 = world as i128 + (TEXTURE_SIZE / 2) as i128;
    if shifted < 0 {
        0
    } else {
        let tile: i128 = shifted / (TILE_SIZE as i128);
        if tile > 0xffff_ffff {
            0xffff_ffff
        } else {
            tile as u32
        }
    }
}

/// The centre of a tile lies in that tile.
pub proof fn lemma_center_in_tile(position: Position)
    requires
        0 <= position.x,
        0 <= position.y,
    ensures
        spec_tile_of(spec_center_of(position.x as int)) == position.x,
        spec_tile_of(spec_center_of(position.y as int)) == position.y,
{
}

} // verus!
