//! What the data files of the game say of a level's looks.

use vstd::prelude::*;
use crate::map::TileType;

verus! {

/// The picture, on the sprite sheet, of a tile whose type the biome gives
/// no picture for.
pub const DEFAULT_TILE_TEXTURE: u16 = 176;

/// A biome: the looks of a level.
#[derive(Clone, Debug)]
pub struct BiomeData {
    pub name: String,
    pub levels: Vec<usize>,
    /// The picture of a wall, where the biome has one.
    pub wall_texture: Option<u16>,
    /// The picture of a floor, where the biome has one.
    pub floor_texture: Option<u16>,
}

impl BiomeData {
    /// The picture that the biome has for tiles of the given type.
    pub open spec fn spec_texture(&self, tile_type: TileType) -> Option<u16> {
        match tile_type {
            TileType::Wall => self.wall_texture,
            TileType::Floor => self.floor_texture,
        }
    }
}

/// The picture of a tile of the given type in the given biome: the
/// biome's, where there is a biome and it has one for the type, else the
/// default.
pub fn tile_texture(biome: Option<&BiomeData>, tile_type: TileType) -> (index: u16)
    ensures
        index == (match biome {
            Some(b) => match b.spec_texture(tile_type) {
                Some(texture) => texture,
                None => DEFAULT_TILE_TEXTURE,
            },
            None => DEFAULT_TILE_TEXTURE,
        }),
{
    match biome {
        Some(b) => {
            let texture = match tile_type {
                TileType::Wall => b.wall_texture,
                TileType::Floor => b.floor_texture,
            };
            match texture {
                Some(index) => index,
                None => DEFAULT_TILE_TEXTURE,
            }
        },
        None => DEFAULT_TILE_TEXTURE,
    }
}

} // verus!
