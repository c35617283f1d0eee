//! Biomes and the blocks their ground is made of.
use vstd::prelude::*;
use crate::block::BlockType;

verus! {

#[derive(Debug, Clone, Copy, PartialEq, Eq, Structural, Hash)]
pub enum Biome {
    Plains,
    Desert,
    Snow,
    Forest,
    Mountains,
    Ocean,
    Swamp,
    Jungle,
    Badlands,
    MushroomIsland,
}

impl Biome {
    /// The block on top of the ground: sand in deserts and badlands, grass elsewhere.
    #[verifier::allow_in_spec]
    pub fn surface_block(self) -> BlockType
        returns
            match self {
                Biome::Desert | Biome::Badlands => BlockType::Sand,
                _ => BlockType::Grass,
            },
    {
        match self {
            Biome::Desert | Biome::Badlands => BlockType::Sand,
            Biome::MushroomIsland => BlockType::Grass,
            _ => BlockType::Grass,
        }
    }

    /// The block under the top of the ground: sand in deserts and badlands, dirt elsewhere.
    #[verifier::allow_in_spec]
    pub fn sub_surface_block(self) -> BlockType
        returns
            match self {
                Biome::Desert | Biome::Badlands => BlockType::Sand,
                _ => BlockType::Dirt,
            },
    {
        match self {
            Biome::Desert | Biome::Badlands => BlockType::Sand,
            Biome::Swamp => BlockType::Dirt,
            _ => BlockType::Dirt,
        }
    }
}

} // verus!
