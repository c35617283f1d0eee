//! Block kinds of the voxel world and their display attributes.
use vstd::prelude::*;

verus! {

/// Every kind of block the world can hold.
#[derive(Debug, Clone, Copy, PartialEq, Eq, Structural, Hash)]
pub enum BlockType {
    Air,
    Grass,
    Dirt,
    Stone,
    Sand,
    Water,
    Wood,
    Leaves,
    Flower,
    TallGrass,
    CaveAir,
    RedstoneDust,
    RedstoneTorch,
    Lever,
    RedstoneLamp,
    Netherrack,
    NetherBrick,
    Obsidian,
    Portal,
    Lava,
    CoalOre,
    IronOre,
    GoldOre,
    DiamondOre,
}

/// The terminal colours the renderer paints blocks and mobs with.
#[derive(Debug, Clone, Copy, PartialEq, Eq, Structural)]
pub enum TermColor {
    Black,
    DarkRed,
    DarkGreen,
    DarkYellow,
    DarkBlue,
    Grey,
    Green,
    Yellow,
    Blue,
    White,
}

impl BlockType {
    /// Base colour of a block; `None` for blocks that are not painted.
    #[verifier::allow_in_spec]
    pub fn color(self) -> Option<TermColor>
        returns
            match self {
                BlockType::Grass => Some(TermColor::Green),
                BlockType::Dirt => Some(TermColor::DarkYellow),
                BlockType::Stone => Some(TermColor::Grey),
                BlockType::Sand => Some(TermColor::Yellow),
                BlockType::Water => Some(TermColor::Blue),
                BlockType::Wood => Some(TermColor::DarkRed),
                BlockType::Leaves => Some(TermColor::DarkGreen),
                _ => None,
            },
    {
        match self {
            BlockType::Grass => Some(TermColor::Green),
            BlockType::Dirt => Some(TermColor::DarkYellow),
            BlockType::Stone => Some(TermColor::Grey),
            BlockType::Sand => Some(TermColor::Yellow),
            BlockType::Water => Some(TermColor::Blue),
            BlockType::Wood => Some(TermColor::DarkRed),
            BlockType::Leaves => Some(TermColor::DarkGreen),
            _ => None,
        }
    }

    /// Glyph a block is drawn with; `None` for blocks without a glyph of their own.
    #[verifier::allow_in_spec]
    pub fn glyph(self) -> Option<char>
        returns
            match self {
                BlockType::Grass => Some('░'),
                BlockType::Dirt => Some('▒'),
                BlockType::Stone => Some('▓'),
                BlockType::Sand => Some('░'),
                BlockType::Water => Some('≈'),
                BlockType::Wood => Some('║'),
                BlockType::Leaves => Some('♣'),
                _ => None,
            },
    {
        match self {
            BlockType::Grass => Some('░'),
            BlockType::Dirt => Some('▒'),
            BlockType::Stone => Some('▓'),
            BlockType::Sand => Some('░'),
            BlockType::Water => Some('≈'),
            BlockType::Wood => Some('║'),
            BlockType::Leaves => Some('♣'),
            _ => None,
        }
    }

    /// Whether a block blocks movement: everything but air and water.
    #[verifier::allow_in_spec]
    pub fn is_solid(self) -> bool
        returns
            self != BlockType::Air && self != BlockType::Water,
    {
        self != BlockType::Air && self != BlockType::Water
    }

    /// The blocks a player can place, in hotbar order.
    pub fn all_buildable() -> (r: &'static [BlockType])
        ensures
            r@ == seq![
                BlockType::Grass,
                BlockType::Dirt,
                BlockType::Stone,
                BlockType::Sand,
                BlockType::Wood,
            ],
    {
        &[BlockType::Grass, BlockType::Dirt, BlockType::Stone, BlockType::Sand, BlockType::Wood]
    }
}

} // verus!
