//! Tools, their materials and durability.
use vstd::prelude::*;
use crate::block::BlockType;

verus! {

/// Every tool a player can hold, the bare hand included.
#[derive(Debug, Clone, Copy, PartialEq, Eq, Structural, Hash)]
pub enum ToolType {
    Hand,
    WoodenPickaxe,
    StonePickaxe,
    IronPickaxe,
    DiamondPickaxe,
    WoodenAxe,
    StoneAxe,
    IronAxe,
    WoodenSword,
    StoneSword,
    IronSword,
    WoodenShovel,
    StoneShovel,
    IronShovel,
}

/// What a tool is made of.
#[derive(Debug, Clone, Copy, PartialEq, Eq, Structural, Hash)]
pub enum ToolMaterial {
    Hand,
    Wood,
    Stone,
    Iron,
    Diamond,
}

impl ToolMaterial {
    /// Number of uses a tool of this material lasts.
    #[verifier::allow_in_spec]
    pub fn durability(self) -> u32
        returns
            match self {
                ToolMaterial::Hand => 0u32,
                ToolMaterial::Wood => 60,
                ToolMaterial::Stone => 132,
                ToolMaterial::Iron => 251,
                ToolMaterial::Diamond => 1562,
            },
    {
        match self {
            ToolMaterial::Hand => 0,
            ToolMaterial::Wood => 60,
            ToolMaterial::Stone => 132,
            ToolMaterial::Iron => 251,
            ToolMaterial::Diamond => 1562,
        }
    }
}

/// A tool and how worn it is.
#[derive(Debug, Clone, Copy, PartialEq, Eq, Structural, Hash)]
pub struct Tool {
    pub tool_type: ToolType,
    pub durability: u32,
    pub max_durability: u32,
}

impl Tool {
    /// A fresh tool: its durability is full.
    #[verifier::allow_in_spec]
    pub fn new(tool_type: ToolType) -> Tool
        returns
            (Tool {
                tool_type,
                durability: Tool::material(tool_type).durability(),
                max_durability: Tool::material(tool_type).durability(),
            }),
    {
        let mat = Self::material(tool_type);
        Tool { tool_type, durability: mat.durability(), max_durability: mat.durability() }
    }

    /// The material a kind of tool is made of.
    #[verifier::allow_in_spec]
    pub fn material(tool_type: ToolType) -> ToolMaterial
        returns
            match tool_type {
                ToolType::Hand => ToolMaterial::Hand,
                ToolType::WoodenPickaxe | ToolType::WoodenAxe | ToolType::WoodenSword
                | ToolType::WoodenShovel => ToolMaterial::Wood,
                ToolType::StonePickaxe | ToolType::StoneAxe | ToolType::StoneSword
                | ToolType::StoneShovel => ToolMaterial::Stone,
                ToolType::IronPickaxe | ToolType::IronAxe | ToolType::IronSword
                | ToolType::IronShovel => ToolMaterial::Iron,
                ToolType::DiamondPickaxe => ToolMaterial::Diamond,
            },
    {
        match tool_type {
            ToolType::Hand => ToolMaterial::Hand,
            ToolType::WoodenPickaxe | ToolType::WoodenAxe | ToolType::WoodenSword
            | ToolType::WoodenShovel => ToolMaterial::Wood,
            ToolType::StonePickaxe | ToolType::StoneAxe | ToolType::StoneSword
            | ToolType::StoneShovel => ToolMaterial::Stone,
            ToolType::IronPickaxe | ToolType::IronAxe | ToolType::IronSword
            | ToolType::IronShovel => ToolMaterial::Iron,
            ToolType::DiamondPickaxe => ToolMaterial::Diamond,
        }
    }

    #[verifier::allow_in_spec]
    pub fn is_pickaxe(self) -> bool
        returns
            self.tool_type == ToolType::WoodenPickaxe || self.tool_type == ToolType::StonePickaxe
                || self.tool_type == ToolType::IronPickaxe || self.tool_type
                == ToolType::DiamondPickaxe,
    {
        matches!(self.tool_type,
            ToolType::WoodenPickaxe | ToolType::StonePickaxe | ToolType::IronPickaxe
            | ToolType::DiamondPickaxe)
    }

    #[verifier::allow_in_spec]
    pub fn is_axe(self) -> bool
        returns
            self.tool_type == ToolType::WoodenAxe || self.tool_type == ToolType::StoneAxe
                || self.tool_type == ToolType::IronAxe,
    {
        matches!(self.tool_type, ToolType::WoodenAxe | ToolType::StoneAxe | ToolType::IronAxe)
    }

    #[verifier::allow_in_spec]
    pub fn is_sword(self) -> bool
        returns
            self.tool_type == ToolType::WoodenSword || self.tool_type == ToolType::StoneSword
                || self.tool_type == ToolType::IronSword,
    {
        matches!(self.tool_type, ToolType::WoodenSword | ToolType::StoneSword | ToolType::IronSword)
    }

    #[verifier::allow_in_spec]
    pub fn is_shovel(self) -> bool
        returns
            self.tool_type == ToolType::WoodenShovel || self.tool_type == ToolType::StoneShovel
                || self.tool_type == ToolType::IronShovel,
    {
        matches!(self.tool_type,
            ToolType::WoodenShovel | ToolType::StoneShovel | ToolType::IronShovel)
    }

    /// Whether this is the right tool for a block, so that its material's
    /// mining speed applies: a pickaxe for stone, netherrack and obsidian, an
    /// axe for wood and leaves, a shovel for dirt, sand and grass; any tool
    /// for every other block.
    #[verifier::allow_in_spec]
    pub fn is_correct_tool_for(self, block: BlockType) -> bool
        returns
            match block {
                BlockType::Stone | BlockType::Netherrack | BlockType::Obsidian => self.is_pickaxe(),
                BlockType::Wood | BlockType::Leaves => self.is_axe(),
                BlockType::Dirt | BlockType::Sand | BlockType::Grass => self.is_shovel(),
                _ => true,
            },
    {
        match block {
            BlockType::Stone | BlockType::Netherrack | BlockType::Obsidian => self.is_pickaxe(),
            BlockType::Wood | BlockType::Leaves => self.is_axe(),
            BlockType::Dirt | BlockType::Sand | BlockType::Grass => self.is_shovel(),
            _ => true,
        }
    }

    /// Use the tool once. Returns true if it is broken.
    pub fn use_tool(&mut self) -> (broken: bool)
        ensures
            old(self).durability > 0 ==> final(self).durability == old(self).durability - 1,
            old(self).durability == 0 ==> final(self).durability == 0,
            final(self).tool_type == old(self).tool_type,
            final(self).max_durability == old(self).max_durability,
            broken == (final(self).durability == 0),
    {
        if self.durability > 0 {
            self.durability -= 1;
            self.durability == 0
        } else {
            true
        }
    }
}

} // verus!
