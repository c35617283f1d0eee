use termcraft::biome::Biome;
use termcraft::block::{BlockType, TermColor};

#[test]
fn glyphs_of_basic_blocks() {
    assert_eq!(BlockType::Air.glyph(), None);
    assert_eq!(BlockType::Grass.glyph(), Some('░'));
    assert_eq!(BlockType::Water.glyph(), Some('≈'));
    assert_eq!(BlockType::Leaves.glyph(), Some('♣'));
    assert_eq!(BlockType::Obsidian.glyph(), None);
}

#[test]
fn solidity() {
    assert!(!BlockType::Air.is_solid());
    assert!(!BlockType::Water.is_solid());
    assert!(BlockType::Stone.is_solid());
    assert!(BlockType::Lava.is_solid());
}

#[test]
fn colors() {
    assert_eq!(BlockType::Grass.color(), Some(TermColor::Green));
    assert_eq!(BlockType::Wood.color(), Some(TermColor::DarkRed));
    assert_eq!(BlockType::Air.color(), None);
}

#[test]
fn buildable_blocks_in_hotbar_order() {
    assert_eq!(
        BlockType::all_buildable(),
        &[BlockType::Grass, BlockType::Dirt, BlockType::Stone, BlockType::Sand, BlockType::Wood]
    );
}

#[test]
fn biome_ground_blocks() {
    assert_eq!(Biome::Desert.surface_block(), BlockType::Sand);
    assert_eq!(Biome::Badlands.sub_surface_block(), BlockType::Sand);
    assert_eq!(Biome::MushroomIsland.surface_block(), BlockType::Grass);
    assert_eq!(Biome::Swamp.sub_surface_block(), BlockType::Dirt);
    assert_eq!(Biome::Plains.surface_block(), BlockType::Grass);
}
