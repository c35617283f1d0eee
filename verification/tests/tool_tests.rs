use termcraft::block::BlockType;
use termcraft::tool::{Tool, ToolMaterial, ToolType};

#[test]
fn durabilities() {
    assert_eq!(ToolMaterial::Hand.durability(), 0);
    assert_eq!(ToolMaterial::Wood.durability(), 60);
    assert_eq!(ToolMaterial::Stone.durability(), 132);
    assert_eq!(ToolMaterial::Iron.durability(), 251);
    assert_eq!(ToolMaterial::Diamond.durability(), 1562);
}

#[test]
fn new_tools_are_fresh() {
    let t = Tool::new(ToolType::IronAxe);
    assert_eq!(t.durability, 251);
    assert_eq!(t.max_durability, 251);
    assert_eq!(Tool::material(ToolType::WoodenShovel), ToolMaterial::Wood);
    assert_eq!(Tool::material(ToolType::DiamondPickaxe), ToolMaterial::Diamond);
    assert_eq!(Tool::material(ToolType::Hand), ToolMaterial::Hand);
}

#[test]
fn tool_kinds() {
    assert!(Tool::new(ToolType::StonePickaxe).is_pickaxe());
    assert!(!Tool::new(ToolType::StoneAxe).is_pickaxe());
    assert!(Tool::new(ToolType::StoneAxe).is_axe());
    assert!(Tool::new(ToolType::IronSword).is_sword());
    assert!(Tool::new(ToolType::WoodenShovel).is_shovel());
    assert!(!Tool::new(ToolType::Hand).is_shovel());
}

#[test]
fn correct_tools() {
    let pick = Tool::new(ToolType::IronPickaxe);
    let axe = Tool::new(ToolType::WoodenAxe);
    let shovel = Tool::new(ToolType::StoneShovel);
    assert!(pick.is_correct_tool_for(BlockType::Obsidian));
    assert!(!axe.is_correct_tool_for(BlockType::Stone));
    assert!(axe.is_correct_tool_for(BlockType::Leaves));
    assert!(shovel.is_correct_tool_for(BlockType::Sand));
    assert!(!pick.is_correct_tool_for(BlockType::Dirt));
    assert!(axe.is_correct_tool_for(BlockType::Water));
}

#[test]
fn wooden_tool_breaks_on_its_sixtieth_use() {
    let mut t = Tool::new(ToolType::WoodenSword);
    for _ in 0..59 {
        assert!(!t.use_tool());
    }
    assert_eq!(t.durability, 1);
    assert!(t.use_tool());
    assert_eq!(t.durability, 0);
    assert!(t.use_tool());
    assert_eq!(t.durability, 0);
    let mut hand = Tool::new(ToolType::Hand);
    assert!(hand.use_tool());
}
