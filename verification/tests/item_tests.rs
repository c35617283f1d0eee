use termcraft::block::BlockType;
use termcraft::item::{CraftingGrid, FoodType, Inventory, Item, ItemType, INVENTORY_SIZE};
use termcraft::tool::{Tool, ToolType};

fn wood() -> Option<Item> {
    Some(Item::from_block(BlockType::Wood))
}
fn stone() -> Option<Item> {
    Some(Item::from_block(BlockType::Stone))
}
fn block(b: BlockType) -> Option<Item> {
    Some(Item::from_block(b))
}

fn total(inv: &Inventory, t: ItemType) -> u32 {
    inv.slots.iter().flatten().filter(|i| i.item_type == t).map(|i| i.count as u32).sum()
}

#[test]
fn item_names() {
    assert_eq!(Item::from_block(BlockType::Grass).name(), "Grass");
    assert_eq!(Item::from_block(BlockType::RedstoneTorch).name(), "RTorch");
    assert_eq!(Item::from_block(BlockType::DiamondOre).name(), "Diamond");
    assert_eq!(Item::from_block(BlockType::Water).name(), "Block");
    assert_eq!(Item::from_tool(Tool::new(ToolType::IronShovel)).name(), "I.Shvl");
    assert_eq!(Item::from_tool(Tool::new(ToolType::Hand)).name(), "Hand");
    assert_eq!(Item::from_food(FoodType::CookedPork).name(), "Pork");
    assert_eq!(FoodType::GoldenApple.name(), "G.Apple");
}

#[test]
fn stack_limits_and_food() {
    assert_eq!(Item::from_block(BlockType::Dirt).max_stack(), 64);
    assert_eq!(Item::from_tool(Tool::new(ToolType::WoodenAxe)).max_stack(), 1);
    assert_eq!(Item::from_food(FoodType::Apple).max_stack(), 64);
    assert!(Item::from_food(FoodType::Bread).is_food());
    assert!(!Item::from_block(BlockType::Sand).is_food());
    let it = Item::new(ItemType::Block(BlockType::Sand), 12);
    assert_eq!(it.count, 12);
}

#[test]
fn add_item_fills_stacks_then_empty_slots() {
    let mut inv = Inventory::new();
    let dirt = ItemType::Block(BlockType::Dirt);
    assert_eq!(inv.add_item(Item::new(dirt, 70)), 0);
    assert_eq!(inv.slots[0], Some(Item::new(dirt, 64)));
    assert_eq!(inv.slots[1], Some(Item::new(dirt, 6)));
    assert_eq!(inv.slots[2], None);
    assert_eq!(inv.add_item(Item::new(dirt, 60)), 0);
    assert_eq!(inv.slots[1], Some(Item::new(dirt, 64)));
    assert_eq!(inv.slots[2], Some(Item::new(dirt, 2)));
    let pick = Item::from_tool(Tool::new(ToolType::StonePickaxe));
    assert_eq!(inv.add_item(pick), 0);
    assert_eq!(inv.slots[3], Some(pick));
}

#[test]
fn add_item_returns_leftover_when_full() {
    let mut inv = Inventory::new();
    let stone_t = ItemType::Block(BlockType::Stone);
    for i in 0..INVENTORY_SIZE {
        inv.slots[i] = Some(Item::new(stone_t, 64));
    }
    inv.slots[5] = Some(Item::new(stone_t, 60));
    assert_eq!(inv.add_item(Item::new(stone_t, 10)), 6);
    assert_eq!(inv.slots[5], Some(Item::new(stone_t, 64)));
    assert_eq!(inv.add_item(Item::from_block(BlockType::Sand)), 1);
}

#[test]
fn add_item_conserves_counts() {
    let mut inv = Inventory::new();
    let sand = ItemType::Block(BlockType::Sand);
    inv.slots[4] = Some(Item::new(sand, 30));
    inv.slots[9] = Some(Item::from_food(FoodType::Apple));
    let before = total(&inv, sand);
    let left = inv.add_item(Item::new(sand, 200));
    assert_eq!(total(&inv, sand) + left as u32, before + 200);
    assert_eq!(inv.slots[9], Some(Item::from_food(FoodType::Apple)));
    assert_eq!(inv.slots[4], Some(Item::new(sand, 64)));
}

#[test]
fn use_selected_takes_one() {
    let mut inv = Inventory::new();
    assert_eq!(inv.selected_item(), None);
    assert_eq!(inv.use_selected(), None);
    inv.slots[2] = Some(Item::new(ItemType::Food(FoodType::Bread), 2));
    inv.selected = 2;
    assert_eq!(inv.use_selected(), Some(Item::from_food(FoodType::Bread)));
    assert_eq!(inv.selected_item(), Some(Item::new(ItemType::Food(FoodType::Bread), 1)));
    assert_eq!(inv.use_selected(), Some(Item::from_food(FoodType::Bread)));
    assert_eq!(inv.selected_item(), None);
}

#[test]
fn hotbar_display_names_and_counts() {
    let mut inv = Inventory::new();
    inv.slots[0] = Some(Item::new(ItemType::Block(BlockType::Stone), 5));
    inv.slots[8] = Some(Item::from_tool(Tool::new(ToolType::DiamondPickaxe)));
    inv.slots[9] = Some(Item::from_block(BlockType::Dirt));
    let d = inv.hotbar_display();
    assert_eq!(d[0], Some(("Stone".to_string(), 5)));
    assert_eq!(d[1], None);
    assert_eq!(d[8], Some(("D.Pick".to_string(), 1)));
}

#[test]
fn crafting_recipes() {
    let mut g = CraftingGrid::new();
    assert_eq!(g.craft(), None);
    g.grid[0] = wood();
    assert_eq!(g.craft(), Some(Item::new(ItemType::Block(BlockType::Wood), 4)));
    g.grid[3] = wood();
    assert_eq!(g.craft(), Some(Item::new(ItemType::Block(BlockType::Wood), 4)));

    let mut g = CraftingGrid::new();
    for i in [0, 1, 2] {
        g.grid[i] = stone();
    }
    g.grid[4] = wood();
    g.grid[7] = wood();
    assert_eq!(g.craft(), Some(Item::from_tool(Tool::new(ToolType::StonePickaxe))));
    for i in [0, 1, 2] {
        g.grid[i] = block(BlockType::DiamondOre);
    }
    assert_eq!(g.craft(), Some(Item::from_tool(Tool::new(ToolType::DiamondPickaxe))));
    for i in [0, 1, 2] {
        g.grid[i] = wood();
    }
    assert_eq!(g.craft(), Some(Item::from_tool(Tool::new(ToolType::WoodenPickaxe))));
    for i in [0, 1, 2] {
        g.grid[i] = block(BlockType::IronOre);
    }
    assert_eq!(g.craft(), Some(Item::from_tool(Tool::new(ToolType::IronPickaxe))));

    let mut g = CraftingGrid::new();
    g.grid[1] = wood();
    g.grid[4] = wood();
    g.grid[7] = wood();
    assert_eq!(g.craft(), Some(Item::from_tool(Tool::new(ToolType::WoodenSword))));
    g.grid[1] = stone();
    g.grid[4] = stone();
    assert_eq!(g.craft(), Some(Item::from_tool(Tool::new(ToolType::StoneSword))));

    let mut g = CraftingGrid::new();
    for i in 0..9 {
        if i != 4 {
            g.grid[i] = stone();
        }
    }
    assert_eq!(g.craft(), Some(Item::new(ItemType::Block(BlockType::Stone), 8)));

    let mut g = CraftingGrid::new();
    g.grid[0] = block(BlockType::CoalOre);
    g.grid[3] = wood();
    assert_eq!(g.craft(), Some(Item::new(ItemType::Block(BlockType::RedstoneTorch), 4)));

    let mut g = CraftingGrid::new();
    g.grid[0] = block(BlockType::IronOre);
    g.grid[1] = block(BlockType::CoalOre);
    assert_eq!(g.craft(), Some(Item::new(ItemType::Block(BlockType::IronOre), 1)));
    g.grid[0] = block(BlockType::GoldOre);
    assert_eq!(g.craft(), Some(Item::new(ItemType::Block(BlockType::GoldOre), 1)));

    let mut g = CraftingGrid::new();
    for i in [0, 1, 2] {
        g.grid[i] = block(BlockType::Grass);
    }
    assert_eq!(g.craft(), Some(Item::from_food(FoodType::Bread)));
    g.grid[8] = block(BlockType::Grass);
    assert_eq!(g.craft(), None);
}

#[test]
fn crafting_ignores_stack_sizes() {
    let mut g = CraftingGrid::new();
    g.grid[0] = Some(Item::new(ItemType::Block(BlockType::IronOre), 40));
    g.grid[1] = Some(Item::new(ItemType::Block(BlockType::CoalOre), 3));
    assert_eq!(g.craft(), Some(Item::new(ItemType::Block(BlockType::IronOre), 1)));
}

#[test]
fn adding_keeps_stacks_valid_and_growing() {
    let mut inv = Inventory::new();
    inv.add_item(Item::from_block(BlockType::Stone));
    let before = inv.slots;
    let left = inv.add_item(Item::new(ItemType::Block(BlockType::Stone), 100));
    assert_eq!(left, 0);
    for (i, s) in inv.slots.iter().enumerate() {
        if let Some(e) = s {
            assert!(e.count >= 1 && e.count <= e.max_stack());
        }
        if let Some(b) = before[i] {
            let a = inv.slots[i].unwrap();
            assert_eq!(a.item_type, b.item_type);
            assert!(a.count >= b.count);
        }
    }
    assert_eq!(inv.slots[0].unwrap().count, 64);
    assert_eq!(inv.slots[1].unwrap().count, 37);
}
