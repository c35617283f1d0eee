//! Items, the player's inventory and the crafting grid.
use vstd::prelude::*;
use crate::block::BlockType;
use crate::tool::{Tool, ToolType};

verus! {

/// What an inventory slot can hold.
#[derive(Debug, Clone, Copy, PartialEq, Eq, Structural, Hash)]
pub enum ItemType {
    Block(BlockType),
    Tool(Tool),
    Food(FoodType),
}

/// Kinds of food.
#[derive(Debug, Clone, Copy, PartialEq, Eq, Structural, Hash)]
pub enum FoodType {
    Apple,
    Bread,
    CookedPork,
    GoldenApple,
}

impl FoodType {
    /// Short display name.
    #[verifier::allow_in_spec]
    pub fn name(self) -> &'static str
        returns
            match self {
                FoodType::Apple => "Apple",
                FoodType::Bread => "Bread",
                FoodType::CookedPork => "Pork",
                FoodType::GoldenApple => "G.Apple",
            },
    {
        match self {
            FoodType::Apple => "Apple",
            FoodType::Bread => "Bread",
            FoodType::CookedPork => "Pork",
            FoodType::GoldenApple => "G.Apple",
        }
    }
}

/// A stack of items of one kind.
#[derive(Debug, Clone, Copy, PartialEq, Eq, Structural)]
pub struct Item {
    pub item_type: ItemType,
    pub count: u8,
}

/// Display name of a block item.
pub open spec fn block_item_name(b: BlockType) -> &'static str {
    match b {
        BlockType::Grass => "Grass",
        BlockType::Dirt => "Dirt",
        BlockType::Stone => "Stone",
        BlockType::Sand => "Sand",
        BlockType::Wood => "Wood",
        BlockType::Leaves => "Leaves",
        BlockType::RedstoneDust => "Redstone",
        BlockType::RedstoneTorch => "RTorch",
        BlockType::Lever => "Lever",
        BlockType::RedstoneLamp => "Lamp",
        BlockType::Obsidian => "Obsidian",
        BlockType::Netherrack => "Netherrack",
        BlockType::CoalOre => "Coal",
        BlockType::IronOre => "Iron",
        BlockType::GoldOre => "Gold",
        BlockType::DiamondOre => "Diamond",
        _ => "Block",
    }
}

/// Display name of a tool item.
pub open spec fn tool_item_name(t: ToolType) -> &'static str {
    match t {
        ToolType::Hand => "Hand",
        ToolType::WoodenPickaxe => "W.Pick",
        ToolType::StonePickaxe => "S.Pick",
        ToolType::IronPickaxe => "I.Pick",
        ToolType::DiamondPickaxe => "D.Pick",
        ToolType::WoodenAxe => "W.Axe",
        ToolType::StoneAxe => "S.Axe",
        ToolType::IronAxe => "I.Axe",
        ToolType::WoodenSword => "W.Sword",
        ToolType::StoneSword => "S.Sword",
        ToolType::IronSword => "I.Sword",
        ToolType::WoodenShovel => "W.Shvl",
        ToolType::StoneShovel => "S.Shvl",
        ToolType::IronShovel => "I.Shvl",
    }
}

/// Display name of any item kind.
pub open spec fn item_type_name(t: ItemType) -> &'static str {
    match t {
        ItemType::Block(b) => block_item_name(b),
        ItemType::Tool(tool) => tool_item_name(tool.tool_type),
        ItemType::Food(food) => food.name(),
    }
}

/// How many items of a kind fit in one slot.
pub open spec fn stack_limit(t: ItemType) -> u8 {
    match t {
        ItemType::Tool(_) => 1,
        _ => 64,
    }
}

impl Item {
    #[verifier::allow_in_spec]
    pub fn new(item_type: ItemType, count: u8) -> Item
        returns
            (Item { item_type, count }),
    {
        Item { item_type, count }
    }

    #[verifier::allow_in_spec]
    pub fn from_block(block: BlockType) -> Item
        returns
            (Item { item_type: ItemType::Block(block), count: 1 }),
    {
        Self::new(ItemType::Block(block), 1)
    }

    #[verifier::allow_in_spec]
    pub fn from_tool(tool: Tool) -> Item
        returns
            (Item { item_type: ItemType::Tool(tool), count: 1 }),
    {
        Self::new(ItemType::Tool(tool), 1)
    }

    #[verifier::allow_in_spec]
    pub fn from_food(food: FoodType) -> Item
        returns
            (Item { item_type: ItemType::Food(food), count: 1 }),
    {
        Self::new(ItemType::Food(food), 1)
    }

    /// Short display name of the item's kind.
    pub fn name(&self) -> (r: &'static str)
        ensures
            r == item_type_name(self.item_type),
    {
        match self.item_type {
            ItemType::Block(b) => match b {
                BlockType::Grass => "Grass",
                BlockType::Dirt => "Dirt",
                BlockType::Stone => "Stone",
                BlockType::Sand => "Sand",
                BlockType::Wood => "Wood",
                BlockType::Leaves => "Leaves",
                BlockType::RedstoneDust => "Redstone",
                BlockType::RedstoneTorch => "RTorch",
                BlockType::Lever => "Lever",
                BlockType::RedstoneLamp => "Lamp",
                BlockType::Obsidian => "Obsidian",
                BlockType::Netherrack => "Netherrack",
                BlockType::CoalOre => "Coal",
                BlockType::IronOre => "Iron",
                BlockType::GoldOre => "Gold",
                BlockType::DiamondOre => "Diamond",
                _ => "Block",
            },
            ItemType::Tool(tool) => match tool.tool_type {
                ToolType::Hand => "Hand",
                ToolType::WoodenPickaxe => "W.Pick",
                ToolType::StonePickaxe => "S.Pick",
                ToolType::IronPickaxe => "I.Pick",
                ToolType::DiamondPickaxe => "D.Pick",
                ToolType::WoodenAxe => "W.Axe",
                ToolType::StoneAxe => "S.Axe",
                ToolType::IronAxe => "I.Axe",
                ToolType::WoodenSword => "W.Sword",
                ToolType::StoneSword => "S.Sword",
                ToolType::IronSword => "I.Sword",
                ToolType::WoodenShovel => "W.Shvl",
                ToolType::StoneShovel => "S.Shvl",
                ToolType::IronShovel => "I.Shvl",
            },
            ItemType::Food(food) => food.name(),
        }
    }

    /// How many of this item fit in one slot: one tool, 64 of anything else.
    #[verifier::allow_in_spec]
    pub fn max_stack(&self) -> u8
        returns
            stack_limit(self.item_type),
    {
        match self.item_type {
            ItemType::Block(_) => 64,
            ItemType::Tool(_) => 1,
            ItemType::Food(_) => 64,
        }
    }

    #[verifier::allow_in_spec]
    pub fn is_food(&self) -> bool
        returns
            self.item_type is Food,
    {
        matches!(self.item_type, ItemType::Food(_))
    }
}

pub const INVENTORY_SIZE: usize = 36;

pub const CRAFTING_SIZE: usize = 9;

/// The player's 36 slots (a hotbar of nine, then 27 more) and the selected hotbar slot.
pub struct Inventory {
    pub slots: [Option<Item>; INVENTORY_SIZE],
    pub selected: usize,
}

/// One slot during the stacking pass: a stack of the same kind takes as many
/// of the `r` remaining items as it has room for.
pub open spec fn stack_into(slot: Option<Item>, t: ItemType, r: u8) -> (Option<Item>, u8) {
    match slot {
        Some(e) => if e.item_type == t {
            let space = stack_limit(t) - e.count;
            let add = if r <= space { r as int } else { space };
            (Some(Item { count: (e.count + add) as u8, ..e }), (r - add) as u8)
        } else {
            (slot, r)
        },
        None => (slot, r),
    }
}

/// One slot during the filling pass: an empty slot takes a full stack (or
/// what is left, if less) while items remain.
pub open spec fn fill_into(slot: Option<Item>, t: ItemType, r: u8) -> (Option<Item>, u8) {
    if slot is None && r > 0 {
        let add = if r <= stack_limit(t) { r } else { stack_limit(t) };
        (Some(Item { item_type: t, count: add }), (r - add) as u8)
    } else {
        (slot, r)
    }
}

/// The slots and the remaining count after the stacking pass over the first `n` slots.
pub open spec fn stack_pass(slots: Seq<Option<Item>>, t: ItemType, r: u8, n: nat) -> (Seq<Option<Item>>, u8)
    decreases n,
{
    if n == 0 {
        (slots, r)
    } else {
        let (s, r1) = stack_pass(slots, t, r, (n - 1) as nat);
        let (x, r2) = stack_into(s[n - 1], t, r1);
        (s.update(n - 1, x), r2)
    }
}

/// The slots and the remaining count after the filling pass over the first `n` slots.
pub open spec fn fill_pass(slots: Seq<Option<Item>>, t: ItemType, r: u8, n: nat) -> (Seq<Option<Item>>, u8)
    decreases n,
{
    if n == 0 {
        (slots, r)
    } else {
        let (s, r1) = fill_pass(slots, t, r, (n - 1) as nat);
        let (x, r2) = fill_into(s[n - 1], t, r1);
        (s.update(n - 1, x), r2)
    }
}

/// Adding `item` to `slots`: first top up the stacks of its kind in slot
/// order, then fill empty slots in slot order; the slots and the leftover count.
pub open spec fn add_result(slots: Seq<Option<Item>>, item: Item) -> (Seq<Option<Item>>, u8) {
    let (s1, r1) = stack_pass(slots, item.item_type, item.count, slots.len());
    fill_pass(s1, item.item_type, r1, slots.len())
}

/// No stack of kind `t` holds more than fits in a slot.
pub open spec fn stacks_fit(slots: Seq<Option<Item>>, t: ItemType) -> bool {
    forall|i: int|
        0 <= i < slots.len() ==> match #[trigger] slots[i] {
            Some(e) => e.item_type == t ==> e.count <= stack_limit(t),
            None => true,
        }
}

/// The slot holds a stack of a kind other than `t`.
pub open spec fn other_kind(slot: Option<Item>, t: ItemType) -> bool {
    match slot {
        Some(e) => e.item_type != t,
        None => false,
    }
}

/// Number of items of kind `t` in one slot.
pub open spec fn slot_count(slot: Option<Item>, t: ItemType) -> nat {
    match slot {
        Some(e) => if e.item_type == t { e.count as nat } else { 0 },
        None => 0,
    }
}

/// Number of items of kind `t` in the first `n` slots.
pub open spec fn count_of(slots: Seq<Option<Item>>, t: ItemType, n: nat) -> nat
    decreases n,
{
    if n == 0 {
        0
    } else {
        count_of(slots, t, (n - 1) as nat) + slot_count(slots[n - 1], t)
    }
}

proof fn lemma_count_update(s: Seq<Option<Item>>, t: ItemType, n: nat, k: int, x: Option<Item>)
    requires
        0 <= k < s.len(),
        n <= s.len(),
    ensures
        k < n ==> count_of(s.update(k, x), t, n) + slot_count(s[k], t) == count_of(s, t, n)
            + slot_count(x, t),
        k >= n ==> count_of(s.update(k, x), t, n) == count_of(s, t, n),
    decreases n,
{
    if n > 0 {
        lemma_count_update(s, t, (n - 1) as nat, k, x);
    }
}

proof fn lemma_stack_pass(slots: Seq<Option<Item>>, t: ItemType, r: u8, n: nat)
    requires
        n <= slots.len(),
        stacks_fit(slots, t),
    ensures
        stack_pass(slots, t, r, n).0.len() == slots.len(),
        forall|j: int| n <= j < slots.len() ==> #[trigger] stack_pass(slots, t, r, n).0[j] == slots[j],
        count_of(stack_pass(slots, t, r, n).0, t, slots.len()) + stack_pass(slots, t, r, n).1
            == count_of(slots, t, slots.len()) + r,
        forall|j: int| 0 <= j < slots.len() && other_kind(#[trigger] slots[j], t)
            ==> stack_pass(slots, t, r, n).0[j] == slots[j],
    decreases n,
{
    if n > 0 {
        lemma_stack_pass(slots, t, r, (n - 1) as nat);
        let (s, r1) = stack_pass(slots, t, r, (n - 1) as nat);
        let k = n - 1;
        assert(s[k] == slots[k]);
        let (x, r2) = stack_into(s[k], t, r1);
        lemma_count_update(s, t, slots.len(), k, x);
    }
}

proof fn lemma_fill_pass(slots: Seq<Option<Item>>, t: ItemType, r: u8, n: nat)
    requires
        n <= slots.len(),
    ensures
        fill_pass(slots, t, r, n).0.len() == slots.len(),
        count_of(fill_pass(slots, t, r, n).0, t, slots.len()) + fill_pass(slots, t, r, n).1
            == count_of(slots, t, slots.len()) + r,
        forall|j: int| 0 <= j < slots.len() && #[trigger] slots[j] is Some
            ==> fill_pass(slots, t, r, n).0[j] == slots[j],
    decreases n,
{
    if n > 0 {
        lemma_fill_pass(slots, t, r, (n - 1) as nat);
        let (s, r1) = fill_pass(slots, t, r, (n - 1) as nat);
        let k = n - 1;
        let (x, r2) = fill_into(s[k], t, r1);
        lemma_count_update(s, t, slots.len(), k, x);
    }
}

/// Adding items loses and creates none: the items of the added kind in the
/// inventory afterwards, plus the leftover that found no room, are those
/// before plus the added stack; slots holding other kinds keep their content.
pub proof fn lemma_add_item_conserves(slots: Seq<Option<Item>>, item: Item)
    requires
        stacks_fit(slots, item.item_type),
    ensures
        add_result(slots, item).0.len() == slots.len(),
        count_of(add_result(slots, item).0, item.item_type, slots.len()) + add_result(slots, item).1
            == count_of(slots, item.item_type, slots.len()) + item.count,
        forall|j: int| 0 <= j < slots.len() && other_kind(#[trigger] slots[j], item.item_type)
            ==> add_result(slots, item).0[j] == slots[j],
{
    let t = item.item_type;
    lemma_stack_pass(slots, t, item.count, slots.len());
    let (s1, r1) = stack_pass(slots, t, item.count, slots.len());
    lemma_fill_pass(s1, t, r1, slots.len());
    assert forall|j: int| 0 <= j < slots.len() && other_kind(#[trigger] slots[j], item.item_type)
        implies add_result(slots, item).0[j] == slots[j] by {
        assert(s1[j] == slots[j]);
    }
}

/// Every stack holds at least one item and no more than fits in a slot.
pub open spec fn stacks_valid(slots: Seq<Option<Item>>) -> bool {
    forall|i: int|
        0 <= i < slots.len() ==> match #[trigger] slots[i] {
            Some(e) => 1 <= e.count <= stack_limit(e.item_type),
            None => true,
        }
}

/// Every stack of `s` is still there in `t`, of the same kind and no smaller.
pub open spec fn stacks_grown(s: Seq<Option<Item>>, t: Seq<Option<Item>>) -> bool {
    &&& t.len() == s.len()
    &&& forall|i: int|
        0 <= i < s.len() ==> match #[trigger] s[i] {
            Some(e) => t[i] matches Some(e2) && e2.item_type == e.item_type && e2.count >= e.count,
            None => true,
        }
}

proof fn lemma_stack_pass_valid(slots: Seq<Option<Item>>, t: ItemType, r: u8, n: nat)
    requires
        n <= slots.len(),
        stacks_valid(slots),
    ensures
        stacks_valid(stack_pass(slots, t, r, n).0),
        stacks_grown(slots, stack_pass(slots, t, r, n).0),
    decreases n,
{
    if n > 0 {
        lemma_stack_pass_valid(slots, t, r, (n - 1) as nat);
        let (s, r1) = stack_pass(slots, t, r, (n - 1) as nat);
        let k = n - 1;
        let (x, r2) = stack_into(s[k], t, r1);
        let s2 = s.update(k, x);
        assert forall|i: int| 0 <= i < s2.len() implies match #[trigger] s2[i] {
            Some(e) => 1 <= e.count <= stack_limit(e.item_type),
            None => true,
        } by {
            if i != k {
                assert(s2[i] == s[i]);
            }
        }
        assert forall|i: int| 0 <= i < slots.len() implies match #[trigger] slots[i] {
            Some(e) => s2[i] matches Some(e2) && e2.item_type == e.item_type && e2.count >= e.count,
            None => true,
        } by {
            if i != k {
                assert(s2[i] == s[i]);
            }
        }
    }
}

proof fn lemma_fill_pass_valid(slots: Seq<Option<Item>>, t: ItemType, r: u8, n: nat)
    requires
        n <= slots.len(),
        stacks_valid(slots),
    ensures
        stacks_valid(fill_pass(slots, t, r, n).0),
        stacks_grown(slots, fill_pass(slots, t, r, n).0),
    decreases n,
{
    if n > 0 {
        lemma_fill_pass_valid(slots, t, r, (n - 1) as nat);
        let (s, r1) = fill_pass(slots, t, r, (n - 1) as nat);
        let k = n - 1;
        let (x, r2) = fill_into(s[k], t, r1);
        let s2 = s.update(k, x);
        assert forall|i: int| 0 <= i < s2.len() implies match #[trigger] s2[i] {
            Some(e) => 1 <= e.count <= stack_limit(e.item_type),
            None => true,
        } by {
            if i != k {
                assert(s2[i] == s[i]);
            }
        }
        assert forall|i: int| 0 <= i < slots.len() implies match #[trigger] slots[i] {
            Some(e) => s2[i] matches Some(e2) && e2.item_type == e.item_type && e2.count >= e.count,
            None => true,
        } by {
            if i != k {
                assert(s2[i] == s[i]);
            }
        }
    }
}

/// Adding items keeps every stack valid: afterwards each slot holds at
/// least one and at most a full stack, and every stack that was there is
/// still there, of the same kind, with no fewer items.
pub proof fn lemma_add_item_keeps_stacks(slots: Seq<Option<Item>>, item: Item)
    requires
        stacks_valid(slots),
    ensures
        stacks_fit(slots, item.item_type),
        stacks_valid(add_result(slots, item).0),
        stacks_grown(slots, add_result(slots, item).0),
{
    let t = item.item_type;
    assert forall|i: int| 0 <= i < slots.len() implies match #[trigger] slots[i] {
        Some(e) => e.item_type == t ==> e.count <= stack_limit(t),
        None => true,
    } by {}
    lemma_stack_pass_valid(slots, t, item.count, slots.len());
    let (s1, r1) = stack_pass(slots, t, item.count, slots.len());
    lemma_fill_pass_valid(s1, t, r1, slots.len());
    let s2 = add_result(slots, item).0;
    assert forall|i: int| 0 <= i < slots.len() implies match #[trigger] slots[i] {
        Some(e) => s2[i] matches Some(e2) && e2.item_type == e.item_type && e2.count >= e.count,
        None => true,
    } by {
        assert(stacks_grown(slots, s1));
        assert(stacks_grown(s1, s2));
        if let Some(e) = slots[i] {
            assert(s1[i] matches Some(e1) && e1.item_type == e.item_type && e1.count >= e.count);
        }
    }
}

impl Inventory {
    /// An empty inventory with the first hotbar slot selected.
    pub fn new() -> (inv: Self)
        ensures
            forall|i: int| 0 <= i < INVENTORY_SIZE ==> #[trigger] inv.slots@[i] is None,
            inv.selected == 0,
    {
        Inventory { slots: [None; INVENTORY_SIZE], selected: 0 }
    }

    /// The content of the selected slot.
    pub fn selected_item(&self) -> (r: Option<Item>)
        requires
            self.selected < INVENTORY_SIZE,
        ensures
            r == self.slots@[self.selected as int],
    {
        self.slots[self.selected]
    }

    /// Add an item stack; returns how many items found no room.
    pub fn add_item(&mut self, item: Item) -> (leftover: u8)
        requires
            stacks_fit(old(self).slots@, item.item_type),
        ensures
            (final(self).slots@, leftover) == add_result(old(self).slots@, item),
            final(self).selected == old(self).selected,
    {
        let ghost s0 = self.slots@;
        let t = item.item_type;
        let mut remaining = item.count;
        let mut i: usize = 0;
        while i < INVENTORY_SIZE
            invariant
                i <= INVENTORY_SIZE,
                s0.len() == INVENTORY_SIZE,
                stacks_fit(s0, t),
                (self.slots@, remaining) == stack_pass(s0, t, item.count, i as nat),
                forall|k: int| i <= k < INVENTORY_SIZE ==> self.slots@[k] == s0[k],
                item.item_type == t,
                self.selected == old(self).selected,
            decreases INVENTORY_SIZE - i,
        {
            let ghost before = self.slots@;
            assert(before[i as int] == s0[i as int]);
            let ghost expected = stack_into(before[i as int], t, remaining);
            if remaining > 0 {
                if let Some(existing) = self.slots[i] {
                    if existing.item_type == t {
                        let space = existing.max_stack() - existing.count;
                        let add = if remaining <= space { remaining } else { space };
                        self.slots[i] = Some(Item { item_type: existing.item_type, count: existing.count + add });
                        remaining -= add;
                    }
                }
            }
            assert(self.slots@ =~= before.update(i as int, expected.0));
            assert(remaining == expected.1);
            i += 1;
        }
        let ghost s1 = self.slots@;
        let ghost r1 = remaining;
        i = 0;
        while i < INVENTORY_SIZE
            invariant
                i <= INVENTORY_SIZE,
                s1.len() == INVENTORY_SIZE,
                (self.slots@, remaining) == fill_pass(s1, t, r1, i as nat),
                forall|k: int| i <= k < INVENTORY_SIZE ==> self.slots@[k] == s1[k],
                item.item_type == t,
                self.selected == old(self).selected,
            decreases INVENTORY_SIZE - i,
        {
            let ghost before = self.slots@;
            let ghost expected = fill_into(before[i as int], t, remaining);
            if remaining > 0 && self.slots[i].is_none() {
                let add = if remaining <= item.max_stack() { remaining } else { item.max_stack() };
                self.slots[i] = Some(Item::new(t, add));
                remaining -= add;
            }
            assert(self.slots@ =~= before.update(i as int, expected.0));
            assert(remaining == expected.1);
            i += 1;
        }
        remaining
    }

    /// Take one item out of the selected slot; the slot empties when its last item is taken.
    pub fn use_selected(&mut self) -> (r: Option<Item>)
        requires
            old(self).selected < INVENTORY_SIZE,
            old(self).slots@[old(self).selected as int] matches Some(e) ==> e.count >= 1,
        ensures
            final(self).selected == old(self).selected,
            match old(self).slots@[old(self).selected as int] {
                None => r is None && final(self).slots@ == old(self).slots@,
                Some(e) => {
                    &&& r == Some(Item { item_type: e.item_type, count: 1 })
                    &&& final(self).slots@ == old(self).slots@.update(
                        old(self).selected as int,
                        if e.count == 1 { None } else { Some(Item { count: (e.count - 1) as u8, ..e }) },
                    )
                },
            },
    {
        let sel = self.selected;
        match self.slots[sel] {
            Some(item) => {
                let result = Item::new(item.item_type, 1);
                let count = item.count - 1;
                if count == 0 {
                    self.slots[sel] = None;
                } else {
                    self.slots[sel] = Some(Item { item_type: item.item_type, count });
                }
                Some(result)
            },
            None => None,
        }
    }

    /// Name and count of each hotbar slot, for the HUD.
    pub fn hotbar_display(&self) -> (display: [Option<(String, u8)>; 9])
        ensures
            forall|i: int|
                0 <= i < 9 ==> match #[trigger] self.slots@[i] {
                    None => display@[i] is None,
                    Some(e) => display@[i] matches Some(p) && p.0@ == item_type_name(e.item_type)@
                        && p.1 == e.count,
                },
    {
        let mut display: [Option<(String, u8)>; 9] = [None, None, None, None, None, None, None, None, None];
        let mut i: usize = 0;
        while i < 9
            invariant
                i <= 9,
                forall|k: int|
                    0 <= k < 9 ==> match #[trigger] self.slots@[k] {
                        None => display@[k] is None,
                        Some(e) => k < i ==> (display@[k] matches Some(p) && p.0@
                            == item_type_name(e.item_type)@ && p.1 == e.count),
                    },
            decreases 9 - i,
        {
            if let Some(item) = &self.slots[i] {
                display[i] = Some((item.name().to_string(), item.count));
            }
            i += 1;
        }
        display
    }
}

/// The 3x3 crafting grid, row by row.
pub struct CraftingGrid {
    pub grid: [Option<Item>; CRAFTING_SIZE],
}

/// Cell `i` holds a stack of block `b` (of any size).
pub open spec fn holds(g: Seq<Option<Item>>, i: int, b: BlockType) -> bool {
    g[i] matches Some(it) && it.item_type == ItemType::Block(b)
}

/// Cells `lo..hi` are empty.
pub open spec fn empty_cells(g: Seq<Option<Item>>, lo: int, hi: int) -> bool {
    forall|k: int| lo <= k < hi ==> #[trigger] g[k] is None
}

/// A pickaxe shape: `head` across the top row, wood down the middle column, the rest empty.
pub open spec fn pickaxe_shape(g: Seq<Option<Item>>, head: BlockType) -> bool {
    &&& holds(g, 0, head) && holds(g, 1, head) && holds(g, 2, head)
    &&& holds(g, 4, BlockType::Wood) && holds(g, 7, BlockType::Wood)
    &&& g[3] is None && g[5] is None && g[6] is None && g[8] is None
}

/// A sword shape: `top` and `mid` down the middle column over wood, the rest empty.
pub open spec fn sword_shape(g: Seq<Option<Item>>, top: BlockType, mid: BlockType) -> bool {
    &&& holds(g, 1, top) && holds(g, 4, mid) && holds(g, 7, BlockType::Wood)
    &&& g[0] is None && g[2] is None && g[3] is None
    &&& g[5] is None && g[6] is None && g[8] is None
}

/// A ring of stone around an empty centre.
pub open spec fn furnace_shape(g: Seq<Option<Item>>) -> bool {
    forall|k: int| 0 <= k < 9 ==> if k == 4 { #[trigger] g[k] is None } else { holds(g, k, BlockType::Stone) }
}

/// The recipe book: what a grid crafts, the first matching recipe in this order.
pub open spec fn recipe(g: Seq<Option<Item>>) -> Option<Item> {
    if holds(g, 0, BlockType::Wood) && empty_cells(g, 1, 9) {
        Some(Item::new(ItemType::Block(BlockType::Wood), 4))
    } else if holds(g, 0, BlockType::Wood) && holds(g, 3, BlockType::Wood) && empty_cells(g, 1, 3)
        && empty_cells(g, 4, 9) {
        Some(Item::new(ItemType::Block(BlockType::Wood), 4))
    } else if pickaxe_shape(g, BlockType::Wood) {
        Some(Item::from_tool(Tool::new(ToolType::WoodenPickaxe)))
    } else if pickaxe_shape(g, BlockType::Stone) {
        Some(Item::from_tool(Tool::new(ToolType::StonePickaxe)))
    } else if pickaxe_shape(g, BlockType::IronOre) {
        Some(Item::from_tool(Tool::new(ToolType::IronPickaxe)))
    } else if pickaxe_shape(g, BlockType::DiamondOre) {
        Some(Item::from_tool(Tool::new(ToolType::DiamondPickaxe)))
    } else if sword_shape(g, BlockType::Wood, BlockType::Wood) {
        Some(Item::from_tool(Tool::new(ToolType::WoodenSword)))
    } else if sword_shape(g, BlockType::Stone, BlockType::Stone) {
        Some(Item::from_tool(Tool::new(ToolType::StoneSword)))
    } else if furnace_shape(g) {
        Some(Item::new(ItemType::Block(BlockType::Stone), 8))
    } else if holds(g, 0, BlockType::CoalOre) && holds(g, 3, BlockType::Wood) && g[1] is None
        && g[2] is None && empty_cells(g, 4, 9) {
        Some(Item::new(ItemType::Block(BlockType::RedstoneTorch), 4))
    } else if holds(g, 0, BlockType::IronOre) && holds(g, 1, BlockType::CoalOre) && empty_cells(g, 2, 9) {
        Some(Item::new(ItemType::Block(BlockType::IronOre), 1))
    } else if holds(g, 0, BlockType::GoldOre) && holds(g, 1, BlockType::CoalOre) && empty_cells(g, 2, 9) {
        Some(Item::new(ItemType::Block(BlockType::GoldOre), 1))
    } else if holds(g, 0, BlockType::Grass) && holds(g, 1, BlockType::Grass) && holds(g, 2, BlockType::Grass)
        && empty_cells(g, 3, 9) {
        Some(Item::from_food(FoodType::Bread))
    } else {
        None
    }
}

/// The kind of block a grid cell holds, if it holds a block.
pub open spec fn cell_block(g: Seq<Option<Item>>, i: int) -> Option<BlockType> {
    match g[i] {
        Some(it) => match it.item_type {
            ItemType::Block(b) => Some(b),
            _ => None,
        },
        None => None,
    }
}

/// A crafted pickaxe takes a full head: whenever a grid crafts a pickaxe,
/// all three cells of the top row hold its head material (wood, stone, iron
/// ore or diamond ore), the two cells below the middle hold wood, and the
/// four other cells are empty. In particular a grid with a gap in the top
/// row never crafts a pickaxe.
pub proof fn lemma_pickaxe_needs_full_head(g: Seq<Option<Item>>, t: Tool)
    requires
        g.len() == 9,
    ensures
        recipe(g) == Some(Item::from_tool(t)) && t.is_pickaxe() ==> {
            let head = match t.tool_type {
                ToolType::WoodenPickaxe => BlockType::Wood,
                ToolType::StonePickaxe => BlockType::Stone,
                ToolType::IronPickaxe => BlockType::IronOre,
                _ => BlockType::DiamondOre,
            };
            &&& cell_block(g, 0) == Some(head)
            &&& cell_block(g, 1) == Some(head)
            &&& cell_block(g, 2) == Some(head)
            &&& cell_block(g, 4) == Some(BlockType::Wood)
            &&& cell_block(g, 7) == Some(BlockType::Wood)
            &&& g[3] is None && g[5] is None && g[6] is None && g[8] is None
        },
{
}

/// A crafted sword stands in the middle column: the top two cells hold its
/// material (wood or stone), the bottom one wood, and the six side cells are empty.
pub proof fn lemma_sword_shape(g: Seq<Option<Item>>, t: Tool)
    requires
        g.len() == 9,
    ensures
        recipe(g) == Some(Item::from_tool(t)) && t.is_sword() ==> {
            let m = if t.tool_type == ToolType::WoodenSword { BlockType::Wood } else { BlockType::Stone };
            &&& cell_block(g, 1) == Some(m)
            &&& cell_block(g, 4) == Some(m)
            &&& cell_block(g, 7) == Some(BlockType::Wood)
            &&& g[0] is None && g[2] is None && g[3] is None && g[5] is None && g[6] is None && g[8] is None
        },
{
}

/// Every tool a grid crafts is a pickaxe or a sword, comes fresh (full
/// durability) and one at a time.
pub proof fn lemma_crafted_tools(g: Seq<Option<Item>>, it: Item, t: Tool)
    requires
        g.len() == 9,
    ensures
        recipe(g) == Some(it) && it.item_type == ItemType::Tool(t) ==> {
            &&& t.is_pickaxe() || t.is_sword()
            &&& t.durability == t.max_durability
            &&& it.count == 1
        },
{
}

/// Eight stone crafts only from a furnace ring: stone in all eight outer
/// cells around an empty centre.
pub proof fn lemma_furnace_ring(g: Seq<Option<Item>>)
    requires
        g.len() == 9,
    ensures
        recipe(g) == Some(Item::new(ItemType::Block(BlockType::Stone), 8)) ==> {
            &&& g[4] is None
            &&& forall|k: int| 0 <= k < 9 && k != 4 ==> cell_block(g, k) == Some(BlockType::Stone)
        },
{
    if recipe(g) == Some(Item::new(ItemType::Block(BlockType::Stone), 8)) {
        assert(furnace_shape(g));
        assert forall|k: int| 0 <= k < 9 && k != 4 implies cell_block(g, k) == Some(BlockType::Stone) by {
            assert(holds(g, k, BlockType::Stone));
        }
        assert(g[4] is None);
    }
}

/// The other recipes take exactly their ingredients: four planks take a
/// log in the corner (alone, or over a second log); four redstone torches a
/// lump of coal over a log; smelted iron or gold its ore with coal beside
/// it; bread three grass across the top; every other cell empty.
pub proof fn lemma_recipe_ingredients(g: Seq<Option<Item>>)
    requires
        g.len() == 9,
    ensures
        recipe(g) == Some(Item::new(ItemType::Block(BlockType::Wood), 4)) ==> {
            &&& cell_block(g, 0) == Some(BlockType::Wood)
            &&& forall|k: int| 1 <= k < 9 && k != 3 ==> #[trigger] g[k] is None
            &&& g[3] is None || cell_block(g, 3) == Some(BlockType::Wood)
        },
        recipe(g) == Some(Item::new(ItemType::Block(BlockType::RedstoneTorch), 4)) ==> {
            &&& cell_block(g, 0) == Some(BlockType::CoalOre)
            &&& cell_block(g, 3) == Some(BlockType::Wood)
            &&& forall|k: int| 1 <= k < 9 && k != 3 ==> #[trigger] g[k] is None
        },
        recipe(g) == Some(Item::new(ItemType::Block(BlockType::IronOre), 1)) ==> {
            &&& cell_block(g, 0) == Some(BlockType::IronOre)
            &&& cell_block(g, 1) == Some(BlockType::CoalOre)
            &&& forall|k: int| 2 <= k < 9 ==> #[trigger] g[k] is None
        },
        recipe(g) == Some(Item::new(ItemType::Block(BlockType::GoldOre), 1)) ==> {
            &&& cell_block(g, 0) == Some(BlockType::GoldOre)
            &&& cell_block(g, 1) == Some(BlockType::CoalOre)
            &&& forall|k: int| 2 <= k < 9 ==> #[trigger] g[k] is None
        },
        recipe(g) == Some(Item::from_food(FoodType::Bread)) ==> {
            &&& cell_block(g, 0) == Some(BlockType::Grass)
            &&& cell_block(g, 1) == Some(BlockType::Grass)
            &&& cell_block(g, 2) == Some(BlockType::Grass)
            &&& forall|k: int| 3 <= k < 9 ==> #[trigger] g[k] is None
        },
{
    if recipe(g) == Some(Item::new(ItemType::Block(BlockType::Wood), 4)) {
        if !(holds(g, 0, BlockType::Wood) && empty_cells(g, 1, 9)) {
            assert(empty_cells(g, 1, 3) && empty_cells(g, 4, 9));
        }
    }
}

impl CraftingGrid {
    /// An empty grid.
    pub fn new() -> (g: Self)
        ensures
            empty_cells(g.grid@, 0, 9),
    {
        CraftingGrid { grid: [None; CRAFTING_SIZE] }
    }

    fn holds(&self, i: usize, b: BlockType) -> (r: bool)
        requires
            i < 9,
        ensures
            r == holds(self.grid@, i as int, b),
    {
        match self.grid[i] {
            Some(it) => it.item_type == ItemType::Block(b),
            None => false,
        }
    }

    fn empty_cells(&self, lo: usize, hi: usize) -> (r: bool)
        requires
            lo <= hi <= 9,
        ensures
            r == empty_cells(self.grid@, lo as int, hi as int),
    {
        let mut k = lo;
        while k < hi
            invariant
                lo <= k <= hi <= 9,
                empty_cells(self.grid@, lo as int, k as int),
            decreases hi - k,
        {
            if self.grid[k].is_some() {
                return false;
            }
            k += 1;
        }
        true
    }

    fn pickaxe_shape(&self, head: BlockType) -> (r: bool)
        ensures
            r == pickaxe_shape(self.grid@, head),
    {
        self.holds(0, head) && self.holds(1, head) && self.holds(2, head)
            && self.holds(4, BlockType::Wood) && self.holds(7, BlockType::Wood)
            && self.grid[3].is_none() && self.grid[5].is_none() && self.grid[6].is_none()
            && self.grid[8].is_none()
    }

    fn sword_shape(&self, top: BlockType, mid: BlockType) -> (r: bool)
        ensures
            r == sword_shape(self.grid@, top, mid),
    {
        self.holds(1, top) && self.holds(4, mid) && self.holds(7, BlockType::Wood)
            && self.grid[0].is_none() && self.grid[2].is_none() && self.grid[3].is_none()
            && self.grid[5].is_none() && self.grid[6].is_none() && self.grid[8].is_none()
    }

    fn furnace_shape(&self) -> (r: bool)
        ensures
            r == furnace_shape(self.grid@),
    {
        let mut k: usize = 0;
        while k < 9
            invariant
                k <= 9,
                forall|j: int| 0 <= j < k ==> if j == 4 { #[trigger] self.grid@[j] is None } else {
                    holds(self.grid@, j, BlockType::Stone)
                },
            decreases 9 - k,
        {
            let ok = if k == 4 { self.grid[k].is_none() } else { self.holds(k, BlockType::Stone) };
            if !ok {
                return false;
            }
            k += 1;
        }
        true
    }

    /// What the grid crafts, if it matches a recipe.
    pub fn craft(&self) -> (r: Option<Item>)
        ensures
            r == recipe(self.grid@),
    {
        if self.holds(0, BlockType::Wood) && self.empty_cells(1, 9) {
            return Some(Item::new(ItemType::Block(BlockType::Wood), 4));
        }
        if self.holds(0, BlockType::Wood) && self.holds(3, BlockType::Wood) && self.empty_cells(1, 3)
            && self.empty_cells(4, 9) {
            return Some(Item::new(ItemType::Block(BlockType::Wood), 4));
        }
        if self.pickaxe_shape(BlockType::Wood) {
            return Some(Item::from_tool(Tool::new(ToolType::WoodenPickaxe)));
        }
        if self.pickaxe_shape(BlockType::Stone) {
            return Some(Item::from_tool(Tool::new(ToolType::StonePickaxe)));
        }
        if self.pickaxe_shape(BlockType::IronOre) {
            return Some(Item::from_tool(Tool::new(ToolType::IronPickaxe)));
        }
        if self.pickaxe_shape(BlockType::DiamondOre) {
            return Some(Item::from_tool(Tool::new(ToolType::DiamondPickaxe)));
        }
        if self.sword_shape(BlockType::Wood, BlockType::Wood) {
            return Some(Item::from_tool(Tool::new(ToolType::WoodenSword)));
        }
        if self.sword_shape(BlockType::Stone, BlockType::Stone) {
            return Some(Item::from_tool(Tool::new(ToolType::StoneSword)));
        }
        if self.furnace_shape() {
            return Some(Item::new(ItemType::Block(BlockType::Stone), 8));
        }
        if self.holds(0, BlockType::CoalOre) && self.holds(3, BlockType::Wood) && self.grid[1].is_none()
            && self.grid[2].is_none() && self.empty_cells(4, 9) {
            return Some(Item::new(ItemType::Block(BlockType::RedstoneTorch), 4));
        }
        if self.holds(0, BlockType::IronOre) && self.holds(1, BlockType::CoalOre) && self.empty_cells(2, 9) {
            return Some(Item::new(ItemType::Block(BlockType::IronOre), 1));
        }
        if self.holds(0, BlockType::GoldOre) && self.holds(1, BlockType::CoalOre) && self.empty_cells(2, 9) {
            return Some(Item::new(ItemType::Block(BlockType::GoldOre), 1));
        }
        if self.holds(0, BlockType::Grass) && self.holds(1, BlockType::Grass) && self.holds(2, BlockType::Grass)
            && self.empty_cells(3, 9) {
            return Some(Item::from_food(FoodType::Bread));
        }
        None
    }
}

/// Two grids with the same kinds in the same cells, whatever the stack sizes.
pub open spec fn same_kinds(g1: Seq<Option<Item>>, g2: Seq<Option<Item>>) -> bool {
    forall|k: int|
        0 <= k < 9 ==> match (#[trigger] g1[k], g2[k]) {
            (Some(a), Some(b)) => a.item_type == b.item_type,
            (None, None) => true,
            _ => false,
        }
}

/// Crafting looks at the kinds in the cells only: stack sizes never change what a grid crafts.
pub proof fn lemma_recipe_ignores_counts(g1: Seq<Option<Item>>, g2: Seq<Option<Item>>)
    requires
        g1.len() == 9,
        g2.len() == 9,
        same_kinds(g1, g2),
    ensures
        recipe(g1) == recipe(g2),
{
    assert forall|k: int, b: BlockType| 0 <= k < 9 implies holds(g1, k, b) == holds(g2, k, b)
        && (g1[k] is None) == (g2[k] is None) by {
        assert(same_kinds(g1, g2) ==> match (g1[k], g2[k]) {
            (Some(a), Some(b)) => a.item_type == b.item_type,
            (None, None) => true,
            _ => false,
        });
    }
    assert forall|lo: int, hi: int| 0 <= lo && hi <= 9 implies empty_cells(g1, lo, hi) == empty_cells(g2, lo, hi) by {
        if empty_cells(g1, lo, hi) {
            assert forall|k: int| lo <= k < hi implies #[trigger] g2[k] is None by {
                assert(g1[k] is None);
            }
        }
        if empty_cells(g2, lo, hi) {
            assert forall|k: int| lo <= k < hi implies #[trigger] g1[k] is None by {
                assert(g2[k] is None);
            }
        }
    }
    assert(furnace_shape(g1) == furnace_shape(g2)) by {
        if furnace_shape(g1) {
            assert forall|k: int| 0 <= k < 9 implies if k == 4 { #[trigger] g2[k] is None } else {
                holds(g2, k, BlockType::Stone)
            } by {
                assert(if k == 4 { g1[k] is None } else { holds(g1, k, BlockType::Stone) });
            }
        }
        if furnace_shape(g2) {
            assert forall|k: int| 0 <= k < 9 implies if k == 4 { #[trigger] g1[k] is None } else {
                holds(g1, k, BlockType::Stone)
            } by {
                assert(if k == 4 { g2[k] is None } else { holds(g2, k, BlockType::Stone) });
            }
        }
    }
}

/// An empty grid crafts nothing.
pub proof fn lemma_empty_grid_crafts_nothing(g: Seq<Option<Item>>)
    requires
        g.len() == 9,
        empty_cells(g, 0, 9),
    ensures
        recipe(g) is None,
{
    assert(g[0] is None && g[1] is None && g[4] is None);
}

} // verus!
