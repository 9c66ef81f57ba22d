//! What a player can hold.

use crate::material::MaterialId;
use vstd::prelude::*;

verus! {

#[derive(Clone, Copy, Debug, PartialEq, Eq, Hash, Structural)]
pub enum BlockKind {
    Solid(MaterialId),
    Slab(MaterialId),
    Torch,
    Lantern,
    Window,
    CraftingTable,
    Furnace,
}

#[derive(Clone, Copy, Debug, PartialEq, Eq, Hash, Structural)]
pub enum ToolKind {
    Pickaxe,
    Axe,
    Shovel,
}

#[derive(Clone, Copy, Debug, PartialEq, Eq, Hash, Structural)]
pub enum Tier {
    Wood,
    Stone,
    Iron,
    Steel,
}

#[derive(Clone, Copy, Debug, PartialEq, Eq, Hash, Structural)]
pub enum Item {
    Block(BlockKind),
    Stick,
    Coal,
    Charcoal,
    Flint,
    Gunpowder,
    RawIron,
    RawCopper,
    RawGold,
    IronIngot,
    CopperIngot,
    GoldIngot,
    SteelIngot,
    Bucket,
    WaterBucket,
    Tool(ToolKind, Tier),
}

/// A block of one material.
pub open spec fn solid_item(m: MaterialId) -> Item {
    Item::Block(BlockKind::Solid(m))
}

impl Item {
    pub fn solid(m: MaterialId) -> (i: Item)
        ensures
            i == solid_item(m),
    {
        Item::Block(BlockKind::Solid(m))
    }

    /// Tools wear, so they do not stack.
    pub fn is_tool(self) -> (b: bool)
        ensures
            b == (self is Tool),
    {
        matches!(self, Item::Tool(..))
    }
}

} // verus!
