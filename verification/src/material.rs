//! Global material table. A voxel stores a palette index that resolves to a
//! `MaterialId`; what a voxel is made of comes from here.
//!
//! An entry holds what the voxel structures decide by: what kind of matter it
//! is and whether it gives light.

pub mod ids;

use vstd::prelude::*;

verus! {

#[derive(Clone, Copy, Debug, PartialEq, Eq, Hash, PartialOrd, Ord, Structural)]
pub struct MaterialId(pub u16);

impl Default for MaterialId {
    fn default() -> (m: MaterialId)
        ensures
            m == air(),
    {
        MaterialId(ids::AIR)
    }
}

#[derive(Clone, Copy, Debug, PartialEq, Eq, Structural)]
pub enum Kind {
    Air,
    Solid,
    /// Alpha tested in shading, e.g. leaves.
    Foliage,
    /// Refracting, e.g. glass and ice.
    Transparent,
    /// Rendered and simulated by the fluid solver, never stored in bricks.
    Liquid,
}

#[derive(Clone, Copy, Debug)]
pub struct Material {
    pub name: &'static str,
    pub kind: Kind,
    /// Emits light in some colour channel.
    pub emissive: bool,
}

/// The table: the entry of material `id`. An id past the end reads as air.
pub open spec fn entry(id: u16) -> Material {
    match id {
        ids::GRANITE => Material { name: "granite", kind: Kind::Solid, emissive: false },
        ids::BASALT => Material { name: "basalt", kind: Kind::Solid, emissive: false },
        ids::LIMESTONE => Material { name: "limestone", kind: Kind::Solid, emissive: false },
        ids::SANDSTONE => Material { name: "sandstone", kind: Kind::Solid, emissive: false },
        ids::SHALE => Material { name: "shale", kind: Kind::Solid, emissive: false },
        ids::MARBLE => Material { name: "marble", kind: Kind::Solid, emissive: false },
        ids::SLATE => Material { name: "slate", kind: Kind::Solid, emissive: false },
        ids::DIRT => Material { name: "dirt", kind: Kind::Solid, emissive: false },
        ids::GRASS => Material { name: "grass", kind: Kind::Solid, emissive: false },
        ids::SAND => Material { name: "sand", kind: Kind::Solid, emissive: false },
        ids::GRAVEL => Material { name: "gravel", kind: Kind::Solid, emissive: false },
        ids::CLAY => Material { name: "clay", kind: Kind::Solid, emissive: false },
        ids::SNOW => Material { name: "snow", kind: Kind::Solid, emissive: false },
        ids::ICE => Material { name: "ice", kind: Kind::Transparent, emissive: false },
        ids::WATER => Material { name: "water", kind: Kind::Liquid, emissive: false },
        ids::LAVA => Material { name: "lava", kind: Kind::Liquid, emissive: true },
        ids::OBSIDIAN => Material { name: "obsidian", kind: Kind::Solid, emissive: false },
        ids::GLASS => Material { name: "glass", kind: Kind::Transparent, emissive: false },
        ids::OAK_LOG => Material { name: "oak log", kind: Kind::Solid, emissive: false },
        ids::PINE_LOG => Material { name: "pine log", kind: Kind::Solid, emissive: false },
        ids::PLANKS => Material { name: "planks", kind: Kind::Solid, emissive: false },
        ids::LEAVES => Material { name: "leaves", kind: Kind::Foliage, emissive: false },
        ids::PINE_NEEDLES => Material { name: "pine needles", kind: Kind::Foliage, emissive: false },
        ids::CHARCOAL => Material { name: "charcoal", kind: Kind::Solid, emissive: false },
        ids::ASH => Material { name: "ash", kind: Kind::Solid, emissive: false },
        ids::COBBLESTONE => Material { name: "cobblestone", kind: Kind::Solid, emissive: false },
        ids::STONE_BRICK => Material { name: "stone brick", kind: Kind::Solid, emissive: false },
        ids::COAL_ORE => Material { name: "coal ore", kind: Kind::Solid, emissive: false },
        ids::IRON_ORE => Material { name: "iron ore", kind: Kind::Solid, emissive: false },
        ids::COPPER_ORE => Material { name: "copper ore", kind: Kind::Solid, emissive: false },
        ids::GOLD_ORE => Material { name: "gold ore", kind: Kind::Solid, emissive: false },
        ids::TORCH_FLAME => Material { name: "torch flame", kind: Kind::Foliage, emissive: true },
        ids::GLOWSTONE => Material { name: "lantern glass", kind: Kind::Solid, emissive: true },
        ids::IRON => Material { name: "iron", kind: Kind::Solid, emissive: false },
        ids::TNT => Material { name: "explosive", kind: Kind::Solid, emissive: false },
        ids::FIRE => Material { name: "fire", kind: Kind::Foliage, emissive: true },
        ids::EMBER => Material { name: "embers", kind: Kind::Solid, emissive: true },
        ids::WET_DIRT => Material { name: "mud", kind: Kind::Solid, emissive: false },
        ids::ROOF_TILE => Material { name: "roof tile", kind: Kind::Solid, emissive: false },
        ids::WHITEWASH => Material { name: "whitewash plaster", kind: Kind::Solid, emissive: false },
        ids::WOOL => Material { name: "wool", kind: Kind::Solid, emissive: false },
        ids::STEEL => Material { name: "steel", kind: Kind::Solid, emissive: false },
        ids::BEDROCK => Material { name: "bedrock", kind: Kind::Solid, emissive: false },
        ids::RHYOLITE => Material { name: "rhyolite", kind: Kind::Solid, emissive: false },
        ids::CONGLOMERATE => Material { name: "conglomerate", kind: Kind::Solid, emissive: false },
        ids::CHALK => Material { name: "chalk", kind: Kind::Solid, emissive: false },
        ids::GNEISS => Material { name: "gneiss", kind: Kind::Solid, emissive: false },
        ids::FARMLAND => Material { name: "farmland", kind: Kind::Solid, emissive: false },
        ids::WHEAT => Material { name: "wheat", kind: Kind::Foliage, emissive: false },
        ids::GLOWING_ROCK => Material { name: "cooling rock", kind: Kind::Solid, emissive: true },
        _ => Material { name: "air", kind: Kind::Air, emissive: false },
    }
}

/// How many materials the table holds.
pub const COUNT: usize = 51;

pub open spec fn air() -> MaterialId {
    MaterialId(0)
}

impl MaterialId {
    pub fn get(self) -> (m: Material)
        ensures
            m == entry(self.0),
    {
        match self.0 {
            ids::GRANITE => Material { name: "granite", kind: Kind::Solid, emissive: false },
            ids::BASALT => Material { name: "basalt", kind: Kind::Solid, emissive: false },
            ids::LIMESTONE => Material { name: "limestone", kind: Kind::Solid, emissive: false },
            ids::SANDSTONE => Material { name: "sandstone", kind: Kind::Solid, emissive: false },
            ids::SHALE => Material { name: "shale", kind: Kind::Solid, emissive: false },
            ids::MARBLE => Material { name: "marble", kind: Kind::Solid, emissive: false },
            ids::SLATE => Material { name: "slate", kind: Kind::Solid, emissive: false },
            ids::DIRT => Material { name: "dirt", kind: Kind::Solid, emissive: false },
            ids::GRASS => Material { name: "grass", kind: Kind::Solid, emissive: false },
            ids::SAND => Material { name: "sand", kind: Kind::Solid, emissive: false },
            ids::GRAVEL => Material { name: "gravel", kind: Kind::Solid, emissive: false },
            ids::CLAY => Material { name: "clay", kind: Kind::Solid, emissive: false },
            ids::SNOW => Material { name: "snow", kind: Kind::Solid, emissive: false },
            ids::ICE => Material { name: "ice", kind: Kind::Transparent, emissive: false },
            ids::WATER => Material { name: "water", kind: Kind::Liquid, emissive: false },
            ids::LAVA => Material { name: "lava", kind: Kind::Liquid, emissive: true },
            ids::OBSIDIAN => Material { name: "obsidian", kind: Kind::Solid, emissive: false },
            ids::GLASS => Material { name: "glass", kind: Kind::Transparent, emissive: false },
            ids::OAK_LOG => Material { name: "oak log", kind: Kind::Solid, emissive: false },
            ids::PINE_LOG => Material { name: "pine log", kind: Kind::Solid, emissive: false },
            ids::PLANKS => Material { name: "planks", kind: Kind::Solid, emissive: false },
            ids::LEAVES => Material { name: "leaves", kind: Kind::Foliage, emissive: false },
            ids::PINE_NEEDLES => Material { name: "pine needles", kind: Kind::Foliage, emissive: false },
            ids::CHARCOAL => Material { name: "charcoal", kind: Kind::Solid, emissive: false },
            ids::ASH => Material { name: "ash", kind: Kind::Solid, emissive: false },
            ids::COBBLESTONE => Material { name: "cobblestone", kind: Kind::Solid, emissive: false },
            ids::STONE_BRICK => Material { name: "stone brick", kind: Kind::Solid, emissive: false },
            ids::COAL_ORE => Material { name: "coal ore", kind: Kind::Solid, emissive: false },
            ids::IRON_ORE => Material { name: "iron ore", kind: Kind::Solid, emissive: false },
            ids::COPPER_ORE => Material { name: "copper ore", kind: Kind::Solid, emissive: false },
            ids::GOLD_ORE => Material { name: "gold ore", kind: Kind::Solid, emissive: false },
            ids::TORCH_FLAME => Material { name: "torch flame", kind: Kind::Foliage, emissive: true },
            ids::GLOWSTONE => Material { name: "lantern glass", kind: Kind::Solid, emissive: true },
            ids::IRON => Material { name: "iron", kind: Kind::Solid, emissive: false },
            ids::TNT => Material { name: "explosive", kind: Kind::Solid, emissive: false },
            ids::FIRE => Material { name: "fire", kind: Kind::Foliage, emissive: true },
            ids::EMBER => Material { name: "embers", kind: Kind::Solid, emissive: true },
            ids::WET_DIRT => Material { name: "mud", kind: Kind::Solid, emissive: false },
            ids::ROOF_TILE => Material { name: "roof tile", kind: Kind::Solid, emissive: false },
            ids::WHITEWASH => Material { name: "whitewash plaster", kind: Kind::Solid, emissive: false },
            ids::WOOL => Material { name: "wool", kind: Kind::Solid, emissive: false },
            ids::STEEL => Material { name: "steel", kind: Kind::Solid, emissive: false },
            ids::BEDROCK => Material { name: "bedrock", kind: Kind::Solid, emissive: false },
            ids::RHYOLITE => Material { name: "rhyolite", kind: Kind::Solid, emissive: false },
            ids::CONGLOMERATE => Material { name: "conglomerate", kind: Kind::Solid, emissive: false },
            ids::CHALK => Material { name: "chalk", kind: Kind::Solid, emissive: false },
            ids::GNEISS => Material { name: "gneiss", kind: Kind::Solid, emissive: false },
            ids::FARMLAND => Material { name: "farmland", kind: Kind::Solid, emissive: false },
            ids::WHEAT => Material { name: "wheat", kind: Kind::Foliage, emissive: false },
            ids::GLOWING_ROCK => Material { name: "cooling rock", kind: Kind::Solid, emissive: true },
            _ => Material { name: "air", kind: Kind::Air, emissive: false },
        }
    }

    pub fn is_air(self) -> (b: bool)
        ensures
            b == (self == air()),
    {
        self.0 == 0
    }

    /// Solid matter, clear or not: what a body stands on.
    pub open spec fn solid(self) -> bool {
        entry(self.0).kind == Kind::Solid || entry(self.0).kind == Kind::Transparent
    }

    pub fn is_solid(self) -> (b: bool)
        ensures
            b == self.solid(),
    {
        matches!(self.get().kind, Kind::Solid | Kind::Transparent)
    }

    pub fn is_emissive(self) -> (b: bool)
        ensures
            b == entry(self.0).emissive,
    {
        self.get().emissive
    }
}

pub fn count() -> (n: usize)
    ensures
        n == COUNT,
{
    COUNT
}

/// Only id 0 and ids past the table are air; only water and lava flow, only
/// ice and glass refract, and only leaves, needles, wheat and flames are
/// alpha tested. All else in the table is plain solid.
pub proof fn kinds_are_few(id: u16)
    ensures
        entry(id).kind is Air <==> id == 0 || id > 50,
        entry(id).kind is Liquid <==> id == 15 || id == 16,
        entry(id).kind is Transparent <==> id == 14 || id == 18,
        entry(id).kind is Foliage <==> id == 22 || id == 23 || id == 32 || id == 36 || id == 49,
{
}

/// A body stands on everything but air, liquids and what is alpha tested.
pub proof fn bodies_stand_on_solids(m: MaterialId)
    ensures
        m.solid() <==> 1 <= m.0 <= 50 && m.0 != 15 && m.0 != 16 && m.0 != 22 && m.0 != 23 && m.0
            != 32 && m.0 != 36 && m.0 != 49,
{
}

/// Lava, flames, lantern glass, embers and cooling rock give light, and
/// nothing else does.
pub proof fn hot_things_and_lanterns_glow(id: u16)
    ensures
        entry(id).emissive <==> id == 16 || id == 32 || id == 33 || id == 36 || id == 37 || id
            == 50,
        entry(id).emissive ==> !(entry(id).kind is Air),
{
}

} // verus!
