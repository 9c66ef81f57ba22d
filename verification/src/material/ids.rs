//! The ids of the material table, each the index of its entry.

use vstd::prelude::*;

verus! {

pub const AIR: u16 = 0;

pub const GRANITE: u16 = 1;

pub const BASALT: u16 = 2;

pub const LIMESTONE: u16 = 3;

pub const SANDSTONE: u16 = 4;

pub const SHALE: u16 = 5;

pub const MARBLE: u16 = 6;

pub const SLATE: u16 = 7;

pub const DIRT: u16 = 8;

pub const GRASS: u16 = 9;

pub const SAND: u16 = 10;

pub const GRAVEL: u16 = 11;

pub const CLAY: u16 = 12;

pub const SNOW: u16 = 13;

pub const ICE: u16 = 14;

pub const WATER: u16 = 15;

pub const LAVA: u16 = 16;

pub const OBSIDIAN: u16 = 17;

pub const GLASS: u16 = 18;

pub const OAK_LOG: u16 = 19;

pub const PINE_LOG: u16 = 20;

pub const PLANKS: u16 = 21;

pub const LEAVES: u16 = 22;

pub const PINE_NEEDLES: u16 = 23;

pub const CHARCOAL: u16 = 24;

pub const ASH: u16 = 25;

pub const COBBLESTONE: u16 = 26;

pub const STONE_BRICK: u16 = 27;

pub const COAL_ORE: u16 = 28;

pub const IRON_ORE: u16 = 29;

pub const COPPER_ORE: u16 = 30;

pub const GOLD_ORE: u16 = 31;

pub const TORCH_FLAME: u16 = 32;

pub const GLOWSTONE: u16 = 33;

pub const IRON: u16 = 34;

pub const TNT: u16 = 35;

pub const FIRE: u16 = 36;

pub const EMBER: u16 = 37;

pub const WET_DIRT: u16 = 38;

pub const ROOF_TILE: u16 = 39;

pub const WHITEWASH: u16 = 40;

pub const WOOL: u16 = 41;

pub const STEEL: u16 = 42;

pub const BEDROCK: u16 = 43;

pub const RHYOLITE: u16 = 44;

pub const CONGLOMERATE: u16 = 45;

pub const CHALK: u16 = 46;

pub const GNEISS: u16 = 47;

pub const FARMLAND: u16 = 48;

pub const WHEAT: u16 = 49;

pub const GLOWING_ROCK: u16 = 50;

} // verus!
