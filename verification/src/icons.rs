//! Item icons: what each voxel of a block's face shows, which items there
//! are, and where each goes in the atlas the screen draws from.
//!
//! Each material has a texture: planks show their boards, bricks their
//! mortar, logs their rings, ore its seams, glass its frame and glare.
//! Colours are in hundredths, draws are 24-bit numbers.

pub mod model;

use crate::ivec::IVec3;
use crate::key::Key3;
use crate::item::{solid_item, BlockKind, Item, Tier, ToolKind};
use crate::material::{entry, ids, Kind, MaterialId, COUNT};
use vstd::prelude::*;

verus! {

/// Icon size in the atlas, pixels.
pub const CELL: u32 = 64;

pub const ATLAS: u32 = 1024;

/// Materials that a table of materials may give any id.
#[derive(Clone, Copy, Debug, PartialEq, Eq, Structural)]
pub struct Extra {
    pub birch_log: MaterialId,
    pub birch_leaves: MaterialId,
    pub moss: MaterialId,
    pub cactus: MaterialId,
    pub dark_planks: MaterialId,
    pub red_brick: MaterialId,
    pub concrete: MaterialId,
    pub asphalt: MaterialId,
    pub thatch: MaterialId,
}

/// A draw for a voxel.
pub open spec fn drawn(x: i32, y: i32, z: i32, salt: u32) -> u32 {
    let a = (x as u32).wrapping_mul(0x8da6_b343) ^ (y as u32).wrapping_mul(0xd816_3841) ^ (
    z as u32).wrapping_mul(0xcb1a_b31f) ^ salt.wrapping_mul(0x9e37_79b9);
    let b = (a ^ (a >> 15)).wrapping_mul(0x2c1b_3c6d);
    let c = (b ^ (b >> 12)).wrapping_mul(0x297a_2d39);
    (c ^ (c >> 15)) >> 8
}

#[verifier::truncate]
pub fn hash24(x: i32, y: i32, z: i32, salt: u32) -> (n: u32)
    ensures
        n == drawn(x, y, z, salt),
{
    let a: u32 = (x as u32).wrapping_mul(0x8da6_b343) ^ (y as u32).wrapping_mul(0xd816_3841) ^ (
    z as u32).wrapping_mul(0xcb1a_b31f) ^ salt.wrapping_mul(0x9e37_79b9);
    let b: u32 = (a ^ (a >> 15)).wrapping_mul(0x2c1b_3c6d);
    let c: u32 = (b ^ (b >> 12)).wrapping_mul(0x297a_2d39);
    (c ^ (c >> 15)) >> 8
}

/// Face-plane coordinates of voxel `v` seen through a face with normal `nrm`:
/// (across, up) on walls, (x, z) on tops and bottoms.
pub open spec fn on_face(v: IVec3, nrm: IVec3) -> (i32, i32) {
    if nrm.y != 0 {
        (v.x, v.z)
    } else if nrm.x != 0 {
        (v.z, v.y)
    } else {
        (v.x, v.y)
    }
}

pub fn plane(v: IVec3, nrm: IVec3) -> (r: (i32, i32))
    ensures
        r == on_face(v, nrm),
{
    if nrm.y != 0 {
        (v.x, v.z)
    } else if nrm.x != 0 {
        (v.z, v.y)
    } else {
        (v.x, v.y)
    }
}

/// Column of the brick at `u` in row `row` of a running bond.
pub open spec fn shifted(u: int, w: int, row: int) -> int {
    u + row % 2 * (w / 2)
}

/// Running bond: bricks `w` by `h` voxels, alternate rows offset half a
/// brick; returns whether in mortar, and the brick's column and row.
pub fn bond(u: i32, w: i32, h: i32, wv: i32) -> (r: (bool, i32, i32))
    requires
        0 <= u < 0x1000,
        0 <= wv < 0x1000,
        1 <= w < 0x1000,
        1 <= h < 0x1000,
    ensures
        r.2 == wv as int / h as int,
        r.1 == shifted(u as int, w as int, wv as int / h as int) / w as int,
        r.0 == (wv as int % h as int == 0 || shifted(u as int, w as int, wv as int / h as int)
            % w as int == 0),
{
    let row: i32 = wv / h;
    proof {
        let half = w as int / 2;
        assert(0 <= row);
        assert(row % 2 == 0 || row % 2 == 1);
        assert(row % 2 * half == 0 || row % 2 * half == half) by (nonlinear_arith)
            requires
                row % 2 == 0 || row % 2 == 1,
        ;
    }
    let s: i32 = u + row % 2 * (w / 2);
    (wv % h == 0 || s % w == 0, s / w, row)
}

/// Neighbouring rows of a running bond never break at the same place.
pub proof fn joints_are_staggered(u: int, w: int, row: int)
    requires
        w >= 2,
        w % 2 == 0,
        row >= 0,
        shifted(u, w, row) % w == 0,
    ensures
        shifted(u, w, row + 1) % w != 0,
{
    let half = w / 2;
    if row % 2 == 0 {
        assert((row + 1) % 2 == 1);
        assert(shifted(u, w, row) == u) by (nonlinear_arith)
            requires
                row % 2 == 0,
                shifted(u, w, row) == u + row % 2 * (w / 2),
        ;
        assert(shifted(u, w, row + 1) == u + half) by (nonlinear_arith)
            requires
                (row + 1) % 2 == 1,
                half == w / 2,
                shifted(u, w, row + 1) == u + (row + 1) % 2 * (w / 2),
        ;
        vstd::arithmetic::div_mod::lemma_add_mod_noop(u, half, w);
        vstd::arithmetic::div_mod::lemma_small_mod(half as nat, w as nat);
        assert((0 + half) % w == half);
    } else {
        assert((row + 1) % 2 == 0);
        assert(shifted(u, w, row) == u + half) by (nonlinear_arith)
            requires
                row % 2 == 1,
                half == w / 2,
                shifted(u, w, row) == u + row % 2 * (w / 2),
        ;
        assert(shifted(u, w, row + 1) == u) by (nonlinear_arith)
            requires
                (row + 1) % 2 == 0,
                shifted(u, w, row + 1) == u + (row + 1) % 2 * (w / 2),
        ;
        if u % w == 0 {
            vstd::arithmetic::div_mod::lemma_add_mod_noop(u, half, w);
            vstd::arithmetic::div_mod::lemma_small_mod(half as nat, w as nat);
            assert((0 + half) % w == half);
        }
    }
}

/// "TNT" in a 12 x 4 bitmap, top row first, the first column highest.
pub open spec fn tnt_row(row: int) -> u32 {
    if row == 0 {
        0b1110_1001_0111
    } else if row == 1 {
        0b0100_1101_0010
    } else if row == 2 {
        0b0100_1011_0010
    } else {
        0b0100_1001_0010
    }
}

pub open spec fn tnt_ink(row: int, col: int) -> bool {
    0 <= row < 4 && 0 <= col < 12 && (tnt_row(row) >> ((11 - col) as u32)) & 1 == 1
}

fn inked(row: i32, col: i32) -> (b: bool)
    ensures
        b == tnt_ink(row as int, col as int),
{
    if row < 0 || row >= 4 || col < 0 || col >= 12 {
        return false;
    }
    let bits: u32 = if row == 0 {
        0b1110_1001_0111
    } else if row == 1 {
        0b0100_1101_0010
    } else if row == 2 {
        0b0100_1011_0010
    } else {
        0b0100_1001_0010
    };
    let by: u32 = (11 - col) as u32;
    (bits >> by) & 1 == 1
}

/// How a material's faces are patterned.
#[derive(Clone, Copy, Debug, PartialEq, Eq, Structural)]
pub enum Skin {
    Turf,
    Clods,
    Log,
    BirchLog,
    Boards,
    /// Bricks so many voxels wide and high, pale mortar or not.
    Bricks { w: i32, h: i32, pale: bool },
    Cobbles,
    Ore,
    Tnt,
    Plates,
    Tiles,
    Thatch,
    Cactus,
    Pebbles,
    Asphalt,
    Marble,
    Flecked,
    Bedded,
    Obsidian,
    /// Nothing but grain, so many hundredths of it.
    Grain(i32),
}

pub open spec fn skin(m: MaterialId, e: Extra) -> Skin {
    if m.0 == ids::GRASS {
        Skin::Turf
    } else if m.0 == ids::DIRT || m.0 == ids::FARMLAND || m.0 == ids::WET_DIRT {
        Skin::Clods
    } else if m.0 == ids::OAK_LOG || m.0 == ids::PINE_LOG {
        Skin::Log
    } else if m == e.birch_log {
        Skin::BirchLog
    } else if m.0 == ids::PLANKS || m == e.dark_planks {
        Skin::Boards
    } else if m.0 == ids::STONE_BRICK {
        Skin::Bricks { w: 8, h: 4, pale: false }
    } else if m == e.red_brick {
        Skin::Bricks { w: 6, h: 3, pale: true }
    } else if m.0 == ids::COBBLESTONE {
        Skin::Cobbles
    } else if ids::COAL_ORE <= m.0 <= ids::GOLD_ORE {
        Skin::Ore
    } else if m.0 == ids::TNT {
        Skin::Tnt
    } else if m.0 == ids::IRON || m.0 == ids::STEEL {
        Skin::Plates
    } else if m.0 == ids::ROOF_TILE {
        Skin::Tiles
    } else if m == e.thatch {
        Skin::Thatch
    } else if m == e.cactus {
        Skin::Cactus
    } else if m.0 == ids::SAND || m.0 == ids::SNOW || m.0 == ids::CHALK || m == e.concrete || m.0
        == ids::WHITEWASH || m.0 == ids::CLAY {
        Skin::Grain(12)
    } else if m.0 == ids::GRAVEL {
        Skin::Pebbles
    } else if m == e.asphalt {
        Skin::Asphalt
    } else if m.0 == ids::MARBLE {
        Skin::Marble
    } else if m.0 == ids::GRANITE || m.0 == ids::RHYOLITE {
        Skin::Flecked
    } else if m.0 == ids::SANDSTONE || m.0 == ids::LIMESTONE || m.0 == ids::SHALE || m.0
        == ids::SLATE || m.0 == ids::GNEISS {
        Skin::Bedded
    } else if m.0 == ids::OBSIDIAN {
        Skin::Obsidian
    } else if m.0 == ids::WOOL {
        Skin::Grain(18)
    } else if m.0 == ids::LEAVES || m.0 == ids::PINE_NEEDLES || m == e.birch_leaves || m
        == e.moss {
        Skin::Grain(60)
    } else {
        Skin::Grain(16)
    }
}

pub fn skin_of(m: MaterialId, e: &Extra) -> (s: Skin)
    ensures
        s == skin(m, *e),
{
    if m.0 == ids::GRASS {
        Skin::Turf
    } else if m.0 == ids::DIRT || m.0 == ids::FARMLAND || m.0 == ids::WET_DIRT {
        Skin::Clods
    } else if m.0 == ids::OAK_LOG || m.0 == ids::PINE_LOG {
        Skin::Log
    } else if m == e.birch_log {
        Skin::BirchLog
    } else if m.0 == ids::PLANKS || m == e.dark_planks {
        Skin::Boards
    } else if m.0 == ids::STONE_BRICK {
        Skin::Bricks { w: 8, h: 4, pale: false }
    } else if m == e.red_brick {
        Skin::Bricks { w: 6, h: 3, pale: true }
    } else if m.0 == ids::COBBLESTONE {
        Skin::Cobbles
    } else if m.0 >= ids::COAL_ORE && m.0 <= ids::GOLD_ORE {
        Skin::Ore
    } else if m.0 == ids::TNT {
        Skin::Tnt
    } else if m.0 == ids::IRON || m.0 == ids::STEEL {
        Skin::Plates
    } else if m.0 == ids::ROOF_TILE {
        Skin::Tiles
    } else if m == e.thatch {
        Skin::Thatch
    } else if m == e.cactus {
        Skin::Cactus
    } else if m.0 == ids::SAND || m.0 == ids::SNOW || m.0 == ids::CHALK || m == e.concrete || m.0
        == ids::WHITEWASH || m.0 == ids::CLAY {
        Skin::Grain(12)
    } else if m.0 == ids::GRAVEL {
        Skin::Pebbles
    } else if m == e.asphalt {
        Skin::Asphalt
    } else if m.0 == ids::MARBLE {
        Skin::Marble
    } else if m.0 == ids::GRANITE || m.0 == ids::RHYOLITE {
        Skin::Flecked
    } else if m.0 == ids::SANDSTONE || m.0 == ids::LIMESTONE || m.0 == ids::SHALE || m.0
        == ids::SLATE || m.0 == ids::GNEISS {
        Skin::Bedded
    } else if m.0 == ids::OBSIDIAN {
        Skin::Obsidian
    } else if m.0 == ids::WOOL {
        Skin::Grain(18)
    } else if m.0 == ids::LEAVES || m.0 == ids::PINE_NEEDLES || m == e.birch_leaves || m
        == e.moss {
        Skin::Grain(60)
    } else {
        Skin::Grain(16)
    }
}

/// The colour of a voxel of a face. `n1` is the voxel's own draw.
#[derive(Clone, Copy, Debug, PartialEq, Eq, Structural)]
pub enum Paint {
    /// Just this colour.
    Plain { r: i32, g: i32, b: i32 },
    /// The colour of `of` times `a + b * draw + c * (n1 - 1/2)`, all times
    /// `scale`.
    Shade { of: MaterialId, scale: i32, a: i32, b: i32, draw: u32, c: i32 },
    /// A board: the colour times 0.85 and 0.3 of `tone`, times 1 and 0.1 of
    /// `streak - 1/2`.
    Board { tone: u32, streak: u32 },
    /// Growth rings; `quarters` is four times the square of the distance from
    /// the core.
    Rings { of: MaterialId, scale: i32, quarters: i32 },
    /// Specks: 0.8 and 0.6 of the draw's fourth power.
    Specks { draw: u32 },
    /// A vein that wanders with `draw`.
    Vein { u: i32, w: i32, draw: u32 },
}

/// The material's colour times `a`, `b` of a draw and `c` of its own.
pub open spec fn shade(m: MaterialId, a: int, b: int, draw: u32, c: int) -> Paint {
    Paint::Shade { of: m, scale: 100, a: a as i32, b: b as i32, draw, c: c as i32 }
}

/// Four times the square of the distance of a voxel from the middle of a
/// 16-voxel face.
pub open spec fn from_core(u: int, w: int) -> int {
    (2 * u - 15) * (2 * u - 15) + (2 * w - 15) * (2 * w - 15)
}

pub open spec fn plain(r: int, g: int, b: int) -> Paint {
    Paint::Plain { r: r as i32, g: g as i32, b: b as i32 }
}

/// A brick wall's voxel.
pub open spec fn brickwork(
    m: MaterialId,
    u: int,
    v: int,
    w: int,
    h: int,
    pale: bool,
) -> Paint {
    let row = v / h;
    let s = shifted(u, w, row);
    if v % h == 0 || s % w == 0 {
        if pale {
            plain(55, 53, 50)
        } else {
            shade(m, 55, 0, 0, 0)
        }
    } else {
        shade(m, 85, 30, drawn((s / w) as i32, row as i32, 7, 8), 8)
    }
}

/// A wall of a block of TNT: a paper band with the letters on it, over
/// paper-wrapped sticks.
pub open spec fn tnt_wall(m: MaterialId, u: int, w: int, nrm: IVec3) -> Paint {
    let across = if nrm.z < 0 || nrm.x > 0 {
        15 - u
    } else {
        u
    };
    if 5 <= w <= 10 {
        if tnt_ink(9 - w, across - 2) {
            plain(2, 2, 2)
        } else {
            plain(85, 83, 78)
        }
    } else if across % 4 == 0 {
        shade(m, 70, 0, 0, 0)
    } else {
        shade(m, 100, 0, 0, 10)
    }
}

/// What voxel `v` of a 16-voxel block of `m` shows through a face.
pub open spec fn shown(m: MaterialId, e: Extra, v: IVec3, nrm: IVec3) -> Paint {
    let (u, w) = on_face(v, nrm);
    match skin(m, e) {
        Skin::Turf => shade(m, 85, 35, drawn(v.x, v.y, v.z, 2), 0),
        Skin::Clods => shade(
            m,
            80,
            30,
            drawn((v.x as int / 2) as i32, (v.y as int / 2) as i32, (v.z as int / 2) as i32, 3),
            20,
        ),
        Skin::Log | Skin::BirchLog => if nrm.y != 0 {
            // End grain: bark ring, then growth rings round a pale core.
            if from_core(u as int, w as int) > 174 {
                shade(m, 75, 0, 0, 0)
            } else {
                Paint::Rings {
                    of: MaterialId(ids::PLANKS),
                    scale: if m.0 == ids::PINE_LOG {
                        80
                    } else {
                        100
                    },
                    quarters: from_core(u as int, w as int) as i32,
                }
            }
        } else if skin(m, e) is BirchLog {
            if drawn((u as int / 3) as i32, (w as int / 2) as i32, 0, 4) > 13421773 {
                plain(5, 5, 5)
            } else {
                shade(m, 92, 0, 0, 12)
            }
        } else {
            shade(m, 65, 55, drawn(u, (w as int / 5) as i32, 0, 5), 10)
        },
        Skin::Boards => if w as int % 4 == 0 {
            shade(m, 62, 0, 0, 0)
        } else {
            Paint::Board {
                tone: drawn((w as int / 4) as i32, 0, nrm.y, 6),
                streak: drawn((u as int / 3) as i32, (w as int / 4) as i32, 0, 7),
            }
        },
        Skin::Bricks { w: bw, h: bh, pale } => brickwork(
            m,
            u as int,
            w as int,
            bw as int,
            bh as int,
            pale,
        ),
        Skin::Cobbles => if (u as int % 5 == 0 || w as int % 4 == 0) && drawn(u, w, 3, 9) > 4194304 {
            shade(m, 50, 0, 0, 0)
        } else {
            shade(m, 75, 50, drawn((u as int / 5) as i32, (w as int / 4) as i32, 0, 10), 10)
        },
        Skin::Ore => if drawn(
            (v.x as int / 2) as i32,
            (v.y as int / 2) as i32,
            (v.z as int / 2) as i32,
            11,
        ) > 12079596 && drawn(v.x, v.y, v.z, 12) > 4194304 {
            match m.0 {
                ids::COAL_ORE => plain(2, 2, 2),
                ids::IRON_ORE => plain(62, 36, 22),
                ids::COPPER_ORE => plain(25, 55, 40),
                _ => plain(95, 72, 20),
            }
        } else if m.0 == ids::COAL_ORE {
            Paint::Shade {
                of: MaterialId(ids::SHALE),
                scale: 140,
                a: 85,
                b: 0,
                draw: 0,
                c: 20,
            }
        } else {
            Paint::Shade {
                of: MaterialId(ids::SANDSTONE),
                scale: 80,
                a: 85,
                b: 0,
                draw: 0,
                c: 20,
            }
        },
        Skin::Tnt => if nrm.y != 0 {
            // Top: paper over the charges, the fuse in the middle.
            if from_core(u as int, w as int) < 9 {
                plain(3, 3, 3)
            } else if from_core(u as int, w as int) < 36 {
                plain(50, 45, 40)
            } else {
                shade(m, 80, 0, 0, 10)
            }
        } else {
            tnt_wall(m, u as int, w as int, nrm)
        },
        Skin::Plates => {
            let (pu, pw) = (u as int % 8, w as int % 8);
            if pu == 0 || pw == 0 {
                shade(m, 60, 0, 0, 0)
            } else if (pu == 1 || pu == 6) && (pw == 1 || pw == 6) {
                shade(m, 130, 0, 0, 0)
            } else {
                shade(m, 100, 0, 0, 5)
            }
        },
        Skin::Tiles => if w as int % 3 == 0 {
            shade(m, 55, 0, 0, 0)
        } else {
            let row = w as int / 3;
            shade(
                m,
                85,
                30,
                drawn((shifted(u as int, 4, row) / 4) as i32, row as i32, 7, 13),
                0,
            )
        },
        Skin::Thatch => shade(m, 70, 50, drawn(u, (w as int / 4) as i32, 0, 14), 0),
        Skin::Cactus => if drawn(v.x, v.y, v.z, 15) > 15602811 {
            plain(85, 80, 60)
        } else if u as int % 4 == 0 {
            shade(m, 130, 0, 0, 0)
        } else {
            shade(m, 90, 0, 0, 10)
        },
        Skin::Pebbles => shade(
            m,
            60,
            80,
            drawn((v.x as int / 2) as i32, (v.y as int / 2) as i32, (v.z as int / 2) as i32, 16),
            0,
        ),
        Skin::Asphalt => Paint::Specks { draw: drawn(v.x, v.y, v.z, 17) },
        Skin::Marble => Paint::Vein {
            u,
            w,
            draw: drawn(
                (v.x as int / 4) as i32,
                (v.y as int / 4) as i32,
                (v.z as int / 4) as i32,
                18,
            ),
        },
        Skin::Flecked => if drawn(v.x, v.y, v.z, 19) > 15099494 {
            plain(8, 8, 8)
        } else if drawn(v.x, v.y, v.z, 19) <= 1677721 {
            shade(m, 150, 0, 0, 0)
        } else {
            shade(m, 100, 0, 0, 20)
        },
        Skin::Bedded => shade(m, 85, 30, drawn(0, (v.y as int / 3) as i32, 0, 20), 8),
        Skin::Obsidian => if drawn(v.x, v.y, v.z, 21) > 15099494 {
            plain(30, 18, 45)
        } else {
            shade(m, 100, 0, 0, 30)
        },
        Skin::Grain(amp) => shade(m, 100, 0, 0, amp as int),
    }
}

fn shaded(m: MaterialId, a: i32, b: i32, draw: u32, c: i32) -> (p: Paint)
    ensures
        p == shade(m, a as int, b as int, draw, c as int),
{
    Paint::Shade { of: m, scale: 100, a, b, draw, c }
}

fn core_distance(u: i32, w: i32) -> (q: i32)
    requires
        0 <= u < 16,
        0 <= w < 16,
    ensures
        q == from_core(u as int, w as int),
{
    let (a, b): (i32, i32) = (2 * u - 15, 2 * w - 15);
    proof {
        assert(0 <= a * a <= 225) by (nonlinear_arith)
            requires
                -15 <= a <= 15,
        ;
        assert(0 <= b * b <= 225) by (nonlinear_arith)
            requires
                -15 <= b <= 15,
        ;
    }
    a * a + b * b
}

fn log_face(m: MaterialId, birch: bool, u: i32, w: i32, nrm: IVec3) -> (p: Paint)
    requires
        0 <= u < 16,
        0 <= w < 16,
    ensures
        p == (if nrm.y != 0 {
            if from_core(u as int, w as int) > 174 {
                shade(m, 75, 0, 0, 0)
            } else {
                Paint::Rings {
                    of: MaterialId(ids::PLANKS),
                    scale: if m.0 == ids::PINE_LOG {
                        80
                    } else {
                        100
                    },
                    quarters: from_core(u as int, w as int) as i32,
                }
            }
        } else if birch {
            if drawn((u as int / 3) as i32, (w as int / 2) as i32, 0, 4) > 13421773 {
                plain(5, 5, 5)
            } else {
                shade(m, 92, 0, 0, 12)
            }
        } else {
            shade(m, 65, 55, drawn(u, (w as int / 5) as i32, 0, 5), 10)
        }),
{
    if nrm.y != 0 {
        let q: i32 = core_distance(u, w);
        if q > 174 {
            return shaded(m, 75, 0, 0, 0);
        }
        return Paint::Rings {
            of: MaterialId(ids::PLANKS),
            scale: if m.0 == ids::PINE_LOG {
                80
            } else {
                100
            },
            quarters: q,
        };
    }
    if birch {
        if hash24(u / 3, w / 2, 0, 4) > 13421773 {
            return Paint::Plain { r: 5, g: 5, b: 5 };
        }
        return shaded(m, 92, 0, 0, 12);
    }
    shaded(m, 65, 55, hash24(u, w / 5, 0, 5), 10)
}

fn brick_face(m: MaterialId, u: i32, v: i32, w: i32, h: i32, pale: bool) -> (p: Paint)
    requires
        0 <= u < 16,
        0 <= v < 16,
        1 <= w <= 16,
        1 <= h <= 16,
    ensures
        p == brickwork(m, u as int, v as int, w as int, h as int, pale),
{
    let (mortar, col, row): (bool, i32, i32) = bond(u, w, h, v);
    if mortar {
        if pale {
            Paint::Plain { r: 55, g: 53, b: 50 }
        } else {
            shaded(m, 55, 0, 0, 0)
        }
    } else {
        shaded(m, 85, 30, hash24(col, row, 7, 8), 8)
    }
}

fn tnt_face(m: MaterialId, u: i32, w: i32, nrm: IVec3) -> (p: Paint)
    requires
        0 <= u < 16,
        0 <= w < 16,
    ensures
        p == tnt_wall(m, u as int, w as int, nrm),
{
    let across: i32 = if nrm.z < 0 || nrm.x > 0 {
        15 - u
    } else {
        u
    };
    if 5 <= w && w <= 10 {
        if inked(9 - w, across - 2) {
            Paint::Plain { r: 2, g: 2, b: 2 }
        } else {
            Paint::Plain { r: 85, g: 83, b: 78 }
        }
    } else if across % 4 == 0 {
        shaded(m, 70, 0, 0, 0)
    } else {
        shaded(m, 100, 0, 0, 10)
    }
}

fn ore_face(m: MaterialId, v: IVec3) -> (p: Paint)
    requires
        v.within(16),
    ensures
        p == (if drawn(
            (v.x as int / 2) as i32,
            (v.y as int / 2) as i32,
            (v.z as int / 2) as i32,
            11,
        ) > 12079596 && drawn(v.x, v.y, v.z, 12) > 4194304 {
            match m.0 {
                ids::COAL_ORE => plain(2, 2, 2),
                ids::IRON_ORE => plain(62, 36, 22),
                ids::COPPER_ORE => plain(25, 55, 40),
                _ => plain(95, 72, 20),
            }
        } else if m.0 == ids::COAL_ORE {
            Paint::Shade {
                of: MaterialId(ids::SHALE),
                scale: 140,
                a: 85,
                b: 0,
                draw: 0,
                c: 20,
            }
        } else {
            Paint::Shade {
                of: MaterialId(ids::SANDSTONE),
                scale: 80,
                a: 85,
                b: 0,
                draw: 0,
                c: 20,
            }
        }),
{
    if hash24(v.x / 2, v.y / 2, v.z / 2, 11) > 12079596 && hash24(v.x, v.y, v.z, 12) > 4194304 {
        return match m.0 {
            ids::COAL_ORE => Paint::Plain { r: 2, g: 2, b: 2 },
            ids::IRON_ORE => Paint::Plain { r: 62, g: 36, b: 22 },
            ids::COPPER_ORE => Paint::Plain { r: 25, g: 55, b: 40 },
            _ => Paint::Plain { r: 95, g: 72, b: 20 },
        };
    }
    if m.0 == ids::COAL_ORE {
        Paint::Shade { of: MaterialId(ids::SHALE), scale: 140, a: 85, b: 0, draw: 0, c: 20 }
    } else {
        Paint::Shade { of: MaterialId(ids::SANDSTONE), scale: 80, a: 85, b: 0, draw: 0, c: 20 }
    }
}

/// Colour of material `m` at voxel `v` of a 16-voxel block, seen through a
/// face with normal `nrm`.
pub fn texture(m: MaterialId, e: &Extra, v: IVec3, nrm: IVec3) -> (p: Paint)
    requires
        v.within(16),
    ensures
        p == shown(m, *e, v, nrm),
{
    let (u, w): (i32, i32) = plane(v, nrm);
    match skin_of(m, e) {
        Skin::Turf => shaded(m, 85, 35, hash24(v.x, v.y, v.z, 2), 0),
        Skin::Clods => shaded(m, 80, 30, hash24(v.x / 2, v.y / 2, v.z / 2, 3), 20),
        Skin::Log => log_face(m, false, u, w, nrm),
        Skin::BirchLog => log_face(m, true, u, w, nrm),
        Skin::Boards => if w % 4 == 0 {
            shaded(m, 62, 0, 0, 0)
        } else {
            Paint::Board {
                tone: hash24(w / 4, 0, nrm.y, 6),
                streak: hash24(u / 3, w / 4, 0, 7),
            }
        },
        Skin::Bricks { w: bw, h: bh, pale } => brick_face(m, u, w, bw, bh, pale),
        Skin::Cobbles => if (u % 5 == 0 || w % 4 == 0) && hash24(u, w, 3, 9) > 4194304 {
            shaded(m, 50, 0, 0, 0)
        } else {
            shaded(m, 75, 50, hash24(u / 5, w / 4, 0, 10), 10)
        },
        Skin::Ore => ore_face(m, v),
        Skin::Tnt => if nrm.y != 0 {
            let q: i32 = core_distance(u, w);
            if q < 9 {
                Paint::Plain { r: 3, g: 3, b: 3 }
            } else if q < 36 {
                Paint::Plain { r: 50, g: 45, b: 40 }
            } else {
                shaded(m, 80, 0, 0, 10)
            }
        } else {
            tnt_face(m, u, w, nrm)
        },
        Skin::Plates => {
            let (pu, pw): (i32, i32) = (u % 8, w % 8);
            if pu == 0 || pw == 0 {
                shaded(m, 60, 0, 0, 0)
            } else if (pu == 1 || pu == 6) && (pw == 1 || pw == 6) {
                shaded(m, 130, 0, 0, 0)
            } else {
                shaded(m, 100, 0, 0, 5)
            }
        },
        Skin::Tiles => {
            let (_mortar, col, row): (bool, i32, i32) = bond(u, 4, 3, w);
            if w % 3 == 0 {
                shaded(m, 55, 0, 0, 0)
            } else {
                shaded(m, 85, 30, hash24(col, row, 7, 13), 0)
            }
        },
        Skin::Thatch => shaded(m, 70, 50, hash24(u, w / 4, 0, 14), 0),
        Skin::Cactus => if hash24(v.x, v.y, v.z, 15) > 15602811 {
            Paint::Plain { r: 85, g: 80, b: 60 }
        } else if u % 4 == 0 {
            shaded(m, 130, 0, 0, 0)
        } else {
            shaded(m, 90, 0, 0, 10)
        },
        Skin::Pebbles => shaded(m, 60, 80, hash24(v.x / 2, v.y / 2, v.z / 2, 16), 0),
        Skin::Asphalt => Paint::Specks { draw: hash24(v.x, v.y, v.z, 17) },
        Skin::Marble => Paint::Vein { u, w, draw: hash24(v.x / 4, v.y / 4, v.z / 4, 18) },
        Skin::Flecked => {
            let fleck: u32 = hash24(v.x, v.y, v.z, 19);
            if fleck > 15099494 {
                Paint::Plain { r: 8, g: 8, b: 8 }
            } else if fleck <= 1677721 {
                shaded(m, 150, 0, 0, 0)
            } else {
                shaded(m, 100, 0, 0, 20)
            }
        },
        Skin::Bedded => shaded(m, 85, 30, hash24(0, v.y / 3, 0, 20), 8),
        Skin::Obsidian => if hash24(v.x, v.y, v.z, 21) > 15099494 {
            Paint::Plain { r: 30, g: 18, b: 45 }
        } else {
            shaded(m, 100, 0, 0, 30)
        },
        Skin::Grain(amp) => shaded(m, 100, 0, 0, amp),
    }
}

/// Materials a player can hold as a block. `finite` says whether the material
/// can be broken at all.
pub open spec fn can_hold(m: MaterialId, finite: bool, e: Extra) -> bool {
    match entry(m.0).kind {
        Kind::Air | Kind::Liquid => false,
        Kind::Foliage => m.0 == ids::LEAVES || m.0 == ids::PINE_NEEDLES || m == e.birch_leaves || m
            == e.moss,
        _ => finite && m.0 != ids::GLOWING_ROCK && m.0 != ids::EMBER && m.0 != ids::ASH && m.0
            != ids::GLOWSTONE,
    }
}

pub fn holdable(m: MaterialId, finite: bool, e: &Extra) -> (b: bool)
    ensures
        b == can_hold(m, finite, *e),
{
    match m.get().kind {
        Kind::Air | Kind::Liquid => false,
        Kind::Foliage => m.0 == ids::LEAVES || m.0 == ids::PINE_NEEDLES || m == e.birch_leaves || m
            == e.moss,
        _ => finite && m.0 != ids::GLOWING_ROCK && m.0 != ids::EMBER && m.0 != ids::ASH && m.0
            != ids::GLOWSTONE,
    }
}

/// Blocks of the first `n` materials but air that can be held.
pub open spec fn solids(finite: Seq<bool>, e: Extra, n: int) -> Seq<Item>
    decreases n,
{
    if n <= 1 {
        Seq::empty()
    } else if can_hold(MaterialId((n - 1) as u16), finite[n - 1], e) {
        solids(finite, e, n - 1).push(solid_item(MaterialId((n - 1) as u16)))
    } else {
        solids(finite, e, n - 1)
    }
}

/// Slab materials (as the recipes make them).
pub open spec fn slabs(e: Extra) -> Seq<Item> {
    seq![
        Item::Block(BlockKind::Slab(MaterialId(ids::STONE_BRICK))),
        Item::Block(BlockKind::Slab(MaterialId(ids::COBBLESTONE))),
        Item::Block(BlockKind::Slab(MaterialId(ids::PLANKS))),
        Item::Block(BlockKind::Slab(e.dark_planks)),
        Item::Block(BlockKind::Slab(e.red_brick)),
        Item::Block(BlockKind::Slab(e.concrete)),
        Item::Block(BlockKind::Slab(MaterialId(ids::MARBLE))),
    ]
}

/// Everything else, blocks first, then materials, then tools by tier.
pub open spec fn wares() -> Seq<Item> {
    seq![
        Item::Block(BlockKind::Torch),
        Item::Block(BlockKind::Lantern),
        Item::Block(BlockKind::Window),
        Item::Block(BlockKind::CraftingTable),
        Item::Block(BlockKind::Furnace),
        Item::Stick,
        Item::Coal,
        Item::Charcoal,
        Item::Flint,
        Item::Gunpowder,
        Item::RawIron,
        Item::RawCopper,
        Item::RawGold,
        Item::IronIngot,
        Item::CopperIngot,
        Item::GoldIngot,
        Item::SteelIngot,
        Item::Bucket,
        Item::WaterBucket,
        Item::Tool(ToolKind::Pickaxe, Tier::Wood),
        Item::Tool(ToolKind::Axe, Tier::Wood),
        Item::Tool(ToolKind::Shovel, Tier::Wood),
        Item::Tool(ToolKind::Pickaxe, Tier::Stone),
        Item::Tool(ToolKind::Axe, Tier::Stone),
        Item::Tool(ToolKind::Shovel, Tier::Stone),
        Item::Tool(ToolKind::Pickaxe, Tier::Iron),
        Item::Tool(ToolKind::Axe, Tier::Iron),
        Item::Tool(ToolKind::Shovel, Tier::Iron),
        Item::Tool(ToolKind::Pickaxe, Tier::Steel),
        Item::Tool(ToolKind::Axe, Tier::Steel),
        Item::Tool(ToolKind::Shovel, Tier::Steel),
    ]
}

/// Every item with an icon, blocks first. `finite[i]` says whether material
/// `i` can be broken at all.
pub fn all_items(finite: &Vec<bool>, e: &Extra) -> (r: Vec<Item>)
    requires
        finite@.len() == COUNT,
    ensures
        r@ == solids(finite@, *e, COUNT as int) + slabs(*e) + wares(),
{
    let mut r: Vec<Item> = Vec::new();
    let mut i: usize = 1;
    while i < COUNT as usize
        invariant
            1 <= i <= COUNT,
            finite@.len() == COUNT,
            r@ == solids(finite@, *e, i as int),
        decreases COUNT - i,
    {
        let m = MaterialId(i as u16);
        if holdable(m, finite[i], e) {
            r.push(Item::solid(m));
        }
        i += 1;
    }
    r.push(Item::Block(BlockKind::Slab(MaterialId(ids::STONE_BRICK))));
    r.push(Item::Block(BlockKind::Slab(MaterialId(ids::COBBLESTONE))));
    r.push(Item::Block(BlockKind::Slab(MaterialId(ids::PLANKS))));
    r.push(Item::Block(BlockKind::Slab(e.dark_planks)));
    r.push(Item::Block(BlockKind::Slab(e.red_brick)));
    r.push(Item::Block(BlockKind::Slab(e.concrete)));
    r.push(Item::Block(BlockKind::Slab(MaterialId(ids::MARBLE))));
    assert(r@ =~= solids(finite@, *e, COUNT as int) + slabs(*e));
    r.push(Item::Block(BlockKind::Torch));
    r.push(Item::Block(BlockKind::Lantern));
    r.push(Item::Block(BlockKind::Window));
    r.push(Item::Block(BlockKind::CraftingTable));
    r.push(Item::Block(BlockKind::Furnace));
    r.push(Item::Stick);
    r.push(Item::Coal);
    r.push(Item::Charcoal);
    r.push(Item::Flint);
    r.push(Item::Gunpowder);
    r.push(Item::RawIron);
    r.push(Item::RawCopper);
    r.push(Item::RawGold);
    r.push(Item::IronIngot);
    r.push(Item::CopperIngot);
    r.push(Item::GoldIngot);
    r.push(Item::SteelIngot);
    r.push(Item::Bucket);
    r.push(Item::WaterBucket);
    let tiers: [Tier; 4] = [Tier::Wood, Tier::Stone, Tier::Iron, Tier::Steel];
    let ghost so_far = r@;
    let mut t: usize = 0;
    while t < 4
        invariant
            t <= 4,
            tiers@ == seq![Tier::Wood, Tier::Stone, Tier::Iron, Tier::Steel],
            r@.len() == so_far.len() + 3 * t,
            r@.take(so_far.len() as int) =~= so_far,
            forall|k: int|
                0 <= k < t ==> r@[so_far.len() + 3 * k] == Item::Tool(
                    ToolKind::Pickaxe,
                    #[trigger] tiers@[k],
                ) && r@[so_far.len() + 3 * k + 1] == Item::Tool(ToolKind::Axe, tiers@[k])
                    && r@[so_far.len() + 3 * k + 2] == Item::Tool(ToolKind::Shovel, tiers@[k]),
        decreases 4 - t,
    {
        let tier: Tier = tiers[t];
        let ghost before = r@;
        r.push(Item::Tool(ToolKind::Pickaxe, tier));
        r.push(Item::Tool(ToolKind::Axe, tier));
        r.push(Item::Tool(ToolKind::Shovel, tier));
        t += 1;
    }
    proof {
        let n = so_far.len() as int;
        assert(tiers@[0] == Tier::Wood && tiers@[1] == Tier::Stone && tiers@[2] == Tier::Iron
            && tiers@[3] == Tier::Steel);
        assert(forall|j: int| 0 <= j < n ==> r@[j] == r@.take(n)[j]);
        assert(r@ =~= solids(finite@, *e, COUNT as int) + slabs(*e) + wares());
    }
    r
}

spec fn is_solid_below(item: Item, n: int) -> bool {
    item matches Item::Block(BlockKind::Solid(m)) && m.0 < n
}

proof fn lemma_solids(finite: Seq<bool>, e: Extra, n: int)
    requires
        0 <= n <= COUNT,
    ensures
        solids(finite, e, n).len() <= n,
        n >= 1 ==> solids(finite, e, n).len() <= n - 1,
        forall|i: int|
            0 <= i < solids(finite, e, n).len() ==> is_solid_below(#[trigger] solids(finite, e, n)[i], n),
        solids(finite, e, n).no_duplicates(),
    decreases n,
{
    if n > 1 {
        lemma_solids(finite, e, n - 1);
    }
}

/// Every item is listed once, and all of them fit the atlas.
#[verifier::rlimit(60)]
pub proof fn items_are_unique_and_fit(finite: Seq<bool>, e: Extra)
    requires
        finite.len() == COUNT,
        slabs(e).no_duplicates(),
    ensures
        (solids(finite, e, COUNT as int) + slabs(e) + wares()).no_duplicates(),
        (solids(finite, e, COUNT as int) + slabs(e) + wares()).len() <= (ATLAS / CELL) * (ATLAS
            / CELL),
{
    let a = solids(finite, e, COUNT as int);
    let b = slabs(e);
    let c = wares();
    lemma_solids(finite, e, COUNT as int);
    assert(forall|i: int|
        0 <= i < b.len() ==> ((#[trigger] b[i]) matches Item::Block(BlockKind::Slab(_))));
    assert(forall|i: int|
        0 <= i < c.len() ==> !((#[trigger] c[i]) matches Item::Block(BlockKind::Slab(_))) && !(c[i]
            matches Item::Block(BlockKind::Solid(_))));
    assert(c.no_duplicates());
    let all = a + b + c;
    assert(b.len() == 7 && c.len() == 31);
    assert(ATLAS / CELL == 16);
    assert forall|i: int, j: int| 0 <= i < j < all.len() implies all[i] != all[j] by {
        let n = a.len() as int;
        if j < n {
        } else if j < n + 7 {
            assert(all[j] == b[j - n]);
            if i >= n {
                assert(all[i] == b[i - n]);
            } else {
                assert(all[i] == a[i]);
            }
        } else {
            assert(all[j] == c[j - n - 7]);
            if i < n {
                assert(all[i] == a[i]);
            } else if i < n + 7 {
                assert(all[i] == b[i - n]);
            } else {
                assert(all[i] == c[i - n - 7]);
            }
        }
    }
}

#[derive(Clone, Copy, Debug, PartialEq, Eq, Structural)]
pub enum Look {
    Matte,
    Metal,
    Glow,
    Glass,
}

/// How a material takes light.
pub fn look(m: MaterialId, metallic: bool) -> (l: Look)
    ensures
        l == (if entry(m.0).kind is Transparent {
            Look::Glass
        } else if entry(m.0).emissive {
            Look::Glow
        } else if metallic {
            Look::Metal
        } else {
            Look::Matte
        }),
{
    if m.get().kind == Kind::Transparent {
        Look::Glass
    } else if m.is_emissive() {
        Look::Glow
    } else if metallic {
        Look::Metal
    } else {
        Look::Matte
    }
}

/// The voxel model of an item, as far as what fills it: `n` voxels a side,
/// `x + n*(y + n*z)`.
pub struct Model {
    pub n: i32,
    /// Frame the whole grid (full blocks all the same size) rather than just
    /// what is filled.
    pub whole: bool,
    pub cells: Vec<Option<Look>>,
}

impl Model {
    pub open spec fn wf(&self) -> bool {
        0 < self.n <= 64 && self.cells@.len() == self.n * self.n * self.n
    }

    pub open spec fn place(&self, v: IVec3) -> int {
        v.x + self.n * (v.y + self.n * v.z)
    }

    /// What fills voxel `v`: nothing outside the grid.
    pub open spec fn fills(&self, v: IVec3) -> Option<Look> {
        if v.within(self.n as int) {
            self.cells@[self.place(v)]
        } else {
            None
        }
    }

    proof fn lemma_place(&self, v: IVec3)
        requires
            self.wf(),
            v.within(self.n as int),
        ensures
            0 <= self.n * v.z <= self.n * (self.n - 1),
            0 <= self.n * (v.y + self.n * v.z) <= self.n * (self.n * self.n - 1),
            0 <= self.place(v) < self.n * self.n * self.n,
            self.n * self.n * self.n <= 262144,
    {
        let n = self.n as int;
        assert(0 <= n * v.z <= n * (n - 1)) by (nonlinear_arith)
            requires
                0 <= v.z <= n - 1,
                0 < n,
        ;
        assert(n * (n - 1) == n * n - n) by (nonlinear_arith);
        let a = v.y + n * v.z;
        assert(0 <= a <= n * n - 1);
        assert(0 <= n * a <= n * (n * n - 1)) by (nonlinear_arith)
            requires
                0 <= a <= n * n - 1,
                0 < n,
        ;
        assert(n * (n * n - 1) == n * n * n - n) by (nonlinear_arith);
        assert(n * n <= 4096) by (nonlinear_arith)
            requires
                0 < n <= 64,
        ;
        assert(n * n * n <= 262144) by (nonlinear_arith)
            requires
                n * n <= 4096,
                0 < n <= 64,
                0 <= n * n,
        ;
    }

    pub fn at(&self, v: IVec3) -> (c: Option<Look>)
        requires
            self.wf(),
        ensures
            c == self.fills(v),
    {
        let n: i32 = self.n;
        if v.x < 0 || v.y < 0 || v.z < 0 || v.x >= n || v.y >= n || v.z >= n {
            return None;
        }
        proof {
            self.lemma_place(v);
            assert(n * n <= 4096 && n * n * n <= 262144) by (nonlinear_arith)
                requires
                    0 < n <= 64,
            ;
            assert(n * (n * n - 1) <= 262144) by (nonlinear_arith)
                requires
                    0 < n <= 64,
            ;
            assert(n * (n - 1) <= 4096) by (nonlinear_arith)
                requires
                    0 < n <= 64,
            ;
        }
        self.cells[(v.x + n * (v.y + n * v.z)) as usize]
    }

    /// Filled, and not with glass.
    pub open spec fn blocks(&self, v: IVec3) -> bool {
        self.fills(v) matches Some(l) && !(l is Glass)
    }

    pub fn opaque(&self, v: IVec3) -> (b: bool)
        requires
            self.wf(),
        ensures
            b == self.blocks(v),
    {
        match self.at(v) {
            Some(l) => l != Look::Glass,
            None => false,
        }
    }

    /// Filled bounds, the upper ones not included, in voxels.
    pub fn bounds(&self) -> (r: (IVec3, IVec3))
        requires
            self.wf(),
        ensures
            self.whole ==> r.0 == (IVec3 { x: 0, y: 0, z: 0 }) && r.1 == (IVec3 {
                x: self.n,
                y: self.n,
                z: self.n,
            }),
            !self.whole ==> forall|v: IVec3|
                (#[trigger] self.fills(v)) is Some ==> r.0.x <= v.x < r.1.x && r.0.y <= v.y < r.1.y
                    && r.0.z <= v.z < r.1.z,
            !self.whole && (exists|v: IVec3| (#[trigger] self.fills(v)) is Some) ==> {
                &&& exists|v: IVec3| (#[trigger] self.fills(v)) is Some && v.x == r.0.x
                &&& exists|v: IVec3| (#[trigger] self.fills(v)) is Some && v.y == r.0.y
                &&& exists|v: IVec3| (#[trigger] self.fills(v)) is Some && v.z == r.0.z
                &&& exists|v: IVec3| (#[trigger] self.fills(v)) is Some && v.x == r.1.x - 1
                &&& exists|v: IVec3| (#[trigger] self.fills(v)) is Some && v.y == r.1.y - 1
                &&& exists|v: IVec3| (#[trigger] self.fills(v)) is Some && v.z == r.1.z - 1
            },
            !self.whole && !(exists|v: IVec3| (#[trigger] self.fills(v)) is Some) ==> r.0 == (
            IVec3 { x: self.n, y: self.n, z: self.n }) && r.1 == (IVec3 { x: 0, y: 0, z: 0 }),
    {
        let n: i32 = self.n;
        if self.whole {
            return (IVec3 { x: 0, y: 0, z: 0 }, IVec3 { x: n, y: n, z: n });
        }
        let mut lo: IVec3 = IVec3 { x: n, y: n, z: n };
        let mut hi: IVec3 = IVec3 { x: 0, y: 0, z: 0 };
        // A filled voxel at each bound, once any is filled.
        let ghost mut at: (IVec3, IVec3, IVec3, IVec3, IVec3, IVec3) = (lo, lo, lo, lo, lo, lo);
        let ghost mut any = false;
        let mut z: i32 = 0;
        while z < n
            invariant
                self.wf(),
                n == self.n,
                !self.whole,
                0 <= z <= n,
                self.bounded(lo, hi, at, any),
                forall|v: IVec3|
                    (#[trigger] self.fills(v)) is Some && v.z < z ==> any && lo.x <= v.x < hi.x
                        && lo.y <= v.y < hi.y && lo.z <= v.z < hi.z,
            decreases n - z,
        {
            let mut y: i32 = 0;
            while y < n
                invariant
                    self.wf(),
                    n == self.n,
                    !self.whole,
                    0 <= z < n,
                    0 <= y <= n,
                    self.bounded(lo, hi, at, any),
                    forall|v: IVec3|
                        (#[trigger] self.fills(v)) is Some && (v.z < z || v.z == z && v.y < y)
                            ==> any && lo.x <= v.x < hi.x && lo.y <= v.y < hi.y && lo.z <= v.z
                            < hi.z,
                decreases n - y,
            {
                let mut x: i32 = 0;
                while x < n
                    invariant
                        self.wf(),
                        n == self.n,
                        !self.whole,
                        0 <= z < n,
                        0 <= y < n,
                        0 <= x <= n,
                        self.bounded(lo, hi, at, any),
                        forall|v: IVec3|
                            (#[trigger] self.fills(v)) is Some && (v.z < z || v.z == z && (v.y < y
                                || v.y == y && v.x < x)) ==> any && lo.x <= v.x < hi.x && lo.y
                                <= v.y < hi.y && lo.z <= v.z < hi.z,
                    decreases n - x,
                {
                    let v: IVec3 = IVec3 { x, y, z };
                    if self.at(v).is_some() {
                        proof {
                            at =
                            (
                                if x < lo.x { v } else { at.0 },
                                if y < lo.y { v } else { at.1 },
                                if z < lo.z { v } else { at.2 },
                                if x + 1 > hi.x { v } else { at.3 },
                                if y + 1 > hi.y { v } else { at.4 },
                                if z + 1 > hi.z { v } else { at.5 },
                            );
                            any = true;
                        }
                        lo = lo.min(v);
                        hi = hi.max(IVec3 { x: x + 1, y: y + 1, z: z + 1 });
                    }
                    x += 1;
                }
                y += 1;
            }
            z += 1;
        }
        proof {
            if any {
                assert(self.fills(at.0) is Some && self.fills(at.1) is Some && self.fills(at.2)
                    is Some && self.fills(at.3) is Some && self.fills(at.4) is Some && self.fills(
                    at.5,
                ) is Some);
            }
        }
        (lo, hi)
    }

    spec fn bounded(
        &self,
        lo: IVec3,
        hi: IVec3,
        at: (IVec3, IVec3, IVec3, IVec3, IVec3, IVec3),
        any: bool,
    ) -> bool {
        if any {
            &&& self.fills(at.0) is Some && at.0.x == lo.x
            &&& self.fills(at.1) is Some && at.1.y == lo.y
            &&& self.fills(at.2) is Some && at.2.z == lo.z
            &&& self.fills(at.3) is Some && at.3.x == hi.x - 1
            &&& self.fills(at.4) is Some && at.4.y == hi.y - 1
            &&& self.fills(at.5) is Some && at.5.z == hi.z - 1
        } else {
            lo == (IVec3 { x: self.n, y: self.n, z: self.n }) && hi == (IVec3 {
                x: 0,
                y: 0,
                z: 0,
            })
        }
    }
}

pub open spec fn offset(v: IVec3, d: (int, int, int)) -> IVec3 {
    IVec3 { x: (v.x + d.0) as i32, y: (v.y + d.1) as i32, z: (v.z + d.2) as i32 }
}

/// The voxel `i` steps along one axis of a face and `j` along the other.
pub open spec fn beside(f: IVec3, nrm: IVec3, i: int, j: int) -> IVec3 {
    if nrm.x != 0 {
        offset(f, (0, i, j))
    } else if nrm.y != 0 {
        offset(f, (i, 0, j))
    } else {
        offset(f, (i, j, 0))
    }
}

/// What the neighbour `i` steps along one axis of a face and `j` along the
/// other shuts out, in hundredths: those beside it more than those across its
/// corners.
pub open spec fn shuts(model: Model, f: IVec3, nrm: IVec3, i: int, j: int) -> int {
    if model.blocks(beside(f, nrm, i, j)) {
        if i == 0 || j == 0 {
            8
        } else {
            4
        }
    } else {
        0
    }
}

fn shut(model: &Model, f: IVec3, nrm: IVec3, i: i32, j: i32) -> (r: i32)
    requires
        model.wf(),
        -1 <= f.x <= 64 && -1 <= f.y <= 64 && -1 <= f.z <= 64,
        -1 <= i <= 1,
        -1 <= j <= 1,
    ensures
        r == shuts(*model, f, nrm, i as int, j as int),
        0 <= r <= 8,
{
    let at: IVec3 = if nrm.x != 0 {
        IVec3 { x: f.x, y: f.y + i, z: f.z + j }
    } else if nrm.y != 0 {
        IVec3 { x: f.x + i, y: f.y, z: f.z + j }
    } else {
        IVec3 { x: f.x + i, y: f.y + j, z: f.z }
    };
    if !model.opaque(at) {
        0
    } else if i == 0 || j == 0 {
        8
    } else {
        4
    }
}

/// Ambient occlusion: how open the space in front of a face is, in
/// hundredths.
pub fn occlusion(model: &Model, v: IVec3, nrm: IVec3) -> (r: i32)
    requires
        model.wf(),
        v.within(64),
        -1 <= nrm.x <= 1 && -1 <= nrm.y <= 1 && -1 <= nrm.z <= 1,
    ensures
        ({
            let f = offset(v, (nrm.x as int, nrm.y as int, nrm.z as int));
            r == 100 - shuts(*model, f, nrm, 1, 0) - shuts(*model, f, nrm, -1, 0) - shuts(
                *model,
                f,
                nrm,
                0,
                1,
            ) - shuts(*model, f, nrm, 0, -1) - shuts(*model, f, nrm, 1, 1) - shuts(
                *model,
                f,
                nrm,
                1,
                -1,
            ) - shuts(*model, f, nrm, -1, 1) - shuts(*model, f, nrm, -1, -1)
        }),
        36 <= r <= 100,
{
    let f: IVec3 = IVec3 { x: v.x + nrm.x, y: v.y + nrm.y, z: v.z + nrm.z };
    100 - shut(model, f, nrm, 1, 0) - shut(model, f, nrm, -1, 0) - shut(model, f, nrm, 0, 1) - shut(
        model,
        f,
        nrm,
        0,
        -1,
    ) - shut(model, f, nrm, 1, 1) - shut(model, f, nrm, 1, -1) - shut(model, f, nrm, -1, 1) - shut(
        model,
        f,
        nrm,
        -1,
        -1,
    )
}

/// Whether a glass face shows its frame, at the block's edges, and whether
/// the diagonal glare.
pub fn glass(n: i32, v: IVec3, nrm: IVec3) -> (r: (bool, bool))
    requires
        v.within(64),
    ensures
        r.0 == (nrm.x == 0 && (v.x == 0 || v.x == n - 1) || nrm.y == 0 && (v.y == 0 || v.y == n - 1)
            || nrm.z == 0 && (v.z == 0 || v.z == n - 1)),
        r.1 == ((on_face(v, nrm).0 + on_face(v, nrm).1) % 11 < 2),
{
    let frame: bool = nrm.x == 0 && (v.x == 0 || v.x as i64 == n as i64 - 1) || nrm.y == 0 && (v.y
        == 0 || v.y as i64 == n as i64 - 1) || nrm.z == 0 && (v.z == 0 || v.z as i64 == n as i64
        - 1);
    let (u, w): (i32, i32) = plane(v, nrm);
    (frame, (u + w) % 11 < 2)
}

/// What a ray does with the cell it is in.
#[derive(Clone, Copy, Debug, PartialEq, Eq, Structural)]
pub enum Meets {
    /// Goes on.
    Nothing,
    /// Takes on the colour of a pane and goes on.
    Pane,
    /// Ends.
    Solid,
}

/// What a ray meets in a cell, and whether it is in glass afterwards: a pane
/// counts where the ray enters it.
pub fn meets(cell: Option<Look>, in_glass: bool) -> (r: (Meets, bool))
    ensures
        r == match cell {
            None => (Meets::Nothing, false),
            Some(Look::Glass) => (
                if in_glass {
                    Meets::Nothing
                } else {
                    Meets::Pane
                },
                true,
            ),
            Some(_) => (Meets::Solid, in_glass),
        },
{
    match cell {
        None => (Meets::Nothing, false),
        Some(Look::Glass) => (
            if in_glass {
                Meets::Nothing
            } else {
                Meets::Pane
            },
            true,
        ),
        Some(_) => (Meets::Solid, in_glass),
    }
}

/// The axis a ray crosses next, from how far along it each is.
pub fn next_axis(side: Key3) -> (a: usize)
    ensures
        a == (if side.x < side.y && side.x < side.z {
            0int
        } else if side.y < side.z {
            1
        } else {
            2
        }),
        a == 0 ==> side.x <= side.y && side.x <= side.z,
        a == 1 ==> side.y <= side.x && side.y <= side.z,
        a == 2 ==> side.z <= side.x && side.z <= side.y,
{
    if side.x < side.y && side.x < side.z {
        0
    } else if side.y < side.z {
        1
    } else {
        2
    }
}

/// A voxel of a block of grass: a turf top over dirt, its edge ragged.
pub fn grass_voxel(v: IVec3) -> (m: MaterialId)
    ensures
        m.0 == (if v.y >= 13 || v.y == 12 && drawn(v.x, 0, v.z, 22) > 8388608 {
            ids::GRASS
        } else {
            ids::DIRT
        }),
{
    let top: i32 = if hash24(v.x, 0, v.z, 22) > 8388608 {
        12
    } else {
        13
    };
    if v.y >= top {
        MaterialId(ids::GRASS)
    } else {
        MaterialId(ids::DIRT)
    }
}

/// Foliage blocks are leafy all through, with gaps.
pub fn leafy(v: IVec3) -> (b: bool)
    ensures
        b == (drawn(v.x, v.y, v.z, 23) > 3019899),
{
    hash24(v.x, v.y, v.z, 23) > 3019899
}

/// First byte of pixel (x, y) of icon `i` in the atlas.
pub open spec fn atlas_byte(i: int, x: int, y: int) -> int {
    ((i / 16 * 64 + y) * 1024 + i % 16 * 64 + x) * 4
}

/// Icons do not overlap in the atlas: no two pixels of them share a byte.
pub proof fn icons_do_not_overlap(i: int, x: int, y: int, j: int, u: int, v: int)
    requires
        0 <= i < 256,
        0 <= j < 256,
        0 <= x < 64,
        0 <= y < 64,
        0 <= u < 64,
        0 <= v < 64,
        atlas_byte(i, x, y) == atlas_byte(j, u, v),
    ensures
        i == j,
        x == u,
        y == v,
{
    let (a, b) = (i % 16 * 64 + x, j % 16 * 64 + u);
    assert(0 <= a < 1024 && 0 <= b < 1024);
    assert(i / 16 * 64 + y == j / 16 * 64 + v);
}

/// Copies icon `i` into the atlas.
pub fn blit(pixels: &mut Vec<u8>, i: u32, icon: &Vec<u8>)
    requires
        old(pixels)@.len() == 4194304,
        icon@.len() == 16384,
        i < 256,
    ensures
        final(pixels)@.len() == 4194304,
        forall|x: int, y: int, c: int|
            0 <= x < 64 && 0 <= y < 64 && 0 <= c < 4 ==> #[trigger] final(pixels)@[in_atlas(
                i as int,
                x,
                y,
                c,
            )] == icon@[(y * 64 + x) * 4 + c],
        forall|k: int|
            0 <= k < 4194304 && !of_icon(i as int, k) ==> #[trigger] final(pixels)@[k] == old(
                pixels,
            )@[k],
{
    let (cx, cy): (u32, u32) = (i % 16, i / 16);
    let mut y: u32 = 0;
    while y < 64
        invariant
            y <= 64,
            i < 256,
            cx == i % 16,
            cy == i / 16,
            icon@.len() == 16384,
            pixels@.len() == 4194304,
            forall|a: int, b: int, c: int|
                0 <= a < 64 && 0 <= b < y && 0 <= c < 4 ==> #[trigger] pixels@[in_atlas(
                    i as int,
                    a,
                    b,
                    c,
                )] == icon@[(b * 64 + a) * 4 + c],
            forall|k: int|
                0 <= k < 4194304 && !of_icon(i as int, k) ==> #[trigger] pixels@[k] == old(
                    pixels,
                )@[k],
        decreases 64 - y,
    {
        let src: usize = (y * 256) as usize;
        let dst: usize = (((cy * 64 + y) * 1024 + cx * 64) * 4) as usize;
        let mut k: usize = 0;
        while k < 256
            invariant
                k <= 256,
                y < 64,
                i < 256,
                src == y * 256,
                dst == ((i as int / 16 * 64 + y) * 1024 + i as int % 16 * 64) * 4,
                dst + 256 <= 4194304,
                icon@.len() == 16384,
                pixels@.len() == 4194304,
                forall|a: int, b: int, c: int|
                    0 <= a < 64 && 0 <= b < y && 0 <= c < 4 ==> #[trigger] pixels@[in_atlas(
                        i as int,
                        a,
                        b,
                        c,
                    )] == icon@[(b * 64 + a) * 4 + c],
                forall|j: int| 0 <= j < k ==> #[trigger] pixels@[dst + j] == icon@[src + j],
                forall|j: int|
                    0 <= j < 4194304 && !of_icon(i as int, j) ==> #[trigger] pixels@[j] == old(
                        pixels,
                    )@[j],
            decreases 256 - k,
        {
            let ghost before = pixels@;
            pixels.set(dst + k, icon[src + k]);
            proof {
                let at = dst + k as int;
                let (a, c) = (k as int / 4, k as int % 4);
                assert(at == in_atlas(i as int, a, y as int, c));
                assert(of_icon(i as int, at));
                assert forall|p: int, q: int, r: int|
                    0 <= p < 64 && 0 <= q < y && 0 <= r < 4 implies #[trigger] pixels@[in_atlas(
                    i as int,
                    p,
                    q,
                    r,
                )] == icon@[(q * 64 + p) * 4 + r] by {
                    lemma_row(i as int, p, q, r, y as int, k as int);
                    assert(before[in_atlas(i as int, p, q, r)] == icon@[(q * 64 + p) * 4 + r]);
                }
                assert forall|j: int| 0 <= j < k + 1 implies #[trigger] pixels@[dst + j]
                    == icon@[src + j] by {
                    if j < k {
                        assert(before[dst + j] == icon@[src + j]);
                    }
                }
            }
            k += 1;
        }
        proof {
            assert forall|a: int, b: int, c: int|
                0 <= a < 64 && 0 <= b < y + 1 && 0 <= c < 4 implies #[trigger] pixels@[in_atlas(
                i as int,
                a,
                b,
                c,
            )] == icon@[(b * 64 + a) * 4 + c] by {
                if b == y {
                    let j = a * 4 + c;
                    assert(in_atlas(i as int, a, b, c) == dst + j);
                    assert(pixels@[dst + j] == icon@[src + j]);
                }
            }
        }
        y += 1;
    }
}

/// Byte `c` of pixel (x, y) of icon `i`.
pub open spec fn in_atlas(i: int, x: int, y: int, c: int) -> int {
    atlas_byte(i, x, y) + c
}

/// Byte `k` of the atlas belongs to icon `i`.
pub open spec fn of_icon(i: int, k: int) -> bool {
    exists|x: int, y: int, c: int|
        0 <= x < 64 && 0 <= y < 64 && 0 <= c < 4 && k == #[trigger] in_atlas(i, x, y, c)
}

proof fn lemma_row(i: int, p: int, q: int, r: int, y: int, k: int)
    requires
        0 <= i < 256,
        0 <= p < 64,
        0 <= q < y < 64,
        0 <= r < 4,
        0 <= k < 256,
    ensures
        in_atlas(i, p, q, r) < ((i / 16 * 64 + y) * 1024 + i % 16 * 64) * 4 + k,
        0 <= in_atlas(i, p, q, r) < 4194304,
{
    assert((i / 16 * 64 + q) * 1024 + 1024 <= (i / 16 * 64 + y) * 1024);
}

/// Materials that are only known by their names, all past the numbered ones.
pub open spec fn past_the_table(e: Extra) -> bool {
    &&& e.birch_log.0 > 50 && e.birch_leaves.0 > 50 && e.moss.0 > 50 && e.cactus.0 > 50
    &&& e.dark_planks.0 > 50 && e.red_brick.0 > 50 && e.concrete.0 > 50 && e.asphalt.0 > 50
    &&& e.thatch.0 > 50
}

/// Each numbered material has its own skin: turf, clods, logs, boards, bricks,
/// cobbles, ores, plates, tiles, pebbles, veins, flecks and beds, and grain
/// for the rest.
pub proof fn materials_have_their_skin(m: MaterialId, e: Extra)
    requires
        past_the_table(e),
        m.0 <= 50,
    ensures
        skin(m, e) is Turf <==> m.0 == 9,
        skin(m, e) is Clods <==> m.0 == 8 || m.0 == 38 || m.0 == 48,
        skin(m, e) is Log <==> m.0 == 19 || m.0 == 20,
        skin(m, e) is Boards <==> m.0 == 21,
        skin(m, e) is Bricks <==> m.0 == 27,
        skin(m, e) is Cobbles <==> m.0 == 26,
        skin(m, e) is Ore <==> 28 <= m.0 <= 31,
        skin(m, e) is Tnt <==> m.0 == 35,
        skin(m, e) is Plates <==> m.0 == 34 || m.0 == 42,
        skin(m, e) is Tiles <==> m.0 == 39,
        skin(m, e) is Pebbles <==> m.0 == 11,
        skin(m, e) is Marble <==> m.0 == 6,
        skin(m, e) is Flecked <==> m.0 == 1 || m.0 == 44,
        skin(m, e) is Bedded <==> m.0 == 3 || m.0 == 4 || m.0 == 5 || m.0 == 7 || m.0 == 47,
        skin(m, e) is Obsidian <==> m.0 == 17,
        skin(m, e) == Skin::Grain(12) <==> m.0 == 10 || m.0 == 12 || m.0 == 13 || m.0 == 40 || m.0
            == 46,
        skin(m, e) == Skin::Grain(18) <==> m.0 == 41,
        skin(m, e) == Skin::Grain(60) <==> m.0 == 22 || m.0 == 23,
        skin(m, e) matches Skin::Bricks { w, h, pale } ==> w == 8 && h == 4 && !pale,
        skin(m, e) matches Skin::Grain(g) ==> g == 12 || g == 16 || g == 18 || g == 60,
{
}

/// A face is seen by its two own axes: height is up on walls, and depth on
/// tops and bottoms.
pub proof fn faces_have_their_axes(v: IVec3, nrm: IVec3)
    ensures
        nrm.y != 0 ==> on_face(v, nrm) == (v.x, v.z),
        nrm.y == 0 ==> on_face(v, nrm).1 == v.y,
        nrm.y == 0 && nrm.x != 0 ==> on_face(v, nrm).0 == v.z,
        nrm.y == 0 && nrm.x == 0 ==> on_face(v, nrm).0 == v.x,
{
}

/// Bricks are parted by a course of mortar every `h` voxels and joints every
/// `w`, half a brick over in every other row; one brick is of one shade.
pub proof fn bricks_are_parted_by_mortar(
    m: MaterialId,
    u: int,
    v: int,
    w: int,
    h: int,
    pale: bool,
    x: int,
)
    requires
        w >= 2,
        h >= 2,
        u >= 0,
        v >= 0,
        x >= 0,
    ensures
        ({
            let p = brickwork(m, u, v, w, h, pale);
            let row = v / h;
            let over = if row % 2 == 0 {
                0int
            } else {
                w / 2
            };
            let joint = v % h == 0 || (u + over) % w == 0;
            &&& joint && pale ==> p == (Paint::Plain { r: 55, g: 53, b: 50 })
            &&& joint && !pale ==> p == (Paint::Shade {
                of: m,
                scale: 100,
                a: 55,
                b: 0,
                draw: 0,
                c: 0,
            })
            &&& !joint ==> (p matches Paint::Shade { of, scale, a, b, c, .. } && of == m && scale
                == 100 && a == 85 && b == 30 && c == 8)
            &&& !joint && x / h == row && x % h != 0 ==> brickwork(m, u, x, w, h, pale) == p
        }),
{
    let row = v / h;
    if row % 2 == 0 {
        assert(row % 2 * (w / 2) == 0) by (nonlinear_arith)
            requires
                row % 2 == 0,
        ;
    } else {
        assert(row % 2 * (w / 2) == w / 2) by (nonlinear_arith)
            requires
                row % 2 == 1,
        ;
    }
}

/// The letters on a block of TNT: two cross strokes of three voxels over a
/// stem at either end, and a slanted letter of four between them.
pub proof fn letters_read_tnt(col: int)
    requires
        0 <= col < 12,
    ensures
        tnt_ink(0, col) <==> col <= 2 || col == 4 || col == 7 || 9 <= col,
        tnt_ink(1, col) <==> col == 1 || col == 4 || col == 5 || col == 7 || col == 10,
        tnt_ink(2, col) <==> col == 1 || col == 4 || col == 6 || col == 7 || col == 10,
        tnt_ink(3, col) <==> col == 1 || col == 4 || col == 7 || col == 10,
{
    assert forall|c: u32| c < 12 implies #[trigger] lit_bit(0b1110_1001_0111, c) == (c >= 9 || c
        == 7 || c == 4 || c <= 2) && lit_bit(0b0100_1101_0010, c) == (c == 10 || c == 7 || c == 6
        || c == 4 || c == 1) && lit_bit(0b0100_1011_0010, c) == (c == 10 || c == 7 || c == 5 || c
        == 4 || c == 1) && lit_bit(0b0100_1001_0010, c) == (c == 10 || c == 7 || c == 4 || c
        == 1) by {
        assert(((0b1110_1001_0111u32 >> c) & 1 == 1) == (c >= 9 || c == 7 || c == 4 || c <= 2))
            by (bit_vector)
            requires
                c < 12,
        ;
        assert(((0b0100_1101_0010u32 >> c) & 1 == 1) == (c == 10 || c == 7 || c == 6 || c == 4 || c
            == 1)) by (bit_vector)
            requires
                c < 12,
        ;
        assert(((0b0100_1011_0010u32 >> c) & 1 == 1) == (c == 10 || c == 7 || c == 5 || c == 4 || c
            == 1)) by (bit_vector)
            requires
                c < 12,
        ;
        assert(((0b0100_1001_0010u32 >> c) & 1 == 1) == (c == 10 || c == 7 || c == 4 || c == 1))
            by (bit_vector)
            requires
                c < 12,
        ;
    }
    let c = (11 - col) as u32;
    assert(lit_bit(0b1110_1001_0111, c) == (c >= 9 || c == 7 || c == 4 || c <= 2));
}

/// Bit `c` of a row of letters.
pub open spec fn lit_bit(row: u32, c: u32) -> bool {
    (row >> c) & 1 == 1
}

/// A wall of TNT has a paper band from 5 to 10 voxels up with the letters in
/// its middle, dark on pale, in reading order on every side; above and below
/// it shows sticks four voxels wide.
pub proof fn tnt_is_labelled(m: MaterialId, u: int, w: int, nrm: IVec3)
    requires
        0 <= u < 16,
        0 <= w < 16,
    ensures
        ({
            let p = tnt_wall(m, u, w, nrm);
            let from_left = if nrm.x > 0 || nrm.z < 0 {
                15 - u
            } else {
                u
            };
            let band = 5 <= w <= 10;
            let ink = 6 <= w <= 9 && 2 <= from_left <= 13 && tnt_ink(9 - w, from_left - 2);
            &&& band && ink ==> p == (Paint::Plain { r: 2, g: 2, b: 2 })
            &&& band && !ink ==> p == (Paint::Plain { r: 85, g: 83, b: 78 })
            &&& !band ==> (p matches Paint::Shade { of, a, .. } && of == m && (a == 70 <==> from_left
                % 4 == 0) && (a == 100 <==> from_left % 4 != 0))
        }),
{
}

/// A player can hold leaves, needles and moss of what is alpha tested, no air
/// and no liquid, and of the rest what can be broken but for embers, ash,
/// lantern glass and cooling rock.
pub proof fn hands_hold_what_breaks(m: MaterialId, finite: bool, e: Extra)
    requires
        past_the_table(e),
        m.0 <= 50,
    ensures
        can_hold(m, finite, e) ==> m.0 != 0 && m.0 != 15 && m.0 != 16,
        m.0 == 22 || m.0 == 23 ==> can_hold(m, finite, e),
        m.0 == 32 || m.0 == 36 || m.0 == 49 ==> !can_hold(m, finite, e),
        m.0 == 25 || m.0 == 33 || m.0 == 37 || m.0 == 50 ==> !can_hold(m, finite, e),
        1 <= m.0 <= 49 && m.0 != 15 && m.0 != 16 && m.0 != 22 && m.0 != 23 && m.0 != 25 && m.0 != 32
            && m.0 != 33 && m.0 != 36 && m.0 != 37 && m.0 != 49 ==> (can_hold(m, finite, e)
            <==> finite),
{
}

/// A neighbour in front of a face shuts out eight hundredths beside it and
/// four across a corner, if it is filled with anything but glass.
pub proof fn neighbours_shut_out_light(model: Model, f: IVec3, nrm: IVec3, i: int, j: int)
    ensures
        shuts(model, f, nrm, i, j) == 8 <==> model.blocks(beside(f, nrm, i, j)) && (i == 0 || j
            == 0),
        shuts(model, f, nrm, i, j) == 4 <==> model.blocks(beside(f, nrm, i, j)) && i != 0 && j != 0,
        shuts(model, f, nrm, i, j) == 0 <==> !model.blocks(beside(f, nrm, i, j)),
{
}

/// Icons stand sixteen to a row of 64 pixels each, four bytes to a pixel.
pub proof fn icons_stand_in_rows(i: int, x: int, y: int)
    requires
        0 <= i < 256,
        0 <= x < 64,
        0 <= y < 64,
    ensures
        atlas_byte(i, x, y) % 4 == 0,
        atlas_byte(i, x, y) / 4 % 1024 == 64 * (i % 16) + x,
        atlas_byte(i, x, y) / 4096 == 64 * (i / 16) + y,
{
}

/// How much of its material's colour a paint takes, in hundredths; none for
/// paints of their own.
pub open spec fn strength(p: Paint, m: MaterialId) -> Option<int> {
    match p {
        Paint::Shade { of, scale, a, .. } => if of == m && scale == 100 {
            Some(a as int)
        } else {
            None
        },
        _ => None,
    }
}

/// Made things show how they are made. Boards have a dark seam every four
/// voxels up, tiles one every three; plates eight voxels square have dark
/// seams and bright rivets in their corners; cobbles have gaps only where
/// their rows or columns break.
pub proof fn made_things_show_their_seams(m: MaterialId, e: Extra, v: IVec3, nrm: IVec3)
    requires
        v.within(16),
        past_the_table(e),
        m.0 <= 50,
    ensures
        ({
            let p = shown(m, e, v, nrm);
            let (u, w) = on_face(v, nrm);
            &&& m.0 == 21 ==> (strength(p, m) == Some(62int) <==> w as int % 4 == 0) && (p is Board
                <==> w as int % 4 != 0)
            &&& m.0 == 39 ==> (strength(p, m) == Some(55int) <==> w as int % 3 == 0) && (strength(p, m)
                == Some(85int) <==> w as int % 3 != 0)
            &&& m.0 == 34 || m.0 == 42 ==> {
                let rivet = (u as int % 8 == 1 || u as int % 8 == 6) && (w as int % 8 == 1 || w as int
                    % 8 == 6);
                let seam = u as int % 8 == 0 || w as int % 8 == 0;
                &&& seam <==> strength(p, m) == Some(60int)
                &&& rivet <==> strength(p, m) == Some(130int)
                &&& !seam && !rivet <==> strength(p, m) == Some(100int)
            }
            &&& m.0 == 26 ==> (strength(p, m) == Some(50int) || strength(p, m) == Some(75int)) && (
            strength(p, m) == Some(50int) ==> u as int % 5 == 0 || w as int % 4 == 0)
        }),
{
}

/// The end of a log shows its rings within a round of bark, paler in oak than
/// in pine; its sides show only bark.
pub proof fn logs_show_rings_at_their_ends(m: MaterialId, e: Extra, v: IVec3, nrm: IVec3)
    requires
        v.within(16),
        past_the_table(e),
        m.0 == 19 || m.0 == 20,
    ensures
        ({
            let p = shown(m, e, v, nrm);
            let (u, w) = on_face(v, nrm);
            let far = (2 * u - 15) * (2 * u - 15) + (2 * w - 15) * (2 * w - 15);
            &&& p is Rings <==> nrm.y != 0 && far <= 174
            &&& nrm.y != 0 && far > 174 ==> strength(p, m) == Some(75int)
            &&& nrm.y == 0 ==> strength(p, m) == Some(65int)
            &&& p matches Paint::Rings { of, scale, quarters } ==> of.0 == 21 && quarters == far && (
            scale == 80 <==> m.0 == 20) && (scale == 100 <==> m.0 == 19)
        }),
{
    let (u, w) = on_face(v, nrm);
    let (a, b) = (2 * u - 15, 2 * w - 15);
    lemma_square(a);
    lemma_square(b);
    assert(from_core(u as int, w as int) == a * a + b * b);
}

proof fn lemma_square(a: int)
    requires
        -15 <= a <= 15,
    ensures
        0 <= a * a <= 225,
{
    assert(0 <= a * a <= 225) by (nonlinear_arith)
        requires
            -15 <= a <= 15,
    ;
}

/// An ore is mostly its host, shale for coal and sandstone for the rest, with
/// specks of its own colour where both of two draws allow it.
pub proof fn ores_are_specked(m: MaterialId, e: Extra, v: IVec3, nrm: IVec3)
    requires
        v.within(16),
        past_the_table(e),
        28 <= m.0 <= 31,
    ensures
        ({
            let p = shown(m, e, v, nrm);
            let coarse = drawn((v.x / 2) as i32, (v.y / 2) as i32, (v.z / 2) as i32, 11);
            let speck = coarse > 12079596 && drawn(v.x, v.y, v.z, 12) > 4194304;
            &&& p is Plain <==> speck
            &&& p matches Paint::Plain { r, g, b } ==> (m.0 == 28 ==> r == 2 && g == 2 && b == 2) && (
            m.0 == 29 ==> r > g && g > b) && (m.0 == 30 ==> g > b && b > r) && (m.0 == 31 ==> r > g
                && g > 2 * b)
            &&& p matches Paint::Shade { of, scale, .. } ==> (m.0 == 28 ==> of.0 == 5 && scale == 140)
                && (m.0 != 28 ==> of.0 == 4 && scale == 80)
        }),
{
}

/// Bedded rock is of one shade along each bed of three voxels, flecked rock
/// has dark and bright specks, obsidian violet ones, and the top of TNT a
/// fuse in its middle.
pub proof fn rocks_show_their_grain(
    m: MaterialId,
    e: Extra,
    v: IVec3,
    x: IVec3,
    nrm: IVec3,
)
    requires
        v.within(16),
        x.within(16),
        past_the_table(e),
        m.0 <= 50,
    ensures
        (m.0 == 3 || m.0 == 4 || m.0 == 5 || m.0 == 7 || m.0 == 47) && v.y as int / 3 == x.y as int
            / 3 ==> shown(m, e, v, nrm) == shown(m, e, x, nrm),
        m.0 == 1 || m.0 == 44 ==> {
            let d = drawn(v.x, v.y, v.z, 19);
            &&& shown(m, e, v, nrm) == (Paint::Plain { r: 8, g: 8, b: 8 }) <==> d > 15099494
            &&& strength(shown(m, e, v, nrm), m) == Some(150int) <==> d <= 1677721
        },
        m.0 == 17 ==> (shown(m, e, v, nrm) is Plain <==> drawn(v.x, v.y, v.z, 21) > 15099494),
        m.0 == 6 ==> shown(m, e, v, nrm) is Vein,
        m.0 == 35 && nrm.y != 0 ==> {
            let (u, w) = on_face(v, nrm);
            let far = (2 * u - 15) * (2 * u - 15) + (2 * w - 15) * (2 * w - 15);
            &&& shown(m, e, v, nrm) == (Paint::Plain { r: 3, g: 3, b: 3 }) <==> far < 9
            &&& shown(m, e, v, nrm) is Shade <==> far >= 36
        },
        m.0 == 9 ==> strength(shown(m, e, v, nrm), m) == Some(85int),
        m.0 == 11 ==> strength(shown(m, e, v, nrm), m) == Some(60int),
        m.0 == 10 || m.0 == 41 || m.0 == 22 || m.0 == 18 ==> strength(shown(m, e, v, nrm), m)
            == Some(100int),
{
}

/// Every material but air that can be held is among the blocks with an icon,
/// and nothing else is.
pub proof fn holdable_blocks_have_icons(finite: Seq<bool>, e: Extra, n: int, m: u16)
    requires
        0 <= n <= 0x1_0000,
    ensures
        solids(finite, e, n).contains(solid_item(MaterialId(m))) <==> 1 <= m < n && can_hold(
            MaterialId(m),
            finite[m as int],
            e,
        ),
        forall|i: int|
            0 <= i < solids(finite, e, n).len() ==> (#[trigger] solids(finite, e, n)[i]
                matches Item::Block(BlockKind::Solid(_))),
    decreases n,
{
    if n > 1 {
        holdable_blocks_have_icons(finite, e, n - 1, m);
        let before = solids(finite, e, n - 1);
        let now = solids(finite, e, n);
        let last = MaterialId((n - 1) as u16);
        if can_hold(last, finite[n - 1], e) {
            assert(now == before.push(solid_item(last)));
            assert(now[before.len() as int] == solid_item(last));
            if before.contains(solid_item(MaterialId(m))) {
                let i = choose|i: int|
                    0 <= i < before.len() && before[i] == solid_item(MaterialId(m));
                assert(now[i] == solid_item(MaterialId(m)));
            }
            if now.contains(solid_item(MaterialId(m))) && m != n - 1 {
                let i = choose|i: int| 0 <= i < now.len() && now[i] == solid_item(MaterialId(m));
                assert(before[i] == solid_item(MaterialId(m)));
            }
        }
    }
}

} // verus!
