//! The voxel models of items that are no blocks: what they are made of and,
//! where a voxel's middle decides it exactly, which voxels they fill.
//!
//! Models are 32 voxels a side. Colours are in thousandths.

use crate::icons::{drawn, hash24, Look};
use crate::item::{BlockKind, Item, Tier, ToolKind};
use crate::ivec::IVec3;
use crate::key::Key;
use vstd::prelude::*;

verus! {

#[derive(Clone, Copy, Debug, PartialEq, Eq, Structural)]
pub struct Rgb {
    pub r: i32,
    pub g: i32,
    pub b: i32,
}

/// What an item's model shows.
#[derive(Clone, Copy, Debug, PartialEq, Eq, Structural)]
pub enum Figure {
    Block(BlockKind),
    Stick,
    Tool(ToolKind, Tier),
    /// A rough lump, stretched along each axis by so many tenths, with spots.
    Lump { stretch: IVec3, base: Rgb, spot: Rgb, look: Look },
    Ingot(Rgb),
    Flint,
    /// A pail, full of water or empty.
    Bucket(bool),
    Powder,
}

#[derive(Clone, Copy, Debug, PartialEq, Eq, Structural)]
pub enum View {
    /// Three-quarter view from above, front (-z) on the left.
    Iso,
    /// Face-on along -z, tilted a touch to show depth.
    Flat,
}

pub open spec fn modelled(item: Item) -> Figure {
    match item {
        Item::Block(kind) => Figure::Block(kind),
        Item::Stick => Figure::Stick,
        Item::Tool(kind, tier) => Figure::Tool(kind, tier),
        Item::Coal => Figure::Lump {
            stretch: IVec3 { x: 10, y: 10, z: 10 },
            base: Rgb { r: 25, g: 25, b: 25 },
            spot: Rgb { r: 140, g: 140, b: 140 },
            look: Look::Metal,
        },
        Item::Charcoal => Figure::Lump {
            stretch: IVec3 { x: 14, y: 8, z: 8 },
            base: Rgb { r: 50, g: 40, b: 35 },
            spot: Rgb { r: 110, g: 80, b: 60 },
            look: Look::Matte,
        },
        Item::RawIron => Figure::Lump {
            stretch: IVec3 { x: 10, y: 10, z: 10 },
            base: Rgb { r: 550, g: 380, b: 270 },
            spot: Rgb { r: 340, g: 210, b: 140 },
            look: Look::Matte,
        },
        Item::RawCopper => Figure::Lump {
            stretch: IVec3 { x: 10, y: 10, z: 10 },
            base: Rgb { r: 660, g: 330, b: 160 },
            spot: Rgb { r: 240, g: 520, b: 360 },
            look: Look::Matte,
        },
        Item::RawGold => Figure::Lump {
            stretch: IVec3 { x: 10, y: 10, z: 10 },
            base: Rgb { r: 850, g: 600, b: 130 },
            spot: Rgb { r: 550, g: 400, b: 250 },
            look: Look::Metal,
        },
        Item::IronIngot => Figure::Ingot(Rgb { r: 660, g: 670, b: 680 }),
        Item::CopperIngot => Figure::Ingot(Rgb { r: 800, g: 420, b: 240 }),
        Item::GoldIngot => Figure::Ingot(Rgb { r: 950, g: 720, b: 200 }),
        Item::SteelIngot => Figure::Ingot(Rgb { r: 500, g: 570, b: 680 }),
        Item::Flint => Figure::Flint,
        Item::Bucket => Figure::Bucket(false),
        Item::WaterBucket => Figure::Bucket(true),
        Item::Gunpowder => Figure::Powder,
    }
}

/// The model of an item.
pub fn item_model(item: Item) -> (f: Figure)
    ensures
        f == modelled(item),
{
    match item {
        Item::Block(kind) => Figure::Block(kind),
        Item::Stick => Figure::Stick,
        Item::Tool(kind, tier) => Figure::Tool(kind, tier),
        Item::Coal => Figure::Lump {
            stretch: IVec3 { x: 10, y: 10, z: 10 },
            base: Rgb { r: 25, g: 25, b: 25 },
            spot: Rgb { r: 140, g: 140, b: 140 },
            look: Look::Metal,
        },
        Item::Charcoal => Figure::Lump {
            stretch: IVec3 { x: 14, y: 8, z: 8 },
            base: Rgb { r: 50, g: 40, b: 35 },
            spot: Rgb { r: 110, g: 80, b: 60 },
            look: Look::Matte,
        },
        Item::RawIron => Figure::Lump {
            stretch: IVec3 { x: 10, y: 10, z: 10 },
            base: Rgb { r: 550, g: 380, b: 270 },
            spot: Rgb { r: 340, g: 210, b: 140 },
            look: Look::Matte,
        },
        Item::RawCopper => Figure::Lump {
            stretch: IVec3 { x: 10, y: 10, z: 10 },
            base: Rgb { r: 660, g: 330, b: 160 },
            spot: Rgb { r: 240, g: 520, b: 360 },
            look: Look::Matte,
        },
        Item::RawGold => Figure::Lump {
            stretch: IVec3 { x: 10, y: 10, z: 10 },
            base: Rgb { r: 850, g: 600, b: 130 },
            spot: Rgb { r: 550, g: 400, b: 250 },
            look: Look::Metal,
        },
        Item::IronIngot => Figure::Ingot(Rgb { r: 660, g: 670, b: 680 }),
        Item::CopperIngot => Figure::Ingot(Rgb { r: 800, g: 420, b: 240 }),
        Item::GoldIngot => Figure::Ingot(Rgb { r: 950, g: 720, b: 200 }),
        Item::SteelIngot => Figure::Ingot(Rgb { r: 500, g: 570, b: 680 }),
        Item::Flint => Figure::Flint,
        Item::Bucket => Figure::Bucket(false),
        Item::WaterBucket => Figure::Bucket(true),
        Item::Gunpowder => Figure::Powder,
    }
}

impl Figure {
    /// Voxels a side: a block's own, and twice as many for other things.
    pub open spec fn side(self) -> int {
        if self is Block {
            16
        } else {
            32
        }
    }

    pub open spec fn seen(self) -> View {
        if self is Stick || self is Tool || self is Flint {
            View::Flat
        } else {
            View::Iso
        }
    }

    pub fn voxels(self) -> (n: i32)
        ensures
            n == self.side(),
    {
        match self {
            Figure::Block(_) => 16,
            _ => 32,
        }
    }

    /// Things that are long or flat are seen face-on.
    pub fn view(self) -> (w: View)
        ensures
            w == self.seen(),
    {
        match self {
            Figure::Stick | Figure::Tool(..) | Figure::Flint => View::Flat,
            _ => View::Iso,
        }
    }

    /// Whether the whole grid is framed, so that full blocks are all the same
    /// size, rather than just what is filled.
    pub fn whole(self) -> (b: bool)
        ensures
            b == match self {
                Figure::Block(kind) => !(kind is Torch) && !(kind is Lantern),
                _ => false,
            },
    {
        match self {
            Figure::Block(kind) => !matches!(kind, BlockKind::Torch | BlockKind::Lantern),
            _ => false,
        }
    }
}

pub open spec fn tier_painted(tier: Tier) -> (Option<Rgb>, Look) {
    match tier {
        Tier::Wood => (None, Look::Matte),
        Tier::Stone => (Some(Rgb { r: 360, g: 350, b: 340 }), Look::Matte),
        Tier::Iron => (Some(Rgb { r: 620, g: 630, b: 640 }), Look::Metal),
        Tier::Steel => (Some(Rgb { r: 460, g: 530, b: 640 }), Look::Metal),
    }
}

/// The colour of a tool's head, none for that of planks, and how it takes
/// light.
pub fn tier_paint(tier: Tier) -> (r: (Option<Rgb>, Look))
    ensures
        r == tier_painted(tier),
{
    match tier {
        Tier::Wood => (None, Look::Matte),
        Tier::Stone => (Some(Rgb { r: 360, g: 350, b: 340 }), Look::Matte),
        Tier::Iron => (Some(Rgb { r: 620, g: 630, b: 640 }), Look::Metal),
        Tier::Steel => (Some(Rgb { r: 460, g: 530, b: 640 }), Look::Metal),
    }
}

// Numbers as keys.
pub const S_0_5: Key = 0x3f00_0000;

pub const D_1_4: Key = 0x3fb3_3333;

pub const D_1_5: Key = 0x3fc0_0000;

pub const D_1_7: Key = 0x3fd9_999a;

pub const T_2: Key = 0x4000_0000;

pub const D_2_2: Key = 0x400c_cccd;

pub const S_2_4: Key = 0x4019_999a;

pub const D_3: Key = 0x4040_0000;

pub const T_3_5: Key = 0x4060_0000;

pub const S_8: Key = 0x4100_0000;

pub const T_8_5: Key = 0x4108_0000;

pub const T_9: Key = 0x4110_0000;

pub const S_10: Key = 0x4120_0000;

pub const T_11_5: Key = 0x4138_0000;

pub const S_12_5: Key = 0x4148_0000;

/// A voxel of a tool, from where its head meets the handle: how far along the
/// handle (`s`), to the left of it (`t`) and from the middle of its thickness
/// (`depth`), how far from the handle's line (`line`), whether the head's
/// outline has it (`fits`) and whether the handle is wrapped there.
#[derive(Clone, Copy, Debug, PartialEq, Eq, Structural)]
pub struct Probe {
    pub s: Key,
    pub t: Key,
    pub depth: Key,
    pub line: Key,
    pub fits: bool,
    pub wrapped: bool,
}

#[derive(Clone, Copy, Debug, PartialEq, Eq, Structural)]
pub enum ToolPart {
    /// The head; its cutting edge is ground bright.
    Head { edge: bool },
    Grip,
    Handle,
}

/// A bearded blade fanning out to a curved edge.
pub open spec fn axe_blade(p: Probe) -> bool {
    -S_8 <= p.s < D_3 && S_0_5 <= p.t < T_11_5 && p.fits
}

/// A short poll behind the eye.
pub open spec fn axe_poll(p: Probe) -> bool {
    -S_2_4 <= p.s < S_2_4 && -T_3_5 <= p.t < S_0_5
}

pub open spec fn shovel_blade(p: Probe) -> bool {
    S_0_5 <= p.s < S_12_5 && p.fits && p.depth < D_1_5
}

pub open spec fn shovel_socket(p: Probe) -> bool {
    -D_1_5 <= p.s < S_0_5 && -T_2 <= p.t <= T_2 && p.depth < D_2_2
}

/// A tool's head.
pub open spec fn heads(kind: ToolKind, p: Probe) -> bool {
    match kind {
        ToolKind::Pickaxe => p.fits && p.depth < D_3,
        ToolKind::Axe => (axe_blade(p) || axe_poll(p)) && p.depth < (if p.t > T_8_5 {
            D_1_4
        } else {
            S_2_4
        }),
        ToolKind::Shovel => shovel_blade(p) || shovel_socket(p),
    }
}

/// What of a tool a voxel belongs to.
pub fn tool_part(kind: ToolKind, p: &Probe) -> (r: Option<ToolPart>)
    ensures
        r == if heads(kind, *p) {
            Some(
                ToolPart::Head {
                    edge: (kind is Axe && p.t > T_9) || (kind is Shovel && p.s > S_10),
                },
            )
        } else if p.line < D_1_7 && p.depth < D_1_7 {
            Some(
                if p.wrapped {
                    ToolPart::Grip
                } else {
                    ToolPart::Handle
                },
            )
        } else {
            None
        },
        r is Some && !(r->Some_0 is Head) ==> p.line < 0x3fd9_999a && p.depth < 0x3fd9_999a && (
        r->Some_0 is Grip <==> p.wrapped),
        p.line < 0x3fd9_999a && p.depth < 0x3fd9_999a ==> r is Some,
        r == Some(ToolPart::Head { edge: true }) ==> kind is Axe && p.t > 0x4110_0000 || kind
            is Shovel && p.s > 0x4120_0000,
        r == Some(ToolPart::Head { edge: false }) ==> !(kind is Axe && p.t > 0x4110_0000) && !(kind
            is Shovel && p.s > 0x4120_0000),
{
    let head: bool = match kind {
        ToolKind::Pickaxe => p.fits && p.depth < D_3,
        ToolKind::Axe => {
            let thick: Key = if p.t > T_8_5 {
                D_1_4
            } else {
                S_2_4
            };
            let blade: bool = -S_8 <= p.s && p.s < D_3 && S_0_5 <= p.t && p.t < T_11_5 && p.fits;
            let poll: bool = -S_2_4 <= p.s && p.s < S_2_4 && -T_3_5 <= p.t && p.t < S_0_5;
            (blade || poll) && p.depth < thick
        },
        ToolKind::Shovel => {
            let blade: bool = S_0_5 <= p.s && p.s < S_12_5 && p.fits && p.depth < D_1_5;
            let socket: bool = -D_1_5 <= p.s && p.s < S_0_5 && -T_2 <= p.t && p.t <= T_2 && p.depth
                < D_2_2;
            blade || socket
        },
    };
    if head {
        let edge: bool = match kind {
            ToolKind::Axe => p.t > T_9,
            ToolKind::Shovel => p.s > S_10,
            ToolKind::Pickaxe => false,
        };
        return Some(ToolPart::Head { edge });
    }
    if p.line < D_1_7 && p.depth < D_1_7 {
        return Some(
            if p.wrapped {
                ToolPart::Grip
            } else {
                ToolPart::Handle
            },
        );
    }
    None
}

/// Four times the squared distance, in the plane, between the middles of
/// voxel (x, y) and the corner (cx, cy).
pub open spec fn apart(x: int, y: int, cx: int, cy: int) -> int {
    (2 * x + 1 - 2 * cx) * (2 * x + 1 - 2 * cx) + (2 * y + 1 - 2 * cy) * (2 * y + 1 - 2 * cy)
}

fn apart_of(x: i32, y: i32, cx: i32, cy: i32) -> (q: i32)
    requires
        0 <= x < 32 && 0 <= y < 32 && 0 <= cx <= 32 && 0 <= cy <= 32,
    ensures
        q == apart(x as int, y as int, cx as int, cy as int),
        0 <= q <= 8450,
{
    let a: i32 = 2 * x + 1 - 2 * cx;
    let b: i32 = 2 * y + 1 - 2 * cy;
    assert(0 <= a * a <= 4225 && 0 <= b * b <= 4225) by (nonlinear_arith)
        requires
            -65 <= a <= 65,
            -65 <= b <= 65,
    ;
    a * a + b * b
}

/// Within 1.9 voxels of the line from (7, 7) to (25, 25).
pub open spec fn on_stick(v: IVec3) -> bool {
    let along = v.x + v.y - 13;
    &&& 14 <= v.z <= 17
    &&& if along < 0 {
        apart(v.x as int, v.y as int, 7, 7) <= 14
    } else if along > 36 {
        apart(v.x as int, v.y as int, 25, 25) <= 14
    } else {
        -2 <= v.x - v.y <= 2
    }
}

/// Which twelfth of the stick a voxel is in.
pub open spec fn twelfth(v: IVec3) -> int {
    let along = v.x + v.y - 13;
    if along < 0 {
        0
    } else if along > 36 {
        12
    } else {
        along / 3
    }
}

/// The draw for the knots of a stick at a voxel that it fills.
pub fn stick(v: IVec3) -> (r: Option<u32>)
    requires
        v.within(32),
    ensures
        r == if on_stick(v) {
            Some(drawn(twelfth(v) as i32, 0, 0, 32))
        } else {
            None
        },
{
    let along: i32 = v.x + v.y - 13;
    let near: bool = if along < 0 {
        apart_of(v.x, v.y, 7, 7) <= 14
    } else if along > 36 {
        apart_of(v.x, v.y, 25, 25) <= 14
    } else {
        -2 <= v.x - v.y && v.x - v.y <= 2
    };
    if !near || v.z < 14 || v.z > 17 {
        return None;
    }
    let part: i32 = if along < 0 {
        0
    } else if along > 36 {
        12
    } else {
        along / 3
    };
    Some(hash24(part, 0, 0, 32))
}

/// An ingot: seven layers, each drawn in by 0.6 voxels across and 0.48 deep
/// at both ends.
pub open spec fn in_ingot(v: IVec3) -> bool {
    let k = v.y - 9;
    &&& 0 <= k < 7
    &&& 50 + 6 * k < 10 * v.x + 5 < 270 - 6 * k
    &&& 1000 + 48 * k < 100 * v.z + 50 < 2200 - 48 * k
}

/// The draw for the grain of an ingot at a voxel that it fills.
pub fn ingot(v: IVec3) -> (r: Option<u32>)
    requires
        v.within(32),
    ensures
        r == if in_ingot(v) {
            Some(drawn(v.x, v.y, v.z, 34))
        } else {
            None
        },
{
    let k: i32 = v.y - 9;
    if k < 0 || k >= 7 {
        return None;
    }
    let (x, z): (i32, i32) = (10 * v.x + 5, 100 * v.z + 50);
    if x > 50 + 6 * k && x < 270 - 6 * k && z > 1000 + 48 * k && z < 2200 - 48 * k {
        Some(hash24(v.x, v.y, v.z, 34))
    } else {
        None
    }
}

#[derive(Clone, Copy, Debug, PartialEq, Eq, Structural)]
pub enum Pail {
    Handle,
    /// The iron, with the draw for its grain; darker where a hoop or the
    /// rolled rim goes round.
    Wall { hoop: bool, draw: u32 },
    Water { glint: bool },
}

/// 160 times the pail's radius at a voxel's height: 7 voxels at the base, 9.2
/// at the rim.
pub open spec fn girth(y: int) -> int {
    1120 + 11 * (2 * y - 9)
}

/// A thin arc across the top: between 8.4 and 10 voxels from the rim's
/// middle.
pub open spec fn on_handle(v: IVec3) -> bool {
    &&& v.y >= 21
    &&& 283 <= apart(v.x as int, v.y as int, 16, 21) <= 399
    &&& 15 <= v.z <= 16
}

/// Within the pail's outline.
pub open spec fn in_pail(v: IVec3) -> bool {
    &&& 5 <= v.y < 21
    &&& 6400 * apart(v.x as int, v.z as int, 16, 16) <= girth(v.y as int) * girth(v.y as int)
}

/// In the wall, 1.4 voxels thick, or the bottom, one voxel.
pub open spec fn in_wall(v: IVec3) -> bool {
    ||| v.y == 5
    ||| 6400 * apart(v.x as int, v.z as int, 16, 16) > (girth(v.y as int) - 224) * (girth(
        v.y as int,
    ) - 224)
}

/// Two hoops and the rim.
pub open spec fn hooped(y: int) -> bool {
    y == 8 || y == 9 || y == 15 || y == 16 || y == 20
}

/// What of a pail fills voxel `v`.
pub open spec fn of_pail(v: IVec3, full: bool) -> Option<Pail> {
    if on_handle(v) {
        Some(Pail::Handle)
    } else if !in_pail(v) {
        None
    } else if in_wall(v) {
        Some(Pail::Wall { hoop: hooped(v.y as int), draw: drawn(v.x, v.y, v.z, 40) })
    } else if full && v.y < 19 {
        Some(Pail::Water { glint: drawn(v.x, v.y, v.z, 41) > 15602811 })
    } else {
        None
    }
}

pub fn bucket(v: IVec3, full: bool) -> (r: Option<Pail>)
    requires
        v.within(32),
    ensures
        r == of_pail(v, full),
{
    if v.y >= 21 {
        let arc: i32 = apart_of(v.x, v.y, 16, 21);
        return if 283 <= arc && arc <= 399 && 15 <= v.z && v.z <= 16 {
            Some(Pail::Handle)
        } else {
            None
        };
    }
    if v.y < 5 {
        return None;
    }
    let q: i32 = apart_of(v.x, v.z, 16, 16);
    let g: i32 = 1120 + 11 * (2 * v.y - 9);
    assert(g == girth(v.y as int) && 1131 <= g <= 1461);
    assert(0 <= g * g <= 2134521 && 0 <= (g - 224) * (g - 224) <= 2134521) by (nonlinear_arith)
        requires
            1131 <= g <= 1461,
    ;
    if 6400 * q > g * g {
        return None;
    }
    if v.y == 5 || 6400 * q > (g - 224) * (g - 224) {
        let y: i32 = v.y;
        let hoop: bool = y == 8 || y == 9 || y == 15 || y == 16 || y == 20;
        return Some(Pail::Wall { hoop, draw: hash24(v.x, v.y, v.z, 40) });
    }
    if full && v.y < 19 {
        Some(Pail::Water { glint: hash24(v.x, v.y, v.z, 41) > 15602811 })
    } else {
        None
    }
}

/// Whether a lump shows a spot at a voxel.
pub fn spotted(v: IVec3) -> (b: bool)
    requires
        v.within(32),
    ensures
        b == (drawn((v.x / 3) as i32, (v.y / 3) as i32, (v.z / 3) as i32, 38) > 11408507),
{
    hash24(v.x / 3, v.y / 3, v.z / 3, 38) > 11408507
}

/// How bright a grain of powder is.
pub fn grain(v: IVec3) -> (c: i32)
    ensures
        c == (if drawn(v.x, v.y, v.z, 36) > 15099494 {
            500int
        } else if drawn(v.x, v.y, v.z, 36) <= 3355443 {
            30
        } else {
            120
        }),
{
    let g: u32 = hash24(v.x, v.y, v.z, 36);
    if g > 15099494 {
        500
    } else if g <= 3355443 {
        30
    } else {
        120
    }
}

/// A step of one voxel sideways stays within the pail from where its water
/// may stand.
proof fn lemma_sideways(a: int, q: int, g: int)
    requires
        1131 <= g <= 1461,
        0 <= a,
        a * a <= q,
        6400 * q <= (g - 224) * (g - 224),
    ensures
        6400 * (q + 4 * a + 4) <= g * g,
{
    let h = g - 224;
    assert(80 * a <= h) by (nonlinear_arith)
        requires
            6400 * (a * a) <= h * h,
            0 <= a,
            0 <= h,
    ;
    assert((h + 160) * (h + 160) == h * h + 320 * h + 25600) by (nonlinear_arith);
    assert((h + 160) * (h + 160) <= g * g) by (nonlinear_arith)
        requires
            0 <= h + 160 <= g,
    ;
}

/// Pails hold water: what is beside water or under it is water or pail.
pub proof fn pails_hold_water(v: IVec3, w: IVec3)
    requires
        v.within(32),
        w.within(32),
        of_pail(v, true) is Some,
        of_pail(v, true)->Some_0 is Water,
        (w.x, w.z) == (v.x, v.z) && w.y == v.y - 1 || w.y == v.y && ((w.x == v.x && (w.z == v.z - 1
            || w.z == v.z + 1)) || (w.z == v.z && (w.x == v.x - 1 || w.x == v.x + 1))),
    ensures
        of_pail(w, true) is Some,
{
    let g = girth(v.y as int);
    let (x, z) = (2 * v.x + 1 - 32, 2 * v.z + 1 - 32);
    let q = apart(v.x as int, v.z as int, 16, 16);
    assert(q == x * x + z * z);
    assert(0 <= x * x && 0 <= z * z) by (nonlinear_arith);
    if w.y < v.y {
        assert((g - 224) * (g - 224) <= (g - 22) * (g - 22)) by (nonlinear_arith)
            requires
                1131 <= g <= 1461,
        ;
        assert(in_pail(w));
    } else {
        let a = if w.x != v.x {
            if x < 0 {
                -x
            } else {
                x
            }
        } else if z < 0 {
            -z
        } else {
            z
        };
        assert(a * a == x * x || a * a == z * z) by (nonlinear_arith)
            requires
                a == x || a == -x || a == z || a == -z,
        ;
        lemma_sideways(a, q, g);
        assert((x + 2) * (x + 2) == x * x + 4 * x + 4) by (nonlinear_arith);
        assert((x - 2) * (x - 2) == x * x - 4 * x + 4) by (nonlinear_arith);
        assert((z + 2) * (z + 2) == z * z + 4 * z + 4) by (nonlinear_arith);
        assert((z - 2) * (z - 2) == z * z - 4 * z + 4) by (nonlinear_arith);
        assert(2 * w.x + 1 - 32 == x || 2 * w.x + 1 - 32 == x + 2 || 2 * w.x + 1 - 32 == x - 2);
        assert(2 * w.z + 1 - 32 == z || 2 * w.z + 1 - 32 == z + 2 || 2 * w.z + 1 - 32 == z - 2);
        assert(in_pail(w));
    }
}

/// An ingot is seven layers high and the same seen from either side or end;
/// each layer lies within the one below it.
pub proof fn ingots_taper(v: IVec3, w: IVec3)
    requires
        v.within(32),
        w.within(32),
    ensures
        in_ingot(v) ==> 9 <= v.y <= 15,
        in_ingot(v) == in_ingot(IVec3 { x: (31 - v.x) as i32, ..v }),
        in_ingot(v) == in_ingot(IVec3 { z: (31 - v.z) as i32, ..v }),
        w.x == v.x && w.z == v.z && 9 <= w.y < v.y && in_ingot(v) ==> in_ingot(w),
        v.y == 9 ==> (in_ingot(v) <==> 5 <= v.x <= 26 && 10 <= v.z <= 21),
        v.y == 15 ==> (in_ingot(v) <==> 9 <= v.x <= 22 && 13 <= v.z <= 18),
{
}

/// A stick is four voxels thick and lies along the diagonal: it is the same
/// with its two long axes exchanged, and the same from either end.
pub proof fn sticks_lie_along_the_diagonal(v: IVec3)
    requires
        v.within(32),
    ensures
        on_stick(v) ==> 14 <= v.z <= 17 && -2 <= v.x - v.y <= 2,
        on_stick(v) == on_stick(IVec3 { x: v.y, y: v.x, z: v.z }),
        on_stick(v) == on_stick(IVec3 { x: (31 - v.x) as i32, y: (31 - v.y) as i32, z: v.z }),
        v.x == v.y && 14 <= v.z <= 17 ==> (on_stick(v) <==> 6 <= v.x <= 25),
        0 <= twelfth(v) <= 12,
{
    let (a, b) = (2 * v.x - 13, 2 * v.y - 13);
    let (c, d) = (2 * v.x - 49, 2 * v.y - 49);
    assert(apart(v.x as int, v.y as int, 7, 7) == a * a + b * b);
    assert(apart(v.x as int, v.y as int, 25, 25) == c * c + d * d);
    lemma_short(a, b);
    lemma_short(c, d);
    let w = IVec3 { x: (31 - v.x) as i32, y: (31 - v.y) as i32, z: v.z };
    assert(apart(w.x as int, w.y as int, 7, 7) == (-c) * (-c) + (-d) * (-d));
    assert(apart(w.x as int, w.y as int, 25, 25) == (-a) * (-a) + (-b) * (-b));
    assert((-a) * (-a) == a * a && (-b) * (-b) == b * b && (-c) * (-c) == c * c && (-d) * (-d) == d
        * d) by (nonlinear_arith);
    if v.x == v.y {
        assert(a == b && (a == -1 ==> a * a == 1) && (c == 1 ==> c * c == 1)) by (nonlinear_arith)
            requires
                a == b,
        ;
    }
}

proof fn lemma_short(a: int, b: int)
    ensures
        a * a + b * b <= 14 ==> -3 <= a <= 3 && -3 <= b <= 3,
        a * a + b * b <= 14 ==> -5 <= a - b <= 5,
        a == b && a * a + b * b <= 14 ==> -2 <= a <= 2,
{
    assert(a * a + b * b <= 14 ==> -3 <= a <= 3 && -3 <= b <= 3) by (nonlinear_arith);
    assert(a * a + b * b <= 14 ==> -5 <= a - b <= 5) by (nonlinear_arith);
    assert(a == b && a * a + b * b <= 14 ==> -2 <= a <= 2) by (nonlinear_arith);
}

/// A pail is round, wider at the rim than at its base, and hooped twice and at
/// the rim; its handle arches over the rim.
pub proof fn pails_are_round(v: IVec3, full: bool)
    requires
        v.within(32),
    ensures
        in_pail(v) ==> 5 <= v.y <= 20,
        in_pail(v) == in_pail(IVec3 { x: v.z, y: v.y, z: v.x }),
        in_pail(v) == in_pail(IVec3 { x: (31 - v.x) as i32, ..v }),
        on_handle(v) ==> v.y >= 21 && (v.z == 15 || v.z == 16),
        girth(5) < girth(20) && girth(5) >= 7 * 160 && girth(20) <= 1472,
        of_pail(v, full) matches Some(Pail::Wall { hoop, .. }) ==> (hoop <==> v.y == 8 || v.y == 9
            || v.y == 15 || v.y == 16 || v.y == 20),
        of_pail(v, full) matches Some(Pail::Water { .. }) ==> full && 6 <= v.y <= 18,
        of_pail(v, false) is None && of_pail(v, true) is Some ==> of_pail(v, true)->Some_0 is Water,
        v.y == 5 && in_pail(v) ==> of_pail(v, full) is Some && of_pail(v, full)->Some_0 is Wall,
{
    assert(apart(v.x as int, v.z as int, 16, 16) == apart(v.z as int, v.x as int, 16, 16));
    assert(apart(31 - v.x, v.z as int, 16, 16) == apart(v.x as int, v.z as int, 16, 16))
        by (nonlinear_arith);
}

/// What an item looks like: blocks as their block, sticks, tools, lumps of
/// coal and raw metal, ingots, flint, pails and powder; only long and flat
/// things are seen face-on.
pub proof fn items_have_their_figure(item: Item)
    ensures
        modelled(item) is Block <==> item is Block,
        modelled(item) is Tool <==> item is Tool,
        modelled(item) is Lump <==> item is Coal || item is Charcoal || item is RawIron || item
            is RawCopper || item is RawGold,
        modelled(item) is Ingot <==> item is IronIngot || item is CopperIngot || item is GoldIngot
            || item is SteelIngot,
        modelled(item) == Figure::Bucket(true) <==> item is WaterBucket,
        modelled(item) == Figure::Bucket(false) <==> item is Bucket,
        modelled(item) is Powder <==> item is Gunpowder,
        modelled(item).side() == 16 <==> item is Block,
        modelled(item).side() == 32 <==> !(item is Block),
        modelled(item).seen() is Flat <==> item is Stick || item is Tool || item is Flint,
        modelled(item) matches Figure::Lump { stretch, look, .. } ==> (look is Metal <==> item
            is Coal || item is RawGold) && (stretch.x == 14 <==> item is Charcoal),
{
}

/// A pickaxe's head is three voxels deep within its arc. An axe has a blade
/// out to 11.5 voxels that thins beyond 8.5, and a poll behind it. A shovel
/// has a thin blade from half a voxel to 12.5 along, on a socket.
pub proof fn tools_have_their_heads(p: Probe)
    ensures
        heads(ToolKind::Pickaxe, p) <==> p.fits && p.depth < 0x4040_0000,
        heads(ToolKind::Axe, p) && p.t >= 0x3f00_0000 <==> p.fits && -0x4100_0000 <= p.s
            < 0x4040_0000 && 0x3f00_0000 <= p.t < 0x4138_0000 && p.depth < 0x4019_999a && (p.t
            > 0x4108_0000 ==> p.depth < 0x3fb3_3333),
        heads(ToolKind::Axe, p) && p.t < 0x3f00_0000 <==> -0x4019_999a <= p.s < 0x4019_999a
            && -0x4060_0000 <= p.t < 0x3f00_0000 && p.depth < 0x4019_999a,
        heads(ToolKind::Shovel, p) && p.s >= 0x3f00_0000 <==> p.fits && 0x3f00_0000 <= p.s
            < 0x4148_0000 && p.depth < 0x3fc0_0000,
        heads(ToolKind::Shovel, p) && p.s < 0x3f00_0000 <==> -0x3fc0_0000 <= p.s < 0x3f00_0000
            && -0x4000_0000 <= p.t <= 0x4000_0000 && p.depth < 0x400c_cccd,
{
}

/// Heads are of the tier's stuff: planks for wood, a pale stone, and two
/// metals that shine, steel bluer than iron.
pub proof fn tiers_have_their_stuff(tier: Tier)
    ensures
        tier_painted(tier).0 is None <==> tier is Wood,
        tier_painted(tier).1 is Metal <==> tier is Iron || tier is Steel,
        tier_painted(tier).1 is Matte <==> tier is Wood || tier is Stone,
        tier is Steel ==> (tier_painted(tier).0 matches Some(c) && c.r == 460 && c.g == 530 && c.b
            == 640),
        tier is Iron ==> (tier_painted(tier).0 matches Some(c) && c.r == 620 && c.g == 630 && c.b
            == 640),
        tier is Stone ==> (tier_painted(tier).0 matches Some(c) && c.r == 360 && c.g == 350 && c.b
            == 340),
{
}

} // verus!
