//! A village: its plaza and well, the streets out of it, and what stands
//! along them.
//!
//! Pieces are measured in centimetres from the point they stand at. Lengths
//! along a street are f32 metres, kept exactly as whole numbers of 2^-24 m.

use crate::ivec::IVec3;
use crate::material::{ids, MaterialId};
use crate::rand::{after, nth, pick, round24, rounded, Rand};
use vstd::prelude::*;

verus! {

#[derive(Clone, Copy, Debug, PartialEq, Eq, Structural)]
pub enum Shape {
    Box,
    /// Upright, its base's middle at the lower corner.
    Cylinder { r: i32, h: i32 },
    /// The surface of a gable, its ridge along x.
    Roof { thick: i32 },
}

#[derive(Clone, Copy, Debug, PartialEq, Eq, Structural)]
pub struct Piece {
    pub shape: Shape,
    pub lo: IVec3,
    pub hi: IVec3,
    pub m: MaterialId,
}

pub open spec fn block(x: int, y: int, z: int, x2: int, y2: int, z2: int, m: MaterialId) -> Piece {
    Piece {
        shape: Shape::Box,
        lo: IVec3 { x: x as i32, y: y as i32, z: z as i32 },
        hi: IVec3 { x: x2 as i32, y: y2 as i32, z: z2 as i32 },
        m,
    }
}

pub(crate) fn block_at(x: i32, y: i32, z: i32, x2: i32, y2: i32, z2: i32, m: MaterialId) -> (p: Piece)
    ensures
        p == block(x as int, y as int, z as int, x2 as int, y2 as int, z2 as int, m),
{
    Piece { shape: Shape::Box, lo: IVec3 { x, y, z }, hi: IVec3 { x: x2, y: y2, z: z2 }, m }
}

/// A cylinder `y` up from the ground.
pub open spec fn drum(y: int, r: int, h: int, m: u16) -> Piece {
    let c = IVec3 { x: 0, y: y as i32, z: 0 };
    Piece { shape: Shape::Cylinder { r: r as i32, h: h as i32 }, lo: c, hi: c, m: MaterialId(m) }
}

pub(crate) fn drum_at(y: i32, r: i32, h: i32, m: u16) -> (p: Piece)
    ensures
        p == drum(y as int, r as int, h as int, m),
{
    let c = IVec3 { x: 0, y, z: 0 };
    Piece { shape: Shape::Cylinder { r, h }, lo: c, hi: c, m: MaterialId(m) }
}

/// The plaza: cobbles in a stone frame, cleared above, and a well with a roof
/// on four posts.
pub open spec fn plaza_pieces(dark_planks: MaterialId) -> Seq<Piece> {
    seq![
        block(-700, -250, -700, 700, 0, 700, MaterialId(ids::STONE_BRICK)),
        block(-650, -25, -650, 650, 0, 650, MaterialId(ids::COBBLESTONE)),
        block(-700, 0, -700, 700, 300, 700, MaterialId(ids::AIR)),
        drum(-300, 130, 380, ids::STONE_BRICK),
        drum(-300, 95, 380, ids::AIR),
        drum(-500, 95, 430, ids::WATER),
        block(-110, 80, -110, -90, 300, -90, dark_planks),
        block(90, 80, -110, 110, 300, -90, dark_planks),
        block(-110, 80, 90, -90, 300, 110, dark_planks),
        block(90, 80, 90, 110, 300, 110, dark_planks),
        Piece {
            shape: Shape::Roof { thick: 25 },
            lo: IVec3 { x: -170i32, y: 270, z: -170i32 },
            hi: IVec3 { x: 170, y: 390, z: 170 },
            m: MaterialId(ids::ROOF_TILE),
        },
    ]
}

pub fn plaza(dark_planks: MaterialId) -> (out: Vec<Piece>)
    ensures
        out@ == plaza_pieces(dark_planks),
{
    let mut out: Vec<Piece> = Vec::new();
    out.push(block_at(-700, -250, -700, 700, 0, 700, MaterialId(ids::STONE_BRICK)));
    out.push(block_at(-650, -25, -650, 650, 0, 650, MaterialId(ids::COBBLESTONE)));
    out.push(block_at(-700, 0, -700, 700, 300, 700, MaterialId(ids::AIR)));
    out.push(drum_at(-300, 130, 380, ids::STONE_BRICK));
    out.push(drum_at(-300, 95, 380, ids::AIR));
    out.push(drum_at(-500, 95, 430, ids::WATER));
    out.push(block_at(-110, 80, -110, -90, 300, -90, dark_planks));
    out.push(block_at(90, 80, -110, 110, 300, -90, dark_planks));
    out.push(block_at(-110, 80, 90, -90, 300, 110, dark_planks));
    out.push(block_at(90, 80, 90, 110, 300, 110, dark_planks));
    out.push(
        Piece {
            shape: Shape::Roof { thick: 25 },
            lo: IVec3 { x: -170, y: 270, z: -170 },
            hi: IVec3 { x: 170, y: 390, z: 170 },
            m: MaterialId(ids::ROOF_TILE),
        },
    );
    assert(out@ =~= plaza_pieces(dark_planks));
    out
}

/// The well holds water: the shaft's water stands under its rim and inside
/// the shaft, and comes after the shaft is cleared.
pub proof fn wells_hold_water(dark_planks: MaterialId)
    ensures
        ({
            let p = plaza_pieces(dark_planks);
            &&& p[4] == drum(-300, 95, 380, ids::AIR)
            &&& p[5].m == MaterialId(ids::WATER)
            &&& p[5].shape matches Shape::Cylinder { r, h } && r <= 95 && p[5].lo.y + h < -300 + 380
        }),
{
}

/// A small lantern, `y` up: glowing glass in an iron frame.
pub open spec fn lantern_pieces(y: int) -> Seq<Piece> {
    seq![
        block(-14, y, -14, 14, y + 30, 14, MaterialId(ids::IRON)),
        block(-10, y + 4, -15, 10, y + 26, 15, MaterialId(ids::GLOWSTONE)),
        block(-15, y + 4, -10, 15, y + 26, 10, MaterialId(ids::GLOWSTONE)),
    ]
}

fn put_lantern(out: &mut Vec<Piece>, y: i32)
    requires
        -100000 <= y <= 100000,
    ensures
        final(out)@ == old(out)@ + lantern_pieces(y as int),
{
    out.push(block_at(-14, y, -14, 14, y + 30, 14, MaterialId(ids::IRON)));
    out.push(block_at(-10, y + 4, -15, 10, y + 26, 15, MaterialId(ids::GLOWSTONE)));
    out.push(block_at(-15, y + 4, -10, 15, y + 26, 10, MaterialId(ids::GLOWSTONE)));
    assert(out@ =~= old(out)@ + lantern_pieces(y as int));
}

pub fn lantern() -> (out: Vec<Piece>)
    ensures
        out@ == lantern_pieces(0),
{
    let mut out: Vec<Piece> = Vec::new();
    put_lantern(&mut out, 0);
    assert(out@ =~= lantern_pieces(0));
    out
}

/// A lamp post, from the ground: a stone foot set half a metre into it, a pole,
/// the lantern and its cap.
pub open spec fn lamp_post_pieces(dark_planks: MaterialId) -> Seq<Piece> {
    seq![
        block(-20, -50, -20, 20, 30, 20, MaterialId(ids::STONE_BRICK)),
        block(-9, 30, -9, 9, 300, 9, dark_planks),
    ] + lantern_pieces(300) + seq![block(-20, 330, -20, 20, 338, 20, MaterialId(ids::IRON))]
}

pub fn lamp_post(dark_planks: MaterialId) -> (out: Vec<Piece>)
    ensures
        out@ == lamp_post_pieces(dark_planks),
{
    let mut out: Vec<Piece> = Vec::new();
    out.push(block_at(-20, -50, -20, 20, 30, 20, MaterialId(ids::STONE_BRICK)));
    out.push(block_at(-9, 30, -9, 9, 300, 9, dark_planks));
    put_lantern(&mut out, 300);
    out.push(block_at(-20, 330, -20, 20, 338, 20, MaterialId(ids::IRON)));
    assert(out@ =~= lamp_post_pieces(dark_planks));
    out
}

/// One metre.
pub const METRE: u64 = 0x100_0000;

/// A length of `a` metres and up to `b` more by draw `n`, each step rounded.
pub open spec fn reach(a: int, b: int, n: int) -> int {
    rounded(a * METRE + rounded(b * n))
}

fn reach_of(a: u64, b: u64, n: u32) -> (r: u64)
    requires
        a <= 100,
        b <= 100,
        n < 0x100_0000,
    ensures
        r == reach(a as int, b as int, n as int),
        2 * r >= a * METRE,
        r <= 0x2_0000_0000_0000,
{
    proof {
        assert(0 <= b * n <= 100 * 0x100_0000) by (nonlinear_arith)
            requires
                0 <= b <= 100,
                0 <= n <= 0x100_0000,
        ;
        crate::rand::lemma_rounded(b * n);
    }
    let x: u64 = round24(b * n as u64);
    proof {
        crate::rand::lemma_rounded(a * METRE + x);
    }
    round24(a * METRE + x)
}

/// A walk along one street: how far out the next pair of houses stands, how
/// long the street is, and how many pairs have been passed.
#[derive(Clone, Copy, Debug, PartialEq, Eq, Structural)]
pub struct Walk {
    pub d: u64,
    /// The street's length beyond the plaza.
    pub length: u64,
    pub pairs: u32,
}

/// Where the houses end: four metres before the street does.
pub open spec fn last_house(length: int) -> int {
    rounded(rounded(7 * METRE + length) - 4 * METRE)
}

impl Walk {
    pub open spec fn wf(self) -> bool {
        &&& METRE <= self.length <= 0x2_0000_0000_0000
        &&& self.d <= 0x8_0000_0000_0000
    }

    /// Starts a street: 45 to 75 m long, the first houses four metres past the
    /// plaza.
    pub fn start(rng: &mut Rand) -> (w: Walk)
        ensures
            final(rng).0 == after(old(rng).0, 1),
            w.length == reach(45, 30, nth(old(rng).0, 1)),
            w.d == 11 * METRE,
            w.d == 184549376,
            w.pairs == 0,
            w.wf(),
    {
        let ghost s = rng.0;
        assert(after(s, 1) == crate::rand::step(after(s, 0)));
        let n: u32 = rng.next();
        Walk { d: 11 * METRE, length: reach_of(45, 30, n), pairs: 0 }
    }

    /// Whether another pair of houses fits.
    pub fn goes_on(&self) -> (b: bool)
        requires
            self.wf(),
        ensures
            b == (self.d < last_house(self.length as int)),
    {
        proof {
            crate::rand::lemma_rounded(7 * METRE + self.length);
        }
        let far: u64 = round24(7 * METRE + self.length);
        proof {
            crate::rand::lemma_rounded(far - 4 * METRE);
        }
        self.d < round24(far - 4 * METRE)
    }

    /// A lamp stands at every other pair.
    pub fn lamp(&self) -> (b: bool)
        ensures
            b == (self.pairs % 2 == 0),
            self.pairs == 0 ==> b,
            b <==> 2 * (self.pairs as int / 2) == self.pairs,
    {
        self.pairs % 2 == 0
    }

    /// Goes on 10 to 13 m to the next pair.
    pub fn advance(&mut self, rng: &mut Rand)
        requires
            old(self).wf(),
            old(self).d <= 1000 * METRE,
            old(self).pairs < u32::MAX,
        ensures
            final(self).wf(),
            final(rng).0 == after(old(rng).0, 1),
            final(self).length == old(self).length,
            final(self).pairs == old(self).pairs + 1,
            final(self).d == rounded(old(self).d + reach(10, 3, nth(old(rng).0, 1))),
    {
        let ghost s = rng.0;
        assert(after(s, 1) == crate::rand::step(after(s, 0)));
        let n: u32 = rng.next();
        let more: u64 = reach_of(10, 3, n);
        proof {
            crate::rand::lemma_rounded(self.d + more);
        }
        self.d = round24(self.d + more);
        self.pairs += 1;
    }
}

/// A house's plot along the street and back from it, in metres.
pub fn draw_plot(rng: &mut Rand) -> (r: (i32, i32))
    ensures
        final(rng).0 == after(old(rng).0, 2),
        r.0 == 6 + pick(nth(old(rng).0, 1), 4),
        r.1 == 5 + pick(nth(old(rng).0, 2), 4),
        6 <= r.0 <= 9,
        5 <= r.1 <= 8,
        0x1_0000_0000_0000 * (r.0 - 6) <= 4 * nth(old(rng).0, 1) * 0x100_0001,
        4 * nth(old(rng).0, 1) * 0xff_ffff < 0x1_0000_0000_0000 * (r.0 - 5),
        0x1_0000_0000_0000 * (r.1 - 5) <= 4 * nth(old(rng).0, 2) * 0x100_0001,
        4 * nth(old(rng).0, 2) * 0xff_ffff < 0x1_0000_0000_0000 * (r.1 - 4),
{
    let ghost s = rng.0;
    proof {
        crate::rand::picks_are_in_proportion(nth(s, 1), 4);
        crate::rand::picks_are_in_proportion(nth(s, 2), 4);
    }
    assert(after(s, 1) == crate::rand::step(after(s, 0)));
    assert(after(s, 2) == crate::rand::step(after(s, 1)));
    let w: i32 = rng.whole(6, 9);
    let depth: i32 = rng.whole(5, 8);
    (w, depth)
}

/// One part of a path that follows the ground: a straight run, solid up to
/// the path's top or cleared above it.
#[derive(Clone, Copy, Debug, PartialEq, Eq, Structural)]
pub struct Ramp {
    pub run: i32,
    pub clear: bool,
}

/// The parts of a path of `count` runs, in order: each run's body, then the
/// space over it.
pub fn runs(count: i32) -> (out: Vec<Ramp>)
    requires
        1 <= count <= 0x1000_0000,
    ensures
        out@.len() == 2 * count,
        forall|i: int|
            0 <= i < out@.len() ==> #[trigger] out@[i] == (Ramp {
                run: (i / 2) as i32,
                clear: i % 2 == 1,
            }),
{
    let mut out: Vec<Ramp> = Vec::new();
    let mut i: i32 = 0;
    while i < count
        invariant
            0 <= i <= count <= 0x1000_0000,
            out@.len() == 2 * i,
            forall|j: int|
                0 <= j < out@.len() ==> #[trigger] out@[j] == (Ramp {
                    run: (j / 2) as i32,
                    clear: j % 2 == 1,
                }),
        decreases count - i,
    {
        out.push(Ramp { run: i, clear: false });
        out.push(Ramp { run: i, clear: true });
        i += 1;
    }
    out
}

/// A village's plaza is a square of 14 m whose ground is made before it is
/// cleared: stone to two and a half metres down, cobbles half a metre in from
/// its edge, and three metres of air over both.
pub proof fn plazas_are_paved(dark_planks: MaterialId)
    ensures
        ({
            let p = plaza_pieces(dark_planks);
            let (base, cobbles, clear) = (p[0], p[1], p[2]);
            &&& p.len() == 11
            &&& base.m.0 == 27 && cobbles.m.0 == 26 && clear.m.0 == 0
            &&& forall|i: int| 0 <= i < 3 ==> (#[trigger] p[i]).shape is Box
            &&& base.hi.x - base.lo.x == 1400 && base.hi.z - base.lo.z == 1400
            &&& base.lo.x + base.hi.x == 0 && base.lo.z + base.hi.z == 0
            &&& base.hi.y == 0 && base.lo.y == -250
            &&& cobbles.lo.x - base.lo.x == 50 && base.hi.x - cobbles.hi.x == 50
            &&& cobbles.lo.z - base.lo.z == 50 && base.hi.z - cobbles.hi.z == 50
            &&& cobbles.hi.y == 0 && cobbles.lo.y == -25
            &&& clear.lo.x == base.lo.x && clear.lo.z == base.lo.z && clear.hi.x == base.hi.x
                && clear.hi.z == base.hi.z && clear.lo.y == base.hi.y && clear.hi.y == 300
        }),
{
}

/// The well's wall stands 80 cm over the ground, 35 cm thick, its water a
/// metre and a half below the rim; the roof's four posts stand level with the
/// rim at the corners of a square and reach into the roof.
pub proof fn wells_have_a_wall_and_a_roof(dark_planks: MaterialId)
    ensures
        ({
            let p = plaza_pieces(dark_planks);
            let roof = p[10];
            &&& forall|i: int|
                3 <= i <= 5 ==> (#[trigger] p[i]).shape is Cylinder && p[i].lo.x == 0 && p[i].lo.z
                    == 0
            &&& p[3].m.0 == 27 && p[4].m.0 == 0 && p[5].m.0 == 15
            &&& p[3].lo.y + p[3].shape->h == 80 && p[4].lo.y + p[4].shape->h == 80
            &&& p[3].lo.y == p[4].lo.y
            &&& p[3].shape->r - p[4].shape->r == 35 && p[5].shape->r == p[4].shape->r
            &&& p[5].lo.y + p[5].shape->h == -70 && p[5].lo.y == p[4].lo.y - 200
            &&& forall|i: int|
                6 <= i < 10 ==> (#[trigger] p[i]).shape is Box && p[i].m == dark_planks && p[i].lo.y
                    == 80 && roof.lo.y < p[i].hi.y < roof.hi.y && p[i].hi.x - p[i].lo.x == 20
                    && p[i].hi.z - p[i].lo.z == 20
            &&& forall|i: int|
                6 <= i < 10 ==> ((#[trigger] p[i]).lo.x + p[i].hi.x == 200 || p[i].lo.x + p[i].hi.x
                    == -200) && (p[i].lo.z + p[i].hi.z == 200 || p[i].lo.z + p[i].hi.z == -200)
            &&& forall|i: int, j: int|
                6 <= i < j < 10 ==> (#[trigger] p[i]).lo.x != (#[trigger] p[j]).lo.x || p[i].lo.z
                    != p[j].lo.z
            &&& roof.shape is Roof && roof.m.0 == 39 && roof.shape->thick == 25
            &&& roof.lo.x == -170 && roof.hi.x == 170 && roof.lo.z == -170 && roof.hi.z == 170
            &&& roof.lo.y == 270 && roof.hi.y == 390
        }),
{
}

/// A lantern is a block of iron 28 cm wide and 30 cm high that glass shows
/// through on its four sides, a centimetre proud.
pub proof fn lanterns_glow_on_four_sides(y: int)
    requires
        -100000 <= y <= 100000,
    ensures
        ({
            let l = lantern_pieces(y);
            &&& l.len() == 3
            &&& l[0].m.0 == 34 && l[1].m.0 == 33 && l[2].m.0 == 33
            &&& l[0].lo.y == y && l[0].hi.y == y + 30
            &&& l[0].lo.x == -14 && l[0].hi.x == 14 && l[0].lo.z == -14 && l[0].hi.z == 14
            &&& l[1].lo.z == l[0].lo.z - 1 && l[1].hi.z == l[0].hi.z + 1 && l[1].lo.x == -10
                && l[1].hi.x == 10
            &&& l[2].lo.x == l[0].lo.x - 1 && l[2].hi.x == l[0].hi.x + 1 && l[2].lo.z == -10
                && l[2].hi.z == 10
            &&& forall|i: int|
                1 <= i <= 2 ==> (#[trigger] l[i]).lo.y - l[0].lo.y == 4 && l[0].hi.y - l[i].hi.y
                    == 4
            &&& forall|i: int| 0 <= i < 3 ==> (#[trigger] l[i]).shape is Box
        }),
{
}

/// A lamp post stacks without a gap: a stone foot, a pole of wood, a lantern
/// three metres up, and a cap of iron on it.
pub proof fn lamp_posts_stack_up(dark_planks: MaterialId)
    ensures
        ({
            let p = lamp_post_pieces(dark_planks);
            &&& p.len() == 6
            &&& p[0].m.0 == 27 && p[1].m == dark_planks && p[5].m.0 == 34
            &&& p[0].lo.y == -50 && p[1].lo.y == p[0].hi.y && p[1].hi.y == 300
            &&& p[2].lo.y == p[1].hi.y && p[5].lo.y == p[2].hi.y && p[5].hi.y == p[5].lo.y + 8
            &&& p[0].hi.y == 30
            &&& forall|i: int|
                0 <= i < 6 ==> (#[trigger] p[i]).shape is Box && p[i].lo.x + p[i].hi.x == 0
                    && p[i].lo.z + p[i].hi.z == 0
            &&& p[0].hi.x == 20 && p[0].hi.z == 20 && p[1].hi.x == 9 && p[1].hi.z == 9 && p[5].hi.x
                == 20 && p[5].hi.z == 20
            &&& p[3].m.0 == 33 && p[4].m.0 == 33
        }),
{
}

/// A street is 45 to 75 m long and the pairs of houses along it are 10 to 13 m
/// apart, in proportion to the draw and to within the rounding.
pub proof fn lengths_are_in_proportion(n: int)
    requires
        0 <= n < 0x100_0000,
    ensures
        -120 <= reach(45, 30, n) - (45 * 0x100_0000 + 30 * n) <= 120,
        -20 <= reach(10, 3, n) - (10 * 0x100_0000 + 3 * n) <= 20,
{
    crate::rand::rounding_is_to_nearest(30 * n);
    crate::rand::rounding_is_to_nearest(45 * METRE + rounded(30 * n));
    crate::rand::rounding_is_to_nearest(3 * n);
    crate::rand::rounding_is_to_nearest(10 * METRE + rounded(3 * n));
}

/// The last house stands three metres further out than the street's length,
/// measured from the plaza's middle, to within the rounding.
pub proof fn houses_end_before_the_street(length: int)
    requires
        0x100_0000 <= length <= 250 * 0x100_0000,
    ensures
        -1000 <= last_house(length) - (length + 3 * 0x100_0000) <= 1000,
{
    crate::rand::rounding_is_to_nearest(7 * METRE + length);
    crate::rand::rounding_is_to_nearest(rounded(7 * METRE + length) - 4 * METRE);
}

} // verus!
