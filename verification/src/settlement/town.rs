//! A town: a grid of streets, and what stands on each of its blocks, in
//! centimetres from the town's corner.

use crate::material::{ids, MaterialId};
use crate::rand::{draw, pick, step, Rand};
use crate::settlement::blueprint::{draw_floors, floor_range, Facing, Kind};
use crate::settlement::plan::{
    below, block_use, draw_block, draw_kind, draw_lots, lot_facing, lots, lots_face, BlockUse, Lot,
    SHARE_0_5, SHARE_0_6,
};
use crate::settlement::village::{block, block_at, drum, drum_at, Piece};
use vstd::prelude::*;

verus! {

/// From one street's middle to the next.
pub const PITCH_CM: i32 = 4800;

pub const STREET_CM: i32 = 1200;

pub const BLOCK_CM: i32 = 3600;

/// One thing to build.
#[derive(Clone, Copy, Debug, PartialEq, Eq, Structural)]
pub enum Feature {
    /// A marked street along its centre line.
    Street { x0: i32, z0: i32, x1: i32, z1: i32 },
    /// A pavement along its centre line.
    Pavement { x0: i32, z0: i32, x1: i32, z1: i32 },
    /// A street light; its arm points to smaller or larger z.
    Light { x: i32, z: i32, toward: bool },
    Park { x: i32, z: i32 },
    Building {
        lot: Lot,
        kind: Kind,
        street: Facing,
        floors: i32,
        /// How far the tower is set back.
        inset: i32,
        /// Picks the lights.
        lit: u32,
        /// Half width of the machinery on the roof, 1.5 m and up to as much
        /// again by this draw; towers have none.
        plant: u32,
    },
}

/// Length of a town's side of `n` blocks.
pub open spec fn extent(n: int) -> int {
    n * PITCH_CM + STREET_CM
}

/// The two streets of number `i`, one each way.
pub open spec fn street_pair(n: int, i: int) -> Seq<Feature> {
    let at = (i * PITCH_CM + 600) as i32;
    seq![
        Feature::Street { x0: at, z0: 0, x1: at, z1: extent(n) as i32 },
        Feature::Street { x0: 0, z0: at, x1: extent(n) as i32, z1: at },
    ]
}

/// The first `m` pairs of streets.
pub open spec fn streets(n: int, m: int) -> Seq<Feature>
    decreases m,
{
    if m <= 0 {
        Seq::empty()
    } else {
        streets(n, m - 1) + street_pair(n, m - 1)
    }
}

/// Pavements round a block whose corner is at (x, z), and the lights on them.
pub open spec fn kerb(x: int, z: int) -> Seq<Feature> {
    let (a, b) = ((x - 100) as i32, (x + 3700) as i32);
    let (c, d) = ((z - 100) as i32, (z + 3700) as i32);
    let (p, q) = ((x + 400) as i32, (x + 2000) as i32);
    seq![
        Feature::Pavement { x0: a, z0: c, x1: b, z1: c },
        Feature::Pavement { x0: b, z0: c, x1: b, z1: d },
        Feature::Pavement { x0: b, z0: d, x1: a, z1: d },
        Feature::Pavement { x0: a, z0: d, x1: a, z1: c },
        Feature::Light { x: p, z: c, toward: false },
        Feature::Light { x: p, z: d, toward: true },
        Feature::Light { x: q, z: c, toward: false },
        Feature::Light { x: q, z: d, toward: true },
    ]
}

/// How far a tower is set back, by draw `n`: three to five metres, rounded.
pub open spec fn set_back(n: int) -> int {
    if n < 4194303 {
        300
    } else if n < 12582910 {
        400
    } else {
        500
    }
}

/// A lot, in decimetres, of a block whose corner is at (x, z).
pub open spec fn placed(lot: Lot, x: int, z: int) -> Lot {
    Lot {
        x0: (lot.x0 * 10 + x) as i32,
        z0: (lot.z0 * 10 + z) as i32,
        x1: (lot.x1 * 10 + x) as i32,
        z1: (lot.z1 * 10 + z) as i32,
    }
}

/// The building on a lot of a block, from generator state `s`.
pub open spec fn lot_building(lot: Lot, x: int, z: int, s: u64, lit: u32) -> Feature {
    let kind = if below(draw(step(s)), SHARE_0_6 as int) {
        Kind::Apartments
    } else {
        Kind::Offices
    };
    let (lo, hi) = floor_range(kind);
    Feature::Building {
        lot: placed(lot, x, z),
        kind,
        street: lots_face(lot, 340),
        floors: (lo + pick(draw(step(step(s))), hi - lo + 1)) as i32,
        inset: 0,
        lit,
        plant: draw(step(step(step(s)))) as u32,
    }
}

/// The buildings on the first `m` lots, and the state and lights after them.
pub open spec fn lot_buildings(
    l: Seq<Lot>,
    x: int,
    z: int,
    s: u64,
    lit: u32,
    m: int,
) -> (Seq<Feature>, u64, u32)
    decreases m,
{
    if m <= 0 {
        (Seq::empty(), s, lit)
    } else {
        let (f, t, k) = lot_buildings(l, x, z, s, lit, m - 1);
        (f.push(lot_building(l[m - 1], x, z, t, k)), step(step(step(t))), k.wrapping_add(1))
    }
}

/// What stands on block (i, k) of a town of `n`, and the state and lights
/// after it: a park, a tower, or buildings on two or four lots a metre in
/// from the pavement.
pub open spec fn on_block(i: int, k: int, n: int, s: u64, lit: u32) -> (Seq<Feature>, u64, u32) {
    let (x, z) = (i * PITCH_CM + STREET_CM, k * PITCH_CM + STREET_CM);
    let t = step(s);
    match block_use(i, k, n, draw(t)) {
        BlockUse::Park => (
            kerb(x, z).push(Feature::Park { x: (x + 1800) as i32, z: (z + 1800) as i32 }),
            t,
            lit,
        ),
        BlockUse::Tower => (
            kerb(x, z).push(
                Feature::Building {
                    lot: Lot {
                        x0: (x + 100) as i32,
                        z0: (z + 100) as i32,
                        x1: (x + 3500) as i32,
                        z1: (z + 3500) as i32,
                    },
                    kind: Kind::Tower,
                    street: if k == 0 {
                        Facing::NegZ
                    } else {
                        Facing::PosZ
                    },
                    floors: (10 + pick(draw(step(t)), 11)) as i32,
                    inset: set_back(draw(step(step(t)))) as i32,
                    lit,
                    plant: 0,
                },
            ),
            step(step(t)),
            lit.wrapping_add(2),
        ),
        BlockUse::Lots => {
            let l = lots(below(draw(step(t)), SHARE_0_5 as int), 340);
            let (f, u, m) = lot_buildings(l, x + 100, z + 100, step(t), lit, l.len() as int);
            (kerb(x, z) + f, u, m)
        },
    }
}

/// What stands on the first `m` blocks, column by column.
pub open spec fn blocks(n: int, s: u64, lit: u32, m: int) -> (Seq<Feature>, u64, u32)
    decreases m,
{
    if m <= 0 {
        (Seq::empty(), s, lit)
    } else {
        let (f, t, l) = blocks(n, s, lit, m - 1);
        let (g, u, k) = on_block((m - 1) / n, (m - 1) % n, n, t, l);
        (f + g, u, k)
    }
}

/// The town of a seed with `n` blocks a side.
pub open spec fn town(seed: u64, n: int) -> Seq<Feature> {
    streets(n, n + 1) + blocks(n, seed ^ 0x7077, (seed % 0x1_0000) as u32, n * n).0
}

fn put_kerb(out: &mut Vec<Feature>, x: i32, z: i32)
    requires
        0 <= x <= 0x2000_0000,
        0 <= z <= 0x2000_0000,
    ensures
        final(out)@ == old(out)@ + kerb(x as int, z as int),
{
    let (a, b): (i32, i32) = (x - 100, x + 3700);
    let (c, d): (i32, i32) = (z - 100, z + 3700);
    let (p, q): (i32, i32) = (x + 400, x + 2000);
    out.push(Feature::Pavement { x0: a, z0: c, x1: b, z1: c });
    out.push(Feature::Pavement { x0: b, z0: c, x1: b, z1: d });
    out.push(Feature::Pavement { x0: b, z0: d, x1: a, z1: d });
    out.push(Feature::Pavement { x0: a, z0: d, x1: a, z1: c });
    out.push(Feature::Light { x: p, z: c, toward: false });
    out.push(Feature::Light { x: p, z: d, toward: true });
    out.push(Feature::Light { x: q, z: c, toward: false });
    out.push(Feature::Light { x: q, z: d, toward: true });
    assert(out@ =~= old(out)@ + kerb(x as int, z as int));
}

/// How far a tower is set back.
pub fn draw_inset(rng: &mut Rand) -> (cm: i32)
    ensures
        final(rng).0 == step(old(rng).0),
        cm == set_back(draw(step(old(rng).0))),
        300 <= cm <= 500,
{
    let n: u32 = rng.next();
    if n < 4194303 {
        300
    } else if n < 12582910 {
        400
    } else {
        500
    }
}

fn put_lot(out: &mut Vec<Feature>, lot: &Lot, x: i32, z: i32, rng: &mut Rand, lit: &mut u32)
    requires
        0 <= x <= 0x2000_0000,
        0 <= z <= 0x2000_0000,
        0 <= lot.x0 <= 10000 && 0 <= lot.x1 <= 10000,
        0 <= lot.z0 <= 10000 && 0 <= lot.z1 <= 10000,
    ensures
        final(out)@ == old(out)@.push(
            lot_building(*lot, x as int, z as int, old(rng).0, *old(lit)),
        ),
        final(rng).0 == step(step(step(old(rng).0))),
        *final(lit) == old(lit).wrapping_add(1),
{
    let kind: Kind = draw_kind(rng);
    let street: Facing = lot_facing(lot, 340);
    let floors: i32 = draw_floors(kind, rng);
    let plant: u32 = rng.next();
    out.push(
        Feature::Building {
            lot: Lot {
                x0: lot.x0 * 10 + x,
                z0: lot.z0 * 10 + z,
                x1: lot.x1 * 10 + x,
                z1: lot.z1 * 10 + z,
            },
            kind,
            street,
            floors,
            inset: 0,
            lit: *lit,
            plant,
        },
    );
    *lit = (*lit).wrapping_add(1);
}

fn put_block(out: &mut Vec<Feature>, i: i32, k: i32, n: i32, rng: &mut Rand, lit: &mut u32)
    requires
        0 <= i < n <= 40000,
        0 <= k < n,
    ensures
        ({
            let (f, s, l) = on_block(i as int, k as int, n as int, old(rng).0, *old(lit));
            &&& final(out)@ == old(out)@ + f
            &&& final(rng).0 == s
            &&& *final(lit) == l
        }),
{
    let ghost start = out@;
    let ghost (s0, lit0) = (rng.0, *lit);
    let (x, z): (i32, i32) = (i * PITCH_CM + STREET_CM, k * PITCH_CM + STREET_CM);
    put_kerb(out, x, z);
    let ghost kerbed = out@;
    match draw_block(i, k, n, rng) {
        BlockUse::Park => {
            out.push(Feature::Park { x: x + 1800, z: z + 1800 });
            assert(out@ =~= start + kerb(x as int, z as int).push(
                Feature::Park { x: (x + 1800) as i32, z: (z + 1800) as i32 },
            ));
        },
        BlockUse::Tower => {
            let floors: i32 = draw_floors(Kind::Tower, rng);
            let inset: i32 = draw_inset(rng);
            out.push(
                Feature::Building {
                    lot: Lot { x0: x + 100, z0: z + 100, x1: x + 3500, z1: z + 3500 },
                    kind: Kind::Tower,
                    street: if k == 0 {
                        Facing::NegZ
                    } else {
                        Facing::PosZ
                    },
                    floors,
                    inset,
                    lit: *lit,
                    plant: 0,
                },
            );
            *lit = (*lit).wrapping_add(2);
            proof {
                let (f, s, l) = on_block(i as int, k as int, n as int, s0, lit0);
                assert(out@ =~= start + f);
            }
        },
        BlockUse::Lots => {
            let ghost t = rng.0;
            let l: Vec<Lot> = draw_lots(340, rng);
            let ghost u = rng.0;
            let ghost before = out@;
            let mut j: usize = 0;
            while j < l.len()
                invariant
                    j <= l@.len(),
                    0 <= x <= 0x1fff_0000,
                    0 <= z <= 0x1fff_0000,
                    forall|q: int|
                        0 <= q < l@.len() ==> 0 <= (#[trigger] l@[q]).x0 <= 10000 && 0 <= l@[q].x1
                            <= 10000 && 0 <= l@[q].z0 <= 10000 && 0 <= l@[q].z1 <= 10000,
                    ({
                        let (f, s, m) = lot_buildings(
                            l@,
                            x + 100,
                            z + 100,
                            u,
                            lit0,
                            j as int,
                        );
                        &&& out@ == before + f
                        &&& rng.0 == s
                        &&& *lit == m
                    }),
                decreases l@.len() - j,
            {
                let ghost f = lot_buildings(l@, x + 100, z + 100, u, lit0, j as int).0;
                let one: Lot = l[j];
                put_lot(out, &one, x + 100, z + 100, rng, lit);
                proof {
                    let g = lot_buildings(l@, x + 100, z + 100, u, lit0, j + 1).0;
                    assert(out@ =~= before + g);
                }
                j += 1;
            }
            proof {
                let (f, s, m) = on_block(i as int, k as int, n as int, s0, lit0);
                assert(out@ =~= start + f);
            }
        },
    }
}

/// Plans a town of `n` blocks a side: its streets, then block by block the
/// pavement round it and what stands on it.
pub fn plan(seed: u64, n: i32) -> (out: Vec<Feature>)
    requires
        1 <= n <= 40000,
    ensures
        out@ == town(seed, n as int),
{
    let mut out: Vec<Feature> = Vec::new();
    let end: i32 = n * PITCH_CM + STREET_CM;
    let mut i: i32 = 0;
    assert(out@ =~= streets(n as int, 0));
    while i <= n
        invariant
            0 <= i <= n + 1,
            1 <= n <= 40000,
            end == extent(n as int),
            out@ == streets(n as int, i as int),
        decreases n + 1 - i,
    {
        let at: i32 = i * PITCH_CM + 600;
        out.push(Feature::Street { x0: at, z0: 0, x1: at, z1: end });
        out.push(Feature::Street { x0: 0, z0: at, x1: end, z1: at });
        assert(out@ =~= streets(n as int, i + 1));
        i += 1;
    }
    let ghost roads = out@;
    let mut rng = Rand(seed ^ 0x7077);
    let mut lit: u32 = (seed % 0x1_0000) as u32;
    let ghost (s0, lit0) = (rng.0, lit);
    let mut m: i32 = 0;
    let mut bi: i32 = 0;
    let mut bk: i32 = 0;
    proof {
        assert(out@ =~= roads + Seq::empty());
        assert(n * n <= 1_600_000_000) by (nonlinear_arith)
            requires
                1 <= n <= 40000,
        ;
    }
    let total: i32 = n * n;
    while m < total
        invariant
            1 <= n <= 40000,
            total == n * n,
            total <= 1_600_000_000,
            0 <= m <= total,
            0 <= bi,
            0 <= bk < n,
            m == bi * n + bk,
            ({
                let (f, s, l) = blocks(n as int, s0, lit0, m as int);
                &&& out@ == roads + f
                &&& rng.0 == s
                &&& lit == l
            }),
        decreases total - m,
    {
        proof {
            let (gm, gn, gi, gk) = (m as int, n as int, bi as int, bk as int);
            vstd::arithmetic::div_mod::lemma_fundamental_div_mod_converse(gm, gn, gi, gk);
            assert(gi < gn) by (nonlinear_arith)
                requires
                    gi * gn + gk < gn * gn,
                    gk >= 0,
                    gn >= 1,
            ;
            assert((gi + 1) * gn == gi * gn + gn) by (nonlinear_arith);
        }
        let ghost before = out@;
        let ghost f = blocks(n as int, s0, lit0, m as int).0;
        put_block(&mut out, bi, bk, n, &mut rng, &mut lit);
        proof {
            let g = blocks(n as int, s0, lit0, m + 1).0;
            assert(out@ =~= roads + g);
        }
        m += 1;
        bk += 1;
        if bk == n {
            bk = 0;
            bi += 1;
        }
    }
    out
}

/// A street light's parts, from the pavement's level; its arm reaches 1.4 m
/// toward smaller or larger z.
pub open spec fn street_light_pieces(toward: bool) -> Seq<Piece> {
    let a = if toward {
        140int
    } else {
        -140
    };
    let steel = MaterialId(ids::STEEL);
    seq![
        block(-12, -80, -12, 12, 650, 12, steel),
        if toward {
            block(-6, 630, -6, 6, 642, 146, steel)
        } else {
            block(-6, 630, -146, 6, 642, 6, steel)
        },
        block(-25, 620, a - 25, 25, 634, a + 25, steel),
        block(-20, 616, a - 20, 20, 622, a + 20, MaterialId(ids::GLOWSTONE)),
    ]
}

pub fn street_light(toward: bool) -> (out: Vec<Piece>)
    ensures
        out@ == street_light_pieces(toward),
{
    let a: i32 = if toward {
        140
    } else {
        -140
    };
    let steel = MaterialId(ids::STEEL);
    let mut out: Vec<Piece> = Vec::new();
    out.push(block_at(-12, -80, -12, 12, 650, 12, steel));
    if toward {
        out.push(block_at(-6, 630, -6, 6, 642, 146, steel));
    } else {
        out.push(block_at(-6, 630, -146, 6, 642, 6, steel));
    }
    out.push(block_at(-25, 620, a - 25, 25, 634, a + 25, steel));
    out.push(block_at(-20, 616, a - 20, 20, 622, a + 20, MaterialId(ids::GLOWSTONE)));
    assert(out@ =~= street_light_pieces(toward));
    out
}

/// The fountain in the middle of a park, from the ground there.
pub open spec fn fountain_pieces() -> Seq<Piece> {
    seq![
        drum(-50, 340, 110, ids::STONE_BRICK),
        drum(0, 300, 60, ids::AIR),
        drum(0, 300, 40, ids::WATER),
        drum(-50, 45, 280, ids::MARBLE),
        drum(230, 110, 25, ids::MARBLE),
    ]
}

/// A park's fountain; two gravel paths cross under it.
pub fn park() -> (out: Vec<Piece>)
    ensures
        out@ == fountain_pieces(),
{
    let mut out: Vec<Piece> = Vec::new();
    out.push(drum_at(-50, 340, 110, ids::STONE_BRICK));
    out.push(drum_at(0, 300, 60, ids::AIR));
    out.push(drum_at(0, 300, 40, ids::WATER));
    out.push(drum_at(-50, 45, 280, ids::MARBLE));
    out.push(drum_at(230, 110, 25, ids::MARBLE));
    assert(out@ =~= fountain_pieces());
    out
}

/// Blocks do not meet: from one block's edge to the next is a street's width.
pub proof fn blocks_are_a_street_apart(i: int, j: int)
    requires
        0 <= i < j,
    ensures
        i * PITCH_CM + STREET_CM + BLOCK_CM + STREET_CM <= j * PITCH_CM + STREET_CM,
{
}

/// Every building of a block stands on it, at least a metre in from its edges.
pub proof fn buildings_keep_to_their_block(i: int, k: int, n: int, s: u64, lit: u32, q: int)
    requires
        0 <= i < n <= 40000,
        0 <= k < n,
        0 <= q < on_block(i, k, n, s, lit).0.len(),
    ensures
        on_block(i, k, n, s, lit).0[q] matches Feature::Building { lot, .. } ==> {
            &&& i * 4800 + 1300 <= lot.x0 < lot.x1 <= i * 4800 + 4700
            &&& k * 4800 + 1300 <= lot.z0 < lot.z1 <= k * 4800 + 4700
        },
{
    let (x, z) = (i * PITCH_CM + STREET_CM, k * PITCH_CM + STREET_CM);
    let t = step(s);
    if block_use(i, k, n, draw(t)) is Lots {
        let l = lots(below(draw(step(t)), SHARE_0_5 as int), 340);
        lemma_lot_buildings(l, x + 100, z + 100, step(t), lit, l.len() as int);
        let f = lot_buildings(l, x + 100, z + 100, step(t), lit, l.len() as int).0;
        if q >= 8 {
            assert(on_block(i, k, n, s, lit).0[q] == f[q - 8]);
        } else {
            assert(on_block(i, k, n, s, lit).0[q] == kerb(x, z)[q]);
        }
    } else if q < 8 {
        assert(on_block(i, k, n, s, lit).0[q] == kerb(x, z)[q]);
    }
}

proof fn lemma_lot_buildings(l: Seq<Lot>, x: int, z: int, s: u64, lit: u32, m: int)
    requires
        0 <= m <= l.len(),
        0 <= x <= 0x2000_0000,
        0 <= z <= 0x2000_0000,
        forall|j: int|
            0 <= j < l.len() ==> 0 <= (#[trigger] l[j]).x0 < l[j].x1 <= 340 && 0 <= l[j].z0
                < l[j].z1 <= 340,
    ensures
        lot_buildings(l, x, z, s, lit, m).0.len() == m,
        forall|q: int|
            0 <= q < m ==> ((#[trigger] lot_buildings(l, x, z, s, lit, m).0[q]) matches
                Feature::Building { lot, .. } && lot.x0 == l[q].x0 * 10 + x && lot.x1 == l[q].x1
                * 10 + x && lot.z0 == l[q].z0 * 10 + z && lot.z1 == l[q].z1 * 10 + z),
    decreases m,
{
    if m > 0 {
        lemma_lot_buildings(l, x, z, s, lit, m - 1);
        let (f, t, k) = lot_buildings(l, x, z, s, lit, m - 1);
        assert forall|q: int| 0 <= q < m implies ((#[trigger] lot_buildings(
            l,
            x,
            z,
            s,
            lit,
            m,
        ).0[q]) matches Feature::Building { lot, .. } && lot.x0 == l[q].x0 * 10 + x && lot.x1
            == l[q].x1 * 10 + x && lot.z0 == l[q].z0 * 10 + z && lot.z1 == l[q].z1 * 10 + z) by {
            assert(l[q].x0 < l[q].x1);
            if q < m - 1 {
                assert(f[q] == lot_buildings(l, x, z, s, lit, m).0[q]);
            }
        }
    }
}

/// The features of the first `m` blocks are those of the blocks.
proof fn lemma_blocks(n: int, s: u64, lit: u32, m: int, q: int)
    requires
        1 <= n,
        0 <= m <= n * n,
        0 <= q < blocks(n, s, lit, m).0.len(),
    ensures
        exists|i: int, k: int, t: u64, l: u32, p: int|
            0 <= i < n && 0 <= k < n && 0 <= p < on_block(i, k, n, t, l).0.len() && blocks(
                n,
                s,
                lit,
                m,
            ).0[q] == #[trigger] on_block(i, k, n, t, l).0[p],
    decreases m,
{
    if m > 0 {
        let (f, t, l) = blocks(n, s, lit, m - 1);
        let (i, k) = ((m - 1) / n, (m - 1) % n);
        vstd::arithmetic::div_mod::lemma_fundamental_div_mod(m - 1, n);
        assert(0 <= i < n) by (nonlinear_arith)
            requires
                m - 1 == n * i + k,
                0 <= k < n,
                0 <= m - 1 < n * n,
                1 <= n,
        ;
        if q < f.len() {
            lemma_blocks(n, s, lit, m - 1, q);
            let (a, b, c, d, p) = choose|a: int, b: int, c: u64, d: u32, p: int|
                0 <= a < n && 0 <= b < n && 0 <= p < on_block(a, b, n, c, d).0.len() && blocks(
                    n,
                    s,
                    lit,
                    m - 1,
                ).0[q] == #[trigger] on_block(a, b, n, c, d).0[p];
            assert(blocks(n, s, lit, m).0[q] == on_block(a, b, n, c, d).0[p]);
        } else {
            let p = q - f.len();
            assert(blocks(n, s, lit, m).0[q] == on_block(i, k, n, t, l).0[p]);
        }
    }
}

proof fn lemma_streets(n: int, m: int, q: int)
    requires
        0 <= m,
        0 <= n,
    ensures
        streets(n, m).len() == 2 * m,
        0 <= q < 2 * m ==> streets(n, m)[q] == street_pair(n, q / 2)[q % 2],
    decreases m,
{
    if m > 0 {
        lemma_streets(n, m - 1, q);
    }
}

proof fn lemma_some_block(n: int, s: u64, lit: u32, m: int, q: int, j: int)
    requires
        1 <= n <= 40000,
        0 <= m <= n * n,
        0 <= q < blocks(n, s, lit, m).0.len(),
        0 <= j <= n,
    ensures
        blocks(n, s, lit, m).0[q] matches Feature::Building { lot, .. } ==> clear_of(lot, n, j),
{
    lemma_blocks(n, s, lit, m, q);
    let (a, b, c, d, p) = choose|a: int, b: int, c: u64, d: u32, p: int|
        0 <= a < n && 0 <= b < n && 0 <= p < on_block(a, b, n, c, d).0.len() && blocks(
            n,
            s,
            lit,
            m,
        ).0[q] == #[trigger] on_block(a, b, n, c, d).0[p];
    buildings_keep_to_their_block(a, b, n, c, d, p);
    lemma_off_street(a, n, j);
    lemma_off_street(b, n, j);
}

/// A lot lies in the town and off street `j`, both ways.
spec fn clear_of(lot: Lot, n: int, j: int) -> bool {
    &&& lot.x1 < j * 4800 || lot.x0 > j * 4800 + 1200
    &&& lot.z1 < j * 4800 || lot.z0 > j * 4800 + 1200
    &&& 1300 <= lot.x0 < lot.x1 <= n * 4800 - 100
    &&& 1300 <= lot.z0 < lot.z1 <= n * 4800 - 100
}

proof fn lemma_off_street(a: int, n: int, j: int)
    requires
        0 <= a < n,
        0 <= j <= n,
    ensures
        a * 4800 + 4700 < j * 4800 || a * 4800 + 1300 > j * 4800 + 1200,
        a * 4800 + 4700 <= n * 4800 - 100,
        0 <= a * 4800,
{
}

/// No building of a town stands on a street, and each stands within one of its
/// blocks: streets are twelve metres wide, one every 48 m.
pub proof fn buildings_clear_the_streets(seed: u64, n: int, q: int, j: int)
    requires
        1 <= n <= 40000,
        0 <= q < town(seed, n).len(),
        0 <= j <= n,
    ensures
        town(seed, n)[q] matches Feature::Building { lot, .. } ==> {
            &&& lot.x1 < j * 4800 || lot.x0 > j * 4800 + 1200
            &&& lot.z1 < j * 4800 || lot.z0 > j * 4800 + 1200
            &&& 1300 <= lot.x0 < lot.x1 <= n * 4800 - 100
            &&& 1300 <= lot.z0 < lot.z1 <= n * 4800 - 100
        },
{
    let st = streets(n, n + 1);
    lemma_streets(n, n + 1, q);
    if q >= st.len() {
        let (s, l) = (seed ^ 0x7077, (seed % 0x1_0000) as u32);
        assert(town(seed, n)[q] == blocks(n, s, l, n * n).0[q - st.len()]);
        assert(n * n >= 0) by (nonlinear_arith);
        lemma_some_block(n, s, l, n * n, q - st.len(), j);
    } else {
        assert(town(seed, n)[q] == st[q]);
    }
}

/// Streets cross the whole town, one pair for each line between its blocks
/// and round them, their middles 48 m apart from six metres in.
pub proof fn streets_cross_the_town(seed: u64, n: int, j: int)
    requires
        1 <= n <= 40000,
        0 <= j <= n,
    ensures
        town(seed, n).len() >= 2 * n + 2,
        town(seed, n)[2 * j] == (Feature::Street {
            x0: (j * 4800 + 600) as i32,
            z0: 0,
            x1: (j * 4800 + 600) as i32,
            z1: (n * 4800 + 1200) as i32,
        }),
        town(seed, n)[2 * j + 1] == (Feature::Street {
            x0: 0,
            z0: (j * 4800 + 600) as i32,
            x1: (n * 4800 + 1200) as i32,
            z1: (j * 4800 + 600) as i32,
        }),
{
    lemma_streets(n, n + 1, 2 * j);
    lemma_streets(n, n + 1, 2 * j + 1);
}

/// Pavements two metres wide go all the way round a block, touching it: their
/// middles lie a metre out. Lights stand on the two along x, four and twenty
/// metres in, and lean away from the block.
pub proof fn pavements_go_round_their_block(i: int, k: int, n: int, s: u64, lit: u32)
    requires
        0 <= i < n <= 40000,
        0 <= k < n,
    ensures
        ({
            let f = on_block(i, k, n, s, lit).0;
            let (x0, x1) = ((i * 4800 + 1100) as i32, (i * 4800 + 4900) as i32);
            let (z0, z1) = ((k * 4800 + 1100) as i32, (k * 4800 + 4900) as i32);
            &&& f.len() >= 8
            &&& f[0] == (Feature::Pavement { x0, z0, x1, z1: z0 })
            &&& f[1] == (Feature::Pavement { x0: x1, z0, x1, z1 })
            &&& f[2] == (Feature::Pavement { x0: x1, z0: z1, x1: x0, z1 })
            &&& f[3] == (Feature::Pavement { x0, z0: z1, x1: x0, z1: z0 })
            &&& f[4] == (Feature::Light { x: (i * 4800 + 1600) as i32, z: z0, toward: false })
            &&& f[5] == (Feature::Light { x: (i * 4800 + 1600) as i32, z: z1, toward: true })
            &&& f[6] == (Feature::Light { x: (i * 4800 + 3200) as i32, z: z0, toward: false })
            &&& f[7] == (Feature::Light { x: (i * 4800 + 3200) as i32, z: z1, toward: true })
            &&& forall|q: int|
                8 <= q < f.len() ==> !((#[trigger] f[q]) is Pavement) && !(f[q] is Light) && !(f[q]
                    is Street)
        }),
{
    let (x, z) = (i * PITCH_CM + STREET_CM, k * PITCH_CM + STREET_CM);
    let t = step(s);
    let f = on_block(i, k, n, s, lit).0;
    if block_use(i, k, n, draw(t)) is Lots {
        let l = lots(below(draw(step(t)), SHARE_0_5 as int), 340);
        lemma_lot_buildings(l, x + 100, z + 100, step(t), lit, l.len() as int);
        let g = lot_buildings(l, x + 100, z + 100, step(t), lit, l.len() as int).0;
        assert forall|q: int| 8 <= q < f.len() implies !((#[trigger] f[q]) is Pavement) && !(f[q]
            is Light) && !(f[q] is Street) by {
            assert(f[q] == g[q - 8]);
        }
    }
}

/// What stands on a block: in a park a fountain in its very middle; a tower
/// alone on all of it but the metre round it, facing the town's edge street
/// on the first row and inward on the rest; else two or four buildings.
pub proof fn blocks_hold_one_use(i: int, k: int, n: int, s: u64, lit: u32)
    requires
        0 <= i < n <= 40000,
        0 <= k < n,
    ensures
        ({
            let f = on_block(i, k, n, s, lit).0;
            let u = block_use(i, k, n, draw(step(s)));
            &&& u is Park ==> f.len() == 9 && f[8] == (Feature::Park {
                x: (i * 4800 + 3000) as i32,
                z: (k * 4800 + 3000) as i32,
            })
            &&& u is Tower ==> f.len() == 9 && (f[8] matches Feature::Building {
                lot,
                kind,
                street,
                ..
            } && kind is Tower && lot.x0 == i * 4800 + 1300 && lot.x1 == i * 4800 + 4700 && lot.z0
                == k * 4800 + 1300 && lot.z1 == k * 4800 + 4700 && (street is NegZ <==> k == 0) && (
            street is PosZ <==> k != 0))
            &&& u is Lots ==> (f.len() == 10 || f.len() == 12) && forall|q: int|
                8 <= q < f.len() ==> ((#[trigger] f[q]) matches Feature::Building { kind, .. } && !(
                kind is Tower))
        }),
{
    let (x, z) = (i * PITCH_CM + STREET_CM, k * PITCH_CM + STREET_CM);
    let t = step(s);
    let f = on_block(i, k, n, s, lit).0;
    if block_use(i, k, n, draw(t)) is Lots {
        let l = lots(below(draw(step(t)), SHARE_0_5 as int), 340);
        lemma_lot_buildings(l, x + 100, z + 100, step(t), lit, l.len() as int);
        lemma_lot_kinds(l, x + 100, z + 100, step(t), lit, l.len() as int);
        let g = lot_buildings(l, x + 100, z + 100, step(t), lit, l.len() as int).0;
        assert forall|q: int| 8 <= q < f.len() implies ((#[trigger] f[q])
            matches Feature::Building { kind, .. } && !(kind is Tower)) by {
            assert(f[q] == g[q - 8]);
        }
    }
}

proof fn lemma_lot_kinds(l: Seq<Lot>, x: int, z: int, s: u64, lit: u32, m: int)
    requires
        0 <= m <= l.len(),
    ensures
        lot_buildings(l, x, z, s, lit, m).0.len() == m,
        forall|q: int|
            0 <= q < m ==> ((#[trigger] lot_buildings(l, x, z, s, lit, m).0[q])
                matches Feature::Building { kind, .. } && !(kind is Tower)),
    decreases m,
{
    if m > 0 {
        lemma_lot_kinds(l, x, z, s, lit, m - 1);
        let f = lot_buildings(l, x, z, s, lit, m - 1).0;
        assert forall|q: int| 0 <= q < m implies ((#[trigger] lot_buildings(
            l,
            x,
            z,
            s,
            lit,
            m,
        ).0[q]) matches Feature::Building { kind, .. } && !(kind is Tower)) by {
            if q < m - 1 {
                assert(f[q] == lot_buildings(l, x, z, s, lit, m).0[q]);
            }
        }
    }
}

/// A building on a lot: six in ten are apartments, of four to seven floors,
/// the rest offices of three to six, and each faces the nearer street.
pub proof fn lots_hold_low_buildings(lot: Lot, x: int, z: int, s: u64, lit: u32)
    requires
        0 <= draw(step(step(s))) < 0x100_0000,
    ensures
        lot_building(lot, x, z, s, lit) matches Feature::Building { kind, street, floors, inset, .. }
            && (kind is Apartments <==> 4 * draw(step(s)) < 40265319) && (kind is Offices <==> 4 * draw(
            step(s),
        ) >= 40265319) && (kind is Apartments ==> 4 <= floors <= 7) && (kind is Offices ==> 3
            <= floors <= 6) && inset == 0 && (street is NegZ <==> lot.z0 + lot.z1 < 340) && (street
            is PosZ <==> lot.z0 + lot.z1 >= 340),
{
    crate::rand::picks_stay_below(draw(step(step(s))), 4);
}

/// Towers are set back three to five metres, whole metres by the draw: a
/// quarter of them three, half four and a quarter five.
pub proof fn towers_are_set_back(n: int)
    requires
        0 <= n < 0x100_0000,
    ensures
        set_back(n) % 100 == 0,
        -(50 * 0x100_0000 + 400) <= set_back(n) * 0x100_0000 - (300 * 0x100_0000 + 200 * n) <= 50
            * 0x100_0000 + 400,
        set_back(n) == 300 || set_back(n) == 400 || set_back(n) == 500,
{
}

/// A street light's arm and lamp reach over the street, above head height, and
/// the lamp hangs under its hood.
pub proof fn street_lights_hang_over_the_street(toward: bool)
    ensures
        ({
            let p = street_light_pieces(toward);
            &&& p.len() == 4
            &&& p[3].m == MaterialId(ids::GLOWSTONE)
            &&& p[0].m == MaterialId(ids::STEEL) && p[1].m == p[0].m && p[2].m == p[0].m
            &&& p[0].lo.y < 0 && p[0].hi.y == 650
            &&& p[3].lo.y < p[2].lo.y && p[3].hi.y <= p[2].hi.y && p[3].lo.y >= 600
            &&& p[2].lo.z + p[2].hi.z == p[3].lo.z + p[3].hi.z
            &&& p[2].lo.z + p[2].hi.z == if toward {
                280int
            } else {
                -280
            }
            &&& p[1].lo.z <= p[0].hi.z && p[0].lo.z <= p[1].hi.z
            &&& p[1].lo.y >= p[2].lo.y && p[1].hi.y <= p[0].hi.y
            &&& if toward {
                p[1].hi.z > 140
            } else {
                p[1].lo.z < -140
            }
        }),
{
}

/// A fountain holds water: the basin is hollowed before it is filled, inside
/// its rim and below it, and the pillar with its bowl stands in the middle.
pub proof fn fountains_hold_water()
    ensures
        ({
            let p = fountain_pieces();
            &&& p.len() == 5
            &&& p[0] == drum(-50, 340, 110, ids::STONE_BRICK)
            &&& p[1] == drum(0, 300, 60, ids::AIR)
            &&& p[2] == drum(0, 300, 40, ids::WATER)
            &&& p[3] == drum(-50, 45, 280, ids::MARBLE)
            &&& p[4] == drum(230, 110, 25, ids::MARBLE)
        }),
{
}

/// Lights are numbered through a town: a park takes no number, a tower two,
/// and the buildings on lots one each, in order.
pub proof fn lights_are_numbered_on(i: int, k: int, n: int, s: u64, lit: u32)
    ensures
        ({
            let (f, _, next) = on_block(i, k, n, s, lit);
            let used = match f.last() {
                Feature::Building { kind, .. } => if kind is Tower {
                    2int
                } else {
                    f.len() - 8
                },
                _ => 0,
            };
            next == (lit + used) % 0x1_0000_0000
        }),
{
    let (x, z) = (i * PITCH_CM + STREET_CM, k * PITCH_CM + STREET_CM);
    let t = step(s);
    if block_use(i, k, n, draw(t)) is Lots {
        let l = lots(below(draw(step(t)), SHARE_0_5 as int), 340);
        lemma_lot_lights(l, x + 100, z + 100, step(t), lit, l.len() as int);
        let f = lot_buildings(l, x + 100, z + 100, step(t), lit, l.len() as int).0;
        assert(on_block(i, k, n, s, lit).0.last() == f.last());
    }
}

proof fn lemma_lot_lights(l: Seq<Lot>, x: int, z: int, s: u64, lit: u32, m: int)
    requires
        0 <= m <= l.len(),
        m <= 1000,
    ensures
        lot_buildings(l, x, z, s, lit, m).0.len() == m,
        lot_buildings(l, x, z, s, lit, m).2 == (lit + m) % 0x1_0000_0000,
        forall|j: int|
            0 <= j < m ==> (#[trigger] lot_buildings(l, x, z, s, lit, m).0[j] matches Feature::Building {
                kind,
                lit: own,
                inset,
                ..
            } && !(kind is Tower) && own == (lit + j) % 0x1_0000_0000 && inset == 0),
    decreases m,
{
    if m > 0 {
        lemma_lot_lights(l, x, z, s, lit, m - 1);
    }
}

/// A building on a lot covers that lot, and so no other's: its sides are the
/// lot's, ten centimetres to a decimetre, a metre in from the block's corner.
pub proof fn buildings_cover_their_lot(i: int, k: int, n: int, s: u64, lit: u32, q: int)
    requires
        0 <= i < n <= 40000,
        0 <= k < n,
        block_use(i, k, n, draw(step(s))) is Lots,
        8 <= q < on_block(i, k, n, s, lit).0.len(),
    ensures
        ({
            let l = lots(2 * draw(step(step(s))) < 0x100_0000, 340);
            on_block(i, k, n, s, lit).0[q] matches Feature::Building { lot, .. } && q - 8 < l.len()
                && lot.x0 == i * 4800 + 1300 + 10 * l[q - 8].x0 && lot.x1 == i * 4800 + 1300 + 10
                * l[q - 8].x1 && lot.z0 == k * 4800 + 1300 + 10 * l[q - 8].z0 && lot.z1 == k * 4800
                + 1300 + 10 * l[q - 8].z1
        }),
{
    let (x, z) = (i * PITCH_CM + STREET_CM, k * PITCH_CM + STREET_CM);
    let t = step(s);
    let l = lots(below(draw(step(t)), SHARE_0_5 as int), 340);
    let g = lot_buildings(l, x + 100, z + 100, step(t), lit, l.len() as int).0;
    lemma_lot_lights(l, x + 100, z + 100, step(t), lit, l.len() as int);
    lemma_lot_places(l, x + 100, z + 100, step(t), lit, l.len() as int, q - 8);
    assert(on_block(i, k, n, s, lit).0[q] == g[q - 8]);
    assert(0 <= l[q - 8].x0 <= 340 && 0 <= l[q - 8].x1 <= 340);
    assert(0 <= l[q - 8].z0 <= 340 && 0 <= l[q - 8].z1 <= 340);
}

proof fn lemma_lot_places(l: Seq<Lot>, x: int, z: int, s: u64, lit: u32, m: int, q: int)
    requires
        0 <= q < m <= l.len(),
        m <= 1000,
    ensures
        lot_buildings(l, x, z, s, lit, m).0.len() == m,
        lot_buildings(l, x, z, s, lit, m).0[q] matches Feature::Building { lot, .. } && lot
            == placed(l[q], x, z),
    decreases m,
{
    lemma_lot_lights(l, x, z, s, lit, m - 1);
    if q < m - 1 {
        lemma_lot_places(l, x, z, s, lit, m - 1, q);
    }
}

} // verus!
