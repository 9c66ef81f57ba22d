//! Where settlements stand and what goes where in them.

use crate::amplify::{Shore, SurfaceSample};
use crate::flora::Biome;
use crate::key::{Key, K_0_2, K_0_3};
use crate::noise::{hash3, hash_unit24, point_hash, rotate, turned};
use crate::rand::{draw, pick, step, Rand};
use crate::settlement::blueprint::{Facing, Kind};
use vstd::prelude::*;

verus! {

/// A draw in steps of 2^-24 that lies below a share given in steps of 2^-26.
pub open spec fn below(n: int, share: int) -> bool {
    4 * n < share
}

pub const SHARE_0_14: u32 = 9395241;

pub const SHARE_0_3: u32 = 20132660;

pub const SHARE_0_35: u32 = 23488102;

pub const SHARE_0_5: u32 = 33554432;

pub const SHARE_0_6: u32 = 40265320;

pub const SHARE_0_75: u32 = 50331648;

pub const SHARE_0_8: u32 = 53687092;

/// The top 24 bits of a hash.
pub open spec fn unit(h: u64) -> int {
    h as int / 0x100_0000_0000
}

/// What a grid cell of the country is meant to hold: three cells in four a
/// settlement, and a share of those a town.
#[derive(Clone, Copy, Debug, PartialEq, Eq, Structural)]
pub enum Wish {
    Nothing,
    Village,
    Town,
}

pub open spec fn cell_wish(i: i32, k: i32, seed: u64) -> Wish {
    let h = point_hash(i, 3, k, seed);
    if 4 * unit(h) > SHARE_0_75 {
        Wish::Nothing
    } else if below(unit(turned(h, 41)), SHARE_0_35 as int) {
        Wish::Town
    } else {
        Wish::Village
    }
}

pub fn wish_of(i: i32, k: i32, seed: u64) -> (w: Wish)
    ensures
        w == cell_wish(i, k, seed),
{
    let h: u64 = hash3(i, 3, k, seed);
    if 4 * hash_unit24(h) > SHARE_0_75 {
        Wish::Nothing
    } else if 4 * hash_unit24(rotate(h, 41)) < SHARE_0_35 {
        Wish::Town
    } else {
        Wish::Village
    }
}

/// Candidate spots that are tried in a cell.
pub const ATTEMPTS: i32 = 6;

/// A candidate spot: its seed and its place in the cell, in steps of 2^-24.
#[derive(Clone, Copy, Debug, PartialEq, Eq, Structural)]
pub struct Spot {
    pub seed: u64,
    pub x: u32,
    pub z: u32,
}

pub open spec fn spot(i: i32, k: i32, attempt: int, seed: u64) -> Spot {
    let h = point_hash(i, (4 + attempt) as i32, k, seed);
    Spot { seed: h, x: unit(turned(h, 13)) as u32, z: unit(turned(h, 29)) as u32 }
}

pub fn spot_of(i: i32, k: i32, attempt: i32, seed: u64) -> (s: Spot)
    requires
        0 <= attempt < 6,
    ensures
        s == spot(i, k, attempt as int, seed),
{
    let h: u64 = hash3(i, 4 + attempt, k, seed);
    Spot { seed: h, x: hash_unit24(rotate(h, 13)), z: hash_unit24(rotate(h, 29)) }
}

/// How a candidate spot turned out.
#[derive(Clone, Copy, Debug, PartialEq, Eq, Structural)]
pub struct Ground {
    /// Open ground, level enough, well above the sea and off the rivers, and
    /// flat across a plaza.
    pub plaza: bool,
    /// Near one level and dry over a whole street grid.
    pub grid: bool,
}

/// 2.5 m: what a plaza may rise or fall.
pub const PLAZA_M: Key = 0x4020_0000;

/// 7 m: what a town's streets may rise or fall.
pub const GRID_M: Key = 0x40e0_0000;

/// Open ground for a plaza: level enough, three metres above the sea (`dry`),
/// off the rivers, and flat around (`spread`).
pub fn plaza_ground(s: &SurfaceSample, shore: &Shore, dry: Key, spread: Key) -> (b: bool)
    ensures
        b == (match s.lives_in(*shore) {
            Biome::Plains | Biome::Forest | Biome::BirchForest | Biome::Taiga => true,
            _ => false,
        } && s.slope <= K_0_2 && s.height >= dry && s.river <= K_0_2 && spread <= PLAZA_M),
        b ==> s.slope <= 0x3e4c_cccd && s.river <= 0x3e4c_cccd && spread <= 0x4020_0000 && dry
            <= s.height,
        s.slope <= 0x3e4c_cccd && s.river <= 0x3e4c_cccd && spread <= 0x4020_0000 && dry <= s.height
            && !(s.lives_in(*shore) is Ocean || s.lives_in(*shore) is Beach || s.lives_in(
            *shore,
        ) is SnowyTaiga || s.lives_in(*shore) is Desert || s.lives_in(*shore) is Alpine
            || s.lives_in(*shore) is Snow) ==> b,
        b ==> s.lives_in(*shore) is Plains || s.lives_in(*shore) is Forest || s.lives_in(
            *shore,
        ) is BirchForest || s.lives_in(*shore) is Taiga,
{
    let open: bool = match s.biome(shore) {
        Biome::Plains | Biome::Forest | Biome::BirchForest | Biome::Taiga => true,
        _ => false,
    };
    open && s.slope <= K_0_2 && s.height >= dry && s.river <= K_0_2 && spread <= PLAZA_M
}

/// Ground for part of a street grid: near the town's level, two metres above
/// the sea (`dry`), and off the rivers.
pub fn grid_ground(rise: Key, height: Key, dry: Key, river: Key) -> (b: bool)
    ensures
        b == (rise <= GRID_M && height >= dry && river <= K_0_3),
        b <==> rise <= 0x40e0_0000 && dry <= height && river <= 0x3e99_999a,
{
    rise <= GRID_M && height >= dry && river <= K_0_3
}

/// 3 m: what the ground under a house may rise or fall.
pub const HOUSE_M: Key = 0x4040_0000;

/// 1.5 m: what a field may rise or fall.
pub const FIELD_M: Key = 0x3fc0_0000;

/// Ground for a house: nothing else claims it (`free`), it is near level
/// (`spread`), and all of it lies half a metre above the sea (`dry`).
pub fn accepts(free: bool, spread: Key, lowest: Key, dry: Key) -> (b: bool)
    ensures
        b == (free && spread <= HOUSE_M && lowest >= dry),
        b <==> free && dry <= lowest && spread <= 0x4040_0000,
{
    free && spread <= HOUSE_M && lowest >= dry
}

/// Ground for a field.
pub fn accepts_field(free: bool, rise: Key) -> (b: bool)
    ensures
        b == (free && rise <= FIELD_M),
        b <==> free && rise <= 0x3fc0_0000,
{
    free && rise <= FIELD_M
}

/// Whether a spot suits.
pub open spec fn suits(g: Ground, wish: Wish) -> bool {
    match wish {
        Wish::Nothing => false,
        Wish::Village => g.plaza,
        Wish::Town => g.plaza && g.grid,
    }
}

/// The first candidate that suits.
pub fn choose_spot(tried: &Vec<Ground>, wish: Wish) -> (r: Option<usize>)
    ensures
        match r {
            Some(n) => n < tried@.len() && suits(tried@[n as int], wish) && forall|j: int|
                0 <= j < n ==> !suits(#[trigger] tried@[j], wish),
            None => forall|j: int| 0 <= j < tried@.len() ==> !suits(#[trigger] tried@[j], wish),
        },
{
    let mut n: usize = 0;
    while n < tried.len()
        invariant
            n <= tried@.len(),
            forall|j: int| 0 <= j < n ==> !suits(#[trigger] tried@[j], wish),
        decreases tried@.len() - n,
    {
        let g: Ground = tried[n];
        let ok: bool = match wish {
            Wish::Nothing => false,
            Wish::Village => g.plaza,
            Wish::Town => g.plaza && g.grid,
        };
        if ok {
            return Some(n);
        }
        n += 1;
    }
    None
}

/// A claimed footprint.
#[derive(Clone, Copy, Debug, PartialEq, Eq, Structural)]
pub struct Plot {
    pub x0: Key,
    pub z0: Key,
    pub x1: Key,
    pub z1: Key,
}

/// Plots that share no ground.
pub open spec fn disjoint(a: Plot, b: Plot) -> bool {
    b.x1 <= a.x0 || b.x0 >= a.x1 || b.z1 <= a.z0 || b.z0 >= a.z1
}

/// Whether a plot is clear of everything claimed.
pub fn free(claimed: &Vec<Plot>, p: Plot) -> (b: bool)
    ensures
        b == forall|i: int| 0 <= i < claimed@.len() ==> disjoint(#[trigger] claimed@[i], p),
{
    let mut i: usize = 0;
    while i < claimed.len()
        invariant
            i <= claimed@.len(),
            forall|j: int| 0 <= j < i ==> disjoint(#[trigger] claimed@[j], p),
        decreases claimed@.len() - i,
    {
        let a: Plot = claimed[i];
        if !(p.x1 <= a.x0 || p.x0 >= a.x1 || p.z1 <= a.z0 || p.z0 >= a.z1) {
            assert(!disjoint(claimed@[i as int], p));
            return false;
        }
        i += 1;
    }
    true
}

/// A point lies on one of the plots: no tree grows there.
pub fn claims(plots: &Vec<Plot>, x: Key, z: Key) -> (b: bool)
    ensures
        b == exists|i: int|
            0 <= i < plots@.len() && (#[trigger] plots@[i]).x0 <= x < plots@[i].x1 && plots@[i].z0
                <= z < plots@[i].z1,
{
    let mut i: usize = 0;
    while i < plots.len()
        invariant
            i <= plots@.len(),
            forall|j: int|
                0 <= j < i ==> !((#[trigger] plots@[j]).x0 <= x < plots@[j].x1 && plots@[j].z0 <= z
                    < plots@[j].z1),
        decreases plots@.len() - i,
    {
        let a: Plot = plots[i];
        if x >= a.x0 && x < a.x1 && z >= a.z0 && z < a.z1 {
            assert(plots@[i as int].x0 <= x);
            return true;
        }
        i += 1;
    }
    false
}

/// Which of a village's four streets is left out, if one is.
pub fn draw_skipped(rng: &mut Rand) -> (r: Option<i32>)
    ensures
        final(rng).0 == step(old(rng).0),
        ({
            let n = pick(draw(step(old(rng).0)), 6);
            if n < 4 {
                r matches Some(k) && k == n
            } else {
                r is None
            }
        }),
        r matches Some(k) ==> 0 <= k < 4 && 0x1_0000_0000_0000 * k <= 6 * draw(step(old(rng).0))
            * 0x100_0001 && 6 * draw(step(old(rng).0)) * 0xff_ffff < 0x1_0000_0000_0000 * (k + 1),
        r is None ==> 0x4_0000_0000_0000 <= 6 * draw(step(old(rng).0)) * 0x100_0001,
{
    proof {
        crate::rand::picks_are_in_proportion(draw(step(rng.0)), 6);
    }
    let n: i32 = rng.whole(0, 5);
    if n < 4 {
        Some(n)
    } else {
        None
    }
}

/// Whether a field lies behind a house.
pub fn draw_field(rng: &mut Rand) -> (b: bool)
    ensures
        final(rng).0 == step(old(rng).0),
        b == below(draw(step(old(rng).0)), SHARE_0_35 as int),
        b <==> 100 * draw(step(old(rng).0)) < 587202560,
{
    4 * rng.next() < SHARE_0_35
}

/// Blocks to a side of a town.
pub open spec fn town_blocks(seed: u64) -> int {
    if unit(turned(seed, 7)) >= 8430762 {
        4
    } else {
        3
    }
}

/// Blocks to a side for a town of this seed, and its extent in metres: blocks
/// of 36 m between streets of 12 m.
pub fn town_size(seed: u64) -> (r: (i32, i32))
    ensures
        r.0 == town_blocks(seed),
        r.1 == r.0 * 36 + (r.0 + 1) * 12,
{
    let n: i32 = if hash_unit24(rotate(seed, 7)) >= 8430762 {
        4
    } else {
        3
    };
    (n, n * 36 + (n + 1) * 12)
}

/// What a town block holds.
#[derive(Clone, Copy, Debug, PartialEq, Eq, Structural)]
pub enum BlockUse {
    Park,
    Tower,
    /// Two or four lots.
    Lots,
}

/// Within a block and a half of the town's middle.
pub open spec fn central(i: int, k: int, n: int) -> bool {
    let (x, z) = (2 * i - (n - 1), 2 * k - (n - 1));
    (if x < 0 {
        -x
    } else {
        x
    }) + (if z < 0 {
        -z
    } else {
        z
    }) < 3
}

pub open spec fn block_use(i: int, k: int, n: int, roll: int) -> BlockUse {
    if below(roll, SHARE_0_14 as int) && !central(i, k, n) {
        BlockUse::Park
    } else if central(i, k, n) && below(roll, SHARE_0_8 as int) || below(roll, SHARE_0_3 as int) {
        BlockUse::Tower
    } else {
        BlockUse::Lots
    }
}

pub fn draw_block(i: i32, k: i32, n: i32, rng: &mut Rand) -> (u: BlockUse)
    requires
        0 <= i < n <= 40000,
        0 <= k < n,
    ensures
        final(rng).0 == step(old(rng).0),
        u == block_use(i as int, k as int, n as int, draw(step(old(rng).0))),
{
    let roll: u32 = rng.next();
    let x: i32 = 2 * i - (n - 1);
    let z: i32 = 2 * k - (n - 1);
    let ax: i32 = if x < 0 {
        -x
    } else {
        x
    };
    let az: i32 = if z < 0 {
        -z
    } else {
        z
    };
    let mid: bool = ax + az < 3;
    if 4 * roll < SHARE_0_14 && !mid {
        BlockUse::Park
    } else if mid && 4 * roll < SHARE_0_8 || 4 * roll < SHARE_0_3 {
        BlockUse::Tower
    } else {
        BlockUse::Lots
    }
}

/// The middle of a town is never a park.
pub proof fn no_park_in_the_middle(i: int, k: int, n: int, roll: int)
    requires
        central(i, k, n),
    ensures
        block_use(i, k, n, roll) != BlockUse::Park,
{
}

/// A lot of a block, in decimetres from the block's low corner.
#[derive(Clone, Copy, Debug, PartialEq, Eq, Structural)]
pub struct Lot {
    pub x0: i32,
    pub z0: i32,
    pub x1: i32,
    pub z1: i32,
}

/// The lots of a block of `w` by `w` decimetres: halves along x, or quarters,
/// with two metres between.
pub open spec fn lots(halves: bool, w: int) -> Seq<Lot> {
    let m = w / 2;
    let (a, b) = ((m - 10) as i32, (m + 10) as i32);
    let e = w as i32;
    if halves {
        seq![Lot { x0: 0, z0: 0, x1: a, z1: e }, Lot { x0: b, z0: 0, x1: e, z1: e }]
    } else {
        seq![
            Lot { x0: 0, z0: 0, x1: a, z1: a },
            Lot { x0: b, z0: 0, x1: e, z1: a },
            Lot { x0: 0, z0: b, x1: a, z1: e },
            Lot { x0: b, z0: b, x1: e, z1: e },
        ]
    }
}

pub fn draw_lots(w: i32, rng: &mut Rand) -> (r: Vec<Lot>)
    requires
        20 <= w,
    ensures
        final(rng).0 == step(old(rng).0),
        r@ == lots(below(draw(step(old(rng).0)), SHARE_0_5 as int), w as int),
        r@.len() == 2 <==> 2 * draw(step(old(rng).0)) < 0x100_0000,
{
    let halves: bool = 4 * rng.next() < SHARE_0_5;
    let m: i32 = w / 2;
    let (a, b): (i32, i32) = (m - 10, m + 10);
    let mut r: Vec<Lot> = Vec::new();
    if halves {
        r.push(Lot { x0: 0, z0: 0, x1: a, z1: w });
        r.push(Lot { x0: b, z0: 0, x1: w, z1: w });
    } else {
        r.push(Lot { x0: 0, z0: 0, x1: a, z1: a });
        r.push(Lot { x0: b, z0: 0, x1: w, z1: a });
        r.push(Lot { x0: 0, z0: b, x1: a, z1: w });
        r.push(Lot { x0: b, z0: b, x1: w, z1: w });
    }
    assert(r@ =~= lots(halves, w as int));
    r
}

/// Lots of a block never overlap, and stay within it.
pub proof fn lots_are_apart(halves: bool, w: int, i: int, j: int)
    requires
        20 <= w <= i32::MAX,
        0 <= i < j < lots(halves, w).len(),
    ensures
        ({
            let (a, b) = (lots(halves, w)[i], lots(halves, w)[j]);
            &&& a.x1 < b.x0 || a.z1 < b.z0 || b.x1 < a.x0
            &&& 0 <= a.x0 <= a.x1 <= w && 0 <= a.z0 <= a.z1 <= w
            &&& 0 <= b.x0 <= b.x1 <= w && 0 <= b.z0 <= b.z1 <= w
        }),
{
}

/// What stands on a lot.
pub fn draw_kind(rng: &mut Rand) -> (k: Kind)
    ensures
        final(rng).0 == step(old(rng).0),
        k == if below(draw(step(old(rng).0)), SHARE_0_6 as int) {
            Kind::Apartments
        } else {
            Kind::Offices
        },
        k is Apartments <==> 100 * draw(step(old(rng).0)) < 1006632960,
{
    if 4 * rng.next() < SHARE_0_6 {
        Kind::Apartments
    } else {
        Kind::Offices
    }
}

/// The street a lot of a block `w` deep faces: the nearer of the two along x.
/// A lot in the middle of the block faces the far one.
pub open spec fn lots_face(lot: Lot, w: int) -> Facing {
    if lot.z0 + lot.z1 < w {
        Facing::NegZ
    } else {
        Facing::PosZ
    }
}

pub fn lot_facing(lot: &Lot, w: i32) -> (f: Facing)
    ensures
        f == lots_face(*lot, w as int),
{
    if lot.z0 as i64 + (lot.z1 as i64) < w as i64 {
        Facing::NegZ
    } else {
        Facing::PosZ
    }
}

/// Three cells in four are meant to hold a settlement, and 35 in a hundred of
/// those a town; the rest hold a village.
pub proof fn wishes_have_their_share(i: i32, k: i32, seed: u64)
    ensures
        ({
            let h = point_hash(i, 3, k, seed);
            let (some, town) = (h as int / 0x100_0000_0000, turned(h, 41) as int / 0x100_0000_0000);
            &&& cell_wish(i, k, seed) is Nothing <==> 4 * some > 3 * 0x100_0000
            &&& cell_wish(i, k, seed) is Town <==> 4 * some <= 3 * 0x100_0000 && 100 * town < 35
                * 0x100_0000
            &&& cell_wish(i, k, seed) is Village <==> 4 * some <= 3 * 0x100_0000 && 100 * town
                >= 35 * 0x100_0000
        }),
{
}

/// A candidate lies within its cell, and its two places are the top bits of
/// its own seed, turned by 13 and by 29.
pub proof fn spots_lie_in_their_cell(i: i32, k: i32, attempt: int, seed: u64)
    requires
        0 <= attempt < 6,
    ensures
        spot(i, k, attempt, seed).x < 0x100_0000,
        spot(i, k, attempt, seed).z < 0x100_0000,
        spot(i, k, attempt, seed).seed == point_hash(i, (attempt + 4) as i32, k, seed),
        spot(i, k, attempt, seed).x == turned(spot(i, k, attempt, seed).seed, 13) as int
            / 0x100_0000_0000,
        spot(i, k, attempt, seed).z == turned(spot(i, k, attempt, seed).seed, 29) as int
            / 0x100_0000_0000,
{
}

/// A town asks more of the ground than a village, both ask for a plaza, and
/// where nothing is meant nothing suits.
pub proof fn towns_ask_more(g: Ground)
    ensures
        suits(g, Wish::Town) <==> suits(g, Wish::Village) && g.grid,
        suits(g, Wish::Village) <==> g.plaza,
        !suits(g, Wish::Nothing),
{
}

/// Disjoint plots hold no point in common, and plots that are not disjoint
/// hold one.
pub proof fn disjoint_plots_share_no_point(a: Plot, b: Plot)
    requires
        a.x0 < a.x1 && a.z0 < a.z1,
        b.x0 < b.x1 && b.z0 < b.z1,
    ensures
        disjoint(a, b) <==> !exists|x: Key, z: Key|
            a.x0 <= x < a.x1 && #[trigger] meet(x, z) && a.z0 <= z < a.z1 && b.x0 <= x < b.x1
                && b.z0 <= z < b.z1,
{
    let x = if a.x0 > b.x0 {
        a.x0
    } else {
        b.x0
    };
    let z = if a.z0 > b.z0 {
        a.z0
    } else {
        b.z0
    };
    assert(meet(x, z));
}

/// Marks a point of the plane.
pub open spec fn meet(x: Key, z: Key) -> bool {
    true
}

/// A town has three blocks to a side, or four from the draw on that 1.99
/// times it is one.
pub proof fn towns_are_three_or_four_blocks(seed: u64)
    ensures
        town_blocks(seed) == 3 + 199 * (turned(seed, 7) as int / 0x100_0000_0000) / 1677721600,
{
}

/// The middle of a town of three blocks is a cross of five, that of one of
/// four its inner four.
pub proof fn towns_have_a_middle(i: int, k: int)
    ensures
        0 <= i < 3 && 0 <= k < 3 ==> (central(i, k, 3) <==> i == 1 || k == 1),
        0 <= i < 4 && 0 <= k < 4 ==> (central(i, k, 4) <==> 1 <= i <= 2 && 1 <= k <= 2),
        forall|n: int| #[trigger] central(i, k, n) <==> central(k, i, n),
        forall|n: int| #[trigger] central(i, k, n) <==> central(n - 1 - i, k, n),
{
}

/// In the middle 80 blocks in a hundred are towers and none is a park; further
/// out 14 are parks and the next 16 towers; the rest are lots.
pub proof fn blocks_have_their_share(i: int, k: int, n: int, roll: int)
    ensures
        block_use(i, k, n, roll) is Park <==> !central(i, k, n) && 100 * roll < 14 * 0x100_0000,
        central(i, k, n) ==> (block_use(i, k, n, roll) is Tower <==> 100 * roll < 80 * 0x100_0000),
        !central(i, k, n) ==> (block_use(i, k, n, roll) is Tower <==> 14 * 0x100_0000 <= 100 * roll
            < 30 * 0x100_0000),
{
}

/// Two lots halve a block along x and four quarter it, with two metres
/// between neighbours; together they reach all four sides.
pub proof fn lots_divide_their_block(halves: bool, w: int)
    requires
        20 <= w <= i32::MAX,
    ensures
        ({
            let l = lots(halves, w);
            &&& halves ==> l.len() == 2 && l[0].z0 == 0 && l[0].z1 == w && l[1].z0 == 0 && l[1].z1
                == w && l[0].x0 == 0 && l[1].x1 == w && l[1].x0 - l[0].x1 == 20
            &&& halves ==> 0 <= (l[1].x1 - l[1].x0) - (l[0].x1 - l[0].x0) <= 1
            &&& !halves ==> l.len() == 4 && l[0].x0 == 0 && l[0].z0 == 0 && l[3].x1 == w && l[3].z1
                == w && l[1].x0 - l[0].x1 == 20 && l[2].z0 - l[0].z1 == 20
            &&& !halves ==> l[1].x0 == l[3].x0 && l[1].x1 == w && l[1].z0 == 0 && l[1].z1 == l[0].z1
            &&& !halves ==> l[2].x0 == 0 && l[2].x1 == l[0].x1 && l[2].z0 == l[3].z0 && l[2].z1 == w
            &&& !halves ==> l[0].x1 == l[0].z1 && 0 <= w - l[3].x0 - l[0].x1 <= 1 && l[3].z0
                == l[3].x0
        }),
{
}

/// A lot faces the street on the side of its block that it is nearer to.
pub proof fn lots_face_the_nearer_street(lot: Lot, w: int)
    ensures
        lots_face(lot, w) is NegZ <==> lot.z0 < w - lot.z1,
        lots_face(lot, w) is PosZ <==> lot.z0 >= w - lot.z1,
{
}

} // verus!
