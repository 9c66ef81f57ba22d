//! Building plants: the draws each takes from its stream, in order, and the
//! parts it is made of.
//!
//! A part's place and size come from the draws; its material, its share of
//! skin and its salt are settled here.

use crate::flora::{Greens, Part};
use crate::material::{ids, MaterialId};
use crate::rand::{after, nth, pick, pick_of, share, share_of, Rand};
use vstd::prelude::*;

verus! {

/// 2.99 in steps of 2^-22.
pub const UP_TO_THREE: u32 = 12540969;

/// 2.4 in steps of 2^-22.
pub const UP_TO_TWO: u32 = 10066330;

/// 2.5 in steps of 2^-22.
pub const UP_TO_TWO_AND_A_HALF: u32 = 10485760;

/// Largest draw that keeps a skin voxel of a tree's leaves.
pub const LEAF_FILL: u32 = 10401874;

/// Of a pine's tiers.
pub const TIER_FILL: u32 = 11744051;

/// Of a bush.
pub const BUSH_FILL: u32 = 12582912;

/// Of moss on a log.
pub const MOSS_FILL: u32 = 8388608;

/// Of stone, which has no gaps.
pub const STONE_FILL: u32 = 16777216;

/// The salt that a draw gives.
pub open spec fn salt_of(n: int) -> int {
    pick(n, 1000000)
}

/// The next draw of a stream that started at `s` and has given `k`.
fn pull(rng: &mut Rand, Ghost(s): Ghost<u64>, Ghost(k): Ghost<int>) -> (n: u32)
    requires
        k >= 0,
        old(rng).0 == after(s, k),
    ensures
        final(rng).0 == after(s, k + 1),
        n == nth(s, k + 1),
        n < 0x100_0000,
{
    assert(after(s, k + 1) == crate::rand::step(after(s, k)));
    rng.next()
}

/// A cluster of leaves.
pub open spec fn leaf_cluster(m: MaterialId, salt: int) -> Part {
    Part::Blob { m, fill: LEAF_FILL, cap: None, salt: salt as u32 }
}

fn leaves(m: MaterialId, salt: u32) -> (p: Part)
    ensures
        p == leaf_cluster(m, salt as int),
{
    Part::Blob { m, fill: LEAF_FILL, cap: None, salt }
}

/// The draws of a limb: where on the trunk, its turn, reach, rise and bend,
/// then the size and depth of the cluster at its end.
#[derive(Clone, Copy, Debug, PartialEq, Eq, Structural)]
pub struct Limb {
    pub at: u32,
    pub turn: u32,
    pub reach: u32,
    pub rise: u32,
    pub bend: u32,
    pub size: u32,
    pub depth: u32,
}

impl Limb {
    pub open spec fn drawn(self, s: u64, k: int) -> bool {
        &&& self.at == nth(s, k + 1)
        &&& self.turn == nth(s, k + 2)
        &&& self.reach == nth(s, k + 3)
        &&& self.rise == nth(s, k + 4)
        &&& self.bend == nth(s, k + 5)
        &&& self.size == nth(s, k + 6)
        &&& self.depth == nth(s, k + 7)
    }
}

/// The draws of a cluster in a crown, or of an arm of a cactus or a blob of a
/// bush: where along the stem, its heading, how far out, and its size.
#[derive(Clone, Copy, Debug, PartialEq, Eq, Structural)]
pub struct Four {
    pub first: u32,
    pub second: u32,
    pub third: u32,
    pub fourth: u32,
}

impl Four {
    pub open spec fn drawn(self, s: u64, k: int) -> bool {
        &&& self.first == nth(s, k + 1)
        &&& self.second == nth(s, k + 2)
        &&& self.third == nth(s, k + 3)
        &&& self.fourth == nth(s, k + 4)
    }
}

fn pull_four(rng: &mut Rand, Ghost(s): Ghost<u64>, Ghost(k): Ghost<int>) -> (f: Four)
    requires
        k >= 0,
        old(rng).0 == after(s, k),
    ensures
        final(rng).0 == after(s, k + 4),
        f.drawn(s, k),
{
    let first: u32 = pull(rng, Ghost(s), Ghost(k));
    let second: u32 = pull(rng, Ghost(s), Ghost(k + 1));
    let third: u32 = pull(rng, Ghost(s), Ghost(k + 2));
    let fourth: u32 = pull(rng, Ghost(s), Ghost(k + 3));
    Four { first, second, third, fourth }
}

/// `n` groups of four draws after the first `k`.
pub open spec fn fours_drawn(f: Seq<Four>, n: int, s: u64, k: int) -> bool {
    f.len() == n && forall|i: int| 0 <= i < n ==> (#[trigger] f[i]).drawn(s, k + 4 * i)
}

fn pull_fours(rng: &mut Rand, n: u32, Ghost(s): Ghost<u64>, Ghost(k): Ghost<int>) -> (f: Vec<Four>)
    requires
        k >= 0,
        old(rng).0 == after(s, k),
    ensures
        final(rng).0 == after(s, k + 4 * n),
        fours_drawn(f@, n as int, s, k),
{
    let mut f: Vec<Four> = Vec::new();
    let mut i: u32 = 0;
    while i < n
        invariant
            i <= n,
            k >= 0,
            rng.0 == after(s, k + 4 * i),
            fours_drawn(f@, i as int, s, k),
        decreases n - i,
    {
        let one = pull_four(rng, Ghost(s), Ghost(k + 4 * i));
        f.push(one);
        i += 1;
    }
    f
}

/// The draws of a broadleaf tree: a leaning trunk flaring at the root, limbs
/// spreading from low on it, and a broad, uneven crown of leaf clusters at
/// their ends, over the top and in between.
#[derive(Debug)]
pub struct Broadleaf {
    pub height: u32,
    pub girth: u32,
    pub lean_to: u32,
    pub lean_by: u32,
    /// Heading and size of the wobble at each of the trunk's three bends.
    pub bends: [(u32, u32); 3],
    pub salt: u32,
    pub crown_base: u32,
    pub limbs: Vec<Limb>,
    pub crown: u32,
    pub extras: Vec<Four>,
}

/// Draws before a broadleaf's limbs: tall ones always have three.
pub open spec fn before_limbs(tall: bool) -> int {
    if tall {
        12
    } else {
        13
    }
}

pub open spec fn limb_count(s: u64, tall: bool) -> int {
    if tall {
        3
    } else {
        4 + share(nth(s, 13), UP_TO_THREE as int)
    }
}

/// Draws up to and with the crown's.
pub open spec fn with_crown(s: u64, tall: bool) -> int {
    before_limbs(tall) + 7 * limb_count(s, tall) + 1
}

pub open spec fn extra_count(s: u64, tall: bool) -> int {
    if tall {
        2
    } else {
        4 + share(nth(s, with_crown(s, tall) + 1), UP_TO_THREE as int)
    }
}

pub open spec fn before_extras(s: u64, tall: bool) -> int {
    if tall {
        with_crown(s, tall)
    } else {
        with_crown(s, tall) + 1
    }
}

impl Broadleaf {
    /// The tree that stream `s` builds.
    pub open spec fn drawn(&self, s: u64, tall: bool) -> bool {
        &&& self.height == nth(s, 1)
        &&& self.girth == nth(s, 2)
        &&& self.lean_to == nth(s, 3)
        &&& self.lean_by == nth(s, 4)
        &&& forall|i: int|
            0 <= i < 3 ==> (#[trigger] self.bends@[i]).0 == nth(s, 5 + 2 * i) && self.bends@[i].1
                == nth(s, 6 + 2 * i)
        &&& self.salt == salt_of(nth(s, 11))
        &&& self.crown_base == nth(s, 12)
        &&& self.limbs@.len() == limb_count(s, tall)
        &&& forall|i: int|
            0 <= i < self.limbs@.len() ==> (#[trigger] self.limbs@[i]).drawn(
                s,
                before_limbs(tall) + 7 * i,
            )
        &&& self.crown == nth(s, with_crown(s, tall))
        &&& fours_drawn(self.extras@, extra_count(s, tall), s, before_extras(s, tall))
    }

    /// Part `j` of the tree: the root's flare and the trunk's three bends,
    /// two rods and a cluster to each limb, the crown's top, and the clusters
    /// scattered through it.
    pub open spec fn part(&self, j: int, log: MaterialId, leaf: MaterialId) -> Part {
        let n = self.limbs@.len() as int;
        if j < 4 || j < 4 + 3 * n && (j - 4) % 3 != 2 {
            Part::Wood { m: log }
        } else if j < 4 + 3 * n {
            leaf_cluster(leaf, self.salt + (j - 4) / 3)
        } else if j == 4 + 3 * n {
            leaf_cluster(leaf, self.salt + 11)
        } else {
            leaf_cluster(leaf, self.salt + 21 + (j - 5 - 3 * n))
        }
    }

    pub fn parts(&self, log: MaterialId, leaf: MaterialId) -> (p: Vec<Part>)
        requires
            self.salt < 1000000,
            self.limbs@.len() < 0x1_0000,
            self.extras@.len() < 0x1_0000,
        ensures
            p@.len() == 5 + 3 * self.limbs@.len() + self.extras@.len(),
            forall|j: int| 0 <= j < p@.len() ==> #[trigger] p@[j] == self.part(j, log, leaf),
    {
        let wood = Part::Wood { m: log };
        let mut p: Vec<Part> = Vec::new();
        p.push(wood);
        p.push(wood);
        p.push(wood);
        p.push(wood);
        let mut i: usize = 0;
        let limbs: usize = self.limbs.len();
        while i < limbs
            invariant
                wood == (Part::Wood { m: log }),
                i <= limbs == self.limbs@.len() < 0x1_0000,
                self.salt < 1000000,
                p@.len() == 4 + 3 * i,
                forall|j: int| 0 <= j < p@.len() ==> #[trigger] p@[j] == self.part(j, log, leaf),
            decreases limbs - i,
        {
            p.push(wood);
            p.push(wood);
            p.push(leaves(leaf, self.salt + i as u32));
            assert((3 * i) % 3 == 0 && (3 * i + 1) % 3 == 1 && (3 * i + 2) % 3 == 2);
            assert((3 * i + 2) / 3 == i);
            i += 1;
        }
        p.push(leaves(leaf, self.salt + 11));
        let mut i: usize = 0;
        let extras: usize = self.extras.len();
        while i < extras
            invariant
                i <= extras == self.extras@.len() < 0x1_0000,
                self.salt < 1000000,
                p@.len() == 5 + 3 * self.limbs@.len() + i,
                forall|j: int| 0 <= j < p@.len() ==> #[trigger] p@[j] == self.part(j, log, leaf),
            decreases extras - i,
        {
            p.push(leaves(leaf, self.salt + 21 + i as u32));
            i += 1;
        }
        p
    }
}

/// Draws a broadleaf tree.
pub fn broadleaf(rng: &mut Rand, tall: bool) -> (t: Broadleaf)
    ensures
        t.drawn(old(rng).0, tall),
        t.salt < 1000000,
        t.limbs@.len() <= 12,
        t.extras@.len() <= 12,
        final(rng).0 == after(
            old(rng).0,
            before_extras(old(rng).0, tall) + 4 * extra_count(old(rng).0, tall),
        ),
{
    let ghost s = rng.0;
    let height: u32 = pull(rng, Ghost(s), Ghost(0));
    let girth: u32 = pull(rng, Ghost(s), Ghost(1));
    let lean_to: u32 = pull(rng, Ghost(s), Ghost(2));
    let lean_by: u32 = pull(rng, Ghost(s), Ghost(3));
    let b0: u32 = pull(rng, Ghost(s), Ghost(4));
    let b1: u32 = pull(rng, Ghost(s), Ghost(5));
    let b2: u32 = pull(rng, Ghost(s), Ghost(6));
    let b3: u32 = pull(rng, Ghost(s), Ghost(7));
    let b4: u32 = pull(rng, Ghost(s), Ghost(8));
    let b5: u32 = pull(rng, Ghost(s), Ghost(9));
    let bends: [(u32, u32); 3] = [(b0, b1), (b2, b3), (b4, b5)];
    let salt: u32 = pick_of(pull(rng, Ghost(s), Ghost(10)), 1000000);
    let crown_base: u32 = pull(rng, Ghost(s), Ghost(11));
    let count: u32 = if tall {
        3
    } else {
        4 + share_of(pull(rng, Ghost(s), Ghost(12)), UP_TO_THREE)
    };
    let ghost from = before_limbs(tall);
    let mut limbs: Vec<Limb> = Vec::new();
    let mut i: u32 = 0;
    while i < count
        invariant
            i <= count <= 12,
            from >= 0,
            rng.0 == after(s, from + 7 * i),
            limbs@.len() == i,
            forall|j: int| 0 <= j < i ==> (#[trigger] limbs@[j]).drawn(s, from + 7 * j),
        decreases count - i,
    {
        let ghost k = from + 7 * i;
        let at: u32 = pull(rng, Ghost(s), Ghost(k));
        let turn: u32 = pull(rng, Ghost(s), Ghost(k + 1));
        let reach: u32 = pull(rng, Ghost(s), Ghost(k + 2));
        let rise: u32 = pull(rng, Ghost(s), Ghost(k + 3));
        let bend: u32 = pull(rng, Ghost(s), Ghost(k + 4));
        let size: u32 = pull(rng, Ghost(s), Ghost(k + 5));
        let depth: u32 = pull(rng, Ghost(s), Ghost(k + 6));
        limbs.push(Limb { at, turn, reach, rise, bend, size, depth });
        i += 1;
    }
    let crown: u32 = pull(rng, Ghost(s), Ghost(from + 7 * count));
    let more: u32 = if tall {
        2
    } else {
        4 + share_of(pull(rng, Ghost(s), Ghost(from + 7 * count + 1)), UP_TO_THREE)
    };
    let extras: Vec<Four> = pull_fours(rng, more, Ghost(s), Ghost(before_extras(s, tall)));
    Broadleaf {
        height,
        girth,
        lean_to,
        lean_by,
        bends,
        salt,
        crown_base,
        limbs,
        crown,
        extras,
    }
}

/// A tier of a pine, snow on it in the cold.
pub open spec fn tier(salt: int, snowy: bool) -> Part {
    Part::Blob {
        m: MaterialId(ids::PINE_NEEDLES),
        fill: TIER_FILL,
        cap: if snowy {
            Some(MaterialId(ids::SNOW))
        } else {
            None
        },
        salt: salt as u32,
    }
}

/// Part `j` of a pine of `tiers` tiers: root and trunk, the tiers, the spike.
pub open spec fn pine_part(salt: u32, tiers: int, snowy: bool, j: int) -> Part {
    if j < 2 {
        Part::Wood { m: MaterialId(ids::PINE_LOG) }
    } else if j < 2 + tiers {
        tier(salt + (j - 2), snowy)
    } else {
        leaf_cluster(MaterialId(ids::PINE_NEEDLES), salt + 99)
    }
}

/// The parts of a pine: a straight trunk and tiers of needles narrowing to a
/// spike.
pub fn pine(salt: u32, tiers: u32, snowy: bool) -> (p: Vec<Part>)
    requires
        salt < 1000000,
        tiers < 0x1_0000,
    ensures
        p@.len() == tiers + 3,
        forall|j: int|
            0 <= j < p@.len() ==> #[trigger] p@[j] == pine_part(salt, tiers as int, snowy, j),
{
    let wood = Part::Wood { m: MaterialId(ids::PINE_LOG) };
    let mut p: Vec<Part> = Vec::new();
    p.push(wood);
    p.push(wood);
    let mut i: u32 = 0;
    while i < tiers
        invariant
            i <= tiers < 0x1_0000,
            salt < 1000000,
            p@.len() == 2 + i,
            forall|j: int|
                0 <= j < p@.len() ==> #[trigger] p@[j] == pine_part(salt, tiers as int, snowy, j),
        decreases tiers - i,
    {
        p.push(
            Part::Blob {
                m: MaterialId(ids::PINE_NEEDLES),
                fill: TIER_FILL,
                cap: if snowy {
                    Some(MaterialId(ids::SNOW))
                } else {
                    None
                },
                salt: salt + i,
            },
        );
        i += 1;
    }
    p.push(leaves(MaterialId(ids::PINE_NEEDLES), salt + 99));
    p
}

/// The salt that the next draw gives.
pub fn draw_salt(rng: &mut Rand) -> (salt: u32)
    ensures
        final(rng).0 == after(old(rng).0, 1),
        salt == salt_of(nth(old(rng).0, 1)),
        salt < 1000000,
{
    let ghost s = rng.0;
    pick_of(pull(rng, Ghost(s), Ghost(0)), 1000000)
}

/// `n` blobs of one material, their salts rising from `salt`.
pub open spec fn is_heap(
    p: Seq<Part>,
    n: int,
    m: MaterialId,
    fill: u32,
    cap: Option<MaterialId>,
    salt: u32,
) -> bool {
    &&& p.len() == n
    &&& forall|j: int|
        0 <= j < n ==> #[trigger] p[j] == (Part::Blob { m, fill, cap, salt: (salt + j) as u32 })
}

fn heap(n: u32, m: MaterialId, fill: u32, cap: Option<MaterialId>, salt: u32) -> (p: Vec<Part>)
    requires
        salt < 1000000,
        n < 0x1_0000,
    ensures
        is_heap(p@, n as int, m, fill, cap, salt),
{
    let mut p: Vec<Part> = Vec::new();
    let mut i: u32 = 0;
    while i < n
        invariant
            i <= n < 0x1_0000,
            salt < 1000000,
            is_heap(p@, i as int, m, fill, cap, salt),
        decreases n - i,
    {
        p.push(Part::Blob { m, fill, cap, salt: salt + i });
        i += 1;
    }
    p
}

/// Draws a bush: up to three blobs of leaves. Each blob's draws are its
/// heading, how far out, how high, and its size.
pub fn bush(rng: &mut Rand, leaf: MaterialId) -> (r: (Vec<Four>, Vec<Part>))
    ensures
        fours_drawn(
            r.0@,
            1 + share(nth(old(rng).0, 2), UP_TO_THREE as int),
            old(rng).0,
            2,
        ),
        is_heap(
            r.1@,
            r.0@.len() as int,
            leaf,
            BUSH_FILL,
            None,
            salt_of(nth(old(rng).0, 1)) as u32,
        ),
        final(rng).0 == after(old(rng).0, 2 + 4 * r.0@.len() as int),
        1 <= r.0@.len() <= 3,
        100 * (r.0@.len() - 1) * 0x100_0000 <= 299 * nth(old(rng).0, 2) + 1000,
        299 * nth(old(rng).0, 2) - 1000 < 100 * r.0@.len() * 0x100_0000,
        forall|j: int|
            0 <= j < r.1@.len() ==> (#[trigger] r.1@[j] matches Part::Blob { m, fill, cap, .. } && m
                == leaf && fill == 12582912 && cap is None),
{
    let ghost s = rng.0;
    proof {
        lemma_counts(nth(s, 2));
    }
    let salt: u32 = pick_of(pull(rng, Ghost(s), Ghost(0)), 1000000);
    let n: u32 = 1 + share_of(pull(rng, Ghost(s), Ghost(1)), UP_TO_THREE);
    let blobs: Vec<Four> = pull_fours(rng, n, Ghost(s), Ghost(2));
    (blobs, heap(n, leaf, BUSH_FILL, None, salt))
}

/// The draws of a cactus: each arm's are where on the stem, its heading, how
/// far out, and how far up.
#[derive(Debug)]
pub struct Cactus {
    pub height: u32,
    pub girth: u32,
    pub arms: Vec<Four>,
}

/// Draws a cactus and its parts: the stem and two rods to each arm.
pub fn cactus(rng: &mut Rand, g: &Greens) -> (r: (Cactus, Vec<Part>))
    ensures
        r.0.height == nth(old(rng).0, 1),
        r.0.girth == nth(old(rng).0, 2),
        fours_drawn(r.0.arms@, share(nth(old(rng).0, 3), UP_TO_TWO as int), old(rng).0, 3),
        r.1@.len() == 1 + 2 * r.0.arms@.len(),
        forall|j: int| 0 <= j < r.1@.len() ==> #[trigger] r.1@[j] == (Part::Wood { m: g.cactus }),
        final(rng).0 == after(old(rng).0, 3 + 4 * r.0.arms@.len() as int),
        r.0.arms@.len() <= 2,
        10 * r.0.arms@.len() * 0x100_0000 <= 24 * nth(old(rng).0, 3) + 100,
        24 * nth(old(rng).0, 3) - 100 < 10 * (r.0.arms@.len() + 1) * 0x100_0000,
{
    let ghost s = rng.0;
    proof {
        lemma_counts(nth(s, 3));
    }
    let height: u32 = pull(rng, Ghost(s), Ghost(0));
    let girth: u32 = pull(rng, Ghost(s), Ghost(1));
    let n: u32 = share_of(pull(rng, Ghost(s), Ghost(2)), UP_TO_TWO);
    let arms: Vec<Four> = pull_fours(rng, n, Ghost(s), Ghost(3));
    let wood = Part::Wood { m: g.cactus };
    let mut parts: Vec<Part> = Vec::new();
    parts.push(wood);
    let mut i: u32 = 0;
    while i < n
        invariant
            i <= n,
            wood == (Part::Wood { m: g.cactus }),
            parts@.len() == 1 + 2 * i,
            forall|j: int| 0 <= j < parts@.len() ==> #[trigger] parts@[j] == wood,
        decreases n - i,
    {
        parts.push(wood);
        parts.push(wood);
        i += 1;
    }
    (Cactus { height, girth, arms }, parts)
}

/// The draws of a stone: its size, heading, how far out, how high, and its
/// three radii.
#[derive(Clone, Copy, Debug, PartialEq, Eq, Structural)]
pub struct Stone {
    pub size: u32,
    pub heading: u32,
    pub out: u32,
    pub up: u32,
    pub wide: u32,
    pub tall: u32,
    pub deep: u32,
}

impl Stone {
    pub open spec fn drawn(self, s: u64, k: int) -> bool {
        &&& self.size == nth(s, k + 1)
        &&& self.heading == nth(s, k + 2)
        &&& self.out == nth(s, k + 3)
        &&& self.up == nth(s, k + 4)
        &&& self.wide == nth(s, k + 5)
        &&& self.tall == nth(s, k + 6)
        &&& self.deep == nth(s, k + 7)
    }
}

/// Draws a boulder: up to three stones of granite or gneiss, moss on them if
/// `mossy`.
pub fn boulder(rng: &mut Rand, mossy: bool, g: &Greens) -> (r: (Vec<Stone>, Vec<Part>))
    ensures
        r.0@.len() == 1 + share(nth(old(rng).0, 3), UP_TO_TWO_AND_A_HALF as int),
        forall|i: int|
            0 <= i < r.0@.len() ==> (#[trigger] r.0@[i]).drawn(old(rng).0, 3 + 7 * i),
        is_heap(
            r.1@,
            r.0@.len() as int,
            MaterialId(
                if nth(old(rng).0, 2) < 0x80_0000 {
                    ids::GRANITE
                } else {
                    ids::GNEISS
                },
            ),
            STONE_FILL,
            if mossy {
                Some(g.moss)
            } else {
                None
            },
            salt_of(nth(old(rng).0, 1)) as u32,
        ),
        final(rng).0 == after(old(rng).0, 3 + 7 * r.0@.len() as int),
        1 <= r.0@.len() <= 3,
        10 * (r.0@.len() - 1) * 0x100_0000 <= 25 * nth(old(rng).0, 3) + 100,
        25 * nth(old(rng).0, 3) - 100 < 10 * r.0@.len() * 0x100_0000,
        forall|j: int|
            0 <= j < r.1@.len() ==> (#[trigger] r.1@[j] matches Part::Blob { m, fill, cap, .. } && (
            m.0 == 1 || m.0 == 47) && (m.0 == 1 <==> 2 * nth(old(rng).0, 2) < 0x100_0000) && fill
                == 16777216 && (cap is Some <==> mossy)),
{
    let ghost s = rng.0;
    proof {
        lemma_counts(nth(s, 3));
    }
    let salt: u32 = pick_of(pull(rng, Ghost(s), Ghost(0)), 1000000);
    let rock = if pull(rng, Ghost(s), Ghost(1)) < 0x80_0000 {
        MaterialId(ids::GRANITE)
    } else {
        MaterialId(ids::GNEISS)
    };
    let n: u32 = 1 + share_of(pull(rng, Ghost(s), Ghost(2)), UP_TO_TWO_AND_A_HALF);
    let mut stones: Vec<Stone> = Vec::new();
    let mut i: u32 = 0;
    while i < n
        invariant
            i <= n,
            rng.0 == after(s, 3 + 7 * i),
            stones@.len() == i,
            forall|j: int| 0 <= j < i ==> (#[trigger] stones@[j]).drawn(s, 3 + 7 * j),
        decreases n - i,
    {
        let ghost k = 3 + 7 * i as int;
        let size: u32 = pull(rng, Ghost(s), Ghost(k));
        let heading: u32 = pull(rng, Ghost(s), Ghost(k + 1));
        let out: u32 = pull(rng, Ghost(s), Ghost(k + 2));
        let up: u32 = pull(rng, Ghost(s), Ghost(k + 3));
        let wide: u32 = pull(rng, Ghost(s), Ghost(k + 4));
        let tall: u32 = pull(rng, Ghost(s), Ghost(k + 5));
        let deep: u32 = pull(rng, Ghost(s), Ghost(k + 6));
        stones.push(Stone { size, heading, out, up, wide, tall, deep });
        i += 1;
    }
    let cap: Option<MaterialId> = if mossy {
        Some(g.moss)
    } else {
        None
    };
    (stones, heap(n, rock, STONE_FILL, cap, salt))
}

/// Draws a fallen log and its parts: its heading, length, girth and salt; the
/// log, and moss along it.
pub fn fallen_log(rng: &mut Rand, g: &Greens) -> (r: ([u32; 3], Vec<Part>))
    ensures
        forall|i: int| 0 <= i < 3 ==> #[trigger] r.0@[i] == nth(old(rng).0, i + 1),
        r.1@ == seq![
            Part::Wood { m: MaterialId(ids::OAK_LOG) },
            Part::Blob {
                m: g.moss,
                fill: MOSS_FILL,
                cap: None,
                salt: salt_of(nth(old(rng).0, 4)) as u32,
            },
        ],
        final(rng).0 == after(old(rng).0, 4),
{
    let ghost s = rng.0;
    let heading: u32 = pull(rng, Ghost(s), Ghost(0));
    let length: u32 = pull(rng, Ghost(s), Ghost(1));
    let girth: u32 = pull(rng, Ghost(s), Ghost(2));
    let salt: u32 = pick_of(pull(rng, Ghost(s), Ghost(3)), 1000000);
    let mut parts: Vec<Part> = Vec::new();
    parts.push(Part::Wood { m: MaterialId(ids::OAK_LOG) });
    parts.push(Part::Blob { m: g.moss, fill: MOSS_FILL, cap: None, salt });
    assert(parts@ =~= seq![
        Part::Wood { m: MaterialId(ids::OAK_LOG) },
        Part::Blob {
            m: g.moss,
            fill: MOSS_FILL,
            cap: None,
            salt: salt_of(nth(s, 4)) as u32,
        },
    ]);
    ([heading, length, girth], parts)
}

/// A tree's woods come first to hand: its trunk and limbs are its log, and
/// everything else is its leaves.
pub proof fn trees_are_log_and_leaves(
    t: &Broadleaf,
    j: int,
    log: MaterialId,
    leaf: MaterialId,
)
    requires
        0 <= j,
    ensures
        match t.part(j, log, leaf) {
            Part::Wood { m } => m == log,
            Part::Blob { m, cap, .. } => m == leaf && cap is None,
        },
{
}

proof fn lemma_counts(n: int)
    requires
        0 <= n < 0x100_0000,
    ensures
        0 <= share(n, 12540969) <= 2,
        100 * share(n, 12540969) * 0x100_0000 <= 299 * n + 1000,
        299 * n - 1000 < 100 * (share(n, 12540969) + 1) * 0x100_0000,
        0 <= share(n, 10066330) <= 2,
        10 * share(n, 10066330) * 0x100_0000 <= 24 * n + 100,
        24 * n - 100 < 10 * (share(n, 10066330) + 1) * 0x100_0000,
        0 <= share(n, 10485760) <= 2,
        10 * share(n, 10485760) * 0x100_0000 <= 25 * n + 100,
        25 * n - 100 < 10 * (share(n, 10485760) + 1) * 0x100_0000,
{
    crate::rand::shares_are_in_proportion(n, 12540969);
    crate::rand::shares_are_in_proportion(n, 10066330);
    crate::rand::shares_are_in_proportion(n, 10485760);
}

/// A tall broadleaf has three limbs and two clusters more; any other has four
/// to six of each, by two draws times 2.99, to within the rounding.
pub proof fn trees_have_their_limbs(s: u64, tall: bool)
    ensures
        tall ==> limb_count(s, tall) == 3 && extra_count(s, tall) == 2,
        !tall ==> 4 <= limb_count(s, tall) <= 6 && 4 <= extra_count(s, tall) <= 6,
        !tall ==> 100 * (limb_count(s, tall) - 4) * 0x100_0000 <= 299 * nth(s, 13) + 1000,
        !tall ==> 299 * nth(s, 13) - 1000 < 100 * (limb_count(s, tall) - 3) * 0x100_0000,
        ({
            let k = 13 + 7 * limb_count(s, tall);
            &&& tall ==> before_extras(s, tall) == k
            &&& !tall ==> before_extras(s, tall) == k + 2
            &&& !tall ==> 100 * (extra_count(s, tall) - 4) * 0x100_0000 <= 299 * nth(s, k + 2)
                + 1000
            &&& !tall ==> 299 * nth(s, k + 2) - 1000 < 100 * (extra_count(s, tall) - 3)
                * 0x100_0000
        }),
{
    lemma_counts(nth(s, 13));
    lemma_counts(nth(s, 15 + 7 * limb_count(s, tall)));
}

/// A broadleaf's parts in order: four of trunk, then to each limb two of wood
/// and a cluster of leaves, then the crown's top and the clusters about it.
/// Its leaves keep 62 in a hundred of their skin.
pub proof fn trees_grow_limb_by_limb(t: &Broadleaf, j: int, log: MaterialId, leaf: MaterialId)
    requires
        0 <= j,
        t.salt < 1000000,
        j < 0x10_0000,
    ensures
        j < 4 ==> t.part(j, log, leaf) is Wood,
        4 <= j < 4 + 3 * t.limbs@.len() ==> (t.part(j, log, leaf) is Blob <==> j % 3 == 0),
        j >= 4 + 3 * t.limbs@.len() ==> t.part(j, log, leaf) is Blob,
        t.part(j, log, leaf) matches Part::Blob { fill, .. } ==> -50 <= 100 * fill - 62
            * 0x100_0000 <= 50,
        t.part(j, log, leaf) matches Part::Blob { salt, .. } ==> {
            let n = t.limbs@.len() as int;
            &&& j < 4 + 3 * n ==> salt == t.salt + (j / 3 - 2)
            &&& j == 4 + 3 * n ==> salt == t.salt + 11
            &&& j > 4 + 3 * n ==> salt == t.salt + 16 + j - 3 * n
        },
{
}

/// A pine is two parts of its own log, its tiers of needles with snow on them
/// exactly where it is snowy, and a spike of needles without. No two tiers
/// have the same salt, and they keep 70 in a hundred of their skin.
pub proof fn pines_are_tiered(salt: u32, tiers: int, snowy: bool, j: int)
    requires
        salt < 1000000,
        0 <= tiers < 0x1_0000,
        0 <= j < tiers + 3,
    ensures
        j < 2 ==> pine_part(salt, tiers, snowy, j) == (Part::Wood { m: MaterialId(20) }),
        j >= 2 ==> (pine_part(salt, tiers, snowy, j) matches Part::Blob { m, .. } && m.0 == 23),
        2 <= j < tiers + 2 ==> (pine_part(salt, tiers, snowy, j) matches Part::Blob {
            cap,
            fill,
            salt: own,
            ..
        } && (cap is Some <==> snowy) && (cap matches Some(c) ==> c.0 == 13) && own == salt + j - 2
            && -50 <= 100 * fill - 70 * 0x100_0000 <= 50),
        j == tiers + 2 ==> (pine_part(salt, tiers, snowy, j) matches Part::Blob {
            cap,
            salt: own,
            ..
        } && cap is None && own == salt + 99),
{
}

} // verus!
