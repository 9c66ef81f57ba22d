//! Life on the land: the biomes, then trees, bushes, cacti, fallen logs and
//! boulders on a jittered grid, each built from a handful of parts: rods of
//! wood and blobs of leaves or stone with gaps near their skin.
//!
//! Every plant is a pure function of its grid cell, so any chunk can be
//! generated alone and neighbours agree on what crosses their seam. Plants
//! are stamped after the terrain, only into air and ground cover: a voxel at
//! a time where a brick cell holds an edge, whole uniform cells inside crowns,
//! and at coarse levels of detail one sample per cell or node.
//!
//! Draws are 24-bit numbers; a draw of `n` stands for `n / 2^24`.

pub mod grow;

use crate::amplify::{Shore, SurfaceSample};
use crate::brick::vindex;
use crate::ivec::IVec3;
use crate::key::{Key, K_0_2, K_0_35, K_0_6, K_0_72, K_0_75, K_1, K_1_2};
use crate::material::{air, entry, ids, Kind, MaterialId};
use crate::noise::{hash3, hash_unit24, point_hash, rotate, shuffled, turned, Perlin};
use crate::rand::{pick_two, pick_two_of};
use crate::settlement::{painted_over, paints, stamp_mixed, takes_paint};
use crate::tree::node::Cell;
use crate::tree::{calm_states, fits, in_node, kept_states, solid_voxels, ChunkTree};
use vstd::prelude::*;

verus! {

#[derive(Clone, Copy, Debug, PartialEq, Eq, Structural)]
pub enum Biome {
    Ocean,
    Beach,
    Plains,
    Forest,
    BirchForest,
    Taiga,
    SnowyTaiga,
    Desert,
    Alpine,
    Snow,
}

/// Temperature and moisture fields. Temperature falls with altitude.
pub struct Climate {
    pub temp: Perlin,
    pub wet: Perlin,
}

impl Climate {
    pub fn new(seed: u64) -> (c: Climate)
        ensures
            c.temp.wf(),
            c.temp.table() == shuffled(seed ^ 0x7e3a_11c5, 255),
            c.wet.wf(),
            c.wet.table() == shuffled(seed ^ 0x51d0_f00d, 255),
    {
        Climate { temp: Perlin::new(seed ^ 0x7e3a_11c5), wet: Perlin::new(seed ^ 0x51d0_f00d) }
    }
}

/// Materials of plants that a table of materials may give any id.
#[derive(Clone, Copy, Debug, PartialEq, Eq, Structural)]
pub struct Greens {
    pub birch_log: MaterialId,
    pub birch_leaves: MaterialId,
    pub cactus: MaterialId,
    pub moss: MaterialId,
    pub tall_grass: MaterialId,
    pub flower_red: MaterialId,
    pub flower_blue: MaterialId,
    pub flower_white: MaterialId,
    pub flower_yellow: MaterialId,
}

/// Draw of `h` turned by `k` bits.
pub open spec fn unit(h: u64, k: u64) -> int {
    turned(h, k) as int / 0x100_0000_0000
}

fn unit_of(h: u64, k: u64) -> (n: u32)
    requires
        0 < k < 64,
    ensures
        n == unit(h, k),
        n < 0x100_0000,
{
    hash_unit24(rotate(h, k))
}

/// How much ground cover a biome has: the largest draw that grows any, and
/// the tallest stem in voxels.
pub open spec fn cover_of(biome: Biome) -> Option<(int, int)> {
    match biome {
        Biome::Plains => Some((6375342, 9)),
        Biome::Forest => Some((3690987, 6)),
        Biome::BirchForest => Some((5033165, 7)),
        Biome::Taiga => Some((2013265, 4)),
        _ => None,
    }
}

/// The hash of a voxel column.
pub open spec fn column_hash(vx: i32, vz: i32, seed: u64) -> u64 {
    point_hash(vx, 0, vz, seed ^ 0x6a55)
}

/// Height of the stem in a column whose hash is `h`, in voxels.
pub open spec fn stem(h: u64, tallest: int) -> int {
    1 + pick_two(unit(h, 13), unit(h, 29), tallest)
}

/// A flower's colour by its draw.
pub open spec fn flower(n: int, g: Greens) -> MaterialId {
    if n * 100 < 0x100_0000 {
        g.flower_red
    } else if n * 100 < 2 * 0x100_0000 {
        g.flower_blue
    } else if n * 100 < 4 * 0x100_0000 {
        g.flower_white
    } else {
        g.flower_yellow
    }
}

/// What grows `level` voxels over grassy ground in a column: grass up to the
/// stem's height, now and then a flower on top of it.
pub open spec fn covered(biome: Biome, h: u64, level: i32, g: Greens) -> MaterialId {
    match cover_of(biome) {
        None => air(),
        Some((most, tallest)) => if h as int / 0x100_0000_0000 > most {
            air()
        } else if level < stem(h, tallest) {
            g.tall_grass
        } else if level == stem(h, tallest) && unit(h, 41) <= 671088 && (biome is Plains
            || biome is BirchForest) {
            flower(unit(h, 41), g)
        } else {
            air()
        },
    }
}

/// Material of the ground cover (grass blades and flowers) at the voxel
/// `level` voxels over grassy ground at world voxel column (vx, vz).
pub fn ground_cover(
    sample: &SurfaceSample,
    shore: &Shore,
    vx: i32,
    vz: i32,
    level: i32,
    seed: u64,
    g: &Greens,
) -> (m: MaterialId)
    ensures
        m == covered(sample.lives_in(*shore), column_hash(vx, vz, seed), level, *g),
{
    let biome = sample.biome(shore);
    let (most, tallest): (u32, u32) = match biome {
        Biome::Plains => (6375342, 9),
        Biome::Forest => (3690987, 6),
        Biome::BirchForest => (5033165, 7),
        Biome::Taiga => (2013265, 4),
        _ => {
            return MaterialId(ids::AIR);
        },
    };
    let h: u64 = hash3(vx, 0, vz, seed ^ 0x6a55);
    if hash_unit24(h) > most {
        return MaterialId(ids::AIR);
    }
    let height: i32 = 1 + pick_two_of(unit_of(h, 13), unit_of(h, 29), tallest) as i32;
    if level > height {
        return MaterialId(ids::AIR);
    }
    let pick: u32 = unit_of(h, 41);
    if level == height && pick <= 671088 && (biome == Biome::Plains || biome
        == Biome::BirchForest) {
        return if pick * 100 < 0x100_0000 {
            g.flower_red
        } else if pick * 100 < 2 * 0x100_0000 {
            g.flower_blue
        } else if pick * 100 < 4 * 0x100_0000 {
            g.flower_white
        } else {
            g.flower_yellow
        };
    }
    if level >= height {
        return MaterialId(ids::AIR);
    }
    g.tall_grass
}

/// Flowers stand on top of a stem: below one there is grass, above it air.
pub proof fn flowers_stand_on_stems(biome: Biome, h: u64, level: i32, g: Greens)
    requires
        covered(biome, h, level, g) != air(),
        covered(biome, h, level, g) != g.tall_grass,
        i32::MIN < level < i32::MAX,
    ensures
        covered(biome, h, (level - 1) as i32, g) == g.tall_grass,
        covered(biome, h, (level + 1) as i32, g) == air(),
{
}

/// A part of a plant.
#[derive(Clone, Copy, Debug, PartialEq, Eq, Structural)]
pub enum Part {
    /// A tapered rod with round ends.
    Wood { m: MaterialId },
    /// An ellipsoid with a noisy edge. `fill` is the largest draw that keeps a
    /// voxel of its outer skin (leaves have gaps, stone none); `cap` covers
    /// its top skin (snow on pine tiers, moss on stones).
    Blob { m: MaterialId, fill: u32, cap: Option<MaterialId>, salt: u32 },
}

/// How a point lies in a part.
#[derive(Clone, Copy, Debug)]
pub enum Touch {
    /// No farther from a rod's axis than its radius there.
    Rod { inside: bool },
    /// How far into a blob, in units of its radii with the noisy edge at 1,
    /// the point is, and the point 0.14 m above it.
    Blob { depth: Key, above: Key },
}

/// The draw that decides whether a skin voxel is kept.
pub open spec fn skin_draw(voxel: IVec3, salt: u32) -> int {
    point_hash(voxel.x, voxel.y, voxel.z, salt as u64 ^ 0x1eaf) as int / 0x100_0000_0000
}

/// What a part puts at a point.
pub open spec fn puts(part: Part, touch: Touch, voxel: IVec3) -> Option<MaterialId> {
    match (part, touch) {
        (Part::Wood { m }, Touch::Rod { inside }) => if inside {
            Some(m)
        } else {
            None
        },
        (Part::Blob { m, fill, cap, salt }, Touch::Blob { depth, above }) => if depth > K_1 || (
        depth > K_0_72 && skin_draw(voxel, salt) > fill) {
            None
        } else if cap is Some && above > K_1 {
            cap
        } else {
            Some(m)
        },
        _ => None,
    }
}

/// Material a part gives world voxel `voxel`.
pub fn sample(part: &Part, touch: &Touch, voxel: IVec3) -> (r: Option<MaterialId>)
    ensures
        r == puts(*part, *touch, voxel),
{
    match (*part, *touch) {
        (Part::Wood { m }, Touch::Rod { inside }) => if inside {
            Some(m)
        } else {
            None
        },
        (Part::Blob { m, fill, cap, salt }, Touch::Blob { depth, above }) => {
            if depth > K_1 {
                return None;
            }
            if depth > K_0_72 {
                let h: u64 = hash3(voxel.x, voxel.y, voxel.z, salt as u64 ^ 0x1eaf);
                if hash_unit24(h) > fill {
                    return None;
                }
            }
            if let Some(c) = cap {
                if above > K_1 {
                    return Some(c);
                }
            }
            Some(m)
        },
        _ => None,
    }
}

/// How the middle of a node lies in a part, for coarse levels: no gaps or
/// noise, and thin wood thickened to show at all.
#[derive(Clone, Copy, Debug)]
pub struct Coarse {
    pub inside: bool,
    /// One node higher lies outside.
    pub top: bool,
}

/// What a part puts into a node.
pub open spec fn puts_coarsely(part: Part, c: Coarse) -> Option<MaterialId> {
    if !c.inside {
        None
    } else {
        match part {
            Part::Wood { m } => Some(m),
            Part::Blob { m, cap, .. } => if c.top && cap is Some {
                cap
            } else {
                Some(m)
            },
        }
    }
}

/// Material a part gives a node.
pub fn sample_coarse(part: &Part, c: Coarse) -> (r: Option<MaterialId>)
    ensures
        r == puts_coarsely(*part, c),
{
    if !c.inside {
        return None;
    }
    match *part {
        Part::Wood { m } => Some(m),
        Part::Blob { m, cap, .. } => Some(
            match cap {
                Some(over) => if c.top {
                    over
                } else {
                    m
                },
                None => m,
            },
        ),
    }
}

/// `i` is the first of the parts of a sort that has a hit.
pub open spec fn first_hit(
    parts: Seq<Part>,
    hits: Seq<Option<MaterialId>>,
    wood: bool,
    i: int,
) -> bool {
    &&& 0 <= i < parts.len()
    &&& hits[i] is Some && (parts[i] is Wood) == wood
    &&& forall|j: int| 0 <= j < i && (#[trigger] parts[j] is Wood) == wood ==> hits[j] is None
}

/// No part of a sort has a hit.
pub open spec fn no_hit(parts: Seq<Part>, hits: Seq<Option<MaterialId>>, wood: bool) -> bool {
    forall|j: int| 0 <= j < parts.len() && (#[trigger] parts[j] is Wood) == wood ==> hits[j] is None
}

/// What the hits of a plant's parts come to: the first wood, else the first
/// of the rest.
pub open spec fn combined(
    parts: Seq<Part>,
    hits: Seq<Option<MaterialId>>,
    r: Option<MaterialId>,
) -> bool {
    ||| exists|i: int| #[trigger] first_hit(parts, hits, true, i) && r == hits[i]
    ||| no_hit(parts, hits, true) && exists|i: int|
        #[trigger] first_hit(parts, hits, false, i) && r == hits[i]
    ||| no_hit(parts, hits, true) && no_hit(parts, hits, false) && r is None
}

/// The material of a plant whose parts give `hits` at a point: wood before
/// leaves.
pub fn combine(parts: &Vec<Part>, hits: &Vec<Option<MaterialId>>) -> (r: Option<MaterialId>)
    requires
        parts@.len() == hits@.len(),
    ensures
        combined(parts@, hits@, r),
{
    let mut found: Option<MaterialId> = None;
    let mut i: usize = 0;
    while i < parts.len()
        invariant
            i <= parts@.len() == hits@.len(),
            forall|j: int| 0 <= j < i && #[trigger] parts@[j] is Wood ==> hits@[j] is None,
            found is None ==> forall|j: int|
                0 <= j < i && !(#[trigger] parts@[j] is Wood) ==> hits@[j] is None,
            found is Some ==> exists|k: int|
                #[trigger] first_hit(parts@, hits@, false, k) && found == hits@[k],
        decreases parts@.len() - i,
    {
        if let Some(m) = hits[i] {
            if let Part::Wood { .. } = parts[i] {
                assert(first_hit(parts@, hits@, true, i as int));
                return Some(m);
            }
            if found.is_none() {
                found = Some(m);
                assert(first_hit(parts@, hits@, false, i as int));
            }
        }
        i += 1;
    }
    found
}

/// Two readings of the same hits agree, so a plant that crosses a seam looks
/// the same from both sides.
pub proof fn hits_decide(
    parts: Seq<Part>,
    hits: Seq<Option<MaterialId>>,
    a: Option<MaterialId>,
    b: Option<MaterialId>,
)
    requires
        parts.len() == hits.len(),
        combined(parts, hits, a),
        combined(parts, hits, b),
    ensures
        a == b,
{
    assert forall|i: int, j: int, w: bool|
        #[trigger] first_hit(parts, hits, w, i) && #[trigger] first_hit(parts, hits, w, j) implies i
        == j by {
        if i < j {
            assert((parts[i] is Wood) == w);
        }
        if j < i {
            assert((parts[j] is Wood) == w);
        }
    }
    assert forall|i: int, w: bool| #[trigger] first_hit(parts, hits, w, i) implies !no_hit(
        parts,
        hits,
        w,
    ) by {
        assert((parts[i] is Wood) == w);
    }
}

/// Wood shows wherever any wood of the plant is, whatever leaves are there.
pub proof fn wood_before_leaves(
    parts: Seq<Part>,
    hits: Seq<Option<MaterialId>>,
    r: Option<MaterialId>,
    k: int,
)
    requires
        parts.len() == hits.len(),
        combined(parts, hits, r),
        0 <= k < parts.len(),
        parts[k] is Wood,
        hits[k] is Some,
    ensures
        exists|i: int| 0 <= i <= k && #[trigger] parts[i] is Wood && r == hits[i],
{
    assert(!no_hit(parts, hits, true)) by {
        assert(parts[k] is Wood);
    }
    let i = choose|i: int| #[trigger] first_hit(parts, hits, true, i) && r == hits[i];
    assert(parts[i] is Wood);
}

/// A cube's relation to a part or a plant.
#[derive(Clone, Copy, Debug, PartialEq, Eq, Structural)]
pub enum Relation {
    Outside,
    Inside(MaterialId),
    Edge,
}

/// How far a cube's middle is from a part.
#[derive(Clone, Copy, Debug)]
pub enum Gap {
    /// Distance from a rod's axis, the radius there with the cube's reach
    /// added, and with it taken away.
    Rod { d: Key, outer: Key, inner: Key },
    /// Distance from a blob's middle in units of its radii, less the cube's
    /// reach, and with it.
    Blob { near: Key, far: Key },
}

pub open spec fn part_relation(part: Part, gap: Gap) -> Relation {
    match (part, gap) {
        (Part::Wood { m }, Gap::Rod { d, outer, inner }) => if d > outer {
            Relation::Outside
        } else if d < inner {
            Relation::Inside(m)
        } else {
            Relation::Edge
        },
        (Part::Blob { m, cap, .. }, Gap::Blob { near, far }) => if near > K_1_2 {
            Relation::Outside
        } else if far < K_0_6 && cap is None {
            Relation::Inside(m)
        } else {
            Relation::Edge
        },
        _ => Relation::Edge,
    }
}

/// Relation of a cube to a part.
pub fn relate_part(part: &Part, gap: &Gap) -> (r: Relation)
    ensures
        r == part_relation(*part, *gap),
{
    match (*part, *gap) {
        (Part::Wood { m }, Gap::Rod { d, outer, inner }) => if d > outer {
            Relation::Outside
        } else if d < inner {
            Relation::Inside(m)
        } else {
            Relation::Edge
        },
        (Part::Blob { m, cap, .. }, Gap::Blob { near, far }) => if near > K_1_2 {
            Relation::Outside
        } else if far < K_0_6 && cap.is_none() {
            Relation::Inside(m)
        } else {
            Relation::Edge
        },
        _ => Relation::Edge,
    }
}

/// The material that the first `n` parts agree to fill a cube with: the last
/// wood's, else the first blob's.
pub open spec fn filling(parts: Seq<Part>, rel: Seq<Relation>, n: int) -> Option<MaterialId>
    decreases n,
{
    if n <= 0 {
        None
    } else {
        match rel[n - 1] {
            Relation::Inside(m) => if parts[n - 1] is Wood || filling(parts, rel, n - 1) is None {
                Some(m)
            } else {
                filling(parts, rel, n - 1)
            },
            _ => filling(parts, rel, n - 1),
        }
    }
}

/// A plant's relation to a cube from those of its parts.
pub open spec fn plant_relation(parts: Seq<Part>, rel: Seq<Relation>) -> Relation {
    if exists|i: int| 0 <= i < rel.len() && #[trigger] rel[i] is Edge {
        Relation::Edge
    } else {
        match filling(parts, rel, rel.len() as int) {
            Some(m) => Relation::Inside(m),
            None => Relation::Outside,
        }
    }
}

/// A brick cell's relation to the whole plant.
pub fn relate(parts: &Vec<Part>, rel: &Vec<Relation>) -> (r: Relation)
    requires
        parts@.len() == rel@.len(),
    ensures
        r == plant_relation(parts@, rel@),
{
    let mut inside: Option<MaterialId> = None;
    let mut i: usize = 0;
    while i < rel.len()
        invariant
            i <= rel@.len() == parts@.len(),
            inside == filling(parts@, rel@, i as int),
            forall|j: int| 0 <= j < i ==> !(#[trigger] rel@[j] is Edge),
        decreases rel@.len() - i,
    {
        match rel[i] {
            Relation::Edge => {
                assert(rel@[i as int] is Edge);
                return Relation::Edge;
            },
            Relation::Inside(m) => {
                let wood: bool = matches!(parts[i], Part::Wood { .. });
                if wood || inside.is_none() {
                    inside = Some(m);
                }
            },
            Relation::Outside => {},
        }
        i += 1;
    }
    match inside {
        Some(m) => Relation::Inside(m),
        None => Relation::Outside,
    }
}

/// What stands in a grid cell: where in it, and the draws that choose and
/// build it.
#[derive(Clone, Copy, Debug, PartialEq, Eq, Structural)]
pub struct Spot {
    /// Place in the cell, from 0.1 to 0.9 of its width.
    pub x: u32,
    pub z: u32,
    pub roll: u32,
    pub pick: u32,
    /// Start of the stream that builds the plant.
    pub stream: u64,
}

pub open spec fn cell_hash(i: i32, k: i32, seed: u64) -> u64 {
    point_hash(i, 7, k, seed ^ 0x000f_107a)
}

/// The draws of grid cell (i, k).
pub fn spot_in_cell(i: i32, k: i32, seed: u64) -> (s: Spot)
    ensures
        s.x == cell_hash(i, k, seed) as int / 0x100_0000_0000,
        s.z == unit(cell_hash(i, k, seed), 17),
        s.roll == unit(cell_hash(i, k, seed), 31),
        s.pick == unit(cell_hash(i, k, seed), 47),
        s.stream == cell_hash(i, k, seed) ^ 0x5eed,
        s.x < 0x100_0000 && s.z < 0x100_0000 && s.roll < 0x100_0000 && s.pick < 0x100_0000,
        ({
            let h = point_hash(i, 7, k, seed ^ 0xf_107a);
            &&& 0 <= h - s.x * 0x100_0000_0000 < 0x100_0000_0000
            &&& 0 <= turned(h, 17) - s.z * 0x100_0000_0000 < 0x100_0000_0000
            &&& 0 <= turned(h, 31) - s.roll * 0x100_0000_0000 < 0x100_0000_0000
            &&& 0 <= turned(h, 47) - s.pick * 0x100_0000_0000 < 0x100_0000_0000
        }),
{
    let h: u64 = hash3(i, 7, k, seed ^ 0x000f_107a);
    Spot {
        x: hash_unit24(h),
        z: unit_of(h, 17),
        roll: unit_of(h, 31),
        pick: unit_of(h, 47),
        stream: h ^ 0x5eed,
    }
}

#[derive(Clone, Copy, Debug, PartialEq, Eq, Structural)]
pub enum Species {
    /// Tall ones keep a narrow crown.
    Broadleaf { log: MaterialId, leaf: MaterialId, tall: bool },
    FallenLog,
    Bush { leaf: MaterialId },
    Pine { snowy: bool },
    Boulder { mossy: bool },
    Cactus,
}

pub open spec fn oak() -> Species {
    Species::Broadleaf {
        log: MaterialId(ids::OAK_LOG),
        leaf: MaterialId(ids::LEAVES),
        tall: false,
    }
}

pub open spec fn birch(g: Greens) -> Species {
    Species::Broadleaf { log: g.birch_log, leaf: g.birch_leaves, tall: true }
}

/// Ground that plants root in: not too steep, out of the rivers and the sea,
/// and not built on.
pub open spec fn rootable(s: SurfaceSample, shore: Shore, taken: bool) -> bool {
    s.slope <= K_0_75 && s.river <= K_0_35 && s.height >= shore.root && !taken
}

/// What the biome grows at a draw. Trees need soil.
pub open spec fn grows(
    biome: Biome,
    soil: bool,
    roll: u32,
    pick: u32,
    g: Greens,
) -> Option<Species> {
    match biome {
        Biome::Forest => if roll < 7046431 && soil {
            if pick < 2516583 {
                Some(birch(g))
            } else if pick < 15099494 {
                Some(oak())
            } else {
                Some(Species::FallenLog)
            }
        } else if roll < 8724152 {
            Some(Species::Bush { leaf: MaterialId(ids::LEAVES) })
        } else {
            None
        },
        Biome::BirchForest => if roll < 6710887 && soil {
            if pick < 12582912 {
                Some(birch(g))
            } else {
                Some(oak())
            }
        } else if roll < 8053064 {
            Some(Species::Bush { leaf: g.birch_leaves })
        } else {
            None
        },
        Biome::Taiga => if roll < 7549747 {
            Some(Species::Pine { snowy: false })
        } else if roll < 8388608 {
            Some(Species::Boulder { mossy: true })
        } else {
            None
        },
        Biome::SnowyTaiga => if roll < 7549747 {
            Some(Species::Pine { snowy: true })
        } else {
            None
        },
        Biome::Plains => if roll < 587203 && soil {
            Some(oak())
        } else if roll < 1509950 {
            Some(Species::Bush { leaf: MaterialId(ids::LEAVES) })
        } else if roll < 1677722 {
            Some(Species::Boulder { mossy: false })
        } else {
            None
        },
        Biome::Desert => if roll < 838861 {
            Some(Species::Cactus)
        } else if roll < 1006633 {
            Some(Species::Boulder { mossy: false })
        } else {
            None
        },
        Biome::Alpine => if roll < 1006633 {
            Some(Species::Boulder { mossy: false })
        } else {
            None
        },
        _ => None,
    }
}

/// The plant rooted at a spot, if any, unless `taken` says that the ground is
/// built on.
pub fn plant_in_cell(
    s: &SurfaceSample,
    shore: &Shore,
    spot: &Spot,
    taken: bool,
    g: &Greens,
) -> (r: Option<Species>)
    ensures
        r == (if rootable(*s, *shore, taken) {
            grows(s.lives_in(*shore), s.soil_depth > K_0_2, spot.roll, spot.pick, *g)
        } else {
            None
        }),
{
    if s.slope > K_0_75 || s.river > K_0_35 || s.height < shore.root || taken {
        return None;
    }
    let soil: bool = s.soil_depth > K_0_2;
    let (roll, pick): (u32, u32) = (spot.roll, spot.pick);
    let oak_tree = Species::Broadleaf {
        log: MaterialId(ids::OAK_LOG),
        leaf: MaterialId(ids::LEAVES),
        tall: false,
    };
    let birch_tree = Species::Broadleaf { log: g.birch_log, leaf: g.birch_leaves, tall: true };
    match s.biome(shore) {
        Biome::Forest if roll < 7046431 && soil => Some(
            if pick < 2516583 {
                birch_tree
            } else if pick < 15099494 {
                oak_tree
            } else {
                Species::FallenLog
            },
        ),
        Biome::Forest if roll < 8724152 => Some(Species::Bush { leaf: MaterialId(ids::LEAVES) }),
        Biome::BirchForest if roll < 6710887 && soil => Some(
            if pick < 12582912 {
                birch_tree
            } else {
                oak_tree
            },
        ),
        Biome::BirchForest if roll < 8053064 => Some(Species::Bush { leaf: g.birch_leaves }),
        Biome::Taiga if roll < 7549747 => Some(Species::Pine { snowy: false }),
        Biome::SnowyTaiga if roll < 7549747 => Some(Species::Pine { snowy: true }),
        Biome::Taiga if roll < 8388608 => Some(Species::Boulder { mossy: true }),
        Biome::Plains if roll < 587203 && soil => Some(oak_tree),
        Biome::Plains if roll < 1509950 => Some(Species::Bush { leaf: MaterialId(ids::LEAVES) }),
        Biome::Plains if roll < 1677722 => Some(Species::Boulder { mossy: false }),
        Biome::Desert if roll < 838861 => Some(Species::Cactus),
        Biome::Desert if roll < 1006633 => Some(Species::Boulder { mossy: false }),
        Biome::Alpine if roll < 1006633 => Some(Species::Boulder { mossy: false }),
        _ => None,
    }
}

/// Trees need soil to stand in, but pines; nothing grows in the sea, on a
/// beach or above the snowline.
pub proof fn plants_keep_to_their_ground(
    biome: Biome,
    soil: bool,
    roll: u32,
    pick: u32,
    g: Greens,
)
    ensures
        grows(biome, soil, roll, pick, g) matches Some(Species::Broadleaf { .. }) ==> soil,
        biome is Ocean || biome is Beach || biome is Snow ==> grows(biome, soil, roll, pick, g)
            is None,
        grows(biome, soil, roll, pick, g) == Some(Species::Cactus) ==> biome is Desert,
{
}

/// What a plant may grow into: air, or ground cover it pushes aside.
pub open spec fn gives_way(m: MaterialId) -> bool {
    m == air() || (entry(m.0).kind is Foliage && m.0 != ids::LEAVES && m.0 != ids::PINE_NEEDLES)
}

pub fn replaceable(m: MaterialId) -> (b: bool)
    ensures
        b == gives_way(m),
{
    m.is_air() || (m.get().kind == Kind::Foliage && m.0 != ids::LEAVES && m.0 != ids::PINE_NEEDLES)
}

/// How a plant goes into a brick cell.
#[derive(Clone, Copy, Debug, PartialEq, Eq, Structural)]
pub enum Growth {
    /// Not at all.
    Skip,
    /// As one material.
    Whole(MaterialId),
    /// A voxel at a time.
    Voxels,
}

/// How a plant goes into a cell: whole only where the cell is empty.
pub fn plan_growth(tree: &ChunkTree, cell: IVec3, rel: Relation) -> (g: Growth)
    requires
        tree.wf(),
        cell.within(64),
    ensures
        g == match rel {
            Relation::Outside => Growth::Skip,
            Relation::Inside(m) => if tree.cell_of(cell) is Empty {
                Growth::Whole(m)
            } else {
                Growth::Voxels
            },
            Relation::Edge => Growth::Voxels,
        },
{
    match rel {
        Relation::Outside => Growth::Skip,
        Relation::Inside(m) => match tree.cell(cell) {
            Cell::Empty => Growth::Whole(m),
            _ => Growth::Voxels,
        },
        Relation::Edge => Growth::Voxels,
    }
}

/// The paint that reaches voxels that give way.
pub open spec fn grown_paint(
    v: Seq<MaterialId>,
    paint: Seq<Option<MaterialId>>,
) -> Seq<Option<MaterialId>> {
    Seq::new(
        512,
        |i: int|
            if gives_way(v[i]) {
                paint[i]
            } else {
                None
            },
    )
}

/// Grows a plant into a cell a voxel at a time: voxel `i` becomes what
/// `paint[i]` says, if anything, where it gives way.
#[verifier::spinoff_prover]
#[verifier::rlimit(50)]
pub fn stamp_full(tree: &mut ChunkTree, cell: IVec3, paint: &[Option<MaterialId>; 512])
    requires
        old(tree).wf(),
        cell.within(64),
        takes_paint(old(tree).cell_voxels(cell), paint@),
    ensures
        final(tree).wf(),
        final(tree).cell_voxels(cell) == painted_over(
            old(tree).cell_voxels(cell),
            grown_paint(old(tree).cell_voxels(cell), paint@),
        ),
        final(tree).cell_states(cell) == kept_states(
            final(tree).cell_voxels(cell),
            old(tree).cell_states(cell),
        ),
        fits(
            final(tree).cell_of(cell),
            final(tree).cell_voxels(cell),
            old(tree).cell_states(cell) != calm_states(),
        ),
        forall|d: IVec3|
            d.within(64) && d != cell ==> #[trigger] final(tree).cell_of(d) == old(tree).cell_of(d)
                && final(tree).cell_voxels(d) == old(tree).cell_voxels(d),
{
    let mut kept: [Option<MaterialId>; 512] = [None; 512];
    let ghost v = tree.cell_voxels(cell);
    let base: IVec3 = cell.scale(8);
    let mut i: usize = 0;
    while i < 512
        invariant
            i <= 512,
            tree.wf(),
            *tree == *old(tree),
            cell.within(64),
            base == (IVec3 {
                x: (cell.x * 8) as i32,
                y: (cell.y * 8) as i32,
                z: (cell.z * 8) as i32,
            }),
            v == tree.cell_voxels(cell),
            kept@.len() == 512,
            forall|j: int| 0 <= j < i ==> #[trigger] kept@[j] == grown_paint(v, paint@)[j],
            forall|j: int| i <= j < 512 ==> #[trigger] kept@[j] is None,
        decreases 512 - i,
    {
        let l: IVec3 = IVec3 { x: (i % 8) as i32, y: (i / 64) as i32, z: (i / 8 % 8) as i32 };
        let at: IVec3 = base.plus(l);
        proof {
            assert(vindex(l) == i);
            lemma_voxel_of(*tree, cell, l, at);
        }
        if replaceable(tree.voxel(at)) {
            kept[i] = paint[i];
        }
        i += 1;
    }
    proof {
        assert(kept@ =~= grown_paint(v, paint@));
        let all = v.to_set().union(paints(paint@)).remove(air());
        let some = v.to_set().union(paints(kept@)).remove(air());
        assert(some.subset_of(all)) by {
            assert forall|m: MaterialId| paints(kept@).contains(m) implies paints(paint@).contains(
                m,
            ) by {
                let j = choose|j: int| 0 <= j < 512 && #[trigger] kept@[j] == Some(m);
                assert(paint@[j] == Some(m));
            }
        }
        vstd::set_lib::lemma_len_subset(some, all);
    }
    stamp_mixed(tree, cell, &kept);
}

proof fn lemma_voxel_of(tree: ChunkTree, cell: IVec3, l: IVec3, at: IVec3)
    requires
        cell.within(64),
        l.within(8),
        at.x == cell.x * 8 + l.x && at.y == cell.y * 8 + l.y && at.z == cell.z * 8 + l.z,
    ensures
        at.within(512),
        tree.voxel_of(at) == tree.cell_voxels(cell)[vindex(l)],
{
    assert(at.x / 8 == cell.x && at.y / 8 == cell.y && at.z / 8 == cell.z);
    assert(at.x % 8 == l.x && at.y % 8 == l.y && at.z % 8 == l.z);
}

/// Grows one sample of a plant into a chunk kept at one material per cell of
/// `cells` brick cells (1: 0.5 m cells, 4: 2 m nodes). At 2 m only crowns
/// show.
pub fn stamp_coarse(tree: &mut ChunkTree, c: IVec3, cells: i32, m: MaterialId)
    requires
        old(tree).wf(),
        cells == 1 && c.within(64) || cells == 4 && c.within(16),
    ensures
        final(tree).wf(),
        cells == 1 ==> final(tree).cell_of(c) == if old(tree).cell_of(c) is Empty {
            Cell::Uniform(m)
        } else {
            old(tree).cell_of(c)
        },
        cells == 1 ==> forall|d: IVec3|
            d.within(64) && d != c ==> #[trigger] final(tree).cell_of(d) == old(tree).cell_of(d)
                && final(tree).cell_voxels(d) == old(tree).cell_voxels(d),
        cells == 4 && !(entry(m.0).kind is Foliage || m.0 == ids::SNOW) ==> *final(tree) == *old(
            tree,
        ),
        cells == 4 && (entry(m.0).kind is Foliage || m.0 == ids::SNOW) ==> forall|d: IVec3|
            d.within(64) ==> #[trigger] final(tree).cell_voxels(d) == if in_node(d, c, 4) {
                solid_voxels(m)
            } else {
                old(tree).cell_voxels(d)
            },
{
    if cells == 1 {
        if let Cell::Empty = tree.cell(c) {
            let ghost before = *tree;
            tree.set_cell(c, Cell::Uniform(m));
            assert forall|d: IVec3| d.within(64) && d != c implies #[trigger] tree.cell_of(d)
                == before.cell_of(d) && tree.cell_voxels(d) == before.cell_voxels(d) by {
                assert(tree.cell_voxels(d) == before.cell_voxels(d));
            }
        }
    } else if m.get().kind == Kind::Foliage || m.0 == ids::SNOW {
        let ghost before = *tree;
        tree.set_node(1, c, m);
        assert forall|d: IVec3| d.within(64) implies #[trigger] tree.cell_voxels(d) == if in_node(
            d,
            c,
            4,
        ) {
            solid_voxels(m)
        } else {
            before.cell_voxels(d)
        } by {
            assert(tree.cell_of(d) == tree.cell_of(d));
        }
    }
}

/// Every species has its biome and its range of draws: pines a share of 0.45
/// in the two taigas, snowy only in the snowy one, boulders 0.05 of taiga, a
/// hundredth of plains and desert and 0.06 of the alpine, cacti 0.05 of the
/// desert.
pub proof fn species_have_their_draws(biome: Biome, soil: bool, roll: u32, pick: u32, g: Greens)
    ensures
        ({
            let r = grows(biome, soil, roll, pick, g);
            &&& r == Some(Species::Pine { snowy: false }) <==> biome is Taiga && roll < 7549747
            &&& r == Some(Species::Pine { snowy: true }) <==> biome is SnowyTaiga && roll < 7549747
            &&& r == Some(Species::Boulder { mossy: true }) <==> biome is Taiga && 7549747 <= roll
                < 8388608
            &&& r == Some(Species::Boulder { mossy: false }) <==> (biome is Plains && 1509950
                <= roll < 1677722) || (biome is Desert && 838861 <= roll < 1006633) || (
            biome is Alpine && roll < 1006633)
            &&& r == Some(Species::Cactus) <==> biome is Desert && roll < 838861
            &&& r == Some(Species::FallenLog) <==> biome is Forest && soil && roll < 7046431 && pick
                >= 15099494
        }),
{
}

/// Broad-leaved trees and bushes: oaks make up 0.75 of a forest's trees, birches
/// 0.15 of them and 0.75 of a birch forest's; bushes take the draws between
/// the trees' share and the next, and the trees' own where there is no soil.
pub proof fn trees_and_bushes_have_their_draws(
    biome: Biome,
    soil: bool,
    roll: u32,
    pick: u32,
    g: Greens,
)
    ensures
        ({
            let r = grows(biome, soil, roll, pick, g);
            let oak_tree = Species::Broadleaf {
                log: MaterialId(19),
                leaf: MaterialId(22),
                tall: false,
            };
            let birch_tree = Species::Broadleaf {
                log: g.birch_log,
                leaf: g.birch_leaves,
                tall: true,
            };
            &&& r == Some(oak_tree) <==> soil && ((biome is Forest && roll < 7046431 && 2516583
                <= pick < 15099494) || (biome is BirchForest && roll < 6710887 && pick >= 12582912)
                || (biome is Plains && roll < 587203))
            &&& r == Some(birch_tree) <==> soil && ((biome is Forest && roll < 7046431 && pick
                < 2516583) || (biome is BirchForest && roll < 6710887 && pick < 12582912))
            &&& r is Some && r->Some_0 is Bush <==> (biome is Forest && roll < 8724152 && !(soil
                && roll < 7046431)) || (biome is BirchForest && roll < 8053064 && !(soil && roll
                < 6710887)) || (biome is Plains && roll < 1509950 && !(soil && roll < 587203))
            &&& r matches Some(Species::Bush { leaf }) ==> leaf == if biome is BirchForest {
                g.birch_leaves
            } else {
                MaterialId(22)
            }
            &&& r matches Some(Species::Broadleaf { log, leaf, tall }) ==> r == Some(oak_tree) || r
                == Some(birch_tree)
        }),
{
}

/// Plants root on ground no steeper than 0.75, in no river stronger than 0.35,
/// not under the shore's root line and where nothing is built.
pub proof fn plants_need_rootable_ground(s: SurfaceSample, shore: Shore, taken: bool)
    ensures
        rootable(s, shore, taken) <==> s.slope <= 0x3f40_0000 && s.river <= 0x3eb3_3333 && s.height
            >= shore.root && !taken,
{
}

/// Grass covers plains the most and the highest, then birch forest, forest and
/// taiga; nowhere else. Blades stand from the ground up, at least one voxel
/// and no more than the biome's tallest.
pub proof fn grass_stands_from_the_ground(biome: Biome, h: u64, level: i32, g: Greens)
    requires
        g.tall_grass != air(),
        covered(biome, h, level, g) == g.tall_grass,
        forall|n: int| #[trigger] flower(n, g) != g.tall_grass,
    ensures
        biome is Plains || biome is Forest || biome is BirchForest || biome is Taiga,
        biome is Plains ==> level < 9 && h as int / 0x100_0000_0000 <= 6375342,
        biome is BirchForest ==> level < 7 && h as int / 0x100_0000_0000 <= 5033165,
        biome is Forest ==> level < 6 && h as int / 0x100_0000_0000 <= 3690987,
        biome is Taiga ==> level < 4 && h as int / 0x100_0000_0000 <= 2013265,
        forall|below: i32| below <= level ==> covered(biome, h, below, g) == g.tall_grass,
{
    lemma_stem(h, 9);
    lemma_stem(h, 7);
    lemma_stem(h, 6);
    lemma_stem(h, 4);
}

proof fn lemma_stem(h: u64, tallest: int)
    requires
        1 <= tallest <= 9,
    ensures
        1 <= stem(h, tallest) <= tallest,
{
    crate::rand::lemma_pick_two(unit(h, 13), unit(h, 29), tallest);
}

/// Where anything grows at a column, the lowest voxel is grass.
pub proof fn cover_starts_with_grass(biome: Biome, h: u64, level: i32, g: Greens)
    requires
        covered(biome, h, level, g) != air(),
    ensures
        covered(biome, h, 0, g) == g.tall_grass,
{
    lemma_stem(h, 9);
    lemma_stem(h, 7);
    lemma_stem(h, 6);
    lemma_stem(h, 4);
}

/// Flowers grow on plains and in birch forest only, on 0.04 of the stems: a
/// quarter of them red, a quarter blue and half white.
pub proof fn flowers_have_their_colours(biome: Biome, h: u64, level: i32, g: Greens)
    requires
        covered(biome, h, level, g) != air(),
        covered(biome, h, level, g) != g.tall_grass,
    ensures
        biome is Plains || biome is BirchForest,
        unit(h, 41) <= 671088,
        unit(h, 41) <= 167772 ==> covered(biome, h, level, g) == g.flower_red,
        167773 <= unit(h, 41) <= 335544 ==> covered(biome, h, level, g) == g.flower_blue,
        335545 <= unit(h, 41) <= 671088 ==> covered(biome, h, level, g) == g.flower_white,
{
}

/// A rod fills what is inside it. A blob fills its inner 0.72 whole, nothing
/// beyond its edge, and of the skin between what the draw keeps; what covers
/// it lies only where the point above is out.
pub proof fn parts_fill_what_they_hold(
    m: MaterialId,
    fill: u32,
    cap: Option<MaterialId>,
    salt: u32,
    depth: Key,
    above: Key,
    inside: bool,
    voxel: IVec3,
)
    ensures
        puts(Part::Wood { m }, Touch::Rod { inside }, voxel) == (if inside {
            Some(m)
        } else {
            None
        }),
        ({
            let r = puts(Part::Blob { m, fill, cap, salt }, Touch::Blob { depth, above }, voxel);
            &&& depth > 0x3f80_0000 ==> r is None
            &&& depth <= 0x3f38_51ec ==> r is Some
            &&& 0x3f38_51ec < depth <= 0x3f80_0000 ==> (r is Some <==> skin_draw(voxel, salt)
                <= fill)
            &&& r is Some && (above <= 0x3f80_0000 || cap is None) ==> r == Some(m)
            &&& r is Some && above > 0x3f80_0000 && cap is Some ==> r == cap
        }),
        puts_coarsely(Part::Wood { m }, Coarse { inside, top: true }) == (if inside {
            Some(m)
        } else {
            None
        }),
        puts_coarsely(Part::Blob { m, fill, cap, salt }, Coarse { inside: false, top: true })
            is None,
        puts_coarsely(Part::Blob { m, fill, cap, salt }, Coarse { inside: true, top: false })
            == Some(m),
        cap is Some ==> puts_coarsely(
            Part::Blob { m, fill, cap, salt },
            Coarse { inside: true, top: true },
        ) == cap,
{
}

/// A cube that a part answers to be inside it or outside is so, from near or
/// far: closer to a rod than its radius less the cube, in a blob's inner 0.6
/// with nothing over it, or beyond 1.2 of it.
pub proof fn part_relations_are_safe(
    m: MaterialId,
    fill: u32,
    cap: Option<MaterialId>,
    salt: u32,
    d: Key,
    outer: Key,
    inner: Key,
    near: Key,
    far: Key,
)
    requires
        inner <= outer,
        near <= far,
    ensures
        part_relation(Part::Wood { m }, Gap::Rod { d, outer, inner }) is Outside <==> d > outer,
        part_relation(Part::Wood { m }, Gap::Rod { d, outer, inner }) == Relation::Inside(m) <==> d
            < inner,
        ({
            let r = part_relation(Part::Blob { m, fill, cap, salt }, Gap::Blob { near, far });
            &&& r is Outside <==> near > 0x3f99_999a
            &&& r == Relation::Inside(m) <==> far < 0x3f19_999a && cap is None
        }),
{
}

/// A plant fills a cube only if some part does and no edge crosses it; a cube
/// that wood fills is wood, and one that no part reaches is free.
pub proof fn plants_fill_what_a_part_fills(parts: Seq<Part>, rel: Seq<Relation>)
    requires
        parts.len() == rel.len(),
    ensures
        (exists|i: int| 0 <= i < rel.len() && #[trigger] rel[i] is Edge) ==> plant_relation(
            parts,
            rel,
        ) is Edge,
        (forall|i: int| 0 <= i < rel.len() ==> #[trigger] rel[i] is Outside) ==> plant_relation(
            parts,
            rel,
        ) is Outside,
        plant_relation(parts, rel) is Inside ==> exists|i: int|
            0 <= i < rel.len() && #[trigger] rel[i] == plant_relation(parts, rel) && ((exists|j: int|
                0 <= j < rel.len() && rel[j] is Inside && #[trigger] parts[j] is Wood) ==> parts[i]
                is Wood),
        (exists|i: int| 0 <= i < rel.len() && #[trigger] rel[i] is Inside) ==> !(plant_relation(
            parts,
            rel,
        ) is Outside),
{
    lemma_filling(parts, rel, rel.len() as int);
}

proof fn lemma_filling(parts: Seq<Part>, rel: Seq<Relation>, n: int)
    requires
        parts.len() == rel.len(),
        0 <= n <= rel.len(),
    ensures
        filling(parts, rel, n) is None <==> forall|i: int|
            0 <= i < n ==> !(#[trigger] rel[i] is Inside),
        filling(parts, rel, n) matches Some(m) ==> exists|i: int|
            0 <= i < n && #[trigger] rel[i] == Relation::Inside(m) && ((exists|j: int|
                0 <= j < n && rel[j] is Inside && #[trigger] parts[j] is Wood) ==> parts[i]
                is Wood),
    decreases n,
{
    if n > 0 {
        lemma_filling(parts, rel, n - 1);
        let before = filling(parts, rel, n - 1);
        if let Relation::Inside(m) = rel[n - 1] {
            if parts[n - 1] is Wood || before is None {
                assert(rel[n - 1] == Relation::Inside(m));
            } else {
                let k = before->Some_0;
                let i = choose|i: int|
                    0 <= i < n - 1 && #[trigger] rel[i] == Relation::Inside(k) && ((exists|j: int|
                        0 <= j < n - 1 && rel[j] is Inside && #[trigger] parts[j] is Wood)
                        ==> parts[i] is Wood);
                assert(rel[i] == Relation::Inside(k));
            }
        } else if before is Some {
            let k = before->Some_0;
            let i = choose|i: int|
                0 <= i < n - 1 && #[trigger] rel[i] == Relation::Inside(k) && ((exists|j: int|
                    0 <= j < n - 1 && rel[j] is Inside && #[trigger] parts[j] is Wood) ==> parts[i]
                    is Wood);
            assert(rel[i] == Relation::Inside(k));
        }
    }
}

/// Plants push aside air, wheat and flames, and nothing else that has an entry
/// in the table: leaves of other plants stay.
pub proof fn only_light_growth_gives_way(m: MaterialId)
    ensures
        gives_way(m) <==> m.0 == 0 || m.0 == 32 || m.0 == 36 || m.0 == 49,
{
}

/// Where a voxel does not give way it stays; where it does it takes what is
/// painted there, if anything.
pub proof fn growth_spares_what_stands(
    v: Seq<MaterialId>,
    paint: Seq<Option<MaterialId>>,
    i: int,
)
    requires
        v.len() == 512,
        paint.len() == 512,
        0 <= i < 512,
    ensures
        ({
            let after = crate::settlement::painted_over(v, grown_paint(v, paint));
            &&& !(v[i].0 == 0 || v[i].0 == 32 || v[i].0 == 36 || v[i].0 == 49) ==> after[i] == v[i]
            &&& paint[i] is None ==> after[i] == v[i]
            &&& (v[i].0 == 0 || v[i].0 == 32 || v[i].0 == 36 || v[i].0 == 49) && paint[i] is Some
                ==> after[i] == paint[i]->Some_0
        }),
{
    only_light_growth_gives_way(v[i]);
}

/// Coarsely a part fills every node that it reaches with its material, but for
/// what covers a blob, which lies on its topmost node alone.
pub proof fn parts_fill_nodes_whole(part: Part, c: Coarse)
    ensures
        puts_coarsely(part, c) is Some <==> c.inside,
        part matches Part::Wood { m } ==> (c.inside ==> puts_coarsely(part, c) == Some(m)),
        part matches Part::Blob { m, cap, .. } ==> {
            &&& c.inside && !c.top ==> puts_coarsely(part, c) == Some(m)
            &&& c.inside && cap is None ==> puts_coarsely(part, c) == Some(m)
            &&& c.inside && c.top && cap is Some ==> puts_coarsely(part, c) == cap
        },
{
}

/// Of the parts that hold a cube the last of wood fills it; where none is of
/// wood, the first that holds it does.
pub proof fn the_last_wood_fills(parts: Seq<Part>, rel: Seq<Relation>, n: int, j: int)
    requires
        parts.len() == rel.len(),
        0 <= j < n <= rel.len(),
        rel[j] is Inside,
    ensures
        parts[j] is Wood && (forall|k: int|
            j < k < n && (#[trigger] rel[k]) is Inside ==> !(parts[k] is Wood)) ==> filling(
            parts,
            rel,
            n,
        ) == Some(rel[j]->Inside_0),
        (forall|k: int| 0 <= k < n && (#[trigger] rel[k]) is Inside ==> !(parts[k] is Wood)) && (
        forall|k: int| 0 <= k < j ==> !((#[trigger] rel[k]) is Inside)) ==> filling(parts, rel, n)
            == Some(rel[j]->Inside_0),
    decreases n,
{
    if j < n - 1 {
        the_last_wood_fills(parts, rel, n - 1, j);
    } else if forall|k: int| 0 <= k < j ==> !((#[trigger] rel[k]) is Inside) {
        lemma_no_filling(parts, rel, j);
    }
}

proof fn lemma_no_filling(parts: Seq<Part>, rel: Seq<Relation>, n: int)
    requires
        n <= rel.len(),
        forall|k: int| 0 <= k < n ==> !((#[trigger] rel[k]) is Inside),
    ensures
        filling(parts, rel, n) is None,
    decreases n,
{
    if n > 0 {
        lemma_no_filling(parts, rel, n - 1);
    }
}

} // verus!
