//! Karst caves: water dissolving carbonate rock along bedding and joints.
//!
//! Passages follow two vertical joint sets and a bedding plane, so they open
//! in limestone, chalk and marble, stay mostly horizontal, and meet in rooms.
//! Lower passages flood to a water table. Sinkholes punch down where a river
//! sits over a shaft.

use crate::ivec::IVec3;
use crate::key::Key;
use crate::lod::Lod;
use crate::material::{air, ids, MaterialId};
use crate::noise::{shuffled, Perlin};
use crate::tree::node::{node_cell, Cell};
use crate::tree::{cell_part, ChunkTree};
use vstd::prelude::*;

verus! {

/// Carbonate rock.
pub open spec fn carbonate(m: MaterialId) -> bool {
    m.0 == ids::LIMESTONE || m.0 == ids::CHALK || m.0 == ids::MARBLE
}

pub fn soluble(m: MaterialId) -> (b: bool)
    ensures
        b == carbonate(m),
{
    m.0 == ids::LIMESTONE || m.0 == ids::CHALK || m.0 == ids::MARBLE
}

/// What a voxel becomes: carbonate rock opens at a joint or in a shaft, to
/// water under the water table and to air above it.
pub open spec fn dissolved(
    host: MaterialId,
    joint: bool,
    shaft: bool,
    flooded: bool,
) -> Option<MaterialId> {
    if !carbonate(host) || !(joint || shaft) {
        None
    } else if flooded {
        Some(MaterialId(ids::WATER))
    } else {
        Some(air())
    }
}

/// What a soluble voxel becomes, or `None` to leave it.
pub fn dissolve(host: MaterialId, joint: bool, shaft: bool, flooded: bool) -> (r: Option<
    MaterialId,
>)
    ensures
        r == dissolved(host, joint, shaft, flooded),
{
    if !soluble(host) {
        return None;
    }
    if !joint && !shaft {
        return None;
    }
    Some(
        if flooded {
            MaterialId(ids::WATER)
        } else {
            MaterialId(ids::AIR)
        },
    )
}

/// Voxels between the points where passages are looked for. The coarsest
/// level has none: caves thinner than 8 m would alias there.
pub fn carve_step(lod: Lod) -> (r: Option<i32>)
    ensures
        r == match lod {
            Lod::Node8 => None::<i32>,
            Lod::Node2 => Some(64i32),
            _ => Some(32i32),
        },
        r is None <==> lod is Node8,
        r matches Some(n) ==> (n == 64 <==> lod is Node2) && (n == 32 <==> !(lod is Node2)),
{
    match lod {
        Lod::Node8 => None,
        Lod::Node2 => Some(64),
        _ => Some(32),
    }
}

/// First voxel of a chunk in reach of a box that starts at `from`, along one
/// axis of the chunk.
pub open spec fn first_in(from: int) -> int {
    if from < 0 {
        0
    } else {
        from
    }
}

/// Last voxel of a chunk in reach of a box that ends at `to`.
pub open spec fn last_in(to: int) -> int {
    if to > 511 {
        511
    } else {
        to
    }
}

/// Brick cells that a box from `centre - r` to `centre + r` reaches along one
/// axis, both ends included; none where it misses the chunk.
pub open spec fn span(origin: int, centre: int, r: int) -> Option<(int, int)> {
    let (a, b) = (first_in(centre - r - origin), last_in(centre + r - origin));
    if a > b {
        None
    } else {
        Some((a / 8, b / 8))
    }
}

/// Brick cells of a chunk that a box of half size `r` about `centre` reaches,
/// both ends included; none where it misses the chunk. `origin` is the
/// chunk's minimum voxel.
pub fn reach(origin: IVec3, centre: IVec3, r: IVec3) -> (b: Option<(IVec3, IVec3)>)
    requires
        0 <= r.x <= 0x1000_0000 && 0 <= r.y <= 0x1000_0000 && 0 <= r.z <= 0x1000_0000,
        -0x1000_0000 <= centre.x <= 0x1000_0000 && -0x1000_0000 <= centre.y <= 0x1000_0000
            && -0x1000_0000 <= centre.z <= 0x1000_0000,
        -0x1000_0000 <= origin.x <= 0x1000_0000 && -0x1000_0000 <= origin.y <= 0x1000_0000
            && -0x1000_0000 <= origin.z <= 0x1000_0000,
    ensures
        match b {
            Some((lo, hi)) => {
                &&& span(origin.x as int, centre.x as int, r.x as int) == Some(
                    (lo.x as int, hi.x as int),
                )
                &&& span(origin.y as int, centre.y as int, r.y as int) == Some(
                    (lo.y as int, hi.y as int),
                )
                &&& span(origin.z as int, centre.z as int, r.z as int) == Some(
                    (lo.z as int, hi.z as int),
                )
            },
            None => {
                ||| span(origin.x as int, centre.x as int, r.x as int) is None
                ||| span(origin.y as int, centre.y as int, r.y as int) is None
                ||| span(origin.z as int, centre.z as int, r.z as int) is None
            },
        },
        match b {
            Some((lo, hi)) => {
                &&& lo.within(64) && hi.within(64)
                &&& lo.x <= hi.x && lo.y <= hi.y && lo.z <= hi.z
            },
            None => true,
        },
{
    let lo: IVec3 = centre.minus(r).minus(origin).max(IVec3::splat(0));
    let hi: IVec3 = centre.plus(r).minus(origin).min(IVec3::splat(511));
    if !lo.all_le(hi) {
        return None;
    }
    Some((lo.div(8), hi.div(8)))
}

/// What is in reach is neither too little nor too much: a brick cell of the
/// chunk holds a voxel of the box exactly if it lies in the span of each axis.
pub proof fn reach_is_exact(cell: IVec3, origin: IVec3, centre: IVec3, r: IVec3)
    requires
        cell.within(64),
        0 <= r.x && 0 <= r.y && 0 <= r.z,
    ensures
        (exists|v: IVec3|
            v.within(512) && cell_part(v) == cell && #[trigger] in_box(v, origin, centre, r)) <==> {
            &&& in_span(cell.x as int, span(origin.x as int, centre.x as int, r.x as int))
            &&& in_span(cell.y as int, span(origin.y as int, centre.y as int, r.y as int))
            &&& in_span(cell.z as int, span(origin.z as int, centre.z as int, r.z as int))
        },
{
    let (sx, sy, sz) = (
        span(origin.x as int, centre.x as int, r.x as int),
        span(origin.y as int, centre.y as int, r.y as int),
        span(origin.z as int, centre.z as int, r.z as int),
    );
    if in_span(cell.x as int, sx) && in_span(cell.y as int, sy) && in_span(cell.z as int, sz) {
        let v = IVec3 {
            x: foremost(cell.x as int, centre.x - r.x - origin.x) as i32,
            y: foremost(cell.y as int, centre.y - r.y - origin.y) as i32,
            z: foremost(cell.z as int, centre.z - r.z - origin.z) as i32,
        };
        assert(v.within(512) && cell_part(v) == cell && in_box(v, origin, centre, r));
    }
}

/// Brick cell `c` lies in a span.
pub open spec fn in_span(c: int, s: Option<(int, int)>) -> bool {
    s matches Some((a, b)) && a <= c <= b
}

/// First voxel of brick cell `c` from `from` on.
spec fn foremost(c: int, from: int) -> int {
    if from > c * 8 {
        from
    } else {
        c * 8
    }
}

/// Chunk-local voxel `v` lies in the box of half size `r` about `centre`.
pub open spec fn in_box(v: IVec3, origin: IVec3, centre: IVec3, r: IVec3) -> bool {
    &&& centre.x - r.x <= origin.x + v.x <= centre.x + r.x
    &&& centre.y - r.y <= origin.y + v.y <= centre.y + r.y
    &&& centre.z - r.z <= origin.z + v.z <= centre.z + r.z
}

/// Middle voxel of a brick cell.
pub open spec fn middle(cell: IVec3) -> IVec3 {
    IVec3 { x: (cell.x * 8 + 4) as i32, y: (cell.y * 8 + 4) as i32, z: (cell.z * 8 + 4) as i32 }
}

/// Opens one brick cell, judged by its middle voxel. Palette bricks already
/// have voxel-accurate walls; smashing the cell would flatten them.
pub fn carve_cell(tree: &mut ChunkTree, cell: IVec3, joint: bool, shaft: bool, flooded: bool)
    requires
        old(tree).wf(),
        cell.within(64),
    ensures
        final(tree).wf(),
        final(tree).cell_of(cell) == (if old(tree).cell_of(cell) is Brick {
            old(tree).cell_of(cell)
        } else {
            match dissolved(old(tree).voxel_of(middle(cell)), joint, shaft, flooded) {
                Some(fill) => node_cell(fill),
                None => old(tree).cell_of(cell),
            }
        }),
        forall|d: IVec3|
            d.within(64) && d != cell ==> #[trigger] final(tree).cell_of(d) == old(tree).cell_of(d)
                && final(tree).cell_voxels(d) == old(tree).cell_voxels(d),
        old(tree).cell_of(cell) is Brick ==> *final(tree) == *old(tree),
        final(tree).records_since(*old(tree)),
{
    if let Cell::Brick(_) = tree.cell(cell) {
        return;
    }
    let local: IVec3 = cell.scale(8).plus(IVec3::splat(4));
    let here: MaterialId = tree.voxel(local);
    if let Some(fill) = dissolve(here, joint, shaft, flooded) {
        let ghost before = *tree;
        tree.set_cell(
            cell,
            if fill.is_air() {
                Cell::Empty
            } else {
                Cell::Uniform(fill)
            },
        );
        assert forall|d: IVec3| d.within(64) && d != cell implies #[trigger] tree.cell_of(d)
            == before.cell_of(d) && tree.cell_voxels(d) == before.cell_voxels(d) by {
            assert(tree.cell_voxels(d) == before.cell_voxels(d));
        }
    }
}

/// 0.46: how open a joint has to be.
pub const OPEN_AT: Key = 0x3eeb_851f;

/// 3 m of rock stay over every passage.
pub const ROOF_M: Key = 0x4040_0000;

/// No passage lies deeper than 88 m.
pub const FLOOR_M: Key = 0x42b0_0000;

/// 8 m: nothing opens below.
pub const LOWEST_M: Key = 0x4100_0000;

/// 0.62: rivers that strong open sinkholes.
pub const STRONG: Key = 0x3f1e_b852;

/// 0.11: joints that narrow let a shaft down.
pub const NARROW: Key = 0x3de1_47ae;

/// 3.2 m: smaller passages do not show at 2 m.
pub const WIDE_M: Key = 0x404c_cccd;

/// The joints of a world.
pub struct Karst {
    pub noise: Perlin,
}

impl Karst {
    pub fn new(seed: u64) -> (k: Karst)
        ensures
            k.noise.wf(),
            k.noise.table() == shuffled(seed ^ 0x0ca7_e501, 255),
    {
        Karst { noise: Perlin::new(seed ^ 0x0ca7_e501) }
    }
}

/// Depths at which passages may lie.
pub open spec fn opens_at(depth: Key, y: Key) -> bool {
    ROOF_M <= depth <= FLOOR_M && y >= LOWEST_M
}

/// Whether passages may lie at elevation `y`, `depth` below the surface.
pub fn may_open(depth: Key, y: Key) -> (b: bool)
    ensures
        b == opens_at(depth, y),
{
    depth >= ROOF_M && depth <= FLOOR_M && y >= LOWEST_M
}

/// What a sinkhole needs to know of a place: the river's strength, the
/// surface, the sea's level with four metres added, the surface less 22 m, and
/// the joints near the surface.
#[derive(Clone, Copy, Debug)]
pub struct Sink {
    pub river: Key,
    pub surface: Key,
    pub dry: Key,
    pub bottom: Key,
    pub jx: Key,
    pub jz: Key,
}

/// A shaft opens here: a strong river over narrow joints, above the sea.
pub open spec fn sinks(s: Sink) -> bool {
    s.river >= STRONG && s.surface > s.dry && s.jx <= NARROW && s.jz <= NARROW
}

/// Where sinkholes are carved.
pub fn sinkhole(s: &Sink) -> (b: bool)
    ensures
        b == sinks(*s),
{
    s.river >= STRONG && s.surface > s.dry && s.jx <= NARROW && s.jz <= NARROW
}

/// The shaft of a sinkhole passes elevation `y`.
pub fn sinkhole_shaft(s: &Sink, y: Key) -> (b: bool)
    ensures
        b == (sinks(*s) && LOWEST_M <= y <= s.surface && y >= s.bottom),
        b <==> s.river >= 0x3f1e_b852 && s.dry < s.surface && s.jx <= 0x3de1_47ae && s.jz
            <= 0x3de1_47ae && 0x4100_0000 <= y && s.bottom <= y && y <= s.surface,
{
    if s.river < STRONG || s.surface <= s.dry {
        return false;
    }
    if y < LOWEST_M || y > s.surface || y < s.bottom {
        return false;
    }
    s.jx <= NARROW && s.jz <= NARROW
}

/// Under the water table: the sea's level, or 26 m under the surface if that
/// is higher.
pub fn flooded(y: Key, sea: Key, table: Key) -> (b: bool)
    ensures
        b == (y < sea || y < table),
        !b <==> sea <= y && table <= y,
{
    y < sea || y < table
}

/// Whether a passage is carved at a sampled point: an open joint in soluble
/// rock and, at 2 m, one wide enough to show.
pub fn carves(open: Key, host: MaterialId, lod: Lod, radius: Key) -> (b: bool)
    ensures
        b == (open >= OPEN_AT && carbonate(host) && !(lod is Node8) && (lod is Node2 ==> radius
            >= WIDE_M)),
        lod is Node8 ==> !b,
        lod is Full || lod is Cell ==> (b <==> open >= 0x3eeb_851f && carbonate(host)),
        lod is Node2 ==> (b <==> open >= 0x3eeb_851f && carbonate(host) && radius >= 0x404c_cccd),
{
    if matches!(lod, Lod::Node8) || open < OPEN_AT || !soluble(host) {
        return false;
    }
    !(matches!(lod, Lod::Node2) && radius < WIDE_M)
}

/// Only carbonates dissolve: any other rock stays, joints or not.
pub proof fn only_carbonates_open(host: MaterialId, joint: bool, shaft: bool, flooded: bool)
    requires
        !carbonate(host),
    ensures
        dissolved(host, joint, shaft, flooded) is None,
{
}

/// What has dissolved does not dissolve again.
pub proof fn openings_are_final(
    host: MaterialId,
    joint: bool,
    shaft: bool,
    flooded: bool,
    j2: bool,
    s2: bool,
    f2: bool,
)
    ensures
        dissolved(host, joint, shaft, flooded) matches Some(m) ==> dissolved(m, j2, s2, f2) is None,
{
}

/// Limestone, chalk and marble dissolve, wherever a joint or a shaft passes:
/// to water under the water table, to air above it.
pub proof fn carbonates_open_to_water_or_air(
    host: MaterialId,
    joint: bool,
    shaft: bool,
    flooded: bool,
)
    ensures
        ({
            let r = dissolved(host, joint, shaft, flooded);
            let rock = host.0 == 3 || host.0 == 46 || host.0 == 6;
            &&& r is Some <==> rock && (joint || shaft)
            &&& r == Some(MaterialId(15)) <==> rock && (joint || shaft) && flooded
            &&& r == Some(MaterialId(0)) <==> rock && (joint || shaft) && !flooded
        }),
{
}

/// Three metres of rock stay over every passage, none lies deeper than 88 m,
/// and none below an elevation of eight.
pub proof fn passages_keep_their_depth(depth: Key, y: Key)
    ensures
        opens_at(depth, y) <==> 0x4040_0000 <= depth <= 0x42b0_0000 && y >= 0x4100_0000,
{
}

/// Sinkholes open under rivers of 0.62 and more that lie above the sea's
/// margin, where both joints are no wider than 0.11.
pub proof fn sinkholes_need_a_river(s: Sink)
    ensures
        sinks(s) <==> s.river >= 0x3f1e_b852 && s.surface > s.dry && s.jx <= 0x3de1_47ae && s.jz
            <= 0x3de1_47ae,
{
}

/// A cell is judged by a voxel of its own, its middle.
pub proof fn cells_are_judged_by_their_middle(cell: IVec3)
    requires
        cell.within(64),
    ensures
        middle(cell).within(512),
        cell_part(middle(cell)) == cell,
        2 * middle(cell).x == 2 * cell.x * 8 + 8,
        2 * middle(cell).y == 2 * cell.y * 8 + 8,
        2 * middle(cell).z == 2 * cell.z * 8 + 8,
{
}

} // verus!
