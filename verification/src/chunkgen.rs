//! Chunk generation from the amplified surface and the strata below it.
//!
//! Coarser levels of detail give each node or cell the material at its
//! centre, which is how distant terrain is represented without generating
//! voxels nobody can resolve.

pub mod ground;
pub mod ore;

use crate::amplify::{grassy, grows_grass, material_at, stands, Shore, SurfaceSample};
use crate::brick::palette::matter;
use crate::brick::{vindex, Brick};
use crate::flora::{column_hash, covered, ground_cover, Greens};
use crate::grid::{clamped, Grid2};
use crate::ivec::IVec3;
use crate::karst::{dissolve, dissolved};
use crate::key::Key;
use crate::lod::Lod;
use crate::material::{air, MaterialId};
use vstd::prelude::*;

verus! {

/// What generating a chunk takes at a level of detail.
#[derive(Clone, Copy, Debug, PartialEq, Eq, Structural)]
pub struct Recipe {
    /// Brick cells along the edge of what gets one material.
    pub cells: i32,
    /// Level of that in the tree.
    pub level: u32,
    /// Voxel by voxel where it shows.
    pub full: bool,
    /// Ore bodies are placed.
    pub ores: bool,
    /// Plants and buildings are stamped.
    pub stamps: bool,
}

/// The steps at each level: only full detail has voxels and ores, and the
/// coarsest has neither plants nor buildings.
pub fn recipe(lod: Lod) -> (r: Recipe)
    ensures
        r.cells == match lod {
            Lod::Full | Lod::Cell => 1int,
            Lod::Node2 => 4,
            Lod::Node8 => 16,
        },
        r.level == match lod {
            Lod::Full | Lod::Cell => 0int,
            Lod::Node2 => 1,
            Lod::Node8 => 2,
        },
        r.full == (lod is Full),
        r.ores == (lod is Full),
        r.stamps == !(lod is Node8),
        r.level == 0 ==> r.cells == 1,
        r.level == 1 ==> r.cells == 4,
        r.level == 2 ==> r.cells == 16,
        r.ores ==> r.full && r.stamps && r.level == 0,
        r.stamps <==> r.cells < 16,
{
    let full: bool = matches!(lod, Lod::Full);
    match lod {
        Lod::Full | Lod::Cell => Recipe { cells: 1, level: 0, full, ores: full, stamps: true },
        Lod::Node2 => Recipe { cells: 4, level: 1, full, ores: false, stamps: true },
        Lod::Node8 => Recipe { cells: 16, level: 2, full, ores: false, stamps: false },
    }
}

/// Height of the coarse grid at clamped coordinates.
pub open spec fn height_at(t: Grid2<Key>, i: int, j: int) -> Key {
    t.value(clamped(i, t.w as int), clamped(j, t.h as int))
}

/// Lowest and highest value of the coarse grid over `i0..=i1` by `j0..=j1`,
/// clamped to it.
pub fn column_range(t: &Grid2<Key>, i0: i64, i1: i64, j0: i64, j1: i64) -> (r: (Key, Key))
    requires
        t.wf(),
        0 < t.w <= i64::MAX,
        0 < t.h <= i64::MAX,
        i0 <= i1 < i64::MAX,
        j0 <= j1 < i64::MAX,
    ensures
        forall|i: int, j: int|
            i0 <= i <= i1 && j0 <= j <= j1 ==> r.0 <= #[trigger] height_at(*t, i, j) <= r.1,
        exists|i: int, j: int|
            i0 <= i <= i1 && j0 <= j <= j1 && #[trigger] height_at(*t, i, j) == r.0,
        exists|i: int, j: int|
            i0 <= i <= i1 && j0 <= j <= j1 && #[trigger] height_at(*t, i, j) == r.1,
{
    let first: Key = t.at(i0, j0);
    let (mut lo, mut hi): (Key, Key) = (first, first);
    let ghost (mut li, mut lj, mut hi_i, mut hi_j) = (i0 as int, j0 as int, i0 as int, j0 as int);
    let mut j: i64 = j0;
    while j <= j1
        invariant
            t.wf(),
            0 < t.w <= i64::MAX,
            0 < t.h <= i64::MAX,
            i0 <= i1 < i64::MAX,
            j0 <= j <= j1 + 1,
            j1 < i64::MAX,
            i0 <= li <= i1 && j0 <= lj <= j1 && lo == height_at(*t, li, lj),
            i0 <= hi_i <= i1 && j0 <= hi_j <= j1 && hi == height_at(*t, hi_i, hi_j),
            forall|a: int, b: int|
                i0 <= a <= i1 && j0 <= b < j ==> lo <= #[trigger] height_at(*t, a, b) <= hi,
        decreases j1 + 1 - j,
    {
        let mut i: i64 = i0;
        while i <= i1
            invariant
                t.wf(),
                0 < t.w <= i64::MAX,
                0 < t.h <= i64::MAX,
                i0 <= i <= i1 + 1,
                i1 < i64::MAX,
                j0 <= j <= j1,
                i0 <= li <= i1 && j0 <= lj <= j1 && lo == height_at(*t, li, lj),
                i0 <= hi_i <= i1 && j0 <= hi_j <= j1 && hi == height_at(*t, hi_i, hi_j),
                forall|a: int, b: int|
                    i0 <= a <= i1 && j0 <= b < j ==> lo <= #[trigger] height_at(*t, a, b) <= hi,
                forall|a: int|
                    i0 <= a < i ==> lo <= #[trigger] height_at(*t, a, j as int) <= hi,
            decreases i1 + 1 - i,
        {
            let h: Key = t.at(i, j);
            assert(h == height_at(*t, i as int, j as int));
            if h < lo {
                lo = h;
                proof {
                    li = i as int;
                    lj = j as int;
                }
            }
            if h > hi {
                hi = h;
                proof {
                    hi_i = i as int;
                    hi_j = j as int;
                }
            }
            i += 1;
        }
        j += 1;
    }
    (lo, hi)
}

/// What a coarse column puts into one of its cells.
#[derive(Clone, Copy, Debug, PartialEq, Eq, Structural)]
pub enum Probe {
    Nothing,
    Water,
    /// The topmost cell shows the surface material, not whatever lies half a
    /// cell down.
    Surface,
    /// The material at its centre.
    Centre,
}

/// A column has nothing in this chunk: its ground and the sea end below.
pub fn clears(height: Key, sea: Key, bottom: Key) -> (b: bool)
    ensures
        b == (height < bottom && sea < bottom),
        b ==> forall|centre: Key, next: Key|
            centre >= bottom ==> #[trigger] shows(centre, next, height, sea) is Nothing,
{
    height < bottom && sea < bottom
}

/// What a cell whose centre and the next centre above are given shows.
pub open spec fn shows(centre: Key, next: Key, height: Key, sea: Key) -> Probe {
    if centre > height {
        if centre < sea {
            Probe::Water
        } else {
            Probe::Nothing
        }
    } else if next > height {
        Probe::Surface
    } else {
        Probe::Centre
    }
}

/// The cells of a coarse column from the bottom up, whose centres are the
/// first of `centres`, until one shows nothing. The last of `centres` lies one
/// cell over the top.
pub fn coarse_column(centres: &Vec<Key>, height: Key, sea: Key) -> (r: Vec<Probe>)
    requires
        centres@.len() > 0,
    ensures
        r@.len() < centres@.len(),
        forall|i: int|
            0 <= i < r@.len() ==> #[trigger] r@[i] == shows(
                centres@[i],
                centres@[i + 1],
                height,
                sea,
            ) && !(r@[i] is Nothing),
        r@.len() + 1 < centres@.len() ==> shows(
            centres@[r@.len() as int],
            centres@[r@.len() as int + 1],
            height,
            sea,
        ) is Nothing,
{
    let mut r: Vec<Probe> = Vec::new();
    let n: usize = centres.len();
    let mut i: usize = 0;
    while i + 1 < n
        invariant
            n == centres@.len(),
            i < n,
            r@.len() == i,
            forall|j: int|
                0 <= j < i ==> #[trigger] r@[j] == shows(centres@[j], centres@[j + 1], height, sea)
                    && !(r@[j] is Nothing),
        decreases n - i,
    {
        let centre: Key = centres[i];
        if centre > height {
            if centre < sea {
                r.push(Probe::Water);
                i += 1;
                continue;
            }
            return r;
        }
        if centres[i + 1] > height {
            r.push(Probe::Surface);
        } else {
            r.push(Probe::Centre);
        }
        i += 1;
    }
    r
}

/// Where the centres rise, every cell above the first that shows nothing
/// shows nothing either, so a column may end there.
pub proof fn columns_end_in_the_open(
    centres: Seq<Key>,
    height: Key,
    sea: Key,
    i: int,
    j: int,
)
    requires
        forall|a: int, b: int|
            0 <= a < b < centres.len() ==> #[trigger] centres[a] < #[trigger] centres[b],
        0 <= i < j < centres.len() - 1,
        shows(centres[i], centres[i + 1], height, sea) is Nothing,
    ensures
        shows(centres[j], centres[j + 1], height, sea) is Nothing,
{
}

/// A voxel of a column: where it lies and what is known of the rock there.
#[derive(Clone, Copy, Debug)]
pub struct Voxel {
    /// Metres below the surface.
    pub depth: Key,
    /// Elevation.
    pub y: Key,
    /// Material of the strata.
    pub rock: MaterialId,
    /// Voxels over the surface, if that is near enough for ground cover.
    pub level: Option<i32>,
    /// A joint or a shaft passes here, and whether under the water table.
    pub joint: bool,
    pub shaft: bool,
    pub flooded: bool,
}

/// The material of a voxel: ground, sea or air; cover on grassy ground; then
/// what the water dissolves.
pub open spec fn voxel_material(
    s: SurfaceSample,
    shore: Shore,
    v: Voxel,
    column: u64,
    flora: bool,
    g: Greens,
) -> MaterialId {
    let bare = stands(s, shore, v.depth, v.y, v.rock);
    let m = if bare == air() && grows_grass(s, shore) && flora && v.level is Some {
        covered(s.lives_in(shore), column, v.level->Some_0, g)
    } else {
        bare
    };
    match dissolved(m, v.joint, v.shaft, v.flooded) {
        Some(fill) => fill,
        None => m,
    }
}

/// Material of voxel `v` in world voxel column (vx, vz).
pub fn material_of(
    s: &SurfaceSample,
    shore: &Shore,
    v: &Voxel,
    vx: i32,
    vz: i32,
    seed: u64,
    flora: bool,
    g: &Greens,
) -> (m: MaterialId)
    ensures
        m == voxel_material(*s, *shore, *v, column_hash(vx, vz, seed), flora, *g),
{
    let mut m: MaterialId = material_at(s, shore, v.depth, v.y, v.rock);
    if m.is_air() && flora && grassy(s, shore) {
        if let Some(level) = v.level {
            m = ground_cover(s, shore, vx, vz, level, seed, g);
        }
    }
    match dissolve(m, v.joint, v.shaft, v.flooded) {
        Some(fill) => fill,
        None => m,
    }
}

/// Air that is not grassy stays air, and grass never grows into the ground or
/// the sea: ground cover only ever replaces air.
pub proof fn cover_replaces_air(
    s: SurfaceSample,
    shore: Shore,
    v: Voxel,
    column: u64,
    flora: bool,
    g: Greens,
)
    requires
        stands(s, shore, v.depth, v.y, v.rock) != air() || !flora || !grows_grass(s, shore),
    ensures
        voxel_material(s, shore, v, column, flora, g) == match dissolved(
            stands(s, shore, v.depth, v.y, v.rock),
            v.joint,
            v.shaft,
            v.flooded,
        ) {
            Some(fill) => fill,
            None => stands(s, shore, v.depth, v.y, v.rock),
        },
{
}

/// A brick from its voxels' materials, `x + z*8 + y*64`.
pub fn brick_at(voxels: &[MaterialId; 512]) -> (b: Brick)
    requires
        matter(voxels@).len() <= 255,
    ensures
        b.wf(),
        b.voxels() == voxels@,
{
    let mut brick = Brick::empty();
    proof {
        brick.lemma_shape();
    }
    let ghost all = matter(voxels@);
    let mut i: usize = 0;
    while i < 512
        invariant
            i <= 512,
            voxels@.len() == 512,
            all == matter(voxels@),
            all.finite() && all.len() <= 255,
            brick.wf(),
            brick.voxels().len() == 512,
            forall|j: int|
                0 <= j < 512 ==> #[trigger] brick.voxels()[j] == if j < i {
                    voxels@[j]
                } else {
                    air()
                },
        decreases 512 - i,
    {
        let m: MaterialId = voxels[i];
        if !m.is_air() {
            let l: IVec3 = IVec3 { x: (i % 8) as i32, y: (i / 64) as i32, z: (i / 8 % 8) as i32 };
            assert(vindex(l) == i);
            proof {
                let now = brick.voxels();
                assert(voxels@.contains(m));
                assert forall|x: MaterialId| matter(now).contains(x) implies all.contains(x) by {
                    let j = choose|j: int| 0 <= j < now.len() && now[j] == x;
                    assert(voxels@[j] == x);
                }
                if !now.contains(m) {
                    assert(matter(now).subset_of(all.remove(m)));
                    vstd::set_lib::lemma_len_subset(matter(now), all.remove(m));
                }
            }
            brick.set(l, m);
        }
        i += 1;
    }
    assert(brick.voxels() =~= voxels@);
    brick
}

/// The cells of one brick column.
#[derive(Debug)]
pub struct ColumnCells {
    pub x: i32,
    pub z: i32,
    /// Places of its cells in the list they came from, rising.
    pub cells: Vec<usize>,
}

/// Group `k` is that of cell `c`'s column and holds it.
pub open spec fn holds(groups: Seq<ColumnCells>, cells: Seq<IVec3>, k: int, c: int) -> bool {
    &&& 0 <= k < groups.len()
    &&& groups[k].x == cells[c].x && groups[k].z == cells[c].z
    &&& groups[k].cells@.contains(c as usize)
}

pub open spec fn held(groups: Seq<ColumnCells>, cells: Seq<IVec3>, c: int) -> bool {
    exists|k: int| #[trigger] holds(groups, cells, k, c)
}

/// The groups hold the first `n` cells: each group only cells of its column,
/// in order, each cell in some group, and no column twice.
pub open spec fn grouped(groups: Seq<ColumnCells>, cells: Seq<IVec3>, n: int) -> bool {
    &&& forall|k: int, i: int|
        0 <= k < groups.len() && 0 <= i < groups[k].cells@.len() ==> (
        #[trigger] groups[k].cells@[i]) < n && cells[groups[k].cells@[i] as int].x == groups[k].x
            && cells[groups[k].cells@[i] as int].z == groups[k].z
    &&& forall|k: int, i: int, j: int|
        0 <= k < groups.len() && 0 <= i < j < groups[k].cells@.len()
            ==> #[trigger] groups[k].cells@[i] < #[trigger] groups[k].cells@[j]
    &&& forall|c: int| 0 <= c < n ==> #[trigger] held(groups, cells, c)
    &&& forall|k: int, l: int|
        0 <= k < l < groups.len() ==> (#[trigger] groups[k]).x != (#[trigger] groups[l]).x
            || groups[k].z != groups[l].z
}

fn find_group(groups: &Vec<ColumnCells>, x: i32, z: i32) -> (r: usize)
    ensures
        r <= groups@.len(),
        r < groups@.len() ==> groups@[r as int].x == x && groups@[r as int].z == z,
        r == groups@.len() ==> forall|k: int|
            0 <= k < groups@.len() ==> (#[trigger] groups@[k]).x != x || groups@[k].z != z,
{
    let mut k: usize = 0;
    while k < groups.len()
        invariant
            k <= groups@.len(),
            forall|j: int| 0 <= j < k ==> (#[trigger] groups@[j]).x != x || groups@[j].z != z,
        decreases groups@.len() - k,
    {
        if groups[k].x == x && groups[k].z == z {
            return k;
        }
        k += 1;
    }
    k
}

/// Groups cells by the brick column they stand in, so each column is sampled
/// once.
pub fn group_columns(cells: &Vec<IVec3>) -> (groups: Vec<ColumnCells>)
    ensures
        grouped(groups@, cells@, cells@.len() as int),
{
    let mut groups: Vec<ColumnCells> = Vec::new();
    let mut c: usize = 0;
    while c < cells.len()
        invariant
            c <= cells@.len(),
            grouped(groups@, cells@, c as int),
        decreases cells@.len() - c,
    {
        let (x, z): (i32, i32) = (cells[c].x, cells[c].z);
        let k: usize = find_group(&groups, x, z);
        let ghost before = groups@;
        if k == groups.len() {
            groups.push(ColumnCells { x, z, cells: Vec::new() });
        }
        let ghost mid = groups@;
        groups[k].cells.push(c);
        proof {
            lemma_grouped(before, mid, groups@, cells@, c as int, k as int);
        }
        c += 1;
    }
    groups
}

proof fn lemma_grouped(
    before: Seq<ColumnCells>,
    mid: Seq<ColumnCells>,
    after: Seq<ColumnCells>,
    cells: Seq<IVec3>,
    c: int,
    k: int,
)
    requires
        0 <= c < cells.len() <= usize::MAX,
        grouped(before, cells, c),
        0 <= k < mid.len(),
        after.len() == mid.len(),
        mid == before && k < before.len() || k == before.len() && mid.len() == k + 1 && mid[k].x
            == cells[c].x && mid[k].z == cells[c].z && mid[k].cells@ == Seq::<usize>::empty() && (
        forall|j: int| 0 <= j < k ==> mid[j] == before[j]) && (forall|j: int|
            0 <= j < k ==> (#[trigger] before[j]).x != cells[c].x || before[j].z != cells[c].z),
        mid[k].x == cells[c].x && mid[k].z == cells[c].z,
        after[k].x == mid[k].x && after[k].z == mid[k].z,
        after[k].cells@ == mid[k].cells@.push(c as usize),
        forall|j: int| 0 <= j < mid.len() && j != k ==> after[j] == mid[j],
    ensures
        grouped(after, cells, c + 1),
{
    assert forall|a: int, i: int|
        0 <= a < after.len() && 0 <= i < after[a].cells@.len() implies (
    #[trigger] after[a].cells@[i]) < c + 1 && cells[after[a].cells@[i] as int].x == after[a].x
        && cells[after[a].cells@[i] as int].z == after[a].z by {
        if a == k {
            if i < mid[k].cells@.len() {
                assert(after[k].cells@[i] == before[k].cells@[i]);
            }
        } else {
            assert(after[a].cells@[i] == before[a].cells@[i]);
        }
    }
    assert forall|a: int, i: int, j: int|
        0 <= a < after.len() && 0 <= i < j < after[a].cells@.len() implies #[trigger] after[a].cells@[i]
        < #[trigger] after[a].cells@[j] by {
        if a == k {
            assert(after[k].cells@[i] == before[k].cells@[i]);
            if j < mid[k].cells@.len() {
                assert(after[k].cells@[j] == before[k].cells@[j]);
            }
        } else {
            assert(after[a].cells@[i] == before[a].cells@[i]);
            assert(after[a].cells@[j] == before[a].cells@[j]);
        }
    }
    assert forall|d: int| 0 <= d < c + 1 implies #[trigger] held(after, cells, d) by {
        if d == c {
            assert(after[k].cells@[mid[k].cells@.len() as int] == c as usize);
            assert(holds(after, cells, k, d));
        } else {
            assert(held(before, cells, d));
            let a = choose|a: int| #[trigger] holds(before, cells, a, d);
            let i = choose|i: int|
                0 <= i < before[a].cells@.len() && before[a].cells@[i] == d as usize;
            assert(after[a].cells@[i] == d as usize);
            assert(holds(after, cells, a, d));
        }
    }
    assert forall|a: int, b: int| 0 <= a < b < after.len() implies (#[trigger] after[a]).x != (
    #[trigger] after[b]).x || after[a].z != after[b].z by {
        if b < before.len() {
            assert(before[a].x != before[b].x || before[a].z != before[b].z);
        } else {
            assert(before[a].x != cells[c].x || before[a].z != cells[c].z);
        }
    }
}

/// A cell shows ground exactly when its centre is no higher than the ground,
/// and then the surface exactly when the next centre is out of the ground;
/// over the ground it shows water exactly below the sea.
pub proof fn cells_show_what_lies_at_their_centre(centre: Key, next: Key, height: Key, sea: Key)
    ensures
        shows(centre, next, height, sea) is Water <==> height < centre && centre < sea,
        shows(centre, next, height, sea) is Nothing <==> height < centre && sea <= centre,
        shows(centre, next, height, sea) is Surface <==> centre <= height && height < next,
        shows(centre, next, height, sea) is Centre <==> centre <= height && next <= height,
{
}

/// In a column whose centres rise, water lies over all ground and at most one
/// cell shows the surface: the highest that is ground.
pub proof fn columns_are_layered(centres: Seq<Key>, height: Key, sea: Key, i: int, j: int)
    requires
        forall|a: int, b: int|
            0 <= a < b < centres.len() ==> #[trigger] centres[a] < #[trigger] centres[b],
        0 <= i < j < centres.len() - 1,
    ensures
        shows(centres[i], centres[i + 1], height, sea) is Surface ==> !(shows(
            centres[j],
            centres[j + 1],
            height,
            sea,
        ) is Surface) && !(shows(centres[j], centres[j + 1], height, sea) is Centre),
        shows(centres[j], centres[j + 1], height, sea) is Surface ==> shows(
            centres[i],
            centres[i + 1],
            height,
            sea,
        ) is Centre,
        shows(centres[i], centres[i + 1], height, sea) is Water ==> shows(
            centres[j],
            centres[j + 1],
            height,
            sea,
        ) is Water || shows(centres[j], centres[j + 1], height, sea) is Nothing,
{
    assert(centres[i] < centres[i + 1]);
    assert(centres[j] < centres[j + 1]);
    if i + 1 < j {
        assert(centres[i + 1] < centres[j]);
    }
}

/// Over the ground there is water below the sea, and from the sea up air that
/// only plants replace; under the soil there is the rock of the strata
/// wherever neither a joint nor a shaft passes.
pub proof fn voxels_are_ground_sea_or_air(
    s: SurfaceSample,
    shore: Shore,
    v: Voxel,
    column: u64,
    flora: bool,
    g: Greens,
)
    ensures
        v.depth < 0 && v.y < shore.sea ==> voxel_material(s, shore, v, column, flora, g).0 == 15,
        v.depth < 0 && v.y >= shore.sea && (!flora || v.level is None) ==> voxel_material(
            s,
            shore,
            v,
            column,
            flora,
            g,
        ).0 == 0,
        v.depth >= 0 && v.depth >= s.soil_depth && v.rock != air() && !v.joint && !v.shaft
            ==> voxel_material(s, shore, v, column, flora, g) == v.rock,
{
}

} // verus!
