//! A read-only window of brick cells cut out of the world, for many voxel
//! lookups in a small region such as a body's collision samples: one hash
//! lookup and tree descent per brick cell when the window is built, then
//! an array index per voxel.

use crate::brick::{vindex, Brick};
use crate::coords::{chunk_of, local_of, ChunkPos, VoxelPos};
use crate::ivec::IVec3;
use crate::material::{air, MaterialId};
use crate::tree::node::Cell;
use crate::tree::path::lemma_path;
use crate::tree::{brick_part, cell_part, lemma_vindex, solid_voxels};
use crate::world::{
    brick_of, corner, lemma_around, lemma_brick_axis, lemma_where, neighbour, VoxelWorld,
};
use vstd::arithmetic::div_mod::lemma_fundamental_div_mod;
use vstd::arithmetic::div_mod::lemma_fundamental_div_mod_converse;
use vstd::prelude::*;

verus! {

/// Windows larger than this many brick cells fall back to world lookups.
pub const MAX_WINDOW_CELLS: usize = 32768;

#[derive(Clone, Copy)]
enum CellRef<'a> {
    Uniform(MaterialId),
    Brick(&'a Brick),
}

pub struct VoxelWindow<'a> {
    world: &'a VoxelWorld,
    min_cell: IVec3,
    dims: IVec3,
    cells: Vec<CellRef<'a>>,
    solid: bool,
}

/// Brick cells of the window over `min..=max` along one axis.
pub open spec fn span(lo: i32, hi: i32) -> int {
    let d = hi as int / 8 - lo as int / 8 + 1;
    if d > 0 {
        d
    } else {
        0
    }
}

/// Brick cells of the window over `min..=max`.
pub open spec fn window_cells(min: VoxelPos, max: VoxelPos) -> int {
    span(min.x, max.x) * span(min.y, max.y) * span(min.z, max.z)
}

/// Neither empty nor too large to be cut out.
pub open spec fn cut_out(min: VoxelPos, max: VoxelPos) -> bool {
    0 < window_cells(min, max) <= MAX_WINDOW_CELLS
}

/// The brick cell of `w` is one of the window over `min..=max`.
pub open spec fn in_window(w: VoxelPos, min: VoxelPos, max: VoxelPos) -> bool {
    &&& min.x as int / 8 <= w.x as int / 8 <= max.x as int / 8
    &&& min.y as int / 8 <= w.y as int / 8 <= max.y as int / 8
    &&& min.z as int / 8 <= w.z as int / 8 <= max.z as int / 8
}

spec fn ref_voxels(r: CellRef) -> Seq<MaterialId> {
    match r {
        CellRef::Uniform(m) => solid_voxels(m),
        CellRef::Brick(b) => b.voxels(),
    }
}

/// Cell `i` of a window of `dx * dy` cells a layer.
spec fn nth_cell(min_cell: IVec3, dx: int, dy: int, i: int) -> IVec3 {
    IVec3 {
        x: (min_cell.x + i % dx) as i32,
        y: (min_cell.y + i / dx % dy) as i32,
        z: (min_cell.z + i / dx / dy) as i32,
    }
}

proof fn lemma_nth(dx: int, dy: int, dz: int, x: int, y: int, z: int)
    requires
        0 <= x < dx,
        0 <= y < dy,
        0 <= z < dz,
    ensures
        ({
            let i = x + dx * (y + dy * z);
            &&& 0 <= i < dx * dy * dz
            &&& i % dx == x
            &&& i / dx % dy == y
            &&& i / dx / dy == z
        }),
{
    let j = y + dy * z;
    let i = x + dx * j;
    assert(0 <= j && j + 1 <= dy * dz) by (nonlinear_arith)
        requires
            0 <= y < dy,
            0 <= z < dz,
            j == y + dy * z,
    ;
    assert(0 <= i < dx * (dy * dz)) by (nonlinear_arith)
        requires
            0 <= x < dx,
            0 <= j,
            j + 1 <= dy * dz,
            i == x + dx * j,
    ;
    assert(dx * (dy * dz) == dx * dy * dz) by (nonlinear_arith);
    assert(i == dx * j + x);
    lemma_fundamental_div_mod_converse(i, dx, j, x);
    assert(j == dy * z + y);
    lemma_fundamental_div_mod_converse(j, dy, z, y);
}

proof fn lemma_nth_bounds(dx: int, dy: int, dz: int, i: int)
    requires
        0 < dx,
        0 < dy,
        0 < dz,
        0 <= i < dx * dy * dz,
    ensures
        0 <= i % dx < dx,
        0 <= i / dx % dy < dy,
        0 <= i / dx / dy < dz,
{
    let j = i / dx;
    lemma_fundamental_div_mod(i, dx);
    assert(0 <= j < dy * dz) by (nonlinear_arith)
        requires
            i == dx * j + i % dx,
            0 <= i % dx < dx,
            0 <= i < dx * dy * dz,
            0 < dx,
            0 < dy,
            0 < dz,
    ;
    lemma_fundamental_div_mod(j, dy);
    let k = j / dy;
    assert(0 <= k < dz) by (nonlinear_arith)
        requires
            j == dy * k + j % dy,
            0 <= j % dy < dy,
            0 <= j < dy * dz,
            0 < dy,
            0 < dz,
    ;
}

impl<'a> VoxelWindow<'a> {
    pub closed spec fn source(&self) -> VoxelWorld {
        *self.world
    }

    pub closed spec fn matter(&self) -> bool {
        self.solid
    }

    spec fn count(&self) -> int {
        self.dims.x * self.dims.y * self.dims.z
    }

    /// The cells cut out are the world's.
    pub closed spec fn wf(&self) -> bool {
        &&& self.world.wf()
        &&& 0 <= self.dims.x && 0 <= self.dims.y && 0 <= self.dims.z
        &&& i32::MIN / 8 <= self.min_cell.x && self.min_cell.x + self.dims.x <= i32::MAX / 8 + 1
        &&& i32::MIN / 8 <= self.min_cell.y && self.min_cell.y + self.dims.y <= i32::MAX / 8 + 1
        &&& i32::MIN / 8 <= self.min_cell.z && self.min_cell.z + self.dims.z <= i32::MAX / 8 + 1
        &&& self.cells@.len() == self.count()
        &&& self.count() <= MAX_WINDOW_CELLS
        &&& forall|i: int|
            0 <= i < self.cells@.len() ==> {
                &&& ref_voxels(#[trigger] self.cells@[i]) == self.world.around(
                    corner(nth_cell(self.min_cell, self.dims.x as int, self.dims.y as int, i)),
                )
                &&& self.cells@[i] matches CellRef::Brick(b) ==> b.wf()
            }
    }

    /// Covers the inclusive voxel box `min..=max`.
    pub fn new(world: &'a VoxelWorld, min: VoxelPos, max: VoxelPos) -> (r: Self)
        requires
            world.wf(),
        ensures
            r.wf(),
            r.source() == *world,
            r.matter() == (!cut_out(min, max) || exists|w: VoxelPos|
                in_window(w, min, max) && #[trigger] world.voxel_of(w) != air()),
    {
        let min_cell: IVec3 = min.div(8);
        let max_cell: IVec3 = max.div(8);
        let dx: i32 = axis_span(min_cell.x, max_cell.x);
        let dy: i32 = axis_span(min_cell.y, max_cell.y);
        let dz: i32 = axis_span(min_cell.z, max_cell.z);
        let total: u128 = cell_total(dx, dy, dz);
        assert(total == window_cells(min, max));
        if total == 0 || total > MAX_WINDOW_CELLS as u128 {
            let r = VoxelWindow {
                world,
                min_cell,
                dims: IVec3::splat(0),
                cells: Vec::new(),
                solid: true,
            };
            return r;
        }
        let count: usize = total as usize;
        let ghost (gx, gy, gz) = (dx as int, dy as int, dz as int);
        proof {
            assert(gx > 0 && gy > 0 && gz > 0) by (nonlinear_arith)
                requires
                    gx >= 0,
                    gy >= 0,
                    gz >= 0,
                    gx * gy * gz > 0,
            ;
        }
        let mut cells: Vec<CellRef<'a>> = Vec::new();
        let mut solid: bool = false;
        let mut i: usize = 0;
        while i < count
            invariant
                world.wf(),
                i <= count,
                count == gx * gy * gz,
                count <= MAX_WINDOW_CELLS,
                gx == dx && gy == dy && gz == dz,
                gx > 0 && gy > 0 && gz > 0,
                i32::MIN / 8 <= min_cell.x && min_cell.x + dx <= i32::MAX / 8 + 1,
                i32::MIN / 8 <= min_cell.y && min_cell.y + dy <= i32::MAX / 8 + 1,
                i32::MIN / 8 <= min_cell.z && min_cell.z + dz <= i32::MAX / 8 + 1,
                cells@.len() == i,
                forall|j: int|
                    0 <= j < i ==> {
                        &&& ref_voxels(#[trigger] cells@[j]) == world.around(
                            corner(nth_cell(min_cell, gx, gy, j)),
                        )
                        &&& cells@[j] matches CellRef::Brick(b) ==> b.wf()
                    },
                solid == exists|j: int|
                    0 <= j < i && ref_voxels(#[trigger] cells@[j]) != solid_voxels(air()),
            decreases count - i,
        {
            proof {
                lemma_nth_bounds(gx, gy, gz, i as int);
            }
            let n: u32 = i as u32;
            let (ux, uy): (u32, u32) = (dx as u32, dy as u32);
            let x: i32 = (n % ux) as i32;
            let y: i32 = (n / ux % uy) as i32;
            let z: i32 = (n / ux / uy) as i32;
            let c: IVec3 = IVec3 { x: min_cell.x + x, y: min_cell.y + y, z: min_cell.z + z };
            assert(c == nth_cell(min_cell, gx, gy, i as int));
            let r: CellRef<'a> = cell_ref(world, c);
            let empty: bool = match r {
                CellRef::Uniform(m) => m.is_air(),
                CellRef::Brick(_) => false,
            };
            proof {
                lemma_ref_empty(*world, r, c);
                assert(empty == (ref_voxels(r) == solid_voxels(air())));
            }
            let ghost before = cells@;
            cells.push(r);
            proof {
                assert(cells@[i as int] == r);
                if solid {
                    let j = choose|j: int|
                        0 <= j < i && ref_voxels(#[trigger] before[j]) != solid_voxels(air());
                    assert(ref_voxels(cells@[j]) != solid_voxels(air()));
                }
            }
            if !empty {
                solid = true;
            }
            i += 1;
        }
        let r = VoxelWindow { world, min_cell, dims: IVec3 { x: dx, y: dy, z: dz }, cells, solid };
        proof {
            assert forall|w: VoxelPos|
                in_window(w, min, max) && #[trigger] world.voxel_of(w) != air() implies r.solid by {
                let b = brick_of(w);
                let (x, y, z) = (b.x - min_cell.x, b.y - min_cell.y, b.z - min_cell.z);
                lemma_nth(gx, gy, gz, x, y, z);
                let j = x + gx * (y + gy * z);
                assert(nth_cell(min_cell, gx, gy, j) == b);
                lemma_corner_around(*world, w);
                assert(ref_voxels(r.cells@[j]) == world.around(w));
                lemma_around_has(*world, w);
                if ref_voxels(r.cells@[j]) == solid_voxels(air()) {
                    lemma_where(w);
                    lemma_vindex(brick_part(local_of(w)));
                }
            }
            if r.solid {
                let j = choose|j: int|
                    0 <= j < count && ref_voxels(#[trigger] r.cells@[j]) != solid_voxels(air());
                lemma_nth_bounds(gx, gy, gz, j);
                let b = nth_cell(min_cell, gx, gy, j);
                let v = corner(b);
                lemma_around(*world, v);
                let s = world.around(v);
                if forall|q: int| 0 <= q < 512 ==> s[q] == air() {
                    assert(s =~= solid_voxels(air()));
                }
                let q = choose|q: int| 0 <= q < 512 && s[q] != air();
                let w = neighbour(v, q);
                assert(world.voxel_of(w) == s[q]);
                assert(v.x as int / 8 == b.x && v.y as int / 8 == b.y && v.z as int / 8 == b.z);
                assert(w.x as int / 8 == b.x && w.y as int / 8 == b.y && w.z as int / 8 == b.z);
                assert(in_window(w, min, max));
            }
        }
        r
    }

    /// False when every cell of the window is air: nothing inside can touch
    /// the world. Oversized windows always report true.
    pub fn any_matter(&self) -> (b: bool)
        ensures
            b == self.matter(),
    {
        self.solid
    }

    #[inline]
    pub fn voxel(&self, v: VoxelPos) -> (m: MaterialId)
        requires
            self.wf(),
        ensures
            m == self.source().voxel_of(v),
    {
        let b: IVec3 = v.div(8);
        let x: i64 = b.x as i64 - self.min_cell.x as i64;
        let y: i64 = b.y as i64 - self.min_cell.y as i64;
        let z: i64 = b.z as i64 - self.min_cell.z as i64;
        if x < 0 || y < 0 || z < 0 || x >= self.dims.x as i64 || y >= self.dims.y as i64 || z
            >= self.dims.z as i64 {
            return self.world.voxel(v);
        }
        let ghost (gx, gy, gz) = (self.dims.x as int, self.dims.y as int, self.dims.z as int);
        proof {
            lemma_nth(gx, gy, gz, x as int, y as int, z as int);
            assert(0 <= gy * z) by (nonlinear_arith)
                requires
                    0 <= gy,
                    0 <= z,
            ;
            let j = y + gy * z;
            assert(j <= gx * j && gx * j < 32768) by (nonlinear_arith)
                requires
                    gx >= 1,
                    j >= 0,
                    x + gx * j < 32768,
                    x >= 0,
            ;
        }
        let layer: i64 = self.dims.y as i64 * z;
        let i: usize = (x + self.dims.x as i64 * (y + layer)) as usize;
        proof {
            assert(nth_cell(self.min_cell, gx, gy, i as int) == brick_of(v));
            lemma_corner_around(*self.world, v);
            lemma_around_has(*self.world, v);
            lemma_where(v);
        }
        let l: IVec3 = v.rem(8);
        proof {
            lemma_vindex(l);
            assert(l == brick_part(local_of(v)));
            let s = ref_voxels(self.cells@[i as int]);
            assert(s == self.world.around(v));
            assert(solid_voxels(air())[vindex(l)] == air());
            assert(s[vindex(l)] == self.world.voxel_of(v));
        }
        match &self.cells[i] {
            CellRef::Uniform(m) => *m,
            CellRef::Brick(b) => b.get(l),
        }
    }
}

/// The voxel itself is one of those around it.
proof fn lemma_around_has(w: VoxelWorld, v: VoxelPos)
    ensures
        w.voxel_of(v) == match w.at(chunk_of(v)) {
            Some(t) => w.around(v)[vindex(brick_part(local_of(v)))],
            None => air(),
        },
        w.at(chunk_of(v)) is None ==> w.around(v) == solid_voxels(air()),
{
}

/// A cell's voxels are those around its corner.
proof fn lemma_corner_around(w: VoxelWorld, v: VoxelPos)
    ensures
        w.around(corner(brick_of(v))) == w.around(v),
{
    let b = brick_of(v);
    let c = corner(b);
    lemma_corner_axis(v.x as int);
    lemma_corner_axis(v.y as int);
    lemma_corner_axis(v.z as int);
    assert(chunk_of(c) == chunk_of(v));
    assert(cell_part(local_of(c)) == cell_part(local_of(v)));
}

/// Along one axis: a voxel and the corner of its brick cell lie in one chunk
/// and one cell of it.
proof fn lemma_corner_axis(x: int)
    requires
        i32::MIN <= x <= i32::MAX,
    ensures
        i32::MIN / 8 <= x / 8 <= i32::MAX / 8,
        i32::MIN <= x / 8 * 8 <= i32::MAX,
        (x / 8 * 8) / 512 == x / 512,
        (x / 8 * 8) % 512 / 8 == x % 512 / 8,
{
}

/// A reference is empty only as uniform air: bricks always hold something.
proof fn lemma_ref_empty(w: VoxelWorld, r: CellRef, c: IVec3)
    requires
        r matches CellRef::Brick(b) ==> b.mixed(),
    ensures
        (ref_voxels(r) == solid_voxels(air())) == (r == CellRef::Uniform(air())),
{
    match r {
        CellRef::Uniform(m) => {
            if m != air() {
                assert(solid_voxels(m)[0] == m);
                assert(solid_voxels(air())[0] == air());
            }
        },
        CellRef::Brick(b) => {
            let i = choose|i: int| 0 <= i < 512 && #[trigger] b.voxels()[i] != air();
            assert(solid_voxels(air())[i] == air());
        },
    }
}

/// What world brick cell `c` holds.
fn cell_ref<'a>(world: &'a VoxelWorld, c: IVec3) -> (r: CellRef<'a>)
    requires
        world.wf(),
        i32::MIN / 8 <= c.x <= i32::MAX / 8,
        i32::MIN / 8 <= c.y <= i32::MAX / 8,
        i32::MIN / 8 <= c.z <= i32::MAX / 8,
    ensures
        ref_voxels(r) == world.around(corner(c)),
        r matches CellRef::Brick(b) ==> b.wf() && b.mixed(),
{
    let pos: ChunkPos = ChunkPos(c.div(64));
    let local: IVec3 = c.rem(64);
    proof {
        lemma_brick_axis(c.x as int);
        lemma_brick_axis(c.y as int);
        lemma_brick_axis(c.z as int);
        assert(pos == chunk_of(corner(c)));
        assert(local == cell_part(local_of(corner(c))));
        lemma_path(local);
    }
    match world.chunk(pos) {
        None => CellRef::Uniform(MaterialId(0)),
        Some(t) => {
            proof {
                t.lemma_cells();
            }
            match t.cell(local) {
                Cell::Empty => CellRef::Uniform(MaterialId(0)),
                Cell::Uniform(m) => CellRef::Uniform(m),
                Cell::Brick(i) => CellRef::Brick(t.brick(i)),
            }
        },
    }
}

fn axis_span(lo: i32, hi: i32) -> (d: i32)
    requires
        i32::MIN / 8 <= lo <= i32::MAX / 8,
        i32::MIN / 8 <= hi <= i32::MAX / 8,
    ensures
        d == if hi - lo + 1 > 0 {
            hi - lo + 1
        } else {
            0
        },
{
    if hi >= lo {
        hi - lo + 1
    } else {
        0
    }
}

fn cell_total(dx: i32, dy: i32, dz: i32) -> (n: u128)
    requires
        0 <= dx,
        0 <= dy,
        0 <= dz,
    ensures
        n == dx * dy * dz,
{
    assert(0 <= dx * dy <= 0x7fff_ffff * 0x7fff_ffff) by (nonlinear_arith)
        requires
            0 <= dx <= 0x7fff_ffff,
            0 <= dy <= 0x7fff_ffff,
    ;
    let area: u128 = dx as u128 * dy as u128;
    assert(0 <= area * dz <= 0x7fff_ffff * 0x7fff_ffff * 0x7fff_ffff) by (nonlinear_arith)
        requires
            0 <= area <= 0x7fff_ffff * 0x7fff_ffff,
            0 <= dz <= 0x7fff_ffff,
    ;
    area * dz as u128
}

/// A window reaches from the brick cell of its lowest voxel to that of its
/// highest: as many cells along an axis as hold some voxel between the two,
/// and none where they are the wrong way round.
pub proof fn windows_span_their_bricks(lo: i32, hi: i32)
    ensures
        lo <= hi ==> 8 * (span(lo, hi) - 2) < hi - lo < 8 * span(lo, hi),
        lo <= hi && lo as int % 8 == 0 && hi as int % 8 == 7 ==> 8 * span(lo, hi) == hi - lo + 1,
        hi < lo ==> 0 <= span(lo, hi) <= 1,
        hi < lo - 7 ==> span(lo, hi) == 0,
{
}

/// A window is cut out where it has brick cells and no more than 32768 of
/// them, which a cube of 32 cells has.
pub proof fn small_windows_are_cut_out(min: VoxelPos, max: VoxelPos)
    requires
        span(min.x, max.x) == span(min.y, max.y),
        span(min.y, max.y) == span(min.z, max.z),
    ensures
        cut_out(min, max) <==> 1 <= span(min.x, max.x) <= 32,
{
    let n = span(min.x, max.x);
    assert(n * n * n <= 32768 <==> n <= 32) by (nonlinear_arith)
        requires
            n >= 0,
    ;
    assert(n * n * n > 0 <==> n > 0) by (nonlinear_arith)
        requires
            n >= 0,
    ;
}

} // verus!
