//! What a ray meets on its way down the levels: chunks, 64-tree nodes, brick
//! cells, subblocks and voxels.
//!
//! A marcher steps through the 4^3 (2^3 for subblocks) children of a cell
//! between the cell's entry and exit and descends only where there is
//! something to find. These are the answers it descends by.

use crate::bits::{bit, lemma_no_bits};
use crate::brick::{
    bit_of, occupied_bit, sub_of, subblock_bit, subblock_layout_is_one_to_one, vindex, voxel_at,
    Brick,
};
use crate::coords::ChunkPos;
use crate::ivec::IVec3;
use crate::material::{air, MaterialId};
use crate::tree::node::{Cell, L1, L2};
use crate::tree::path::{child_index, cindex, lemma_cindex, lemma_path};
use crate::tree::{brick_part, cell_part, lemma_in_l1, lemma_in_l2, lemma_vindex, ChunkTree};
use crate::world::VoxelWorld;
use vstd::prelude::*;

verus! {

/// What a cell of some level holds.
#[derive(Clone, Copy, Debug, PartialEq, Eq, Structural)]
pub enum Look {
    /// Air throughout: step over it.
    Clear,
    /// Something inside: descend.
    Open,
    /// One material throughout.
    Filled(MaterialId),
}

/// Chunk-local voxel `v` lies in the cell at `c` of the grid of `edge`-voxel
/// cells.
pub open spec fn in_cell(v: IVec3, c: IVec3, edge: int) -> bool {
    &&& v.within(512)
    &&& v.x as int / edge == c.x
    &&& v.y as int / edge == c.y
    &&& v.z as int / edge == c.z
}

/// What an answer says of the cell at `c`: nothing there, or one material,
/// or something that is not air.
pub open spec fn tells(look: Look, t: ChunkTree, c: IVec3, edge: int) -> bool {
    match look {
        Look::Clear => forall|v: IVec3| in_cell(v, c, edge) ==> #[trigger] t.voxel_of(v) == air(),
        Look::Filled(m) => forall|v: IVec3| in_cell(v, c, edge) ==> #[trigger] t.voxel_of(v) == m,
        Look::Open => true,
    }
}

/// A chunk that is not loaded, or holds nothing, is stepped over.
pub fn look_chunk(world: &VoxelWorld, pos: ChunkPos) -> (look: Look)
    requires
        world.wf(),
    ensures
        match world.at(pos) {
            Some(t) => look == (if t.nodes().mask == 0 {
                Look::Clear
            } else {
                Look::Open
            }),
            None => look == Look::Clear,
        },
        look == Look::Clear ==> (world.at(pos) matches Some(t) ==> forall|v: IVec3|
            v.within(512) ==> #[trigger] t.voxel_of(v) == air()),
{
    match world.chunk(pos) {
        Some(t) => if t.is_empty() {
            proof {
                assert forall|v: IVec3| v.within(512) implies #[trigger] t.voxel_of(v) == air() by {
                    assert(t.cell_of(cell_part(v)) == Cell::Empty);
                    lemma_vindex(brick_part(v));
                }
            }
            Look::Clear
        } else {
            Look::Open
        },
        None => Look::Clear,
    }
}

/// The 8 m node at `c`.
pub fn look_l2(t: &ChunkTree, c: IVec3) -> (look: Look)
    requires
        t.wf(),
        c.within(4),
    ensures
        look == match t.nodes().at(cindex(c.x as int, c.y as int, c.z as int)) {
            None => Look::Clear,
            Some(L2::Uniform(m)) => Look::Filled(m),
            Some(L2::Nodes(_)) => Look::Open,
        },
        tells(look, *t, c, 128),
{
    let look: Look = match t.root().get(child_index(c)) {
        None => Look::Clear,
        Some(L2::Uniform(m)) => Look::Filled(*m),
        Some(L2::Nodes(_)) => Look::Open,
    };
    proof {
        assert forall|v: IVec3| in_cell(v, c, 128) implies (look == Look::Clear
            ==> #[trigger] t.voxel_of(v) == air()) && (look matches Look::Filled(m) ==> t.voxel_of(v)
            == m) by {
            let b = cell_part(v);
            lemma_path(b);
            lemma_vindex(brick_part(v));
            lemma_sixteenth(v.x as int);
            lemma_sixteenth(v.y as int);
            lemma_sixteenth(v.z as int);
            lemma_in_l2(b, c);
        }
    }
    look
}

proof fn lemma_sixteenth(n: int)
    ensures
        n / 8 / 16 == n / 128,
        n / 8 / 4 == n / 32,
{
}

/// The 2 m node at `c`.
pub fn look_l1(t: &ChunkTree, c: IVec3) -> (look: Look)
    requires
        t.wf(),
        c.within(16),
    ensures
        look == match t.nodes().at(
            cindex(c.x as int / 4, c.y as int / 4, c.z as int / 4),
        ) {
            None => Look::Clear,
            Some(L2::Uniform(m)) => Look::Filled(m),
            Some(L2::Nodes(n)) => match n.at(
                cindex(c.x as int % 4, c.y as int % 4, c.z as int % 4),
            ) {
                None => Look::Clear,
                Some(L1::Uniform(m)) => Look::Filled(m),
                Some(L1::Cells(_)) => Look::Open,
            },
        },
        tells(look, *t, c, 32),
{
    proof {
        t.lemma_cells();
        lemma_cindex(c.x as int / 4, c.y as int / 4, c.z as int / 4);
        lemma_cindex(c.x as int % 4, c.y as int % 4, c.z as int % 4);
    }
    let look: Look = match t.root().get(child_index(c.div(4))) {
        None => Look::Clear,
        Some(L2::Uniform(m)) => Look::Filled(*m),
        Some(L2::Nodes(n)) => match n.get(child_index(c.rem(4))) {
            None => Look::Clear,
            Some(L1::Uniform(m)) => Look::Filled(*m),
            Some(L1::Cells(_)) => Look::Open,
        },
    };
    proof {
        assert forall|v: IVec3| in_cell(v, c, 32) implies (look == Look::Clear
            ==> #[trigger] t.voxel_of(v) == air()) && (look matches Look::Filled(m) ==> t.voxel_of(v)
            == m) by {
            let b = cell_part(v);
            lemma_path(b);
            lemma_vindex(brick_part(v));
            lemma_sixteenth(v.x as int);
            lemma_sixteenth(v.y as int);
            lemma_sixteenth(v.z as int);
            lemma_in_l1(b, c);
        }
    }
    look
}

/// Brick cell `c`.
pub fn look_cell(t: &ChunkTree, c: IVec3) -> (look: Look)
    requires
        t.wf(),
        c.within(64),
    ensures
        look == match t.cell_of(c) {
            Cell::Empty => Look::Clear,
            Cell::Uniform(m) => Look::Filled(m),
            Cell::Brick(_) => Look::Open,
        },
        tells(look, *t, c, 8),
        look == Look::Open ==> exists|v: IVec3|
            in_cell(v, c, 8) && #[trigger] t.voxel_of(v) != air(),
{
    let cell: Cell = t.cell(c);
    proof {
        t.lemma_cells();
        assert forall|v: IVec3| in_cell(v, c, 8) implies cell_part(v) == c && 0 <= vindex(
            brick_part(v),
        ) < 512 && #[trigger] t.voxel_of(v) == t.cell_voxels(c)[vindex(brick_part(v))] by {
            lemma_vindex(brick_part(v));
        }
        if let Cell::Brick(i) = cell {
            let b = t.slab()[i as int];
            let k = choose|k: int| 0 <= k < 512 && #[trigger] b.voxels()[k] != air();
            let v = cell_voxel(c, k);
            lemma_cell_voxel(c, k);
            assert(t.voxel_of(v) != air());
        }
    }
    match cell {
        Cell::Empty => Look::Clear,
        Cell::Uniform(m) => Look::Filled(m),
        Cell::Brick(_) => Look::Open,
    }
}

/// Voxel `k` of brick cell `c`.
spec fn cell_voxel(c: IVec3, k: int) -> IVec3 {
    IVec3 {
        x: (c.x * 8 + k % 8) as i32,
        y: (c.y * 8 + k / 64) as i32,
        z: (c.z * 8 + k / 8 % 8) as i32,
    }
}

proof fn lemma_cell_voxel(c: IVec3, k: int)
    requires
        c.within(64),
        0 <= k < 512,
    ensures
        in_cell(cell_voxel(c, k), c, 8),
        vindex(brick_part(cell_voxel(c, k))) == k,
{
    let (r0, r1, r2) = (k % 8, k / 64, k / 8 % 8);
    assert(0 <= r0 < 8 && 0 <= r1 < 8 && 0 <= r2 < 8);
    assert(k / 8 == r2 + 8 * r1);
    assert(r0 + r2 * 8 + r1 * 64 == k);
}

/// Subblock `s` of a brick: clear when its mask is.
pub fn look_subblock(b: &Brick, s: IVec3) -> (look: Look)
    requires
        b.wf(),
        s.within(2),
    ensures
        look == Look::Clear || look == Look::Open,
        look == Look::Clear <==> forall|l: IVec3|
            l.within(8) && l.x as int / 4 == s.x && l.y as int / 4 == s.y && l.z as int / 4 == s.z
                ==> #[trigger] b.voxels()[vindex(l)] == air(),
{
    let (k, _) = subblock_bit(s.scale(4));
    let mask: u64 = b.occupancy()[k];
    proof {
        b.lemma_shape();
        let o = IVec3 { x: (s.x * 4) as i32, y: (s.y * 4) as i32, z: (s.z * 4) as i32 };
        lemma_vindex(o);
        lemma_sub_digits(o);
        assert(k == s.x + s.z * 2 + s.y * 4);
        lemma_subblock(*b, s, k as int);
    }
    if mask == 0 {
        Look::Clear
    } else {
        Look::Open
    }
}

/// A subblock's mask is zero exactly when its voxels are air.
proof fn lemma_subblock(b: Brick, s: IVec3, k: int)
    requires
        b.wf(),
        s.within(2),
        k == s.x + s.z * 2 + s.y * 4,
    ensures
        b.masks()[k] == 0 <==> forall|l: IVec3|
            l.within(8) && l.x as int / 4 == s.x && l.y as int / 4 == s.y && l.z as int / 4 == s.z
                ==> #[trigger] b.voxels()[vindex(l)] == air(),
{
    b.lemma_shape();
    let mask = b.masks()[k];
    lemma_no_bits(mask);
    if mask == 0 {
        assert forall|l: IVec3|
            l.within(8) && l.x as int / 4 == s.x && l.y as int / 4 == s.y && l.z as int / 4
                == s.z implies #[trigger] b.voxels()[vindex(l)] == air() by {
            lemma_vindex(l);
            lemma_sub_digits(l);
            let i = vindex(l);
            assert(occupied_bit(b.masks(), i) == (b.voxels()[i] != air()));
            assert(!bit(mask, bit_of(i)));
        }
    } else {
        let j = choose|j: int| 0 <= j < 64 && bit(mask, j);
        let l = lemma_bit_place(k, j);
        let i = vindex(l);
        lemma_sub_place(l, s);
        assert(occupied_bit(b.masks(), i));
        assert(b.voxels()[vindex(l)] != air());
    }
}

/// The voxel at bit `j` of subblock `k`.
proof fn lemma_bit_place(k: int, j: int) -> (l: IVec3)
    requires
        0 <= k < 8,
        0 <= j < 64,
    ensures
        l.within(8),
        0 <= vindex(l) < 512,
        sub_of(vindex(l)) == k,
        bit_of(vindex(l)) == j,
{
    subblock_layout_is_one_to_one();
    let i = voxel_at(k, j);
    lemma_place_of(i)
}

proof fn lemma_place_of(i: int) -> (l: IVec3)
    requires
        0 <= i < 512,
    ensures
        l.within(8),
        vindex(l) == i,
{
    assert(i / 8 == i / 8 % 8 + 8 * (i / 64));
    IVec3 { x: (i % 8) as i32, y: (i / 64) as i32, z: (i / 8 % 8) as i32 }
}

proof fn lemma_sub_digits(l: IVec3)
    requires
        l.within(8),
    ensures
        sub_of(vindex(l)) == l.x as int / 4 + l.z as int / 4 * 2 + l.y as int / 4 * 4,
        0 <= bit_of(vindex(l)) < 64,
{
    lemma_vindex(l);
}

proof fn lemma_sub_place(l: IVec3, s: IVec3)
    requires
        l.within(8),
        s.within(2),
        sub_of(vindex(l)) == s.x + s.z * 2 + s.y * 4,
    ensures
        l.x as int / 4 == s.x && l.y as int / 4 == s.y && l.z as int / 4 == s.z,
{
    lemma_vindex(l);
    let i = vindex(l);
    assert(sub_of(i) == l.x as int / 4 + l.z as int / 4 * 2 + l.y as int / 4 * 4);
}

/// Voxel `l` of a brick.
pub fn look_voxel(b: &Brick, l: IVec3) -> (look: Look)
    requires
        b.wf(),
        l.within(8),
    ensures
        look == if b.voxels()[vindex(l)] == air() {
            Look::Clear
        } else {
            Look::Filled(b.voxels()[vindex(l)])
        },
{
    if b.is_occupied(l) {
        Look::Filled(b.get(l))
    } else {
        Look::Clear
    }
}

/// Outward normal of the face that a ray stepping by `step` enters through
/// along `axis` (0 for x, 1 for y, else z).
pub fn entry_normal(axis: usize, step: IVec3) -> (n: IVec3)
    requires
        -1 <= step.x <= 1,
        -1 <= step.y <= 1,
        -1 <= step.z <= 1,
    ensures
        n.x == if axis == 0 {
            -step.x
        } else {
            0
        },
        n.y == if axis == 1 {
            -step.y
        } else {
            0
        },
        n.z == if axis > 1 {
            -step.z
        } else {
            0
        },
{
    if axis == 0 {
        IVec3 { x: -step.x, y: 0, z: 0 }
    } else if axis == 1 {
        IVec3 { x: 0, y: -step.y, z: 0 }
    } else {
        IVec3 { x: 0, y: 0, z: -step.z }
    }
}

} // verus!
