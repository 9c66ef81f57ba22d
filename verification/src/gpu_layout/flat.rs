//! Flattening a chunk into tree words, and reading them back.

use crate::bits::{bit, lemma_ones_mono, ones_below, select};
use crate::brick::{used, vindex, Brick};
use crate::gpu_layout::encode::{holds_brick, stored_bricks_read_back, stored_voxel};
use crate::gpu_layout::hist::{is_dominant, Histogram};
use crate::gpu_layout::leaves::{
    cell_slots, in_order, l1_slots, l2_slots, lemma_in_order, lemma_in_order_later,
    lemma_in_order_push, lemma_none_in_order, lemma_root_slots, node_slots, root_slots, slots_of,
};
use crate::gpu_layout::{LEAF_PARENT, NODE_WORDS, NOT_RESIDENT, UNIFORM, UNIFORM_NODE, WIDE};
use crate::ivec::IVec3;
use crate::material::{air, MaterialId};
use crate::tally::{lemma_tally_bounds, tally};
use crate::tree::list::{brick_slots, bricks_in_use_are_listed, listed};
use crate::tree::node::{Cell, L1, L2};
use crate::tree::path::{children, lemma_path, low, mid, top};
use crate::tree::sparse::{lemma_item_is_child, Sparse64};
use crate::tree::{brick_part, cell_part, lemma_vindex, ChunkTree};
use vstd::prelude::*;

verus! {

/// Quantised appearance of a subtree.
#[derive(Clone, Copy, Debug, PartialEq, Eq, Structural)]
pub struct Lod {
    pub material: MaterialId,
    /// Octahedral normal, `0..64` each way.
    pub u: u8,
    pub v: u8,
    /// 0 = every surface faces the normal, 15 = no preferred direction.
    pub spread: u8,
}

pub open spec fn lod_word(lod: Lod) -> int {
    lod.material.0 + lod.u * 0x1_0000 + lod.v * 0x40_0000 + lod.spread * 0x1000_0000
}

pub fn pack_lod(lod: &Lod) -> (w: u32)
    requires
        lod.u < 64,
        lod.v < 64,
        lod.spread < 16,
    ensures
        w == lod_word(*lod),
{
    lod.material.0 as u32 + lod.u as u32 * 0x1_0000 + lod.v as u32 * 0x40_0000 + lod.spread as u32
        * 0x1000_0000
}

/// An upright normal and no preferred direction.
pub open spec fn plain_lod(m: MaterialId) -> Lod {
    Lod { material: m, u: 32, v: 32, spread: 15 }
}

/// How a brick cell's leaf word should refer to its brick.
pub trait BrickResidency {
    spec fn place(&self, slot: u32) -> Option<(u32, bool)>;

    /// Voxel-buffer word offset of the brick in slab slot `slot` and whether
    /// it is wide, if uploaded.
    fn brick_offset(&self, slot: u32) -> (r: Option<(u32, bool)>)
        ensures
            r == self.place(slot),
    ;
}

/// Residency by slab slot; slots past the end are not uploaded.
pub struct BrickTable(pub Vec<Option<(u32, bool)>>);

impl BrickResidency for BrickTable {
    open spec fn place(&self, slot: u32) -> Option<(u32, bool)> {
        if slot < self.0@.len() {
            self.0@[slot as int]
        } else {
            None
        }
    }

    fn brick_offset(&self, slot: u32) -> (r: Option<(u32, bool)>) {
        if (slot as usize) < self.0.len() {
            self.0[slot as usize]
        } else {
            None
        }
    }
}

/// What a node's appearance is filtered from: its children with how many
/// voxels of each are covered.
pub struct Site {
    /// First word of the node.
    pub node: u32,
    /// Voxels of a whole child.
    pub child_voxels: u32,
    /// `(child index, covered voxels)` in ascending index order.
    pub children: Vec<(u32, u32)>,
}

/// A chunk flattened into tree words with pointers relative to the block start.
pub struct FlatChunk {
    pub words: Vec<u32>,
    /// `(word index, slab slot)` of every leaf word that refers to a brick.
    pub brick_leaves: Vec<(u32, u32)>,
    /// Every node that has a child block, each once.
    pub sites: Vec<Site>,
    /// LOD material of the whole chunk.
    pub material: MaterialId,
}

/// Voxels of `m` in a cell.
pub open spec fn cell_tally(t: ChunkTree, cell: Cell, m: MaterialId) -> nat {
    match cell {
        Cell::Empty => 0,
        Cell::Uniform(u) => if u == m {
            512
        } else {
            0
        },
        Cell::Brick(i) => tally(t.slab()[i as int].voxels(), m),
    }
}

/// Voxels of `m` in the first `n` stored cells of a node.
pub open spec fn cells_tally(t: ChunkTree, s: Seq<Cell>, m: MaterialId, n: int) -> nat
    decreases n,
{
    if n <= 0 {
        0
    } else {
        cells_tally(t, s, m, n - 1) + cell_tally(t, s[n - 1], m)
    }
}

/// Voxels of `m` in a 2 m node.
pub open spec fn l1_tally(t: ChunkTree, n: L1, m: MaterialId) -> nat {
    match n {
        L1::Uniform(u) => if u == m {
            32768
        } else {
            0
        },
        L1::Cells(s) => cells_tally(t, s.items@, m, s.items@.len() as int),
    }
}

/// Voxels of `m` in the first `n` stored nodes of an 8 m node.
pub open spec fn nodes_tally(t: ChunkTree, s: Seq<L1>, m: MaterialId, n: int) -> nat
    decreases n,
{
    if n <= 0 {
        0
    } else {
        nodes_tally(t, s, m, n - 1) + l1_tally(t, s[n - 1], m)
    }
}

/// Voxels of `m` in an 8 m node.
pub open spec fn l2_tally(t: ChunkTree, n: L2, m: MaterialId) -> nat {
    match n {
        L2::Uniform(u) => if u == m {
            2097152
        } else {
            0
        },
        L2::Nodes(s) => nodes_tally(t, s.items@, m, s.items@.len() as int),
    }
}

/// Voxels of `m` in the first `n` stored 8 m nodes.
pub open spec fn root_tally(t: ChunkTree, s: Seq<L2>, m: MaterialId, n: int) -> nat
    decreases n,
{
    if n <= 0 {
        0
    } else {
        root_tally(t, s, m, n - 1) + l2_tally(t, s[n - 1], m)
    }
}

/// Voxels of `m` in the chunk.
pub open spec fn chunk_tally(t: ChunkTree, m: MaterialId) -> nat {
    root_tally(t, t.nodes().items@, m, t.nodes().items@.len() as int)
}

/// Covered voxels of a cell.
pub open spec fn cell_cover(t: ChunkTree, cell: Cell) -> int {
    match cell {
        Cell::Empty => 0,
        Cell::Uniform(_) => 512,
        Cell::Brick(i) => 512 - tally(t.slab()[i as int].voxels(), air()),
    }
}

pub open spec fn cells_cover(t: ChunkTree, s: Seq<Cell>, n: int) -> int
    decreases n,
{
    if n <= 0 {
        0
    } else {
        cells_cover(t, s, n - 1) + cell_cover(t, s[n - 1])
    }
}

/// Covered voxels of a 2 m node.
pub open spec fn l1_cover(t: ChunkTree, n: L1) -> int {
    match n {
        L1::Uniform(_) => 32768,
        L1::Cells(s) => cells_cover(t, s.items@, s.items@.len() as int),
    }
}

pub open spec fn nodes_cover(t: ChunkTree, s: Seq<L1>, n: int) -> int
    decreases n,
{
    if n <= 0 {
        0
    } else {
        nodes_cover(t, s, n - 1) + l1_cover(t, s[n - 1])
    }
}

/// Covered voxels of an 8 m node.
pub open spec fn l2_cover(t: ChunkTree, n: L2) -> int {
    match n {
        L2::Uniform(_) => 2097152,
        L2::Nodes(s) => nodes_cover(t, s.items@, s.items@.len() as int),
    }
}

/// `(child index, covered voxels)` of the cells of a 2 m node.
pub open spec fn l1_children(t: ChunkTree, s: Sparse64<Cell>) -> Seq<(u32, u32)> {
    Seq::new(
        s.items@.len(),
        |k: int| (select(s.mask, k) as u32, cell_cover(t, s.items@[k]) as u32),
    )
}

/// `(child index, covered voxels)` of the nodes of an 8 m node.
pub open spec fn l2_children(t: ChunkTree, s: Sparse64<L1>) -> Seq<(u32, u32)> {
    Seq::new(
        s.items@.len(),
        |k: int| (select(s.mask, k) as u32, l1_cover(t, s.items@[k]) as u32),
    )
}

/// `(child index, covered voxels)` of the nodes of the chunk.
pub open spec fn root_children(t: ChunkTree, s: Sparse64<L2>) -> Seq<(u32, u32)> {
    Seq::new(
        s.items@.len(),
        |k: int| (select(s.mask, k) as u32, l2_cover(t, s.items@[k]) as u32),
    )
}

/// The leaf word of a cell.
pub open spec fn leaf_ok<P: BrickResidency>(t: ChunkTree, p: P, w: u32, cell: Cell) -> bool {
    match cell {
        Cell::Empty => false,
        Cell::Uniform(m) => w == UNIFORM + m.0,
        Cell::Brick(i) => match p.place(i) {
            Some((offset, wide)) => w == offset | (if wide {
                WIDE
            } else {
                0
            }),
            None => exists|m: MaterialId|
                w == NOT_RESIDENT + m.0 && #[trigger] t.slab()[i as int].dominated_by(m),
        },
    }
}

/// What a site says: voxels of a whole child, and the children.
pub type SiteView = (u32, Seq<(u32, u32)>);

/// The sites by node, among the first `n` of a list.
pub open spec fn site_map(v: Seq<Site>, n: int) -> Map<int, SiteView>
    decreases n,
{
    if n <= 0 {
        Map::empty()
    } else {
        site_map(v, n - 1).insert(
            v[n - 1].node as int,
            (v[n - 1].child_voxels, v[n - 1].children@),
        )
    }
}

/// Words under construction: the words, the sites by node, which leaf words
/// are on the list, and what the child pointers count from.
pub ghost struct Layout {
    pub words: Seq<u32>,
    pub sites: Map<int, SiteView>,
    pub leaves: Seq<(u32, u32)>,
    pub base: int,
}

/// The child mask in two words.
pub open spec fn mask_ok(w1: u32, w2: u32, mask: u64) -> bool {
    w1 as int + w2 as int * 0x1_0000_0000 == mask
}

/// Words of a uniform node.
pub open spec fn uniform_ok(w0: u32, w1: u32, w2: u32, w3: u32, u: MaterialId) -> bool {
    w0 == UNIFORM_NODE + u.0 && mask_ok(w1, w2, u64::MAX) && w3 == lod_word(plain_lod(u))
}

/// The LOD word's material.
pub open spec fn lod_material(w3: u32) -> MaterialId {
    MaterialId((w3 as int % 65536) as u16)
}

/// `w0..w3` with the words in `lo..hi` are 2 m node `n`.
pub open spec fn l1_ok<P: BrickResidency>(
    t: ChunkTree,
    p: P,
    y: Layout,
    lo: int,
    hi: int,
    w0: u32,
    w1: u32,
    w2: u32,
    w3: u32,
    n: L1,
) -> bool {
    match n {
        L1::Uniform(u) => uniform_ok(w0, w1, w2, w3, u),
        L1::Cells(s) => {
            let block = w0 - LEAF_PARENT - y.base;
            &&& mask_ok(w1, w2, s.mask)
            &&& is_dominant(|m: MaterialId| l1_tally(t, n, m), lod_material(w3))
            &&& lo <= block && block + s.items@.len() <= hi
            &&& 0 <= block + y.base < 0x2000_0000
            &&& forall|k: int|
                0 <= k < s.items@.len() ==> leaf_ok(t, p, y.words[block + k], #[trigger] s.items@[k])
                    && !y.sites.contains_key(block + k) && (s.items@[k] matches Cell::Brick(i)
                    ==> y.leaves.contains(((block + k) as u32, i)))
        },
    }
}

/// The four words at `at` are 2 m node `n`, with its site.
pub open spec fn l1_child_ok<P: BrickResidency>(
    t: ChunkTree,
    p: P,
    y: Layout,
    lo: int,
    hi: int,
    at: int,
    n: L1,
) -> bool {
    &&& y.sites.contains_key(at) == (n is Cells)
    &&& n matches L1::Cells(s) ==> y.sites[at] == (512u32, l1_children(t, s))
    &&& !y.sites.contains_key(at + 1)
    &&& !y.sites.contains_key(at + 2)
    &&& !y.sites.contains_key(at + 3)
    &&& l1_ok(t, p, y, lo, hi, y.words[at], y.words[at + 1], y.words[at + 2], y.words[at + 3], n)
}

/// `w0..w3` with the words in `lo..hi` are 8 m node `n`.
pub open spec fn l2_ok<P: BrickResidency>(
    t: ChunkTree,
    p: P,
    y: Layout,
    lo: int,
    hi: int,
    w0: u32,
    w1: u32,
    w2: u32,
    w3: u32,
    n: L2,
) -> bool {
    match n {
        L2::Uniform(u) => uniform_ok(w0, w1, w2, w3, u),
        L2::Nodes(s) => {
            let block = w0 - y.base;
            &&& mask_ok(w1, w2, s.mask)
            &&& is_dominant(|m: MaterialId| l2_tally(t, n, m), lod_material(w3))
            &&& lo <= block && block + 4 * s.items@.len() <= hi
            &&& 0 <= block + y.base < 0x2000_0000
            &&& forall|k: int|
                0 <= k < s.items@.len() ==> l1_child_ok(
                    t,
                    p,
                    y,
                    lo,
                    hi,
                    block + 4 * k,
                    #[trigger] s.items@[k],
                )
        },
    }
}

/// The four words at `at` are 8 m node `n`, with its site.
pub open spec fn l2_child_ok<P: BrickResidency>(
    t: ChunkTree,
    p: P,
    y: Layout,
    lo: int,
    hi: int,
    at: int,
    n: L2,
) -> bool {
    &&& y.sites.contains_key(at) == (n is Nodes)
    &&& n matches L2::Nodes(s) ==> y.sites[at] == (32768u32, l2_children(t, s))
    &&& !y.sites.contains_key(at + 1)
    &&& !y.sites.contains_key(at + 2)
    &&& !y.sites.contains_key(at + 3)
    &&& l2_ok(t, p, y, lo, hi, y.words[at], y.words[at + 1], y.words[at + 2], y.words[at + 3], n)
}

/// The words are the whole chunk: root node at word 0, its children behind.
pub open spec fn chunk_ok<P: BrickResidency>(t: ChunkTree, p: P, y: Layout) -> bool {
    let s = t.nodes();
    &&& 4 + 4 * s.items@.len() <= y.words.len()
    &&& y.sites.contains_key(0) && y.sites[0] == (2097152u32, root_children(t, s))
    &&& !y.sites.contains_key(1) && !y.sites.contains_key(2) && !y.sites.contains_key(3)
    &&& mask_ok(y.words[1], y.words[2], s.mask)
    &&& is_dominant(|m: MaterialId| chunk_tally(t, m), lod_material(y.words[3]))
    &&& y.words[0] == 4 + y.base
    &&& y.words[0] < 0x2000_0000
    &&& forall|k: int|
        0 <= k < s.items@.len() ==> l2_child_ok(
            t,
            p,
            y,
            4,
            y.words.len() as int,
            4 + 4 * k,
            #[trigger] s.items@[k],
        )
}

/// Nothing in `lo..hi` differs.
spec fn same_between(y: Layout, z: Layout, lo: int, hi: int) -> bool {
    &&& y.base == z.base
    &&& hi <= y.words.len()
    &&& hi <= z.words.len()
    &&& forall|k: int|
        lo <= k < hi ==> #[trigger] y.words[k] == z.words[k] && y.sites.contains_key(k)
            == z.sites.contains_key(k) && (y.sites.contains_key(k) ==> y.sites[k] == z.sites[k])
    &&& forall|e: (u32, u32)| #[trigger] y.leaves.contains(e) ==> z.leaves.contains(e)
}

proof fn lemma_l1_frame<P: BrickResidency>(
    t: ChunkTree,
    p: P,
    y: Layout,
    z: Layout,
    lo: int,
    hi: int,
    lo2: int,
    hi2: int,
    w0: u32,
    w1: u32,
    w2: u32,
    w3: u32,
    n: L1,
)
    requires
        l1_ok(t, p, y, lo, hi, w0, w1, w2, w3, n),
        same_between(y, z, lo, hi),
        lo2 <= lo,
        hi <= hi2,
    ensures
        l1_ok(t, p, z, lo2, hi2, w0, w1, w2, w3, n),
{
    if let L1::Cells(s) = n {
        let block = w0 - LEAF_PARENT - y.base;
        assert forall|k: int| 0 <= k < s.items@.len() implies leaf_ok(
            t,
            p,
            z.words[block + k],
            #[trigger] s.items@[k],
        ) && !z.sites.contains_key(block + k) && (s.items@[k] matches Cell::Brick(i)
            ==> z.leaves.contains(((block + k) as u32, i))) by {
            assert(y.words[block + k] == z.words[block + k]);
        }
    }
}

proof fn lemma_l1_child_frame<P: BrickResidency>(
    t: ChunkTree,
    p: P,
    y: Layout,
    z: Layout,
    lo: int,
    hi: int,
    lo2: int,
    hi2: int,
    at: int,
    n: L1,
)
    requires
        l1_child_ok(t, p, y, lo, hi, at, n),
        same_between(y, z, lo, hi),
        same_between(y, z, at, at + 4),
        lo2 <= lo,
        hi <= hi2,
    ensures
        l1_child_ok(t, p, z, lo2, hi2, at, n),
{
    assert(y.words[at] == z.words[at]);
    assert(y.words[at + 1] == z.words[at + 1]);
    assert(y.words[at + 2] == z.words[at + 2]);
    assert(y.words[at + 3] == z.words[at + 3]);
    lemma_l1_frame(
        t,
        p,
        y,
        z,
        lo,
        hi,
        lo2,
        hi2,
        y.words[at],
        y.words[at + 1],
        y.words[at + 2],
        y.words[at + 3],
        n,
    );
}

proof fn lemma_l2_frame<P: BrickResidency>(
    t: ChunkTree,
    p: P,
    y: Layout,
    z: Layout,
    lo: int,
    hi: int,
    lo2: int,
    hi2: int,
    w0: u32,
    w1: u32,
    w2: u32,
    w3: u32,
    n: L2,
)
    requires
        l2_ok(t, p, y, lo, hi, w0, w1, w2, w3, n),
        same_between(y, z, lo, hi),
        lo2 <= lo,
        hi <= hi2,
    ensures
        l2_ok(t, p, z, lo2, hi2, w0, w1, w2, w3, n),
{
    if let L2::Nodes(s) = n {
        let block = w0 - y.base;
        assert forall|k: int| 0 <= k < s.items@.len() implies l1_child_ok(
            t,
            p,
            z,
            lo2,
            hi2,
            block + 4 * k,
            #[trigger] s.items@[k],
        ) by {
            lemma_l1_child_frame(t, p, y, z, lo, hi, lo2, hi2, block + 4 * k, s.items@[k]);
        }
    }
}

proof fn lemma_l2_child_frame<P: BrickResidency>(
    t: ChunkTree,
    p: P,
    y: Layout,
    z: Layout,
    lo: int,
    hi: int,
    lo2: int,
    hi2: int,
    at: int,
    n: L2,
)
    requires
        l2_child_ok(t, p, y, lo, hi, at, n),
        same_between(y, z, lo, hi),
        same_between(y, z, at, at + 4),
        lo2 <= lo,
        hi <= hi2,
    ensures
        l2_child_ok(t, p, z, lo2, hi2, at, n),
{
    assert(y.words[at] == z.words[at]);
    assert(y.words[at + 1] == z.words[at + 1]);
    assert(y.words[at + 2] == z.words[at + 2]);
    assert(y.words[at + 3] == z.words[at + 3]);
    lemma_l2_frame(
        t,
        p,
        y,
        z,
        lo,
        hi,
        lo2,
        hi2,
        y.words[at],
        y.words[at + 1],
        y.words[at + 2],
        y.words[at + 3],
        n,
    );
}

/// Counts of the used palette entries are the voxel counts.
proof fn lemma_used(pal: Seq<MaterialId>, v: Seq<MaterialId>, m: MaterialId, n: int)
    requires
        0 <= n <= pal.len(),
        pal.no_duplicates(),
        v.len() == 512,
    ensures
        used_count(used(pal, v, n), m, used(pal, v, n).len() as int) == if exists|p: int|
            0 <= p < n && pal[p] == m {
            tally(v, m)
        } else {
            0
        },
    decreases n,
{
    if n > 0 {
        let rest = used(pal, v, n - 1);
        let all = used(pal, v, n);
        lemma_used(pal, v, m, n - 1);
        lemma_tally_bounds(v, pal[n - 1], 512);
        lemma_listed_prefix(rest, all, m, rest.len() as int);
        if pal[n - 1] == m {
            assert(forall|p: int| 0 <= p < n - 1 ==> pal[p] != m);
            assert(exists|p: int| 0 <= p < n && pal[p] == m);
        } else {
            if exists|p: int| 0 <= p < n - 1 && pal[p] == m {
                let p = choose|p: int| 0 <= p < n - 1 && pal[p] == m;
                assert(0 <= p < n && pal[p] == m);
            }
        }
    }
}

proof fn lemma_listed_prefix(
    s: Seq<(MaterialId, u16)>,
    t: Seq<(MaterialId, u16)>,
    m: MaterialId,
    n: int,
)
    requires
        0 <= n <= s.len() <= t.len(),
        forall|k: int| 0 <= k < s.len() ==> s[k] == t[k],
    ensures
        used_count(s, m, n) == used_count(t, m, n),
    decreases n,
{
    if n > 0 {
        lemma_listed_prefix(s, t, m, n - 1);
    }
}

/// What the first `n` used palette entries count for `m`.
spec fn used_count(s: Seq<(MaterialId, u16)>, m: MaterialId, n: int) -> nat
    decreases n,
{
    if n <= 0 {
        0
    } else {
        used_count(s, m, n - 1) + if s[n - 1].0 == m {
            s[n - 1].1 as nat
        } else {
            0
        }
    }
}

proof fn lemma_used_mono(s: Seq<(MaterialId, u16)>, m: MaterialId, n: int, k: int)
    requires
        0 <= n <= k <= s.len(),
    ensures
        used_count(s, m, n) <= used_count(s, m, k),
    decreases k - n,
{
    if n < k {
        lemma_used_mono(s, m, n, k - 1);
    }
}

/// A cell names a brick that the tree holds.
spec fn cell_held(t: ChunkTree, cell: Cell) -> bool {
    cell matches Cell::Brick(i) ==> i < t.slab().len() && t.slab()[i as int].wf()
        && t.slab()[i as int].mixed() && t.refers(i)
}

spec fn l1_held(t: ChunkTree, n: L1) -> bool {
    &&& n.wf()
    &&& n matches L1::Cells(s) ==> forall|k: int|
        0 <= k < s.items@.len() ==> cell_held(t, #[trigger] s.items@[k]) && s.items@[k]
            != Cell::Empty
}

spec fn l2_held(t: ChunkTree, n: L2) -> bool {
    &&& n.wf()
    &&& n matches L2::Nodes(s) ==> forall|k: int|
        0 <= k < s.items@.len() ==> l1_held(t, #[trigger] s.items@[k])
}

/// Every stored node of a tree names bricks that the tree holds.
proof fn lemma_held(t: ChunkTree)
    requires
        t.wf(),
    ensures
        t.nodes().wf(),
        t.nodes().items@.len() <= 64,
        forall|k: int| 0 <= k < t.nodes().items@.len() ==> l2_held(t, #[trigger] t.nodes().items@[k]),
{
    t.lemma_cells();
    lemma_ones_mono(t.nodes().mask, 0, 64);
    assert forall|k: int| 0 <= k < t.nodes().items@.len() implies l2_held(
        t,
        #[trigger] t.nodes().items@[k],
    ) by {
        let root = t.nodes();
        let n2 = root.items@[k];
        lemma_item_is_child(root, k);
        let a = select(root.mask, k);
        assert(root.at(a) == Some(n2));
        if let L2::Nodes(s) = n2 {
            assert forall|j: int| 0 <= j < s.items@.len() implies l1_held(
                t,
                #[trigger] s.items@[j],
            ) by {
                lemma_item_is_child(s, j);
                let m = select(s.mask, j);
                let n1 = s.items@[j];
                assert(s.at(m) == Some(n1));
                assert(n1.wf());
                if let L1::Cells(cells) = n1 {
                    assert forall|i: int| 0 <= i < cells.items@.len() implies cell_held(
                        t,
                        #[trigger] cells.items@[i],
                    ) && cells.items@[i] != Cell::Empty by {
                        lemma_item_is_child(cells, i);
                        let c = select(cells.mask, i);
                        assert(cells.at(c) == Some(cells.items@[i]));
                        assert(t.cell_at(a, m, c) == cells.items@[i]);
                        assert(children(a, m, c));
                    }
                }
            }
        }
    }
}

proof fn lemma_cell_bounds(t: ChunkTree, cell: Cell, m: MaterialId)
    requires
        cell_held(t, cell),
    ensures
        cell_tally(t, cell, m) <= 512,
        0 <= cell_cover(t, cell) <= 512,
{
    if let Cell::Brick(i) = cell {
        let b = t.slab()[i as int];
        b.lemma_shape();
        lemma_tally_bounds(b.voxels(), m, 512);
        lemma_tally_bounds(b.voxels(), air(), 512);
    }
}

proof fn lemma_cells_bounds(t: ChunkTree, s: Seq<Cell>, m: MaterialId, n: int)
    requires
        0 <= n <= s.len(),
        forall|k: int| 0 <= k < s.len() ==> cell_held(t, #[trigger] s[k]),
    ensures
        cells_tally(t, s, m, n) <= 512 * n,
        0 <= cells_cover(t, s, n) <= 512 * n,
    decreases n,
{
    if n > 0 {
        lemma_cells_bounds(t, s, m, n - 1);
        assert(cell_held(t, s[n - 1]));
        lemma_cell_bounds(t, s[n - 1], m);
    }
}

proof fn lemma_l1_bounds(t: ChunkTree, n: L1, m: MaterialId)
    requires
        l1_held(t, n),
    ensures
        l1_tally(t, n, m) <= 32768,
        0 <= l1_cover(t, n) <= 32768,
{
    if let L1::Cells(s) = n {
        lemma_ones_mono(s.mask, 0, 64);
        lemma_cells_bounds(t, s.items@, m, s.items@.len() as int);
    }
}

proof fn lemma_nodes_bounds(t: ChunkTree, s: Seq<L1>, m: MaterialId, n: int)
    requires
        0 <= n <= s.len(),
        forall|k: int| 0 <= k < s.len() ==> l1_held(t, #[trigger] s[k]),
    ensures
        nodes_tally(t, s, m, n) <= 32768 * n,
        0 <= nodes_cover(t, s, n) <= 32768 * n,
    decreases n,
{
    if n > 0 {
        lemma_nodes_bounds(t, s, m, n - 1);
        assert(l1_held(t, s[n - 1]));
        lemma_l1_bounds(t, s[n - 1], m);
    }
}

proof fn lemma_l2_bounds(t: ChunkTree, n: L2, m: MaterialId)
    requires
        l2_held(t, n),
    ensures
        l2_tally(t, n, m) <= 2097152,
        0 <= l2_cover(t, n) <= 2097152,
{
    if let L2::Nodes(s) = n {
        lemma_ones_mono(s.mask, 0, 64);
        lemma_nodes_bounds(t, s.items@, m, s.items@.len() as int);
    }
}

proof fn lemma_root_bounds(t: ChunkTree, s: Seq<L2>, m: MaterialId, n: int)
    requires
        0 <= n <= s.len(),
        forall|k: int| 0 <= k < s.len() ==> l2_held(t, #[trigger] s[k]),
    ensures
        root_tally(t, s, m, n) <= 2097152 * n,
    decreases n,
{
    if n > 0 {
        lemma_root_bounds(t, s, m, n - 1);
        assert(l2_held(t, s[n - 1]));
        lemma_l2_bounds(t, s[n - 1], m);
    }
}

/// A histogram counts what `f` says, air aside.
spec fn counts(h: Histogram, f: spec_fn(MaterialId) -> nat) -> bool {
    h.wf() && forall|m: MaterialId|
        #[trigger] h.count(m) == if m == air() {
            0
        } else {
            f(m)
        }
}

/// Covered voxels and histogram of a cell.
fn cell_summary(tree: &ChunkTree, cell: Cell) -> (r: (u32, Histogram))
    requires
        tree.wf(),
        cell_held(*tree, cell),
    ensures
        r.0 == cell_cover(*tree, cell),
        counts(r.1, |m: MaterialId| cell_tally(*tree, cell, m)),
{
    let mut h: Histogram = Histogram::new();
    match cell {
        Cell::Empty => (0, h),
        Cell::Uniform(m) => {
            h.add(m, 512);
            (512, h)
        },
        Cell::Brick(i) => {
            let b: &Brick = tree.brick(i);
            let list: Vec<(MaterialId, u16)> = b.materials();
            let ghost pal = b.palette();
            let ghost v = b.voxels();
            proof {
                b.lemma_shape();
                assert forall|m: MaterialId| #[trigger] used_count(
                    list@,
                    m,
                    list@.len() as int,
                ) == tally(v, m) by {
                    lemma_used(pal, v, m, pal.len() as int);
                    lemma_tally_bounds(v, m, 512);
                    if tally(v, m) > 0 {
                        let x = choose|x: int| 0 <= x < 512 && v[x] == m;
                        assert(pal[b.slot(x)] == m);
                    }
                }
            }
            let mut k: usize = 0;
            while k < list.len()
                invariant
                    k <= list@.len(),
                    v.len() == 512,
                    h.wf(),
                    forall|m: MaterialId|
                        #[trigger] used_count(list@, m, list@.len() as int) == tally(v, m),
                    forall|m: MaterialId|
                        #[trigger] h.count(m) == if m == air() {
                            0
                        } else {
                            used_count(list@, m, k as int)
                        },
                decreases list@.len() - k,
            {
                let (m, n) = list[k];
                let ghost before = h;
                proof {
                    lemma_used_mono(list@, m, k + 1, list@.len() as int);
                    lemma_tally_bounds(v, m, 512);
                    assert(used_count(list@, m, list@.len() as int) == tally(v, m));
                    assert(before.count(m) <= used_count(list@, m, k as int));
                }
                h.add(m, n as u32);
                proof {
                    assert forall|x: MaterialId| #[trigger] h.count(x) == if x == air() {
                        0
                    } else {
                        used_count(list@, x, k + 1)
                    } by {
                        assert(before.count(x) == if x == air() {
                            0
                        } else {
                            used_count(list@, x, k as int)
                        });
                    }
                }
                k += 1;
            }
            let c: u32 = b.solid_count();
            (c, h)
        },
    }
}

/// A node's four words, what it covers and its children, if it has a block.
struct NodeOut {
    w: [u32; 4],
    cover: u32,
    hist: Histogram,
    children: Option<Vec<(u32, u32)>>,
}

fn node_words(child_ptr: u32, flags: u32, mask: u64, material: MaterialId) -> (w: [u32; 4])
    requires
        child_ptr < 0x2000_0000,
        flags == 0 || flags == LEAF_PARENT,
    ensures
        w@.len() == 4,
        w@[0] == child_ptr + flags,
        mask_ok(w@[1], w@[2], mask),
        lod_material(w@[3]) == material,
        w@[3] < 65536,
{
    [
        child_ptr + flags,
        (mask % 0x1_0000_0000) as u32,
        (mask / 0x1_0000_0000) as u32,
        material.0 as u32,
    ]
}

fn uniform_node(material: MaterialId, voxels: u32) -> (r: NodeOut)
    ensures
        uniform_ok(r.w@[0], r.w@[1], r.w@[2], r.w@[3], material),
        r.w@.len() == 4,
        r.cover == voxels,
        r.children is None,
        counts(
            r.hist,
            |m: MaterialId|
                if material == m {
                    voxels as nat
                } else {
                    0
                },
        ),
{
    let mut hist: Histogram = Histogram::new();
    hist.add(material, voxels);
    let lod = Lod { material, u: 32, v: 32, spread: 15 };
    NodeOut {
        w: [UNIFORM_NODE + material.0 as u32, u32::MAX, u32::MAX, pack_lod(&lod)],
        cover: voxels,
        hist,
        children: None,
    }
}

/// Appends the cells of a 2 m node.
fn flatten_l1<P: BrickResidency>(
    tree: &ChunkTree,
    l1: &L1,
    words: &mut Vec<u32>,
    leaves: &mut Vec<(u32, u32)>,
    bricks: &P,
    Ghost(sites): Ghost<Map<int, SiteView>>,
) -> (r: NodeOut)
    requires
        tree.wf(),
        l1_held(*tree, *l1),
        old(words)@.len() <= 0x1000_0000,
        forall|k: int| k >= old(words)@.len() ==> !sites.contains_key(k),
        in_order(old(leaves)@, old(words)@.len() as int),
    ensures
        in_order(final(leaves)@, final(words)@.len() as int),
        slots_of(final(leaves)@) == slots_of(old(leaves)@) + l1_slots(*l1),
        old(words)@.len() <= final(words)@.len() <= old(words)@.len() + 64,
        forall|k: int| 0 <= k < old(words)@.len() ==> #[trigger] final(words)@[k] == old(words)@[k],
        forall|e: (u32, u32)| #[trigger] old(leaves)@.contains(e) ==> final(leaves)@.contains(e),
        forall|e: (u32, u32)|
            #[trigger] final(leaves)@.contains(e) ==> old(leaves)@.contains(e) || (e.0 >= old(
                words,
            )@.len() && listed_leaf(*tree, *bricks, final(words)@, e)),
        r.w@.len() == 4,
        l1_ok(
            *tree,
            *bricks,
            Layout { words: final(words)@, sites, leaves: final(leaves)@, base: 0 },
            old(words)@.len() as int,
            final(words)@.len() as int,
            r.w@[0],
            r.w@[1],
            r.w@[2],
            r.w@[3],
            *l1,
        ),
        r.cover == l1_cover(*tree, *l1),
        counts(r.hist, |m: MaterialId| l1_tally(*tree, *l1, m)),
        match *l1 {
            L1::Uniform(_) => r.children is None,
            L1::Cells(s) => r.children matches Some(c) && c@ == l1_children(*tree, s),
        },
{
    let cells: &Sparse64<Cell> = match l1 {
        L1::Uniform(m) => {
            assert(slots_of(leaves@) + l1_slots(*l1) =~= slots_of(leaves@));
            return uniform_node(*m, 32768);
        },
        L1::Cells(cells) => cells,
    };
    let block: usize = words.len();
    let ghost items = cells.items@;
    let pairs: Vec<(u32, &Cell)> = cells.iter();
    let mut hist: Histogram = Histogram::new();
    let mut cover: u32 = 0;
    let mut children: Vec<(u32, u32)> = Vec::new();
    proof {
        lemma_ones_mono(cells.mask, 0, 64);
    }
    let mut k: usize = 0;
    assert(slots_of(leaves@) =~= slots_of(leaves@) + cell_slots(items, 0));
    while k < pairs.len()
        invariant
            tree.wf(),
            cells.wf(),
            items == cells.items@,
            items.len() <= 64,
            pairs@.len() == items.len(),
            k <= pairs@.len(),
            block == old(words)@.len(),
            block <= 0x1000_0000,
            words@.len() == block + k,
            forall|j: int|
                0 <= j < pairs@.len() ==> (#[trigger] pairs@[j]).0 == select(cells.mask, j)
                    && *pairs@[j].1 == items[j],
            forall|j: int|
                0 <= j < items.len() ==> cell_held(*tree, #[trigger] items[j]) && items[j]
                    != Cell::Empty,
            forall|j: int| 0 <= j < block ==> #[trigger] words@[j] == old(words)@[j],
            in_order(leaves@, words@.len() as int),
            slots_of(leaves@) == slots_of(old(leaves)@) + cell_slots(items, k as int),
            forall|e: (u32, u32)| #[trigger] old(leaves)@.contains(e) ==> leaves@.contains(e),
            forall|e: (u32, u32)|
                #[trigger] leaves@.contains(e) ==> old(leaves)@.contains(e) || (e.0 >= block
                    && listed_leaf(*tree, *bricks, words@, e)),
            forall|j: int|
                0 <= j < k ==> leaf_ok(*tree, *bricks, words@[block + j], #[trigger] items[j]) && (
                items[j] matches Cell::Brick(i) ==> leaves@.contains(((block + j) as u32, i))),
            hist.wf(),
            forall|m: MaterialId|
                #[trigger] hist.count(m) == if m == air() {
                    0
                } else {
                    cells_tally(*tree, items, m, k as int)
                },
            cover == cells_cover(*tree, items, k as int),
            cover <= 512 * k,
            children@.len() == k,
            forall|j: int|
                0 <= j < k ==> #[trigger] children@[j] == (select(cells.mask, j) as u32, cell_cover(
                    *tree,
                    items[j],
                ) as u32),
        decreases pairs@.len() - k,
    {
        let (i, cell_ref) = pairs[k];
        let cell: Cell = *cell_ref;
        let ghost before_words = words@;
        let ghost before_leaves = leaves@;
        let ghost before_hist = hist;
        assert(cell == items[k as int]);
        assert(cell_held(*tree, items[k as int]));
        let word: u32 = match cell {
            Cell::Empty => 0,
            Cell::Uniform(m) => UNIFORM + m.0 as u32,
            Cell::Brick(slot) => {
                leaves.push((words.len() as u32, slot));
                match bricks.brick_offset(slot) {
                    Some((offset, wide)) => offset | (if wide {
                        WIDE
                    } else {
                        0
                    }),
                    None => {
                        let b: &Brick = tree.brick(slot);
                        proof {
                            b.lemma_shape();
                        }
                        match b.dominant() {
                            Some((m, _)) => {
                                assert(tree.slab()[slot as int].dominated_by(m));
                                NOT_RESIDENT + m.0 as u32
                            },
                            None => {
                                assert(false);
                                NOT_RESIDENT
                            },
                        }
                    },
                }
            },
        };
        words.push(word);
        let (c, h) = cell_summary(tree, cell);
        proof {
            assert forall|m: MaterialId| #[trigger] hist.count(m) + h.count(m) <= u32::MAX by {
                lemma_cells_bounds(*tree, items, m, k as int);
                lemma_cell_bounds(*tree, cell, m);
            }
            lemma_cell_bounds(*tree, cell, air());
        }
        hist.merge(&h);
        cover += c;
        children.push((i, c));
        k += 1;
        proof {
            let listed_before = slots_of(old(leaves)@) + cell_slots(items, k - 1);
            assert(slots_of(before_leaves) == listed_before);
            if let Cell::Brick(slot) = cell {
                assert(slots_of(leaves@) =~= slots_of(before_leaves).push(slot));
                lemma_in_order_push(before_leaves, before_words.len() as u32, slot);
                assert(listed_before.push(slot) =~= slots_of(old(leaves)@) + cell_slots(
                    items,
                    k as int,
                ));
            } else {
                assert(leaves@ == before_leaves);
                lemma_in_order_later(
                    leaves@,
                    before_words.len() as int,
                    words@.len() as int,
                );
            }
            let f = |m: MaterialId| cell_tally(*tree, cell, m);
            assert forall|m: MaterialId| #[trigger] hist.count(m) == if m == air() {
                0
            } else {
                cells_tally(*tree, items, m, k as int)
            } by {
                assert(hist.count(m) == before_hist.count(m) + h.count(m));
                assert(h.count(m) == if m == air() {
                    0
                } else {
                    f(m)
                });
            }
            assert forall|e: (u32, u32)| #[trigger] before_leaves.contains(
                e,
            ) implies leaves@.contains(e) by {
                let x = choose|x: int| 0 <= x < before_leaves.len() && before_leaves[x] == e;
                assert(leaves@[x] == e);
            }
            assert forall|e: (u32, u32)| #[trigger] leaves@.contains(e) implies old(
                leaves,
            )@.contains(e) || (e.0 >= block && listed_leaf(*tree, *bricks, words@, e)) by {
                let x = choose|x: int| 0 <= x < leaves@.len() && leaves@[x] == e;
                if x < before_leaves.len() {
                    assert(before_leaves[x] == e);
                    assert(before_leaves.contains(e));
                    if !old(leaves)@.contains(e) {
                        assert(before_words[e.0 as int] == words@[e.0 as int]);
                    }
                } else {
                    assert(words@[e.0 as int] == word);
                }
            }
            assert forall|j: int| 0 <= j < k implies leaf_ok(
                *tree,
                *bricks,
                words@[block + j],
                #[trigger] items[j],
            ) && (items[j] matches Cell::Brick(i) ==> leaves@.contains(((block + j) as u32, i))) by {
                if j < k - 1 {
                    assert(words@[block + j] == before_words[block + j]);
                } else if let Cell::Brick(s) = cell {
                    let n = before_leaves.len() as int;
                    assert(leaves@[n] == ((block + j) as u32, s));
                }
            }
        }
    }
    let material: MaterialId = hist.dominant();
    let w: [u32; 4] = node_words(block as u32, LEAF_PARENT, cells.mask, material);
    proof {
        let n = *l1;
        let f = |m: MaterialId| hist.count(m);
        let g = |m: MaterialId| l1_tally(*tree, n, m);
        assert forall|m: MaterialId| m != air() implies #[trigger] g(m) == f(m) by {
            assert(hist.count(m) == cells_tally(*tree, items, m, items.len() as int));
        }
        lemma_dominant_same(f, g, material);
        assert(children@ =~= l1_children(*tree, *cells));
    }
    NodeOut { w, cover, hist, children: Some(children) }
}

/// Which material dominates depends on the counts alone.
proof fn lemma_dominant_same(
    f: spec_fn(MaterialId) -> nat,
    g: spec_fn(MaterialId) -> nat,
    r: MaterialId,
)
    requires
        is_dominant(f, r),
        forall|m: MaterialId| m != air() ==> #[trigger] g(m) == f(m),
    ensures
        is_dominant(g, r),
{
    if r != air() {
        assert(g(r) == f(r));
        assert forall|x: MaterialId| x != air() implies #[trigger] g(x) < g(r) || (g(x) == g(r)
            && x.0 >= r.0) by {
            assert(g(x) == f(x));
        }
    } else {
        assert forall|x: MaterialId| x != air() implies #[trigger] g(x) == 0 by {
            assert(g(x) == f(x));
        }
    }
}

/// The words that `e` lists are the leaf word of a brick in use.
pub open spec fn listed_leaf<P: BrickResidency>(
    t: ChunkTree,
    p: P,
    words: Seq<u32>,
    e: (u32, u32),
) -> bool {
    e.0 < words.len() && t.refers(e.1) && leaf_ok(t, p, words[e.0 as int], Cell::Brick(e.1))
}

proof fn lemma_site_push(v: Seq<Site>, s: Site)
    ensures
        site_map(v.push(s), v.len() as int + 1) == site_map(v, v.len() as int).insert(
            s.node as int,
            (s.child_voxels, s.children@),
        ),
{
    lemma_site_prefix(v, v.push(s), v.len() as int);
}

proof fn lemma_site_prefix(v: Seq<Site>, w: Seq<Site>, n: int)
    requires
        0 <= n <= v.len() <= w.len(),
        forall|k: int| 0 <= k < n ==> v[k] == w[k],
    ensures
        site_map(v, n) == site_map(w, n),
    decreases n,
{
    if n > 0 {
        lemma_site_prefix(v, w, n - 1);
    }
}

proof fn lemma_site_key(v: Seq<Site>, k: int, n: int)
    requires
        0 <= k < n <= v.len(),
    ensures
        site_map(v, n).contains_key(v[k].node as int),
    decreases n,
{
    if k < n - 1 {
        lemma_site_key(v, k, n - 1);
    }
}

/// No node has two sites.
pub open spec fn sites_apart(v: Seq<Site>) -> bool {
    forall|i: int, j: int| 0 <= i < j < v.len() ==> (#[trigger] v[i]).node != (#[trigger] v[j]).node
}

/// Every site's node lies in the first `n` words.
pub open spec fn sites_in(v: Seq<Site>, n: int) -> bool {
    forall|i: int| 0 <= i < v.len() ==> (#[trigger] v[i]).node + 4 <= n
}

/// A child pointer into `n` words, on its own or with the leaf-parent flag.
pub open spec fn ptr_ok(w: u32, n: int) -> bool {
    w <= n || 0 <= w - LEAF_PARENT <= n
}

/// Every site's node points into the words.
pub open spec fn ptrs_ok(v: Seq<Site>, words: Seq<u32>) -> bool {
    forall|i: int|
        0 <= i < v.len() ==> ptr_ok(words[(#[trigger] v[i]).node as int], words.len() as int)
}

/// All sites of a list, by node.
pub open spec fn all_sites(v: Seq<Site>) -> Map<int, SiteView> {
    site_map(v, v.len() as int)
}

/// Puts a node's words in its place and lists its site.
fn place(
    at: usize,
    out: &NodeOut,
    child_voxels: u32,
    words: &mut Vec<u32>,
    sites: &mut Vec<Site>,
    children: Option<Vec<(u32, u32)>>,
)
    requires
        at + 4 <= old(words)@.len() <= 0x1000_0000,
        out.w@.len() == 4,
        sites_apart(old(sites)@),
        sites_in(old(sites)@, old(words)@.len() as int),
        ptrs_ok(old(sites)@, old(words)@),
        children is Some ==> ptr_ok(out.w@[0], old(words)@.len() as int),
        forall|k: int| at <= k < at + 4 ==> !(#[trigger] all_sites(old(sites)@).contains_key(k)),
    ensures
        final(words)@.len() == old(words)@.len(),
        forall|k: int|
            0 <= k < old(words)@.len() ==> #[trigger] final(words)@[k] == if at <= k < at + 4 {
                out.w@[k - at]
            } else {
                old(words)@[k]
            },
        sites_apart(final(sites)@),
        sites_in(final(sites)@, final(words)@.len() as int),
        ptrs_ok(final(sites)@, final(words)@),
        all_sites(final(sites)@) == match children {
            Some(c) => all_sites(old(sites)@).insert(at as int, (child_voxels, c@)),
            None => all_sites(old(sites)@),
        },
{
    proof {
        assert forall|i: int| 0 <= i < sites@.len() implies !(at <= (#[trigger] sites@[i]).node < at
            + 4) by {
            lemma_site_key(sites@, i, sites@.len() as int);
            assert(all_sites(sites@).contains_key(sites@[i].node as int));
        }
    }
    words[at] = out.w[0];
    words[at + 1] = out.w[1];
    words[at + 2] = out.w[2];
    words[at + 3] = out.w[3];
    if let Some(c) = children {
        let site = Site { node: at as u32, child_voxels, children: c };
        proof {
            lemma_site_push(old(sites)@, site);
            assert forall|i: int| 0 <= i < old(sites)@.len() implies (#[trigger] old(
                sites,
            )@[i]).node != at by {
                lemma_site_key(old(sites)@, i, old(sites)@.len() as int);
            }
        }
        sites.push(site);
    }
}

/// Appends `n` zero words.
fn reserve(words: &mut Vec<u32>, n: usize)
    requires
        old(words)@.len() + n <= usize::MAX,
    ensures
        final(words)@.len() == old(words)@.len() + n,
        forall|k: int| 0 <= k < old(words)@.len() ==> #[trigger] final(words)@[k] == old(words)@[k],
{
    let mut k: usize = 0;
    while k < n
        invariant
            k <= n,
            words@.len() == old(words)@.len() + k,
            forall|q: int| 0 <= q < old(words)@.len() ==> #[trigger] words@[q] == old(words)@[q],
        decreases n - k,
    {
        words.push(0);
        k += 1;
    }
}

/// Appends the nodes of an 8 m node and their cells.
#[verifier::rlimit(40)]
fn flatten_l2<P: BrickResidency>(
    tree: &ChunkTree,
    l2: &L2,
    words: &mut Vec<u32>,
    leaves: &mut Vec<(u32, u32)>,
    sites: &mut Vec<Site>,
    bricks: &P,
) -> (r: NodeOut)
    requires
        tree.wf(),
        l2_held(*tree, *l2),
        old(words)@.len() <= 0x100_0000,
        sites_apart(old(sites)@),
        sites_in(old(sites)@, old(words)@.len() as int),
        ptrs_ok(old(sites)@, old(words)@),
        in_order(old(leaves)@, old(words)@.len() as int),
        forall|k: int| k >= old(words)@.len() ==> !all_sites(old(sites)@).contains_key(k),
    ensures
        in_order(final(leaves)@, final(words)@.len() as int),
        slots_of(final(leaves)@) == slots_of(old(leaves)@) + l2_slots(*l2),
        old(words)@.len() <= final(words)@.len() <= old(words)@.len() + 4352,
        forall|k: int| 0 <= k < old(words)@.len() ==> #[trigger] final(words)@[k] == old(words)@[k],
        forall|e: (u32, u32)| #[trigger] old(leaves)@.contains(e) ==> final(leaves)@.contains(e),
        forall|e: (u32, u32)|
            #[trigger] final(leaves)@.contains(e) ==> old(leaves)@.contains(e) || (e.0 >= old(
                words,
            )@.len() && listed_leaf(*tree, *bricks, final(words)@, e)),
        r.w@.len() == 4,
        sites_apart(final(sites)@),
        sites_in(final(sites)@, final(words)@.len() as int),
        ptrs_ok(final(sites)@, final(words)@),
        forall|k: int|
            k < old(words)@.len() ==> #[trigger] all_sites(final(sites)@).contains_key(k)
                == all_sites(old(sites)@).contains_key(k) && all_sites(final(sites)@)[k]
                == all_sites(old(sites)@)[k],
        forall|k: int| k >= final(words)@.len() ==> !all_sites(final(sites)@).contains_key(k),
        l2_ok(
            *tree,
            *bricks,
            Layout {
                words: final(words)@,
                sites: all_sites(final(sites)@),
                leaves: final(leaves)@,
                base: 0,
            },
            old(words)@.len() as int,
            final(words)@.len() as int,
            r.w@[0],
            r.w@[1],
            r.w@[2],
            r.w@[3],
            *l2,
        ),
        r.cover == l2_cover(*tree, *l2),
        counts(r.hist, |m: MaterialId| l2_tally(*tree, *l2, m)),
        match *l2 {
            L2::Uniform(_) => r.children is None,
            L2::Nodes(s) => r.children matches Some(c) && c@ == l2_children(*tree, s),
        },
{
    let nodes: &Sparse64<L1> = match l2 {
        L2::Uniform(m) => {
            assert(slots_of(leaves@) + l2_slots(*l2) =~= slots_of(leaves@));
            return uniform_node(*m, 2097152);
        },
        L2::Nodes(nodes) => nodes,
    };
    let block: usize = words.len();
    let ghost items = nodes.items@;
    let pairs: Vec<(u32, &L1)> = nodes.iter();
    let count: usize = pairs.len();
    proof {
        lemma_ones_mono(nodes.mask, 0, 64);
    }
    reserve(words, count * NODE_WORDS);
    let ghost body = block + 4 * count;
    let mut hist: Histogram = Histogram::new();
    let mut cover: u32 = 0;
    let mut children: Vec<(u32, u32)> = Vec::new();
    let mut k: usize = 0;
    proof {
        lemma_in_order_later(leaves@, block as int, words@.len() as int);
        assert(slots_of(leaves@) =~= slots_of(leaves@) + node_slots(items, 0));
    }
    while k < count
        invariant
            tree.wf(),
            nodes.wf(),
            items == nodes.items@,
            items.len() <= 64,
            pairs@.len() == items.len(),
            count == pairs@.len(),
            k <= count,
            block == old(words)@.len(),
            block <= 0x100_0000,
            body == block + 4 * count,
            body <= words@.len() <= body + 64 * k,
            forall|j: int|
                0 <= j < pairs@.len() ==> (#[trigger] pairs@[j]).0 == select(nodes.mask, j)
                    && *pairs@[j].1 == items[j],
            forall|j: int| 0 <= j < items.len() ==> l1_held(*tree, #[trigger] items[j]),
            forall|j: int| 0 <= j < block ==> #[trigger] words@[j] == old(words)@[j],
            in_order(leaves@, words@.len() as int),
            slots_of(leaves@) == slots_of(old(leaves)@) + node_slots(items, k as int),
            forall|e: (u32, u32)| #[trigger] old(leaves)@.contains(e) ==> leaves@.contains(e),
            forall|e: (u32, u32)|
                #[trigger] leaves@.contains(e) ==> old(leaves)@.contains(e) || (e.0 >= body
                    && listed_leaf(*tree, *bricks, words@, e)),
            sites_apart(sites@),
            sites_in(sites@, words@.len() as int),
            ptrs_ok(sites@, words@),
            forall|q: int|
                q < block ==> #[trigger] all_sites(sites@).contains_key(q) == all_sites(
                    old(sites)@,
                ).contains_key(q) && all_sites(sites@)[q] == all_sites(old(sites)@)[q],
            forall|q: int|
                block + 4 * k <= q < body || q >= words@.len() ==> !(#[trigger] all_sites(
                    sites@,
                ).contains_key(q)),
            forall|q: int| body <= q ==> !(#[trigger] all_sites(sites@).contains_key(q)),
            forall|j: int|
                0 <= j < k ==> l1_child_ok(
                    *tree,
                    *bricks,
                    Layout { words: words@, sites: all_sites(sites@), leaves: leaves@, base: 0 },
                    body,
                    words@.len() as int,
                    block + 4 * j,
                    #[trigger] items[j],
                ),
            hist.wf(),
            forall|m: MaterialId|
                #[trigger] hist.count(m) == if m == air() {
                    0
                } else {
                    nodes_tally(*tree, items, m, k as int)
                },
            cover == nodes_cover(*tree, items, k as int),
            cover <= 32768 * k,
            children@.len() == k,
            forall|j: int|
                0 <= j < k ==> #[trigger] children@[j] == (select(nodes.mask, j) as u32, l1_cover(
                    *tree,
                    items[j],
                ) as u32),
        decreases count - k,
    {
        let (i, l1) = pairs[k];
        let ghost words0 = words@;
        let ghost leaves0 = leaves@;
        let ghost sites0 = all_sites(sites@);
        let ghost hist0 = hist;
        let ghost y0 = Layout { words: words0, sites: sites0, leaves: leaves0, base: 0 };
        assert(*l1 == items[k as int]);
        assert(l1_held(*tree, items[k as int]));
        let mut out: NodeOut = flatten_l1(tree, l1, words, leaves, bricks, Ghost(sites0));
        let ghost words1 = words@;
        let ghost y1 = Layout { words: words1, sites: sites0, leaves: leaves@, base: 0 };
        let at: usize = block + k * NODE_WORDS;
        let mut kids: Option<Vec<(u32, u32)>> = None;
        std::mem::swap(&mut kids, &mut out.children);
        place(at, &out, 512, words, sites, kids);
        let ghost y2 = Layout {
            words: words@,
            sites: all_sites(sites@),
            leaves: leaves@,
            base: 0,
        };
        proof {
            let lo = words0.len() as int;
            let hi = words1.len() as int;
            assert forall|e: (u32, u32)| #[trigger] leaves@.contains(e) implies old(
                leaves,
            )@.contains(e) || (e.0 >= body && listed_leaf(*tree, *bricks, words@, e)) by {
                if leaves0.contains(e) && !old(leaves)@.contains(e) {
                    assert(words0[e.0 as int] == words1[e.0 as int]);
                }
            }
            assert forall|q: int| q < block implies #[trigger] all_sites(sites@).contains_key(q)
                == all_sites(old(sites)@).contains_key(q) && all_sites(sites@)[q] == all_sites(
                old(sites)@,
            )[q] by {
                assert(sites0.contains_key(q) == all_sites(old(sites)@).contains_key(q));
            }
            assert(same_between(y1, y2, lo, hi));
            lemma_l1_frame(
                *tree,
                *bricks,
                y1,
                y2,
                lo,
                hi,
                body,
                hi,
                out.w@[0],
                out.w@[1],
                out.w@[2],
                out.w@[3],
                *l1,
            );
            assert(l1_child_ok(*tree, *bricks, y2, body, hi, at as int, *l1)) by {
                assert(y2.words[at as int] == out.w@[0]);
                assert(y2.words[at + 1] == out.w@[1]);
                assert(y2.words[at + 2] == out.w@[2]);
                assert(y2.words[at + 3] == out.w@[3]);
                assert(!sites0.contains_key(at + 1));
                assert(!sites0.contains_key(at + 2));
                assert(!sites0.contains_key(at + 3));
            }
            assert forall|j: int| 0 <= j < k + 1 implies l1_child_ok(
                *tree,
                *bricks,
                y2,
                body,
                hi,
                block + 4 * j,
                #[trigger] items[j],
            ) by {
                if j < k {
                    let p = block + 4 * j;
                    assert(same_between(y0, y2, body, lo));
                    assert(same_between(y0, y2, p, p + 4));
                    lemma_l1_child_frame(*tree, *bricks, y0, y2, body, lo, body, hi, p, items[j]);
                }
            }
            assert forall|m: MaterialId| #[trigger] hist.count(m) + out.hist.count(m)
                <= u32::MAX by {
                lemma_nodes_bounds(*tree, items, m, k as int);
                lemma_l1_bounds(*tree, *l1, m);
                let f = |m: MaterialId| l1_tally(*tree, *l1, m);
                assert(out.hist.count(m) == if m == air() {
                    0
                } else {
                    f(m)
                });
            }
            lemma_l1_bounds(*tree, *l1, air());
        }
        hist.merge(&out.hist);
        cover += out.cover;
        children.push((i, out.cover));
        k += 1;
        proof {
            assert(slots_of(leaves@) =~= slots_of(old(leaves)@) + node_slots(items, k as int));
            let f = |m: MaterialId| l1_tally(*tree, *l1, m);
            assert forall|m: MaterialId| #[trigger] hist.count(m) == if m == air() {
                0
            } else {
                nodes_tally(*tree, items, m, k as int)
            } by {
                assert(hist.count(m) == hist0.count(m) + out.hist.count(m));
                assert(out.hist.count(m) == if m == air() {
                    0
                } else {
                    f(m)
                });
            }
        }
    }
    let material: MaterialId = hist.dominant();
    let w: [u32; 4] = node_words(block as u32, 0, nodes.mask, material);
    proof {
        let n = *l2;
        let f = |m: MaterialId| hist.count(m);
        let g = |m: MaterialId| l2_tally(*tree, n, m);
        assert forall|m: MaterialId| m != air() implies #[trigger] g(m) == f(m) by {
            assert(hist.count(m) == nodes_tally(*tree, items, m, items.len() as int));
        }
        lemma_dominant_same(f, g, material);
        assert(children@ =~= l2_children(*tree, *nodes));
        let y = Layout { words: words@, sites: all_sites(sites@), leaves: leaves@, base: 0 };
        let hi = words@.len() as int;
        assert forall|j: int| 0 <= j < items.len() implies l1_child_ok(
            *tree,
            *bricks,
            y,
            block as int,
            hi,
            block + 4 * j,
            #[trigger] items[j],
        ) by {
            assert(same_between(y, y, body, hi));
            assert(same_between(y, y, block + 4 * j, block + 4 * j + 4));
            lemma_l1_child_frame(
                *tree,
                *bricks,
                y,
                y,
                body,
                hi,
                block as int,
                hi,
                block + 4 * j,
                items[j],
            );
        }
    }
    NodeOut { w, cover, hist, children: Some(children) }
}

impl FlatChunk {
    /// The flattened words, with child pointers that count from `base`.
    pub open spec fn layout(&self, base: int) -> Layout {
        Layout {
            words: self.words@,
            sites: all_sites(self.sites@),
            leaves: self.brick_leaves@,
            base,
        }
    }

    /// Every site is a node of its own.
    pub open spec fn wf(&self) -> bool {
        &&& sites_apart(self.sites@)
        &&& sites_in(self.sites@, self.words@.len() as int)
        &&& self.words@.len() <= 0x1000_0000
    }
}

/// Flattens a chunk: root node at word 0, then each level's child blocks.
#[verifier::rlimit(40)]
pub fn flatten_chunk<P: BrickResidency>(tree: &ChunkTree, bricks: &P) -> (r: FlatChunk)
    requires
        tree.wf(),
    ensures
        r.wf(),
        ptrs_ok(r.sites@, r.words@),
        chunk_ok(*tree, *bricks, r.layout(0)),
        r.words@.len() <= 278788,
        is_dominant(|m: MaterialId| chunk_tally(*tree, m), r.material),
        forall|e: (u32, u32)|
            #[trigger] r.brick_leaves@.contains(e) ==> listed_leaf(*tree, *bricks, r.words@, e),
        in_order(r.brick_leaves@, r.words@.len() as int),
        slots_of(r.brick_leaves@) == brick_slots(listed(tree.nodes(), 64)),
        r.brick_leaves@.no_duplicates(),
        r.brick_leaves@.len() == tree.live().len(),
{
    let mut words: Vec<u32> = Vec::new();
    let mut leaves: Vec<(u32, u32)> = Vec::new();
    let mut sites: Vec<Site> = Vec::new();
    let root: &Sparse64<L2> = tree.root();
    let ghost items = root.items@;
    proof {
        lemma_held(*tree);
    }
    let pairs: Vec<(u32, &L2)> = root.iter();
    let count: usize = pairs.len();
    reserve(&mut words, NODE_WORDS + count * NODE_WORDS);
    let ghost body = 4 + 4 * count as int;
    let mut hist: Histogram = Histogram::new();
    let mut children: Vec<(u32, u32)> = Vec::new();
    let mut k: usize = 0;
    proof {
        lemma_none_in_order(words@.len() as int);
        assert(leaves@ =~= Seq::empty());
        assert(slots_of(leaves@) =~= root_slots(items, 0));
    }
    while k < count
        invariant
            tree.wf(),
            root.wf(),
            items == root.items@,
            items.len() <= 64,
            pairs@.len() == items.len(),
            count == pairs@.len(),
            k <= count,
            body == 4 + 4 * count,
            body <= words@.len() <= body + 4352 * k,
            forall|j: int|
                0 <= j < pairs@.len() ==> (#[trigger] pairs@[j]).0 == select(root.mask, j)
                    && *pairs@[j].1 == items[j],
            forall|j: int| 0 <= j < items.len() ==> l2_held(*tree, #[trigger] items[j]),
            in_order(leaves@, words@.len() as int),
            slots_of(leaves@) == root_slots(items, k as int),
            forall|e: (u32, u32)|
                #[trigger] leaves@.contains(e) ==> e.0 >= body && listed_leaf(
                    *tree,
                    *bricks,
                    words@,
                    e,
                ),
            sites_apart(sites@),
            sites_in(sites@, words@.len() as int),
            ptrs_ok(sites@, words@),
            forall|q: int|
                q < 4 || 4 + 4 * k <= q < body || q >= words@.len() ==> !(#[trigger] all_sites(
                    sites@,
                ).contains_key(q)),
            forall|j: int|
                0 <= j < k ==> l2_child_ok(
                    *tree,
                    *bricks,
                    Layout { words: words@, sites: all_sites(sites@), leaves: leaves@, base: 0 },
                    body,
                    words@.len() as int,
                    4 + 4 * j,
                    #[trigger] items[j],
                ),
            hist.wf(),
            forall|m: MaterialId|
                #[trigger] hist.count(m) == if m == air() {
                    0
                } else {
                    root_tally(*tree, items, m, k as int)
                },
            children@.len() == k,
            forall|j: int|
                0 <= j < k ==> #[trigger] children@[j] == (select(root.mask, j) as u32, l2_cover(
                    *tree,
                    items[j],
                ) as u32),
        decreases count - k,
    {
        let (i, l2) = pairs[k];
        let ghost words0 = words@;
        let ghost leaves0 = leaves@;
        let ghost sites0 = all_sites(sites@);
        let ghost hist0 = hist;
        let ghost y0 = Layout { words: words0, sites: sites0, leaves: leaves0, base: 0 };
        assert(*l2 == items[k as int]);
        assert(l2_held(*tree, items[k as int]));
        let mut out: NodeOut = flatten_l2(tree, l2, &mut words, &mut leaves, &mut sites, bricks);
        let ghost words1 = words@;
        let ghost sites1 = all_sites(sites@);
        let ghost y1 = Layout { words: words1, sites: sites1, leaves: leaves@, base: 0 };
        let at: usize = NODE_WORDS + k * NODE_WORDS;
        let mut kids: Option<Vec<(u32, u32)>> = None;
        std::mem::swap(&mut kids, &mut out.children);
        assert forall|q: int| at <= q < at + 4 implies !(#[trigger] sites1.contains_key(q)) by {
            assert(!sites0.contains_key(q));
        }
        place(at, &out, 32768, &mut words, &mut sites, kids);
        let ghost y2 = Layout {
            words: words@,
            sites: all_sites(sites@),
            leaves: leaves@,
            base: 0,
        };
        proof {
            let lo = words0.len() as int;
            let hi = words1.len() as int;
            assert forall|e: (u32, u32)| #[trigger] leaves@.contains(e) implies e.0 >= body
                && listed_leaf(*tree, *bricks, words@, e) by {
                if leaves0.contains(e) {
                    assert(words0[e.0 as int] == words1[e.0 as int]);
                }
            }
            assert(same_between(y1, y2, lo, hi));
            lemma_l2_frame(
                *tree,
                *bricks,
                y1,
                y2,
                lo,
                hi,
                body,
                hi,
                out.w@[0],
                out.w@[1],
                out.w@[2],
                out.w@[3],
                *l2,
            );
            assert(l2_child_ok(*tree, *bricks, y2, body, hi, at as int, *l2)) by {
                assert(y2.words[at as int] == out.w@[0]);
                assert(y2.words[at + 1] == out.w@[1]);
                assert(y2.words[at + 2] == out.w@[2]);
                assert(y2.words[at + 3] == out.w@[3]);
                assert(!sites0.contains_key(at + 1) && !sites1.contains_key(at + 1));
                assert(!sites0.contains_key(at + 2) && !sites1.contains_key(at + 2));
                assert(!sites0.contains_key(at + 3) && !sites1.contains_key(at + 3));
            }
            assert forall|q: int| q < lo && q != at implies #[trigger] y2.sites.contains_key(q)
                == sites0.contains_key(q) && (sites0.contains_key(q) ==> y2.sites[q]
                == sites0[q]) by {
                assert(sites1.contains_key(q) == sites0.contains_key(q));
            }
            assert forall|j: int| 0 <= j < k + 1 implies l2_child_ok(
                *tree,
                *bricks,
                y2,
                body,
                hi,
                4 + 4 * j,
                #[trigger] items[j],
            ) by {
                if j < k {
                    let p = 4 + 4 * j;
                    assert(same_between(y0, y2, body, lo)) by {
                        assert forall|q: int| body <= q < lo implies #[trigger] y0.words[q]
                            == y2.words[q] && y0.sites.contains_key(q) == y2.sites.contains_key(q)
                            && (y0.sites.contains_key(q) ==> y0.sites[q] == y2.sites[q]) by {
                            assert(y2.sites.contains_key(q) == sites0.contains_key(q));
                        }
                    }
                    assert(same_between(y0, y2, p, p + 4)) by {
                        assert forall|q: int| p <= q < p + 4 implies #[trigger] y0.words[q]
                            == y2.words[q] && y0.sites.contains_key(q) == y2.sites.contains_key(q)
                            && (y0.sites.contains_key(q) ==> y0.sites[q] == y2.sites[q]) by {
                            assert(y2.sites.contains_key(q) == sites0.contains_key(q));
                        }
                    }
                    lemma_l2_child_frame(*tree, *bricks, y0, y2, body, lo, body, hi, p, items[j]);
                }
            }
            assert forall|q: int| q < 4 || 4 + 4 * (k + 1) <= q < body || q >= hi implies !(
            #[trigger] y2.sites.contains_key(q)) by {
                if q < lo {
                    assert(y2.sites.contains_key(q) == sites0.contains_key(q));
                } else {
                    assert(!sites1.contains_key(q));
                }
            }
            assert forall|m: MaterialId| #[trigger] hist.count(m) + out.hist.count(m)
                <= u32::MAX by {
                lemma_root_bounds(*tree, items, m, k as int);
                lemma_l2_bounds(*tree, *l2, m);
                let f = |m: MaterialId| l2_tally(*tree, *l2, m);
                assert(out.hist.count(m) == if m == air() {
                    0
                } else {
                    f(m)
                });
            }
            lemma_l2_bounds(*tree, *l2, air());
        }
        hist.merge(&out.hist);
        children.push((i, out.cover));
        k += 1;
        proof {
            let f = |m: MaterialId| l2_tally(*tree, *l2, m);
            assert forall|m: MaterialId| #[trigger] hist.count(m) == if m == air() {
                0
            } else {
                root_tally(*tree, items, m, k as int)
            } by {
                assert(hist.count(m) == hist0.count(m) + out.hist.count(m));
                assert(out.hist.count(m) == if m == air() {
                    0
                } else {
                    f(m)
                });
            }
        }
    }
    let material: MaterialId = hist.dominant();
    let w: [u32; 4] = node_words(NODE_WORDS as u32, 0, root.mask, material);
    let out = NodeOut { w, cover: 0, hist, children: None };
    let ghost y = Layout { words: words@, sites: all_sites(sites@), leaves: leaves@, base: 0 };
    let ghost words0 = words@;
    assert(children@ =~= root_children(*tree, *root));
    place(0, &out, 2097152, &mut words, &mut sites, Some(children));
    let r = FlatChunk { words, brick_leaves: leaves, sites, material };
    proof {
        let t = *tree;
        t.lemma_cells();
        lemma_root_slots(t.nodes(), 64);
        bricks_in_use_are_listed(t);
        lemma_in_order(r.brick_leaves@, words0.len() as int);
        let f = |m: MaterialId| out.hist.count(m);
        let g = |m: MaterialId| chunk_tally(t, m);
        assert forall|m: MaterialId| m != air() implies #[trigger] g(m) == f(m) by {
            assert(out.hist.count(m) == root_tally(t, items, m, items.len() as int));
        }
        lemma_dominant_same(f, g, material);
        let z = r.layout(0);
        let hi = words0.len() as int;
        assert(z.words[0] == out.w@[0] && z.words[1] == out.w@[1] && z.words[2] == out.w@[2]
            && z.words[3] == out.w@[3]);
        assert(!y.sites.contains_key(1) && !y.sites.contains_key(2) && !y.sites.contains_key(3));
        assert forall|j: int| 0 <= j < items.len() implies l2_child_ok(
            t,
            *bricks,
            z,
            4,
            hi,
            4 + 4 * j,
            #[trigger] items[j],
        ) by {
            assert(same_between(y, z, body, hi));
            assert(same_between(y, z, 4 + 4 * j, 4 + 4 * j + 4));
            lemma_l2_child_frame(t, *bricks, y, z, body, hi, 4, hi, 4 + 4 * j, items[j]);
        }
        assert forall|e: (u32, u32)| #[trigger] r.brick_leaves@.contains(e) implies listed_leaf(
            t,
            *bricks,
            r.words@,
            e,
        ) by {
            assert(words0[e.0 as int] == r.words@[e.0 as int]);
        }
    }
    r
}

impl FlatChunk {
    /// Rebases child pointers by `base`. Leaf words hold voxel buffer offsets
    /// and material ids, which are not rebased.
    pub fn relocate(&mut self, base: u32)
        requires
            old(self).wf(),
            ptrs_ok(old(self).sites@, old(self).words@),
            base + old(self).words@.len() < 0x2000_0000,
        ensures
            final(self).wf(),
            final(self).sites@ == old(self).sites@,
            final(self).brick_leaves@ == old(self).brick_leaves@,
            final(self).material == old(self).material,
            relocated(old(self).layout(0), final(self).words@, base as int),
    {
        let ghost start = self.words@;
        let mut k: usize = 0;
        while k < self.sites.len()
            invariant
                k <= self.sites@.len(),
                self.sites@ == old(self).sites@,
                self.brick_leaves@ == old(self).brick_leaves@,
                self.material == old(self).material,
                old(self).wf(),
                start == old(self).words@,
                self.words@.len() == start.len(),
                ptrs_ok(self.sites@, start),
                base + start.len() < 0x2000_0000,
                forall|i: int|
                    0 <= i < start.len() ==> #[trigger] self.words@[i] == start[i] + (if site_map(
                        self.sites@,
                        k as int,
                    ).contains_key(i) {
                        base as int
                    } else {
                        0
                    }),
            decreases self.sites@.len() - k,
        {
            let n: usize = self.sites[k].node as usize;
            proof {
                lemma_site_fresh(self.sites@, k as int, k as int);
                assert(self.words@[n as int] == start[n as int]);
            }
            self.words[n] = self.words[n] + base;
            k += 1;
        }
    }

    /// Sets the normal and spread of a node's LOD word; its material stays.
    pub fn set_lod(&mut self, site: usize, u: u8, v: u8, spread: u8)
        requires
            old(self).wf(),
            site < old(self).sites@.len(),
            u < 64,
            v < 64,
            spread < 16,
        ensures
            final(self).wf(),
            final(self).sites@ == old(self).sites@,
            final(self).brick_leaves@ == old(self).brick_leaves@,
            final(self).material == old(self).material,
            final(self).words@.len() == old(self).words@.len(),
            ({
                let at = old(self).sites@[site as int].node + 3;
                &&& final(self).words@[at] == lod_word(
                    Lod { material: lod_material(old(self).words@[at]), u, v, spread },
                )
                &&& forall|k: int|
                    0 <= k < old(self).words@.len() && k != at ==> #[trigger] final(self).words@[k]
                        == old(self).words@[k]
            }),
    {
        let at: usize = self.sites[site].node as usize + 3;
        let material: MaterialId = MaterialId((self.words[at] % 65536) as u16);
        self.words[at] = pack_lod(&Lod { material, u, v, spread });
    }
}

/// A site is not among those before it.
proof fn lemma_site_fresh(v: Seq<Site>, k: int, n: int)
    requires
        0 <= n <= k < v.len(),
        sites_apart(v),
    ensures
        !site_map(v, n).contains_key(v[k].node as int),
    decreases n,
{
    if n > 0 {
        lemma_site_fresh(v, k, n - 1);
        assert(v[n - 1].node != v[k].node);
    }
}

/// `words` are those of `y` with `base` added to every child pointer.
pub open spec fn relocated(y: Layout, words: Seq<u32>, base: int) -> bool {
    &&& words.len() == y.words.len()
    &&& forall|i: int|
        0 <= i < y.words.len() ==> #[trigger] words[i] == y.words[i] + (if y.sites.contains_key(i) {
            base
        } else {
            0
        })
}

/// A relocated chunk is the same chunk, counted from `base`.
pub proof fn relocation_keeps_the_chunk<P: BrickResidency>(
    t: ChunkTree,
    p: P,
    y: Layout,
    words: Seq<u32>,
    base: int,
)
    requires
        chunk_ok(t, p, y),
        y.base == 0,
        0 <= base,
        base + y.words.len() < 0x2000_0000,
        relocated(y, words, base),
    ensures
        chunk_ok(t, p, (Layout { words, base, ..y })),
{
    let z = Layout { words, base, ..y };
    let s = t.nodes();
    let hi = y.words.len() as int;
    assert(words[0] == y.words[0] + base && words[1] == y.words[1] && words[2] == y.words[2]
        && words[3] == y.words[3]);
    assert forall|k: int| 0 <= k < s.items@.len() implies l2_child_ok(
        t,
        p,
        z,
        4,
        hi,
        4 + 4 * k,
        #[trigger] s.items@[k],
    ) by {
        let at = 4 + 4 * k;
        let n = s.items@[k];
        assert(l2_child_ok(t, p, y, 4, hi, at, n));
        assert(words[at] == y.words[at] + if n is Nodes {
            base
        } else {
            0
        });
        assert(words[at + 1] == y.words[at + 1] && words[at + 2] == y.words[at + 2] && words[at + 3]
            == y.words[at + 3]);
        if let L2::Nodes(nodes) = n {
            let block = y.words[at] as int;
            assert(z.words[at] - base == block);
            assert forall|j: int| 0 <= j < nodes.items@.len() implies l1_child_ok(
                t,
                p,
                z,
                4,
                hi,
                block + 4 * j,
                #[trigger] nodes.items@[j],
            ) by {
                let q = block + 4 * j;
                let n1 = nodes.items@[j];
                assert(l1_child_ok(t, p, y, 4, hi, q, n1));
                assert(words[q] == y.words[q] + if n1 is Cells {
                    base
                } else {
                    0
                });
                assert(words[q + 1] == y.words[q + 1] && words[q + 2] == y.words[q + 2] && words[q
                    + 3] == y.words[q + 3]);
                if let L1::Cells(cells) = n1 {
                    let leaf = y.words[q] - LEAF_PARENT;
                    assert forall|i: int| 0 <= i < cells.items@.len() implies leaf_ok(
                        t,
                        p,
                        z.words[leaf + i],
                        #[trigger] cells.items@[i],
                    ) && !z.sites.contains_key(leaf + i) && (cells.items@[i] matches Cell::Brick(x)
                        ==> z.leaves.contains(((leaf + i) as u32, x))) by {
                        assert(words[leaf + i] == y.words[leaf + i]);
                    }
                }
            }
        }
    }
}

/// Child pointer of a node word.
pub open spec fn pointer(w: u32) -> int {
    w as int % 0x2000_0000
}

/// Bit 29 of a word, with bit 30 and 31 clear or not.
pub open spec fn has_uniform_bit(w: u32) -> bool {
    w as int / 0x2000_0000 % 2 == 1
}

/// The child mask of the node at `n`.
pub open spec fn mask_at(words: Seq<u32>, n: int) -> u64 {
    (words[n + 1] as int + words[n + 2] as int * 0x1_0000_0000) as u64
}

/// What a leaf word says of the voxel of index `i`.
pub open spec fn read_leaf(voxels: Seq<u32>, leaf: u32, i: int) -> int {
    if leaf as int / 0x4000_0000 > 0 {
        // Uniform or not resident: a material.
        leaf as int % 65536
    } else {
        stored_voxel(voxels, leaf as int % 0x2000_0000, leaf as int / 0x2000_0000 == 1, i)
    }
}

/// Voxel `v` read from the leaf block of the node at `n`.
pub open spec fn read_l1(words: Seq<u32>, voxels: Seq<u32>, n: int, v: IVec3) -> int {
    let c = low(cell_part(v));
    let mask = mask_at(words, n);
    if !bit(mask, c) {
        0
    } else {
        read_leaf(
            voxels,
            words[pointer(words[n]) + ones_below(mask, c)],
            vindex(brick_part(v)),
        )
    }
}

/// Voxel `v` read from the 8 m node at `n`.
pub open spec fn read_l2(words: Seq<u32>, voxels: Seq<u32>, n: int, v: IVec3) -> int {
    let m = mid(cell_part(v));
    let mask = mask_at(words, n);
    if !bit(mask, m) {
        0
    } else {
        let child = pointer(words[n]) + 4 * ones_below(mask, m);
        if has_uniform_bit(words[child]) {
            words[child] as int % 65536
        } else {
            read_l1(words, voxels, child, v)
        }
    }
}

/// Voxel `v` read from a chunk whose root node is at `n`, the way the shader
/// does.
pub open spec fn read_chunk(words: Seq<u32>, voxels: Seq<u32>, n: int, v: IVec3) -> int {
    let a = top(cell_part(v));
    let mask = mask_at(words, n);
    if !bit(mask, a) {
        0
    } else {
        let child = pointer(words[n]) + 4 * ones_below(mask, a);
        if has_uniform_bit(words[child]) {
            words[child] as int % 65536
        } else {
            read_l2(words, voxels, child, v)
        }
    }
}

/// Every brick in use is in the voxel buffer where its residency says.
pub open spec fn all_resident<P: BrickResidency>(t: ChunkTree, p: P, voxels: Seq<u32>) -> bool {
    forall|i: u32|
        #[trigger] t.refers(i) ==> (p.place(i) matches Some((offset, wide)) && offset < 0x2000_0000
            && wide == t.slab()[i as int].wide() && exists|header: u32|
            holds_brick(voxels, offset as int, t.slab()[i as int], header))
}

/// The words from `y.base` on are those laid out.
#[verifier::opaque]
spec fn placed(y: Layout, words: Seq<u32>) -> bool {
    &&& 0 <= y.base
    &&& y.base + y.words.len() <= words.len()
    &&& y.base + y.words.len() <= 0x2000_0000
    &&& forall|i: int| 0 <= i < y.words.len() ==> #[trigger] words[y.base + i] == y.words[i]
}

/// Voxel `v` read from the 2 m node laid out at `q`.
proof fn lemma_decode_l1<P: BrickResidency>(
    t: ChunkTree,
    p: P,
    y: Layout,
    words: Seq<u32>,
    voxels: Seq<u32>,
    v: IVec3,
    q: int,
    n1: L1,
)
    requires
        t.wf(),
        placed(y, words),
        all_resident(t, p, voxels),
        v.within(512),
        0 <= q,
        q + 4 <= y.words.len(),
        l1_child_ok(t, p, y, 4, y.words.len() as int, q, n1),
        n1.wf(),
        t.cell_of(cell_part(v)) == n1.cell(low(cell_part(v))),
    ensures
        t.voxel_of(v).0 == if has_uniform_bit(words[y.base + q]) {
            words[y.base + q] as int % 65536
        } else {
            read_l1(words, voxels, y.base + q, v)
        },
{
    let b = cell_part(v);
    let l = brick_part(v);
    let base = y.base;
    let node = base + q;
    lemma_path(b);
    lemma_vindex(l);
    let c = low(b);
    reveal(placed);
    assert(words[base + q] == y.words[q]);
    assert(words[base + (q + 1)] == y.words[q + 1]);
    assert(words[base + (q + 2)] == y.words[q + 2]);
    match n1 {
        L1::Uniform(u) => {
            lemma_uniform_word(u, words[node]);
            assert(t.cell_of(b) == Cell::Uniform(u));
        },
        L1::Cells(cells) => {
            let x0 = words[node];
            let leaf = x0 - LEAF_PARENT - base;
            assert(0x8000_0000 <= x0 < 0xa000_0000);
            assert(!has_uniform_bit(x0));
            assert(pointer(x0) == leaf + base);
            assert(mask_at(words, node) == cells.mask);
            if bit(cells.mask, c) {
                let i = ones_below(cells.mask, c) as int;
                lemma_ones_mono(cells.mask, c, 64);
                let cell = cells.items@[i];
                assert(cells.at(c) == Some(cell));
                assert(leaf_ok(t, p, y.words[leaf + i], cell));
                assert(words[base + (leaf + i)] == y.words[leaf + i]);
                assert(t.cell_at(top(b), mid(b), c) == cell);
                assert(t.cell_of(b) == cell);
                lemma_read_leaf(t, p, voxels, y.words[leaf + i], cell, vindex(l));
            } else {
                assert(t.cell_of(b) == Cell::Empty);
            }
        },
    }
}

/// Voxel `v` read from the 8 m node laid out at `at`.
proof fn lemma_decode_l2<P: BrickResidency>(
    t: ChunkTree,
    p: P,
    y: Layout,
    words: Seq<u32>,
    voxels: Seq<u32>,
    v: IVec3,
    at: int,
    n2: L2,
)
    requires
        t.wf(),
        placed(y, words),
        all_resident(t, p, voxels),
        v.within(512),
        0 <= at,
        at + 4 <= y.words.len(),
        l2_child_ok(t, p, y, 4, y.words.len() as int, at, n2),
        n2.wf(),
        t.nodes().at(top(cell_part(v))) == Some(n2),
    ensures
        t.voxel_of(v).0 == if has_uniform_bit(words[y.base + at]) {
            words[y.base + at] as int % 65536
        } else {
            read_l2(words, voxels, y.base + at, v)
        },
{
    let b = cell_part(v);
    let base = y.base;
    let hi = y.words.len() as int;
    let child = base + at;
    lemma_path(b);
    lemma_vindex(brick_part(v));
    let m = mid(b);
    assert(0 <= base && words[base + at] == y.words[at] && words[base + (at + 1)] == y.words[at + 1]
        && words[base + (at + 2)] == y.words[at + 2]) by {
        reveal(placed);
    }
    match n2 {
        L2::Uniform(u) => {
            lemma_uniform_word(u, words[child]);
            assert(t.cell_of(b) == Cell::Uniform(u));
        },
        L2::Nodes(nodes) => {
            let w0 = words[child];
            lemma_pointer_word(w0);
            let block = w0 - base;
            lemma_mask_words(words, child, nodes.mask);
            if bit(nodes.mask, m) {
                let j = ones_below(nodes.mask, m) as int;
                lemma_ones_mono(nodes.mask, m, 64);
                let n1 = nodes.items@[j];
                assert(nodes.at(m) == Some(n1));
                assert(n1.wf());
                let q = block + 4 * j;
                assert(l1_child_ok(t, p, y, 4, hi, q, n1));
                assert(pointer(w0) + 4 * j == base + q);
                lemma_decode_l1(t, p, y, words, voxels, v, q, n1);
            } else {
                assert(t.cell_of(b) == Cell::Empty);
            }
        },
    }
}

/// Flattened words decode to the chunk: with its bricks resident, every voxel
/// read from the words, wherever in the tree buffer they were put, is the
/// chunk's voxel.
pub proof fn flattened_words_decode<P: BrickResidency>(
    t: ChunkTree,
    p: P,
    y: Layout,
    words: Seq<u32>,
    voxels: Seq<u32>,
    v: IVec3,
)
    requires
        t.wf(),
        chunk_ok(t, p, y),
        0 <= y.base,
        y.base + y.words.len() <= words.len(),
        y.base + y.words.len() <= 0x2000_0000,
        forall|i: int| 0 <= i < y.words.len() ==> #[trigger] words[y.base + i] == y.words[i],
        all_resident(t, p, voxels),
        v.within(512),
    ensures
        read_chunk(words, voxels, y.base, v) == t.voxel_of(v).0,
{
    let b = cell_part(v);
    let base = y.base;
    let s = t.nodes();
    let hi = y.words.len() as int;
    t.lemma_cells();
    lemma_path(b);
    lemma_vindex(brick_part(v));
    let a = top(b);
    assert(words[base + 0] == y.words[0]);
    assert(words[base + 1] == y.words[1]);
    assert(words[base + 2] == y.words[2]);
    assert(placed(y, words)) by {
        reveal(placed);
    }
    lemma_mask_words(words, base, s.mask);
    lemma_pointer_word(words[base]);
    if bit(s.mask, a) {
        let k = ones_below(s.mask, a) as int;
        lemma_ones_mono(s.mask, a, 64);
        let n2 = s.items@[k];
        assert(s.at(a) == Some(n2));
        assert(n2.wf());
        let at = 4 + 4 * k;
        assert(l2_child_ok(t, p, y, 4, hi, at, n2));
        assert(pointer(words[base]) + 4 * k == base + at);
        lemma_decode_l2(t, p, y, words, voxels, v, at, n2);
    } else {
        assert(t.cell_of(b) == Cell::Empty);
    }
}

/// A word below the flag bits is a pointer.
proof fn lemma_pointer_word(w: u32)
    requires
        w < 0x2000_0000,
    ensures
        !has_uniform_bit(w),
        pointer(w) == w,
{
}

proof fn lemma_mask_words(words: Seq<u32>, n: int, mask: u64)
    requires
        mask_ok(words[n + 1], words[n + 2], mask),
    ensures
        mask_at(words, n) == mask,
{
}

proof fn lemma_uniform_word(u: MaterialId, w: u32)
    requires
        w == UNIFORM_NODE + u.0,
    ensures
        has_uniform_bit(w),
        w as int % 65536 == u.0,
{
    assert(w as int == 0x2000 * 65536 + u.0);
}

/// A leaf word reads as its cell.
proof fn lemma_read_leaf<P: BrickResidency>(
    t: ChunkTree,
    p: P,
    voxels: Seq<u32>,
    w: u32,
    cell: Cell,
    i: int,
)
    requires
        t.wf(),
        leaf_ok(t, p, w, cell),
        cell matches Cell::Brick(x) ==> t.refers(x),
        all_resident(t, p, voxels),
        0 <= i < 512,
    ensures
        match cell {
            Cell::Empty => true,
            Cell::Uniform(m) => read_leaf(voxels, w, i) == m.0,
            Cell::Brick(x) => read_leaf(voxels, w, i) == t.slab()[x as int].voxels()[i].0,
        },
{
    match cell {
        Cell::Empty => {},
        Cell::Uniform(m) => {
            assert(w as int == 0x8000 * 65536 + m.0);
        },
        Cell::Brick(x) => {
            let (offset, wide) = p.place(x)->0;
            let brick = t.slab()[x as int];
            let header = choose|header: u32| holds_brick(voxels, offset as int, brick, header);
            assert(offset < 0x2000_0000 ==> offset | 0x2000_0000 == offset + 0x2000_0000 && offset
                | 0 == offset) by (bit_vector);
            t.lemma_cells();
            let (a, m, c) = choose|a: int, m: int, c: int|
                children(a, m, c) && #[trigger] t.cell_at(a, m, c) == Cell::Brick(x);
            assert(t.cell_at(a, m, c) == Cell::Brick(x));
            stored_bricks_read_back(voxels, offset as int, brick, header, i);
        },
    }
}

/// A level-of-detail word holds its four parts side by side: the material in
/// the low 16 bits, six bits of each normal coordinate, four of the spread.
pub proof fn lod_words_unpack(lod: Lod)
    requires
        lod.u < 64,
        lod.v < 64,
        lod.spread < 16,
    ensures
        lod_word(lod) % 65536 == lod.material.0,
        lod_word(lod) / 65536 % 64 == lod.u,
        lod_word(lod) / 4194304 % 64 == lod.v,
        lod_word(lod) / 268435456 == lod.spread,
{
    let (m, u, v, s) = (lod.material.0 as int, lod.u as int, lod.v as int, lod.spread as int);
    lemma_lod_split(m, u + 64 * (v + 64 * s));
    lemma_lod_split_low(u, v + 64 * s);
    lemma_lod_split_low(v, s);
}

proof fn lemma_lod_split(m: int, rest: int)
    requires
        0 <= m < 65536,
        0 <= rest,
    ensures
        (m + 65536 * rest) % 65536 == m,
        (m + 65536 * rest) / 65536 == rest,
        (m + 65536 * rest) / 4194304 == rest / 64,
        (m + 65536 * rest) / 268435456 == rest / 64 / 64,
{
}

proof fn lemma_lod_split_low(m: int, rest: int)
    requires
        0 <= m < 64,
        0 <= rest,
    ensures
        (m + 64 * rest) % 64 == m,
        (m + 64 * rest) / 64 == rest,
{
}

/// A node of one material counts as 64 children of it, at every level, and
/// covers as much.
pub proof fn uniform_nodes_count_as_their_children(t: ChunkTree, u: MaterialId, m: MaterialId)
    ensures
        cell_tally(t, Cell::Uniform(u), m) == if u == m {
            512nat
        } else {
            0
        },
        l1_tally(t, L1::Uniform(u), m) == 64 * cell_tally(t, Cell::Uniform(u), m),
        l2_tally(t, L2::Uniform(u), m) == 64 * l1_tally(t, L1::Uniform(u), m),
        cell_cover(t, Cell::Uniform(u)) == 512,
        l1_cover(t, L1::Uniform(u)) == 64 * cell_cover(t, Cell::Uniform(u)),
        l2_cover(t, L2::Uniform(u)) == 64 * l1_cover(t, L1::Uniform(u)),
        cell_tally(t, Cell::Empty, m) == 0 && cell_cover(t, Cell::Empty) == 0,
{
}

/// A leaf's top bits say what it is: a cell of one material has the highest
/// set, a brick that is not uploaded the next, and both hold a material below.
pub proof fn leaves_say_what_they_are<P: BrickResidency>(t: ChunkTree, p: P, w: u32, cell: Cell)
    requires
        leaf_ok(t, p, w, cell),
    ensures
        cell matches Cell::Uniform(m) ==> w as int == 0x8000_0000 + m.0,
        cell matches Cell::Brick(i) ==> (p.place(i) is None ==> 0x4000_0000 <= w < 0x4001_0000),
        !(cell is Empty),
{
}

} // verus!
