//! Sparse 64-tree for one 32 m chunk.
//!
//! Three levels of 4^3 fan-out sit above the bricks: the chunk root (children
//! are 8 m L2 nodes), L2 (children are 2 m L1 nodes) and L1 (children are
//! 0.5 m brick cells). Every node stores a 64-bit child mask and a compact
//! child array: child `i` lives at `popcount(mask & ((1 << i) - 1))`.
//!
//! Solid regions collapse at every level. A brick cell is empty (absent from
//! the mask), uniform (one material reference, no brick allocated) or a
//! palette brick. An L1 or L2 node whose every child is the same uniform
//! material is itself stored as a single uniform node, so a chunk of solid
//! rock deep underground is 64 material references rather than a quarter of
//! a million cells.
//!
//! Child index convention (shared with the GPU): `x + z*4 + y*16`.

pub mod list;
pub mod node;
pub mod path;
pub mod sparse;

use crate::bits::{bit, lemma_no_bits};
use crate::brick::palette::has_room;
use crate::brick::{calm, vindex, Brick, VoxelState};
use crate::footprint::{
    capacity, capped, grown, grown_all, lemma_roomy, lemma_roomy_push, lemma_total_bounds,
    lemma_total_len_bounds, roomy, total, total_len,
};
use crate::ivec::IVec3;
use crate::material::{air, MaterialId};
use crate::tree::list::{brick_slots, bricks_in_use_are_listed, listed};
use crate::tree::node::{all_cells, all_nodes, blank_l2, node_cell, Cell, L1, L2};
use crate::tree::path::{
    cell_coord, child_index, children, cindex, lemma_cindex, lemma_path, lemma_unpath, low, mid,
    path, top,
};
use crate::tree::sparse::Sparse64;
use vstd::prelude::*;

verus! {

#[derive(Clone, Debug)]
pub struct ChunkTree {
    /// Unique per constructed tree, so GPU residency can tell a regenerated
    /// chunk from an edited one (brick slab slots are not comparable).
    id: u64,
    pub root: Sparse64<L2>,
    bricks: Vec<Brick>,
    free: Vec<u32>,
    /// Slab indices whose contents changed since the last `take_dirty`.
    dirty_bricks: Vec<u32>,
    /// Set when any node or cell kind changed.
    structure_dirty: bool,
}

/// Brick cell of chunk-local voxel `v`.
pub open spec fn cell_part(v: IVec3) -> IVec3 {
    IVec3 { x: (v.x as int / 8) as i32, y: (v.y as int / 8) as i32, z: (v.z as int / 8) as i32 }
}

/// Place of voxel `v` in its brick cell.
pub open spec fn brick_part(v: IVec3) -> IVec3 {
    IVec3 { x: (v.x as int % 8) as i32, y: (v.y as int % 8) as i32, z: (v.z as int % 8) as i32 }
}

/// 512 voxels of one material.
pub open spec fn solid_voxels(m: MaterialId) -> Seq<MaterialId> {
    Seq::new(512, |i: int| m)
}

/// 512 untouched states.
pub open spec fn calm_states() -> Seq<VoxelState> {
    Seq::new(512, |i: int| calm())
}

/// States survive only where some voxel is not air.
pub open spec fn kept_states(v: Seq<MaterialId>, s: Seq<VoxelState>) -> Seq<VoxelState> {
    if v == solid_voxels(air()) {
        calm_states()
    } else {
        s
    }
}

/// `cell` is of the kind that its contents ask for: empty for air alone,
/// uniform for one material without states, a brick for everything else.
pub open spec fn fits(cell: Cell, v: Seq<MaterialId>, stateful: bool) -> bool {
    if v == solid_voxels(air()) {
        cell == Cell::Empty
    } else if !stateful && v == solid_voxels(v[0]) {
        cell == Cell::Uniform(v[0])
    } else {
        cell is Brick
    }
}

/// Bricks that the first `n` cells of a 2 m node hold.
spec fn bricks_of_l1(n1: L1, n: int) -> Set<u32> {
    Set::new(|i: u32| exists|c: int| 0 <= c < n && #[trigger] n1.cell(c) == Cell::Brick(i))
}

/// Bricks that the first `n` nodes of an 8 m node hold.
spec fn bricks_of_l2(n2: L2, n: int) -> Set<u32> {
    Set::new(
        |i: u32|
            exists|m: int, c: int|
                0 <= m < n && 0 <= c < 64 && #[trigger] n2.cell(m, c) == Cell::Brick(i),
    )
}

impl ChunkTree {
    /// The 8 m nodes.
    pub closed spec fn nodes(&self) -> Sparse64<L2> {
        self.root
    }

    /// Cell at the end of a path.
    pub open spec fn cell_at(&self, a: int, m: int, c: int) -> Cell {
        match self.nodes().at(a) {
            Some(n) => n.cell(m, c),
            None => Cell::Empty,
        }
    }

    /// Brick cell `b`.
    pub open spec fn cell_of(&self, b: IVec3) -> Cell {
        self.cell_at(top(b), mid(b), low(b))
    }

    /// The slab of bricks, free slots too.
    pub closed spec fn slab(&self) -> Seq<Brick> {
        self.bricks@
    }

    /// The 512 materials of brick cell `b`.
    pub open spec fn cell_voxels(&self, b: IVec3) -> Seq<MaterialId> {
        match self.cell_of(b) {
            Cell::Empty => solid_voxels(air()),
            Cell::Uniform(m) => solid_voxels(m),
            Cell::Brick(i) => self.slab()[i as int].voxels(),
        }
    }

    /// The 512 states of brick cell `b`.
    pub open spec fn cell_states(&self, b: IVec3) -> Seq<VoxelState> {
        match self.cell_of(b) {
            Cell::Brick(i) => self.slab()[i as int].states(),
            _ => calm_states(),
        }
    }

    /// The brick that cell `b` uses, if it uses one.
    pub open spec fn brick_of(&self, b: IVec3) -> Option<Brick> {
        match self.cell_of(b) {
            Cell::Brick(i) => Some(self.slab()[i as int]),
            _ => None,
        }
    }

    /// Cell `b` uses a brick that keeps states.
    pub open spec fn keeps_states(&self, b: IVec3) -> bool {
        self.brick_of(b) matches Some(k) && k.stateful()
    }

    /// Material of chunk-local voxel `v`.
    pub open spec fn voxel_of(&self, v: IVec3) -> MaterialId {
        self.cell_voxels(cell_part(v))[vindex(brick_part(v))]
    }

    /// The tree's id.
    pub closed spec fn number(&self) -> u64 {
        self.id
    }

    /// Some cell changed kind since the last `take_dirty`.
    pub closed spec fn restructured(&self) -> bool {
        self.structure_dirty
    }

    /// Slab indices written since the last `take_dirty`.
    pub closed spec fn touched(&self) -> Set<u32> {
        self.dirty_bricks@.to_set()
    }

    /// Some cell holds slab index `i`.
    pub open spec fn refers(&self, i: u32) -> bool {
        exists|a: int, m: int, c: int|
            children(a, m, c) && #[trigger] self.cell_at(a, m, c) == Cell::Brick(i)
    }

    /// The slab indices in use.
    pub open spec fn live(&self) -> Set<u32> {
        Set::new(|i: u32| self.refers(i))
    }

    /// Every slab slot is free, in use by one cell, or among `spares`, and
    /// the bricks in use hold what only a brick can, but perhaps for `rough`.
    spec fn linked_but(&self, spares: Set<u32>, rough: Option<u32>) -> bool {
        &&& self.root.wf()
        &&& forall|a: int| 0 <= a < 64 ==> (#[trigger] self.root.at(a) matches Some(n) ==> n.wf())
        &&& self.bricks@.len() <= 0x1_0000_0000
        &&& forall|k: int| 0 <= k < self.bricks@.len() ==> (#[trigger] self.bricks@[k]).wf()
        &&& forall|a: int, m: int, c: int|
            children(a, m, c) ==> (#[trigger] self.cell_at(a, m, c) matches Cell::Brick(i) ==> {
                &&& i < self.bricks@.len()
                &&& rough == Some(i) || self.bricks@[i as int].mixed()
                &&& !self.free@.contains(i)
                &&& !spares.contains(i)
            })
        &&& forall|a: int, m: int, c: int, a2: int, m2: int, c2: int|
            children(a, m, c) && children(a2, m2, c2) && #[trigger] self.cell_at(a, m, c)
                == #[trigger] self.cell_at(a2, m2, c2) && self.cell_at(a, m, c) is Brick ==> a == a2
                && m == m2 && c == c2
        &&& self.free@.no_duplicates()
        &&& forall|k: int|
            0 <= k < self.free@.len() ==> (#[trigger] self.free@[k]) < self.bricks@.len()
                && self.bricks@[self.free@[k] as int].voxels() == solid_voxels(air())
        &&& forall|i: u32|
            #[trigger] spares.contains(i) ==> i < self.bricks@.len() && !self.free@.contains(i)
        &&& forall|i: u32|
            i < self.bricks@.len() ==> #[trigger] self.free@.contains(i) || spares.contains(i)
                || self.refers(i)
        &&& forall|k: int|
            0 <= k < self.dirty_bricks@.len() ==> (#[trigger] self.dirty_bricks@[k])
                < self.bricks@.len()
    }

    spec fn linked(&self, spares: Set<u32>) -> bool {
        self.linked_but(spares, None)
    }

    pub closed spec fn wf(&self) -> bool {
        self.linked(Set::empty())
    }

    /// No cell holds air as if it were a material.
    pub open spec fn tidy(&self) -> bool {
        forall|b: IVec3| b.within(64) ==> #[trigger] self.cell_of(b) != Cell::Uniform(air())
    }

    /// Everything that differs from `before` is on record: a cell of another
    /// kind as a change of structure, other brick contents by slab index.
    pub open spec fn records_since(&self, before: ChunkTree) -> bool {
        &&& before.restructured() ==> self.restructured()
        &&& before.touched().subset_of(self.touched())
        &&& forall|b: IVec3|
            b.within(64) ==> #[trigger] self.cell_of(b) == before.cell_of(b) || self.restructured()
        &&& forall|b: IVec3|
            b.within(64) ==> (#[trigger] self.cell_of(b) matches Cell::Brick(i) ==> self.touched(
            ).contains(i) || (before.cell_of(b) == Cell::Brick(i) && self.slab()[i as int].voxels()
                == before.slab()[i as int].voxels() && self.slab()[i as int].states()
                == before.slab()[i as int].states()))
    }

    /// An edit of cell `b` is on record, and nothing else is new: a change of
    /// structure if the cell changed kind, its brick if it uses one now.
    pub open spec fn records_edit(&self, before: ChunkTree, b: IVec3) -> bool {
        &&& self.restructured() == (before.restructured() || self.cell_of(b) != before.cell_of(b))
        &&& self.touched() == match self.cell_of(b) {
            Cell::Brick(i) => before.touched().insert(i),
            _ => before.touched(),
        }
    }

    /// What a well-formed tree promises of its cells.
    pub proof fn lemma_cells(&self)
        requires
            self.wf(),
        ensures
            self.nodes().wf(),
            forall|a: int|
                0 <= a < 64 ==> (#[trigger] self.nodes().at(a) matches Some(n) ==> n.wf()),
            forall|a: int, m: int, c: int|
                children(a, m, c) ==> (#[trigger] self.cell_at(a, m, c) matches Cell::Brick(i) ==> {
                    &&& i < self.slab().len()
                    &&& self.slab()[i as int].wf()
                    &&& self.slab()[i as int].mixed()
                }),
            forall|b: IVec3|
                b.within(64) ==> (#[trigger] self.cell_of(b) matches Cell::Brick(i) ==> {
                    &&& i < self.slab().len()
                    &&& self.slab()[i as int].wf()
                    &&& self.slab()[i as int].mixed()
                }),
            forall|b: IVec3|
                b.within(64) ==> #[trigger] self.cell_voxels(b).len() == 512 && self.cell_states(
                    b,
                ).len() == 512,
    {
        assert forall|b: IVec3| b.within(64) implies #[trigger] self.cell_voxels(b).len() == 512
            && self.cell_states(b).len() == 512 by {
            lemma_path(b);
            if let Cell::Brick(i) = self.cell_at(top(b), mid(b), low(b)) {
                self.slab()[i as int].lemma_shape();
            }
        }
        assert forall|b: IVec3| b.within(64) implies (#[trigger] self.cell_of(b) matches Cell::Brick(
            i,
        ) ==> {
            &&& i < self.slab().len()
            &&& self.slab()[i as int].wf()
            &&& self.slab()[i as int].mixed()
        }) by {
            lemma_path(b);
        }
    }

    /// Two cells never share a brick.
    pub proof fn bricks_are_not_shared(&self, b: IVec3, d: IVec3)
        requires
            self.wf(),
            b.within(64),
            d.within(64),
            self.cell_of(b) is Brick,
            self.cell_of(b) == self.cell_of(d),
        ensures
            b == d,
    {
        lemma_path(b);
        lemma_path(d);
    }

    pub fn new(id: u64) -> (t: ChunkTree)
        ensures
            t.wf(),
            t.number() == id,
            forall|b: IVec3| b.within(64) ==> #[trigger] t.cell_of(b) == Cell::Empty,
            t.nodes().mask == 0,
            !t.restructured(),
            t.touched() == Set::<u32>::empty(),
            t.live() == Set::<u32>::empty(),
    {
        let t = ChunkTree {
            id,
            root: Sparse64::default(),
            bricks: Vec::new(),
            free: Vec::new(),
            dirty_bricks: Vec::new(),
            structure_dirty: false,
        };
        proof {
            assert forall|b: IVec3| b.within(64) implies #[trigger] t.cell_of(b) == Cell::Empty by {
                lemma_path(b);
            }
            assert(t.live() =~= Set::<u32>::empty());
            assert(t.touched() =~= Set::<u32>::empty());
        }
        t
    }

    pub fn id(&self) -> (id: u64)
        ensures
            id == self.number(),
    {
        self.id
    }

    pub fn is_empty(&self) -> (r: bool)
        requires
            self.wf(),
        ensures
            r == (self.nodes().mask == 0),
            r == forall|b: IVec3| b.within(64) ==> #[trigger] self.cell_of(b) == Cell::Empty,
    {
        let r: bool = self.root.is_empty();
        proof {
            if r {
                assert forall|b: IVec3| b.within(64) implies #[trigger] self.cell_of(b)
                    == Cell::Empty by {
                    lemma_path(b);
                }
            } else {
                lemma_something_held(*self);
            }
        }
        r
    }

    pub fn root(&self) -> (r: &Sparse64<L2>)
        requires
            self.wf(),
        ensures
            *r == self.nodes(),
            r.wf(),
    {
        &self.root
    }

    pub fn brick(&self, idx: u32) -> (r: &Brick)
        requires
            self.wf(),
            idx < self.slab().len(),
        ensures
            *r == self.slab()[idx as int],
            r.wf(),
    {
        &self.bricks[idx as usize]
    }

    pub fn cell(&self, b: IVec3) -> (r: Cell)
        requires
            self.wf(),
            b.within(64),
        ensures
            r == self.cell_of(b),
    {
        self.look(b)
    }

    fn look(&self, b: IVec3) -> (r: Cell)
        requires
            exists|spares: Set<u32>, rough: Option<u32>| self.linked_but(spares, rough),
            b.within(64),
        ensures
            r == self.cell_of(b),
    {
        let (a, m, c) = path(b);
        match self.root.get(a) {
            None => Cell::Empty,
            Some(L2::Uniform(u)) => Cell::Uniform(*u),
            Some(L2::Nodes(n)) => match n.get(m) {
                None => Cell::Empty,
                Some(L1::Uniform(u)) => Cell::Uniform(*u),
                Some(L1::Cells(cells)) => match cells.get(c) {
                    Some(cell) => *cell,
                    None => Cell::Empty,
                },
            },
        }
    }

    /// A slot for `brick`: a free one, else a new one. The slot is spare
    /// until a cell takes it.
    fn alloc_brick(&mut self, brick: Brick) -> (i: u32)
        requires
            old(self).wf(),
            brick.wf(),
        ensures
            final(self).linked(set![i]),
            !old(self).refers(i),
            final(self).root == old(self).root,
            final(self).id == old(self).id,
            final(self).structure_dirty == old(self).structure_dirty,
            final(self).dirty_bricks@ == old(self).dirty_bricks@,
            final(self).bricks@.len() >= old(self).bricks@.len(),
            i < final(self).bricks@.len(),
            final(self).bricks@[i as int] == brick,
            forall|k: int|
                0 <= k < old(self).bricks@.len() && k != i ==> #[trigger] final(self).bricks@[k]
                    == old(self).bricks@[k],
    {
        match self.free.pop() {
            Some(i) => {
                let ghost n = old(self).free@.len() as int;
                assert(old(self).free@[n - 1] == i);
                assert(old(self).free@.contains(i));
                self.bricks[i as usize] = brick;
                proof {
                    assert(forall|j: u32|
                        #[trigger] self.free@.contains(j) ==> old(self).free@.contains(j));
                    assert forall|j: u32| j < self.bricks@.len() implies #[trigger] self.free@.contains(
                        j,
                    ) || set![i].contains(j) || self.refers(j) by {
                        if old(self).free@.contains(j) {
                            let k = choose|k: int| 0 <= k < n && old(self).free@[k] == j;
                            if k < n - 1 {
                                assert(self.free@[k] == j);
                            }
                        } else {
                            lemma_same_root(*old(self), *self);
                        }
                    }
                    lemma_same_root(*old(self), *self);
                    assert(!self.free@.contains(i));
                }
                i
            },
            None => {
                proof {
                    lemma_slab_bound(*old(self));
                }
                let i: u32 = self.bricks.len() as u32;
                self.bricks.push(brick);
                proof {
                    lemma_same_root(*old(self), *self);
                }
                i
            },
        }
    }

    /// Empties the slot of a brick that no cell holds any more.
    fn release(&mut self, cell: Cell, Ghost(spares): Ghost<Set<u32>>)
        requires
            old(self).linked(spares),
            cell matches Cell::Brick(i) ==> spares.contains(i),
        ensures
            final(self).linked(
                match cell {
                    Cell::Brick(i) => spares.remove(i),
                    _ => spares,
                },
            ),
            final(self).root == old(self).root,
            final(self).id == old(self).id,
            final(self).structure_dirty == old(self).structure_dirty,
            final(self).dirty_bricks@ == old(self).dirty_bricks@,
            final(self).bricks@.len() == old(self).bricks@.len(),
            forall|k: int|
                0 <= k < old(self).bricks@.len() && !(cell matches Cell::Brick(i) && i == k)
                    ==> #[trigger] final(self).bricks@[k] == old(self).bricks@[k],
    {
        if let Cell::Brick(i) = cell {
            self.bricks[i as usize] = Brick::empty();
            self.free.push(i);
            proof {
                lemma_same_root(*old(self), *self);
                let n = old(self).free@.len() as int;
                assert(self.free@[n] == i);
                assert forall|j: u32| #[trigger] self.free@.contains(j) == (j == i || old(
                    self,
                ).free@.contains(j)) by {
                    if old(self).free@.contains(j) {
                        let k = choose|k: int| 0 <= k < n && old(self).free@[k] == j;
                        assert(self.free@[k] == j);
                    }
                }
                assert forall|k: int| 0 <= k < self.free@.len() implies (#[trigger] self.free@[k])
                    < self.bricks@.len() && self.bricks@[self.free@[k] as int].voxels()
                    == solid_voxels(air()) by {
                    if k < n {
                        assert(old(self).free@[k] != i) by {
                            assert(old(self).free@.contains(old(self).free@[k]));
                        }
                    }
                }
                assert(self.free@.no_duplicates()) by {
                    assert forall|x: int, y: int| 0 <= x < self.free@.len() && 0 <= y
                        < self.free@.len() && x != y implies self.free@[x] != self.free@[y] by {
                        if x < n {
                            assert(old(self).free@.contains(old(self).free@[x]));
                        }
                        if y < n {
                            assert(old(self).free@.contains(old(self).free@[y]));
                        }
                    }
                }
            }
        }
    }

    /// Puts `cell` in place of what `b` holds; that becomes spare.
    fn replace(
        &mut self,
        b: IVec3,
        cell: Cell,
        Ghost(spares): Ghost<Set<u32>>,
        Ghost(rough): Ghost<Option<u32>>,
    )
        requires
            old(self).linked_but(spares, rough),
            rough matches Some(r) ==> old(self).cell_of(b) == Cell::Brick(r),
            b.within(64),
            cell != old(self).cell_of(b),
            cell matches Cell::Brick(i) ==> spares.contains(i) && old(
                self,
            ).bricks@[i as int].mixed(),
        ensures
            final(self).linked(
                exchange(spares, cell, old(self).cell_of(b)),
            ),
            forall|a: int, m: int, c: int|
                children(a, m, c) ==> #[trigger] final(self).cell_at(a, m, c) == if a == top(b)
                    && m == mid(b) && c == low(b) {
                    cell
                } else {
                    old(self).cell_at(a, m, c)
                },
            final(self).bricks@ == old(self).bricks@,
            final(self).free@ == old(self).free@,
            final(self).id == old(self).id,
            final(self).dirty_bricks@ == old(self).dirty_bricks@,
            final(self).structure_dirty,
    {
        let (a, m, c) = path(b);
        self.structure_dirty = true;
        let l2 = self.root.get_or_insert_with(a, blank_l2);
        let ghost first = *l2;
        let gone: bool = l2.put(m, c, cell);
        let ghost after = *l2;
        if gone {
            self.root.remove(a);
        }
        proof {
            lemma_path(b);
            assert forall|x: int, y: int, z: int| children(x, y, z) implies
                #[trigger] self.cell_at(x, y, z) == if x == a && y == m && z == c {
                cell
            } else {
                old(self).cell_at(x, y, z)
            } by {
                if x == a {
                    assert(first.cell(y, z) == old(self).cell_at(x, y, z));
                    assert(after.cell(y, z) == if y == m && z == c {
                        cell
                    } else {
                        first.cell(y, z)
                    });
                    lemma_no_bits(0);
                } else {
                    assert(self.root.at(x) == old(self).root.at(x));
                }
            }
            assert forall|x: int| 0 <= x < 64 implies (#[trigger] self.root.at(x) matches Some(n)
                ==> n.wf()) by {
                assert(old(self).root.at(x) matches Some(n) ==> n.wf());
            }
            lemma_relink(*old(self), *self, top(b), mid(b), low(b), cell, spares, rough);
        }
    }

    /// `replace`, with what `b` held released.
    fn assign(
        &mut self,
        b: IVec3,
        cell: Cell,
        Ghost(spares): Ghost<Set<u32>>,
        Ghost(rough): Ghost<Option<u32>>,
    )
        requires
            old(self).linked_but(spares, rough),
            rough matches Some(r) ==> old(self).cell_of(b) == Cell::Brick(r),
            b.within(64),
            cell != old(self).cell_of(b),
            cell matches Cell::Brick(i) ==> spares.contains(i) && old(
                self,
            ).bricks@[i as int].mixed(),
        ensures
            final(self).linked(
                match cell {
                    Cell::Brick(i) => spares.remove(i),
                    _ => spares,
                },
            ),
            forall|d: IVec3|
                d.within(64) ==> #[trigger] final(self).cell_of(d) == if d == b {
                    cell
                } else {
                    old(self).cell_of(d)
                },
            final(self).bricks@.len() == old(self).bricks@.len(),
            forall|k: int|
                0 <= k < old(self).bricks@.len() && !(old(self).cell_of(b) matches Cell::Brick(i)
                    && i == k) ==> #[trigger] final(self).bricks@[k] == old(self).bricks@[k],
            forall|d: IVec3|
                d.within(64) && d != b ==> #[trigger] final(self).cell_voxels(d) == old(
                    self,
                ).cell_voxels(d) && final(self).cell_states(d) == old(self).cell_states(d),
            forall|d: IVec3|
                d.within(64) && d != b ==> (#[trigger] final(self).cell_of(d) matches Cell::Brick(i)
                    ==> i < old(self).bricks@.len() && final(self).bricks@[i as int] == old(
                    self,
                ).bricks@[i as int]),
            final(self).id == old(self).id,
            final(self).dirty_bricks@ == old(self).dirty_bricks@,
            final(self).structure_dirty,
    {
        let was: Cell = self.look(b);
        self.replace(b, cell, Ghost(spares), Ghost(rough));
        let ghost half = *self;
        let ghost rest = exchange(spares, cell, was);
        self.release(was, Ghost(rest));
        proof {
            lemma_same_root(half, *self);
            lemma_path(b);
            assert forall|d: IVec3| d.within(64) implies #[trigger] self.cell_of(d) == if d == b {
                cell
            } else {
                old(self).cell_of(d)
            } by {
                lemma_path(d);
                assert(half.cell_at(top(d), mid(d), low(d)) == self.cell_of(d));
            }
            assert forall|d: IVec3| d.within(64) && d != b implies (#[trigger] self.cell_of(d)
                matches Cell::Brick(i) ==> i < old(self).bricks@.len() && self.bricks@[i as int]
                == old(self).bricks@[i as int]) by {
                lemma_path(d);
                assert(old(self).cell_at(top(d), mid(d), low(d)) == self.cell_of(d));
            }
            assert forall|d: IVec3| d.within(64) && d != b implies #[trigger] self.cell_voxels(d)
                == old(self).cell_voxels(d) && self.cell_states(d) == old(self).cell_states(d) by {
                assert(self.cell_of(d) == old(self).cell_of(d));
            }
            let kept = match cell {
                Cell::Brick(i) => spares.remove(i),
                _ => spares,
            };
            if let Cell::Brick(j) = was {
                assert(!spares.contains(j)) by {
                    assert(old(self).cell_at(top(b), mid(b), low(b)) == Cell::Brick(j));
                }
                assert(rest.remove(j) =~= kept);
            }
        }
    }

    /// Replaces a brick cell. Uniform nodes on the path split as needed and
    /// the path re-collapses afterwards. Only the cell's own brick may be
    /// named: bricks come in through `set_brick`.
    pub fn set_cell(&mut self, b: IVec3, cell: Cell)
        requires
            old(self).wf(),
            b.within(64),
            cell is Brick ==> cell == old(self).cell_of(b),
        ensures
            final(self).wf(),
            forall|d: IVec3|
                d.within(64) ==> #[trigger] final(self).cell_of(d) == if d == b {
                    cell
                } else {
                    old(self).cell_of(d)
                },
            forall|d: IVec3|
                d.within(64) && d != b ==> #[trigger] final(self).cell_voxels(d) == old(
                    self,
                ).cell_voxels(d) && final(self).cell_states(d) == old(self).cell_states(d),
            forall|d: IVec3|
                d.within(64) && d != b ==> #[trigger] final(self).brick_of(d) == old(
                    self,
                ).brick_of(d),
            cell == old(self).cell_of(b) ==> *final(self) == *old(self),
            final(self).records_since(*old(self)),
            final(self).restructured() == (old(self).restructured() || cell != old(self).cell_of(b)),
            final(self).touched() == old(self).touched(),
            final(self).number() == old(self).number(),
    {
        if self.look(b) == cell {
            return;
        }
        self.assign(b, cell, Ghost(Set::empty()), Ghost(None));
    }

    /// Marks slab index `i` as written.
    fn touch(&mut self, i: u32)
        requires
            exists|spares: Set<u32>| old(self).linked(spares),
            i < old(self).bricks@.len(),
        ensures
            forall|spares: Set<u32>| old(self).linked(spares) ==> final(self).linked(spares),
            final(self).root == old(self).root,
            final(self).bricks@ == old(self).bricks@,
            final(self).id == old(self).id,
            final(self).structure_dirty == old(self).structure_dirty,
            final(self).touched() == old(self).touched().insert(i),
            forall|d: IVec3| #[trigger] final(self).cell_of(d) == old(self).cell_of(d),
    {
        self.dirty_bricks.push(i);
        proof {
            lemma_same_root(*old(self), *self);
            let n = old(self).dirty_bricks@.len() as int;
            assert forall|j: u32| #[trigger] self.touched().contains(j) == old(
                self,
            ).touched().insert(i).contains(j) by {
                if j == i {
                    assert(self.dirty_bricks@[n] == i);
                }
                if old(self).touched().contains(j) {
                    let k = choose|k: int| 0 <= k < n && old(self).dirty_bricks@[k] == j;
                    assert(self.dirty_bricks@[k] == j);
                }
                if self.touched().contains(j) {
                    let k = choose|k: int| 0 <= k < n + 1 && self.dirty_bricks@[k] == j;
                    if k < n {
                        assert(old(self).dirty_bricks@[k] == j);
                    }
                }
            }
            assert(self.touched() =~= old(self).touched().insert(i));
        }
    }

    /// Writes a brick over the one that `b` uses.
    fn overwrite(&mut self, b: IVec3, i: u32, brick: Brick)
        requires
            old(self).wf(),
            b.within(64),
            old(self).cell_of(b) == Cell::Brick(i),
            brick.wf(),
            brick.mixed(),
        ensures
            final(self).wf(),
            final(self).cell_of(b) == Cell::Brick(i),
            final(self).cell_voxels(b) == brick.voxels(),
            final(self).cell_states(b) == brick.states(),
            forall|d: IVec3|
                d.within(64) && d != b ==> #[trigger] final(self).cell_of(d) == old(self).cell_of(d)
                    && final(self).cell_voxels(d) == old(self).cell_voxels(d)
                    && final(self).cell_states(d) == old(self).cell_states(d),
            forall|d: IVec3|
                d.within(64) && d != b ==> #[trigger] final(self).brick_of(d) == old(
                    self,
                ).brick_of(d),
            final(self).brick_of(b) == Some(brick),
            final(self).records_since(*old(self)),
            final(self).records_edit(*old(self), b),
            final(self).number() == old(self).number(),
    {
        proof {
            lemma_path(b);
        }
        self.bricks[i as usize] = brick;
        proof {
            lemma_roughen(*old(self), *self, b, i);
            lemma_smooth(*self, i);
        }
        let ghost half = *self;
        self.touch(i);
        proof {
            lemma_same_root(half, *self);
            assert forall|d: IVec3| d.within(64) && d != b implies #[trigger] self.cell_of(d)
                == old(self).cell_of(d) && self.cell_voxels(d) == old(self).cell_voxels(d)
                && self.cell_states(d) == old(self).cell_states(d) by {
                assert(half.cell_voxels(d) == old(self).cell_voxels(d));
            }
            assert forall|d: IVec3| d.within(64) && d != b implies #[trigger] self.brick_of(d)
                == old(self).brick_of(d) by {
                assert(half.cell_of(d) == old(self).cell_of(d));
            }
        }
    }

    /// Gives `b` a brick of its own.
    fn add_brick(&mut self, b: IVec3, brick: Brick)
        requires
            old(self).wf(),
            b.within(64),
            !(old(self).cell_of(b) is Brick),
            brick.wf(),
            brick.mixed(),
        ensures
            final(self).wf(),
            final(self).cell_of(b) is Brick,
            final(self).cell_voxels(b) == brick.voxels(),
            final(self).cell_states(b) == brick.states(),
            forall|d: IVec3|
                d.within(64) && d != b ==> #[trigger] final(self).cell_of(d) == old(self).cell_of(d)
                    && final(self).cell_voxels(d) == old(self).cell_voxels(d)
                    && final(self).cell_states(d) == old(self).cell_states(d),
            forall|d: IVec3|
                d.within(64) && d != b ==> #[trigger] final(self).brick_of(d) == old(
                    self,
                ).brick_of(d),
            final(self).brick_of(b) == Some(brick),
            final(self).records_since(*old(self)),
            final(self).records_edit(*old(self), b),
            final(self).number() == old(self).number(),
    {
        let i: u32 = self.alloc_brick(brick);
        let ghost half = *self;
        proof {
            lemma_same_root(*old(self), half);
            assert(half.cell_of(b) == old(self).cell_of(b));
        }
        self.assign(b, Cell::Brick(i), Ghost(Set::empty().insert(i)), Ghost(None));
        let ghost full = *self;
        assert(set![i].remove(i) =~= Set::<u32>::empty());
        self.touch(i);
        proof {
            lemma_same_root(full, *self);
            assert forall|d: IVec3| d.within(64) && d != b implies #[trigger] self.cell_of(d)
                == old(self).cell_of(d) && self.cell_voxels(d) == old(self).cell_voxels(d)
                && self.cell_states(d) == old(self).cell_states(d) && (self.cell_of(d)
                matches Cell::Brick(k) ==> self.slab()[k as int] == old(self).slab()[k as int]) by {
                lemma_path(d);
                assert(half.cell_of(d) == old(self).cell_of(d));
                assert(full.cell_of(d) == half.cell_of(d));
                if let Cell::Brick(k) = self.cell_of(d) {
                    assert(old(self).cell_at(top(d), mid(d), low(d)) == Cell::Brick(k));
                    assert(k != i);
                    assert(k < old(self).bricks@.len());
                }
            }
            assert forall|d: IVec3| d.within(64) && d != b implies #[trigger] self.brick_of(d)
                == old(self).brick_of(d) by {
                assert(self.cell_of(d) == old(self).cell_of(d));
            }
        }
    }

    /// Stores a brick, collapsing it to `Empty` or `Uniform` when possible.
    pub fn set_brick(&mut self, b: IVec3, brick: Brick)
        requires
            old(self).wf(),
            b.within(64),
            brick.wf(),
        ensures
            final(self).wf(),
            final(self).cell_voxels(b) == brick.voxels(),
            final(self).cell_states(b) == kept_states(brick.voxels(), brick.states()),
            fits(final(self).cell_of(b), brick.voxels(), brick.stateful()),
            final(self).cell_of(b) is Brick ==> final(self).brick_of(b) == Some(brick),
            forall|d: IVec3|
                d.within(64) && d != b ==> #[trigger] final(self).cell_of(d) == old(self).cell_of(d)
                    && final(self).cell_voxels(d) == old(self).cell_voxels(d)
                    && final(self).cell_states(d) == old(self).cell_states(d),
            forall|d: IVec3|
                d.within(64) && d != b ==> #[trigger] final(self).brick_of(d) == old(
                    self,
                ).brick_of(d),
            final(self).records_since(*old(self)),
            final(self).records_edit(*old(self), b),
            final(self).number() == old(self).number(),
    {
        proof {
            brick.lemma_shape();
            lemma_fits(brick.voxels(), brick);
        }
        if brick.is_empty() {
            assert(brick.voxels() =~= solid_voxels(air()));
            self.set_cell(b, Cell::Empty);
            assert forall|d: IVec3| d.within(64) && d != b implies #[trigger] self.cell_of(d)
                == old(self).cell_of(d) && self.cell_voxels(d) == old(self).cell_voxels(d)
                && self.cell_states(d) == old(self).cell_states(d) by {
                assert(self.cell_voxels(d) == old(self).cell_voxels(d));
            }
            return;
        }
        assert(brick.voxels() != solid_voxels(air()));
        if let Some(m) = brick.uniform() {
            assert(brick.voxels() =~= solid_voxels(m));
            assert(brick.states() =~= calm_states());
            self.set_cell(b, Cell::Uniform(m));
            assert forall|d: IVec3| d.within(64) && d != b implies #[trigger] self.cell_of(d)
                == old(self).cell_of(d) && self.cell_voxels(d) == old(self).cell_voxels(d)
                && self.cell_states(d) == old(self).cell_states(d) by {
                assert(self.cell_voxels(d) == old(self).cell_voxels(d));
            }
            return;
        }
        if let Cell::Brick(i) = self.look(b) {
            self.overwrite(b, i, brick);
        } else {
            self.add_brick(b, brick);
        }
    }

    /// Voxel lookup, `v` in `0..512` chunk-local voxels.
    pub fn voxel(&self, v: IVec3) -> (m: MaterialId)
        requires
            self.wf(),
            v.within(512),
        ensures
            m == self.voxel_of(v),
    {
        let b: IVec3 = v.div(8);
        let l: IVec3 = v.rem(8);
        proof {
            lemma_path(b);
            assert(b == cell_part(v) && l == brick_part(v));
        }
        match self.look(b) {
            Cell::Empty => MaterialId(0),
            Cell::Uniform(m) => m,
            Cell::Brick(i) => self.bricks[i as usize].get(l),
        }
    }

    /// Stores what became of the brick that `b` uses: by its slab index if
    /// only a brick can hold it, else as an empty or uniform cell.
    fn settle(&mut self, b: IVec3, i: u32)
        requires
            old(self).linked_but(Set::empty(), Some(i)),
            b.within(64),
            old(self).cell_of(b) == Cell::Brick(i),
            i < old(self).bricks@.len(),
        ensures
            final(self).wf(),
            final(self).cell_voxels(b) == old(self).cell_voxels(b),
            final(self).cell_states(b) == kept_states(
                old(self).cell_voxels(b),
                old(self).cell_states(b),
            ),
            fits(
                final(self).cell_of(b),
                old(self).cell_voxels(b),
                old(self).bricks@[i as int].stateful(),
            ),
            final(self).cell_of(b) is Brick ==> final(self).cell_of(b) == Cell::Brick(i)
                && final(self).brick_of(b) == old(self).brick_of(b),
            forall|d: IVec3|
                d.within(64) && d != b ==> #[trigger] final(self).cell_of(d) == old(self).cell_of(d)
                    && final(self).cell_voxels(d) == old(self).cell_voxels(d)
                    && final(self).cell_states(d) == old(self).cell_states(d),
            forall|d: IVec3|
                d.within(64) && d != b ==> (#[trigger] final(self).cell_of(d) matches Cell::Brick(k)
                    ==> final(self).slab()[k as int] == old(self).slab()[k as int]),
            final(self).records_edit(*old(self), b),
            final(self).number() == old(self).number(),
    {
        let ghost brick = self.bricks@[i as int];
        proof {
            brick.lemma_shape();
            lemma_fits(brick.voxels(), brick);
        }
        if self.bricks[i as usize].is_empty() {
            assert(brick.voxels() =~= solid_voxels(air()));
            self.assign(b, Cell::Empty, Ghost(Set::empty()), Ghost(Some(i)));
            assert forall|d: IVec3| d.within(64) && d != b implies #[trigger] self.cell_of(d)
                == old(self).cell_of(d) && self.cell_voxels(d) == old(self).cell_voxels(d)
                && self.cell_states(d) == old(self).cell_states(d) by {
                assert(self.cell_voxels(d) == old(self).cell_voxels(d));
            }
            return;
        }
        assert(brick.voxels() != solid_voxels(air()));
        if let Some(m) = self.bricks[i as usize].uniform() {
            assert(brick.voxels() =~= solid_voxels(m));
            assert(brick.states() =~= calm_states());
            self.assign(b, Cell::Uniform(m), Ghost(Set::empty()), Ghost(Some(i)));
            assert forall|d: IVec3| d.within(64) && d != b implies #[trigger] self.cell_of(d)
                == old(self).cell_of(d) && self.cell_voxels(d) == old(self).cell_voxels(d)
                && self.cell_states(d) == old(self).cell_states(d) by {
                assert(self.cell_voxels(d) == old(self).cell_voxels(d));
            }
            return;
        }
        proof {
            lemma_smooth(*self, i);
        }
        self.touch(i);
        proof {
            lemma_same_root(*old(self), *self);
        }
    }

    /// Sets a voxel; returns the previous material. Writing what is there
    /// already changes nothing.
    pub fn set_voxel(&mut self, v: IVec3, mat: MaterialId) -> (was: MaterialId)
        requires
            old(self).wf(),
            v.within(512),
            has_room(old(self).cell_voxels(cell_part(v)), mat),
        ensures
            final(self).wf(),
            was == old(self).voxel_of(v),
            was == mat ==> *final(self) == *old(self),
            wrote(*old(self), *final(self), v, mat),
            final(self).cell_voxels(cell_part(v)) == old(self).cell_voxels(cell_part(v)).update(
                vindex(brick_part(v)),
                mat,
            ),
            was != mat ==> final(self).cell_states(cell_part(v)) == kept_states(
                final(self).cell_voxels(cell_part(v)),
                old(self).cell_states(cell_part(v)),
            ),
            was != mat ==> fits(
                final(self).cell_of(cell_part(v)),
                final(self).cell_voxels(cell_part(v)),
                old(self).keeps_states(cell_part(v)),
            ),
            was != mat ==> final(self).keeps_states(cell_part(v)) == (old(self).keeps_states(
                cell_part(v),
            ) && final(self).cell_of(cell_part(v)) is Brick),
            forall|d: IVec3|
                d.within(64) && d != cell_part(v) ==> #[trigger] final(self).cell_of(d) == old(
                    self,
                ).cell_of(d) && final(self).cell_voxels(d) == old(self).cell_voxels(d)
                    && final(self).cell_states(d) == old(self).cell_states(d),
            forall|d: IVec3|
                d.within(64) && d != cell_part(v) ==> #[trigger] final(self).brick_of(d) == old(
                    self,
                ).brick_of(d),
            final(self).records_since(*old(self)),
            was != mat ==> final(self).records_edit(*old(self), cell_part(v)),
            final(self).number() == old(self).number(),
    {
        let b: IVec3 = v.div(8);
        let l: IVec3 = v.rem(8);
        let ghost start = *self;
        let ghost voxels = self.cell_voxels(b);
        let ghost at = vindex(l);
        proof {
            lemma_path(b);
            assert(b == cell_part(v) && l == brick_part(v));
            self.lemma_cells();
            assert(voxels.len() == 512);
        }
        let was: MaterialId = self.voxel(v);
        if was == mat {
            proof {
                lemma_vindex(l);
                assert(voxels =~= voxels.update(at, mat));
                lemma_voxels(start, *self, v, mat);
            }
            return was;
        }
        match self.look(b) {
            Cell::Brick(i) => {
                self.bricks[i as usize].set(l, mat);
                proof {
                    lemma_roughen(start, *self, b, i);
                }
                let ghost half = *self;
                self.settle(b, i);
                proof {
                    assert forall|d: IVec3| d.within(64) && d != b implies #[trigger] self.cell_of(
                        d,
                    ) == start.cell_of(d) && self.cell_voxels(d) == start.cell_voxels(d)
                        && self.cell_states(d) == start.cell_states(d) by {
                        assert(half.cell_of(d) == start.cell_of(d));
                        assert(half.cell_voxels(d) == start.cell_voxels(d));
                    }
                    assert forall|d: IVec3| d.within(64) && d != b implies #[trigger] self.brick_of(
                        d,
                    ) == start.brick_of(d) by {
                        assert(self.cell_of(d) == start.cell_of(d));
                        assert(half.cell_of(d) == start.cell_of(d));
                    }
                }
            },
            other => {
                let mut brick: Brick = match other {
                    Cell::Uniform(u) => Brick::filled(u),
                    _ => Brick::empty(),
                };
                assert(brick.voxels() == solid_voxels(was));
                brick.set(l, mat);
                proof {
                    brick.lemma_shape();
                    lemma_vindex(l);
                    let new = brick.voxels();
                    assert(new[at] == mat);
                    let k = if at == 0 {
                        1int
                    } else {
                        0
                    };
                    assert(new[k] == was);
                    assert(new[k] != mat);
                    assert(new != solid_voxels(air()));
                    assert(brick.states() =~= calm_states());
                }
                self.set_brick(b, brick);
            },
        }
        proof {
            lemma_voxels(start, *self, v, mat);
        }
        was
    }

    /// Mutable access to a brick cell as a full brick, materialising uniform
    /// or empty cells, then renormalising after `f` runs.
    pub fn edit_brick<R>(&mut self, b: IVec3, f: impl FnOnce(&mut Brick) -> R) -> (r: R)
        requires
            old(self).wf(),
            b.within(64),
            forall|x: &mut Brick|
                x.wf() && x.voxels() == old(self).cell_voxels(b) && x.states() == old(
                    self,
                ).cell_states(b) ==> #[trigger] f.requires((x,)),
            forall|x: &mut Brick, q: R|
                x.wf() && x.voxels() == old(self).cell_voxels(b) && x.states() == old(
                    self,
                ).cell_states(b) && #[trigger] f.ensures((x,), q) ==> final(x).wf(),
        ensures
            final(self).wf(),
            exists|x: &mut Brick|
                #![trigger f.ensures((x,), r)]
                x.wf() && x.voxels() == old(self).cell_voxels(b) && x.states() == old(
                    self,
                ).cell_states(b) && f.ensures((x,), r) && final(self).cell_voxels(b)
                    == final(x).voxels() && final(self).cell_states(b) == kept_states(
                    final(x).voxels(),
                    final(x).states(),
                ) && fits(
                    final(self).cell_of(b),
                    final(x).voxels(),
                    final(x).states() != calm_states(),
                ),
            final(self).keeps_states(b) == (final(self).cell_states(b) != calm_states()),
            forall|d: IVec3|
                d.within(64) && d != b ==> #[trigger] final(self).cell_of(d) == old(self).cell_of(d)
                    && final(self).cell_voxels(d) == old(self).cell_voxels(d)
                    && final(self).cell_states(d) == old(self).cell_states(d),
            forall|d: IVec3|
                d.within(64) && d != b ==> #[trigger] final(self).brick_of(d) == old(
                    self,
                ).brick_of(d),
            final(self).records_since(*old(self)),
            final(self).records_edit(*old(self), b),
            final(self).number() == old(self).number(),
    {
        proof {
            lemma_path(b);
            self.lemma_cells();
        }
        match self.look(b) {
            Cell::Brick(i) => {
                let brick = &mut self.bricks[i as usize];
                let r: R = f(brick);
                brick.compact_state();
                let ghost half = *self;
                proof {
                    lemma_calm(self.bricks@[i as int]);
                    lemma_roughen(*old(self), *self, b, i);
                }
                self.settle(b, i);
                proof {
                    assert forall|d: IVec3| d.within(64) && d != b implies #[trigger] self.cell_of(
                        d,
                    ) == old(self).cell_of(d) && self.cell_voxels(d) == old(self).cell_voxels(d)
                        && self.cell_states(d) == old(self).cell_states(d) by {
                        assert(half.cell_of(d) == old(self).cell_of(d));
                        assert(half.cell_voxels(d) == old(self).cell_voxels(d));
                    }
                    assert forall|d: IVec3| d.within(64) && d != b implies #[trigger] self.brick_of(
                        d,
                    ) == old(self).brick_of(d) by {
                        assert(self.cell_of(d) == old(self).cell_of(d));
                        assert(half.cell_of(d) == old(self).cell_of(d));
                    }
                }
                r
            },
            other => {
                let mut brick: Brick = match other {
                    Cell::Uniform(u) => Brick::filled(u),
                    _ => Brick::empty(),
                };
                proof {
                    brick.lemma_shape();
                    assert(brick.states() =~= calm_states());
                }
                let r: R = f(&mut brick);
                brick.compact_state();
                proof {
                    lemma_calm(brick);
                }
                self.set_brick(b, brick);
                r
            },
        }
    }

    /// Bricks in use.
    pub fn brick_count(&self) -> (n: usize)
        requires
            self.wf(),
        ensures
            self.live().finite(),
            n == self.live().len(),
            n == brick_slots(listed(self.nodes(), 64)).len(),
    {
        proof {
            lemma_live(*self);
            bricks_in_use_are_listed(*self);
        }
        self.bricks.len() - self.free.len()
    }

    /// Releases every brick of a 2 m node that left the tree.
    fn release_l1(&mut self, l1: &L1, Ghost(spares): Ghost<Set<u32>>)
        requires
            old(self).linked(spares),
            l1.wf(),
            bricks_of_l1(*l1, 64).subset_of(spares),
            forall|c: int, d: int|
                0 <= c < 64 && 0 <= d < 64 && #[trigger] l1.cell(c) == #[trigger] l1.cell(d)
                    && l1.cell(c) is Brick ==> c == d,
        ensures
            final(self).linked(spares.difference(bricks_of_l1(*l1, 64))),
            final(self).root == old(self).root,
            final(self).id == old(self).id,
            final(self).structure_dirty == old(self).structure_dirty,
            final(self).dirty_bricks@ == old(self).dirty_bricks@,
            final(self).bricks@.len() == old(self).bricks@.len(),
            forall|k: u32|
                k < old(self).bricks@.len() && !bricks_of_l1(*l1, 64).contains(k)
                    ==> #[trigger] final(self).bricks@[k as int] == old(self).bricks@[k as int],
    {
        if let L1::Cells(cells) = l1 {
            let mut c: u32 = 0;
            assert(spares.difference(bricks_of_l1(*l1, 0)) =~= spares);
            while c < 64
                invariant
                    c <= 64,
                    *l1 == L1::Cells(*cells),
                    cells.wf(),
                    self.linked(spares.difference(bricks_of_l1(*l1, c as int))),
                    bricks_of_l1(*l1, 64).subset_of(spares),
                    forall|c: int, d: int|
                        0 <= c < 64 && 0 <= d < 64 && #[trigger] l1.cell(c) == #[trigger] l1.cell(d)
                            && l1.cell(c) is Brick ==> c == d,
                    self.root == old(self).root,
                    self.id == old(self).id,
                    self.structure_dirty == old(self).structure_dirty,
                    self.dirty_bricks@ == old(self).dirty_bricks@,
                    self.bricks@.len() == old(self).bricks@.len(),
                    forall|k: u32|
                        k < old(self).bricks@.len() && !bricks_of_l1(*l1, 64).contains(k)
                            ==> #[trigger] self.bricks@[k as int] == old(self).bricks@[k as int],
                decreases 64 - c,
            {
                let ghost now = spares.difference(bricks_of_l1(*l1, c as int));
                let ghost cell = l1.cell(c as int);
                proof {
                    lemma_l1_step(*l1, c as int);
                    if let Cell::Brick(i) = cell {
                        assert(l1.cell(c as int) == Cell::Brick(i));
                        assert(bricks_of_l1(*l1, 64).contains(i));
                        assert(spares.difference(bricks_of_l1(*l1, c + 1)) =~= now.remove(i));
                    } else {
                        assert(spares.difference(bricks_of_l1(*l1, c + 1)) =~= now);
                    }
                }
                if let Some(held) = cells.get(c) {
                    self.release(*held, Ghost(now));
                }
                c += 1;
            }
        } else {
            assert(spares.difference(bricks_of_l1(*l1, 64)) =~= spares);
        }
    }

    /// Releases every brick of an 8 m node that left the tree.
    fn release_l2(&mut self, l2: &L2, Ghost(spares): Ghost<Set<u32>>)
        requires
            old(self).linked(spares),
            l2.wf(),
            bricks_of_l2(*l2, 64).subset_of(spares),
            forall|m: int, c: int, n: int, d: int|
                0 <= m < 64 && 0 <= c < 64 && 0 <= n < 64 && 0 <= d < 64 && #[trigger] l2.cell(m, c)
                    == #[trigger] l2.cell(n, d) && l2.cell(m, c) is Brick ==> m == n && c == d,
        ensures
            final(self).linked(spares.difference(bricks_of_l2(*l2, 64))),
            final(self).root == old(self).root,
            final(self).id == old(self).id,
            final(self).structure_dirty == old(self).structure_dirty,
            final(self).dirty_bricks@ == old(self).dirty_bricks@,
            final(self).bricks@.len() == old(self).bricks@.len(),
            forall|k: u32|
                k < old(self).bricks@.len() && !bricks_of_l2(*l2, 64).contains(k)
                    ==> #[trigger] final(self).bricks@[k as int] == old(self).bricks@[k as int],
    {
        if let L2::Nodes(nodes) = l2 {
            let mut m: u32 = 0;
            assert(spares.difference(bricks_of_l2(*l2, 0)) =~= spares);
            while m < 64
                invariant
                    m <= 64,
                    *l2 == L2::Nodes(*nodes),
                    l2.wf(),
                    self.linked(spares.difference(bricks_of_l2(*l2, m as int))),
                    bricks_of_l2(*l2, 64).subset_of(spares),
                    forall|m: int, c: int, n: int, d: int|
                        0 <= m < 64 && 0 <= c < 64 && 0 <= n < 64 && 0 <= d < 64
                            && #[trigger] l2.cell(m, c) == #[trigger] l2.cell(n, d) && l2.cell(m, c)
                            is Brick ==> m == n && c == d,
                    self.root == old(self).root,
                    self.id == old(self).id,
                    self.structure_dirty == old(self).structure_dirty,
                    self.dirty_bricks@ == old(self).dirty_bricks@,
                    self.bricks@.len() == old(self).bricks@.len(),
                    forall|k: u32|
                        k < old(self).bricks@.len() && !bricks_of_l2(*l2, 64).contains(k)
                            ==> #[trigger] self.bricks@[k as int] == old(self).bricks@[k as int],
                decreases 64 - m,
            {
                let ghost now = spares.difference(bricks_of_l2(*l2, m as int));
                match nodes.get(m) {
                    Some(l1) => {
                        proof {
                            lemma_l2_step(*l2, *l1, m as int);
                            assert forall|c: int, d: int|
                                0 <= c < 64 && 0 <= d < 64 && #[trigger] l1.cell(c)
                                    == #[trigger] l1.cell(d) && l1.cell(c) is Brick implies c
                                == d by {
                                assert(l2.cell(m as int, c) == l2.cell(m as int, d));
                            }
                            assert(bricks_of_l1(*l1, 64).subset_of(now));
                            assert(spares.difference(bricks_of_l2(*l2, m + 1)) =~= now.difference(
                                bricks_of_l1(*l1, 64),
                            ));
                        }
                        self.release_l1(l1, Ghost(now));
                    },
                    None => {
                        proof {
                            assert forall|i: u32| #[trigger] bricks_of_l2(*l2, m + 1).contains(
                                i,
                            ) == bricks_of_l2(*l2, m as int).contains(i) by {
                                if bricks_of_l2(*l2, m + 1).contains(i) {
                                    let (n, c) = choose|n: int, c: int|
                                        0 <= n < m + 1 && 0 <= c < 64 && #[trigger] l2.cell(n, c)
                                            == Cell::Brick(i);
                                    assert(n != m);
                                    assert(l2.cell(n, c) == Cell::Brick(i));
                                }
                            }
                            assert(bricks_of_l2(*l2, m + 1) =~= bricks_of_l2(*l2, m as int));
                        }
                    },
                }
                m += 1;
            }
        } else {
            assert(spares.difference(bricks_of_l2(*l2, 64)) =~= spares);
        }
    }

    /// Replaces a whole 8 m node with one material, or clears it.
    fn set_l2(&mut self, node: IVec3, material: MaterialId)
        requires
            old(self).wf(),
            node.within(4),
        ensures
            final(self).wf(),
            forall|a: int, m: int, c: int|
                children(a, m, c) ==> #[trigger] final(self).cell_at(a, m, c) == if a == cindex(
                    node.x as int,
                    node.y as int,
                    node.z as int,
                ) {
                    node_cell(material)
                } else {
                    old(self).cell_at(a, m, c)
                },
            forall|a: int, m: int, c: int|
                children(a, m, c) && a != cindex(node.x as int, node.y as int, node.z as int) ==> (
                #[trigger] final(self).cell_at(a, m, c) matches Cell::Brick(i)
                    ==> final(self).bricks@[i as int] == old(self).bricks@[i as int]),
            final(self).structure_dirty,
            final(self).dirty_bricks@ == old(self).dirty_bricks@,
            final(self).id == old(self).id,
    {
        let a: u32 = child_index(node);
        self.structure_dirty = true;
        let removed: Option<L2> = self.root.remove(a);
        let ghost cut = *self;
        if !material.is_air() {
            let slot = self.root.get_or_insert_with(a, blank_l2);
            *slot = L2::Uniform(material);
        }
        let ghost half = *self;
        let ghost spares = match &removed {
            Some(n) => bricks_of_l2(*n, 64),
            None => Set::empty(),
        };
        proof {
            assert forall|x: int, m: int, c: int| children(x, m, c) implies
                #[trigger] half.cell_at(x, m, c) == if x == a {
                node_cell(material)
            } else {
                old(self).cell_at(x, m, c)
            } by {
                assert(cut.root.at(x) == cut.root.at(x));
                assert(half.root.at(x) == half.root.at(x));
            }
            assert forall|x: int| 0 <= x < 64 implies (#[trigger] half.root.at(x) matches Some(n)
                ==> n.wf()) by {
                assert(cut.root.at(x) matches Some(n) ==> n.wf()) by {
                    assert(old(self).root.at(x) matches Some(n) ==> n.wf());
                }
            }
            assert forall|i: u32| #[trigger] spares.contains(i) == exists|x: int, y: int, c: int|
                children(x, y, c) && x == a && #[trigger] old(self).cell_at(x, y, c) == Cell::Brick(
                    i,
                ) by {
                if let Some(n) = &removed {
                    assert(old(self).root.at(a as int) == Some(*n));
                    if spares.contains(i) {
                        let (y, c) = choose|y: int, c: int|
                            0 <= y < 64 && 0 <= c < 64 && #[trigger] n.cell(y, c) == Cell::Brick(i);
                        assert(old(self).cell_at(a as int, y, c) == Cell::Brick(i));
                    }
                    if exists|x: int, y: int, c: int|
                        children(x, y, c) && x == a && #[trigger] old(self).cell_at(x, y, c)
                            == Cell::Brick(i) {
                        let (x, y, c) = choose|x: int, y: int, c: int|
                            children(x, y, c) && x == a && #[trigger] old(self).cell_at(x, y, c)
                                == Cell::Brick(i);
                        assert(n.cell(y, c) == Cell::Brick(i));
                    }
                }
            }
            lemma_cut(*old(self), half, spares, |x: int, m: int, c: int| x == a, material);
        }
        if let Some(was) = &removed {
            proof {
                assert(old(self).root.at(a as int) == Some(*was));
                assert forall|m: int, c: int, n: int, d: int|
                    0 <= m < 64 && 0 <= c < 64 && 0 <= n < 64 && 0 <= d < 64
                        && #[trigger] was.cell(m, c) == #[trigger] was.cell(n, d) && was.cell(
                        m,
                        c,
                    ) is Brick implies m == n && c == d by {
                    assert(old(self).cell_at(a as int, m, c) == old(self).cell_at(a as int, n, d));
                }
            }
            self.release_l2(was, Ghost(spares));
            assert(spares.difference(bricks_of_l2(*was, 64)) =~= Set::<u32>::empty());
        }
        proof {
            lemma_same_root(half, *self);
            assert forall|x: int, m: int, c: int| children(x, m, c) && x != a implies (
            #[trigger] self.cell_at(x, m, c) matches Cell::Brick(i) ==> self.bricks@[i as int]
                == old(self).bricks@[i as int]) by {
                assert(half.cell_at(x, m, c) == self.cell_at(x, m, c));
            }
        }
    }

    /// Replaces a whole 2 m node with one material, or clears it.
    fn set_l1(&mut self, node: IVec3, material: MaterialId)
        requires
            old(self).wf(),
            node.within(16),
        ensures
            final(self).wf(),
            forall|a: int, m: int, c: int|
                children(a, m, c) ==> #[trigger] final(self).cell_at(a, m, c) == if in_l1(
                    node,
                    a,
                    m,
                ) {
                    fill_cell(old(self).nodes().at(a), material)
                } else {
                    old(self).cell_at(a, m, c)
                },
            forall|a: int, m: int, c: int|
                children(a, m, c) && !in_l1(node, a, m) ==> (#[trigger] final(self).cell_at(a, m, c)
                    matches Cell::Brick(i) ==> final(self).bricks@[i as int] == old(
                    self,
                ).bricks@[i as int]),
            final(self).structure_dirty,
            final(self).dirty_bricks@ == old(self).dirty_bricks@,
            final(self).id == old(self).id,
    {
        let a: u32 = child_index(node.div(4));
        let m: u32 = child_index(node.rem(4));
        self.structure_dirty = true;
        proof {
            lemma_no_bits(0);
        }
        let keep: bool = match self.root.get(a) {
            Some(L2::Uniform(u)) => *u == material,
            Some(L2::Nodes(_)) => false,
            None => material.is_air(),
        };
        if keep {
            proof {
                lemma_same_root(*old(self), *self);
            }
            return;
        }
        let l2 = self.root.get_or_insert_with(a, blank_l2);
        let ghost first = *l2;
        let (gone, removed) = l2.put_node(m, material);
        let ghost after = *l2;
        if gone {
            self.root.remove(a);
        }
        let ghost half = *self;
        let ghost spares = match &removed {
            Some(n) => bricks_of_l1(*n, 64),
            None => Set::empty(),
        };
        proof {
            assert forall|x: int, y: int, c: int| children(x, y, c) implies
                #[trigger] half.cell_at(x, y, c) == if x == a && y == m {
                node_cell(material)
            } else {
                old(self).cell_at(x, y, c)
            } by {
                if x == a {
                    assert(first.cell(y, c) == old(self).cell_at(x, y, c));
                    assert(after.cell(y, c) == if y == m {
                        node_cell(material)
                    } else {
                        first.cell(y, c)
                    });
                } else {
                    assert(half.root.at(x) == old(self).root.at(x));
                }
            }
            assert forall|x: int| 0 <= x < 64 implies (#[trigger] half.root.at(x) matches Some(n)
                ==> n.wf()) by {
                assert(old(self).root.at(x) matches Some(n) ==> n.wf());
            }
            assert forall|i: u32| #[trigger] spares.contains(i) == exists|x: int, y: int, c: int|
                children(x, y, c) && x == a && y == m && #[trigger] old(self).cell_at(x, y, c)
                    == Cell::Brick(i) by {
                if let Some(n) = &removed {
                    if spares.contains(i) {
                        let c = choose|c: int| 0 <= c < 64 && #[trigger] n.cell(c) == Cell::Brick(i);
                        assert(first.cell(m as int, c) == Cell::Brick(i));
                        assert(old(self).cell_at(a as int, m as int, c) == Cell::Brick(i));
                    }
                    if exists|x: int, y: int, c: int|
                        children(x, y, c) && x == a && y == m && #[trigger] old(self).cell_at(x, y, c)
                            == Cell::Brick(i) {
                        let (x, y, c) = choose|x: int, y: int, c: int|
                            children(x, y, c) && x == a && y == m && #[trigger] old(self).cell_at(
                                x,
                                y,
                                c,
                            ) == Cell::Brick(i);
                        assert(first.cell(m as int, c) == Cell::Brick(i));
                        assert(n.cell(c) == Cell::Brick(i));
                    }
                } else {
                    assert forall|x: int, y: int, c: int| children(x, y, c) && x == a && y
                        == m implies #[trigger] old(self).cell_at(x, y, c) != Cell::Brick(i) by {
                        assert(first.cell(m as int, c) == old(self).cell_at(x, y, c));
                    }
                }
            }
            lemma_cut(*old(self), half, spares, |x: int, y: int, c: int| x == a && y == m, material);
        }
        if let Some(was) = &removed {
            proof {
                assert forall|c: int, d: int|
                    0 <= c < 64 && 0 <= d < 64 && #[trigger] was.cell(c) == #[trigger] was.cell(d)
                        && was.cell(c) is Brick implies c == d by {
                    assert(first.cell(m as int, c) == was.cell(c));
                    assert(first.cell(m as int, d) == was.cell(d));
                    assert(old(self).cell_at(a as int, m as int, c) == old(self).cell_at(
                        a as int,
                        m as int,
                        d,
                    ));
                }
            }
            self.release_l1(was, Ghost(spares));
            assert(spares.difference(bricks_of_l1(*was, 64)) =~= Set::<u32>::empty());
        }
        proof {
            lemma_same_root(half, *self);
            assert forall|x: int, y: int, c: int| children(x, y, c) && !(x == a && y == m) implies (
            #[trigger] self.cell_at(x, y, c) matches Cell::Brick(i) ==> self.bricks@[i as int]
                == old(self).bricks@[i as int]) by {
                assert(half.cell_at(x, y, c) == self.cell_at(x, y, c));
            }
        }
    }

    /// Replaces a whole 2 m node (`level` 1, `node` in `0..16`) or 8 m node
    /// (`level` 2, `node` in `0..4`) with one material, or clears it.
    pub fn set_node(&mut self, level: u32, node: IVec3, material: MaterialId)
        requires
            old(self).wf(),
            level == 1 && node.within(16) || level == 2 && node.within(4),
        ensures
            final(self).wf(),
            forall|b: IVec3|
                b.within(64) && in_node(b, node, if level == 1 { 4int } else { 16 })
                    ==> #[trigger] final(self).cell_of(b) == if level == 1 {
                    fill_cell(old(self).nodes().at(top(b)), material)
                } else {
                    node_cell(material)
                },
            forall|b: IVec3|
                b.within(64) && in_node(b, node, if level == 1 { 4int } else { 16 })
                    ==> #[trigger] final(self).cell_voxels(b) == solid_voxels(material),
            forall|b: IVec3|
                b.within(64) && !in_node(b, node, if level == 1 { 4int } else { 16 })
                    ==> #[trigger] final(self).cell_of(b) == old(self).cell_of(b)
                    && final(self).cell_voxels(b) == old(self).cell_voxels(b)
                    && final(self).cell_states(b) == old(self).cell_states(b),
            forall|b: IVec3|
                b.within(64) && !in_node(b, node, if level == 1 { 4int } else { 16 })
                    ==> #[trigger] final(self).brick_of(b) == old(self).brick_of(b),
            final(self).restructured(),
            final(self).touched() == old(self).touched(),
            final(self).records_since(*old(self)),
            final(self).number() == old(self).number(),
    {
        if level == 2 {
            self.set_l2(node, material);
        } else {
            self.set_l1(node, material);
        }
        proof {
            let edge = if level == 1 {
                4int
            } else {
                16
            };
            assert forall|b: IVec3| b.within(64) implies #[trigger] self.cell_of(b) == if in_node(
                b,
                node,
                edge,
            ) {
                if level == 1 {
                    fill_cell(old(self).nodes().at(top(b)), material)
                } else {
                    node_cell(material)
                }
            } else {
                old(self).cell_of(b)
            } by {
                lemma_path(b);
                if level == 1 {
                    lemma_in_l1(b, node);
                } else {
                    lemma_in_l2(b, node);
                }
                assert(self.cell_at(top(b), mid(b), low(b)) == self.cell_of(b));
            }
            assert forall|b: IVec3| b.within(64) && !in_node(b, node, edge) implies
                #[trigger] self.cell_of(b) == old(self).cell_of(b) && self.cell_voxels(b) == old(
                self,
            ).cell_voxels(b) && self.cell_states(b) == old(self).cell_states(b) && (self.cell_of(b)
                matches Cell::Brick(i) ==> self.bricks@[i as int] == old(self).bricks@[i as int])
                by {
                lemma_path(b);
                if level == 1 {
                    lemma_in_l1(b, node);
                } else {
                    lemma_in_l2(b, node);
                }
                assert(self.cell_at(top(b), mid(b), low(b)) == self.cell_of(b));
            }
            assert forall|b: IVec3| b.within(64) && !in_node(b, node, edge) implies
                #[trigger] self.brick_of(b) == old(self).brick_of(b) by {
                assert(self.cell_of(b) == old(self).cell_of(b));
            }
            assert forall|b: IVec3| b.within(64) && in_node(b, node, edge) implies
                #[trigger] self.cell_voxels(b) == solid_voxels(material) by {
                assert(self.cell_of(b) == if level == 1 {
                    fill_cell(old(self).nodes().at(top(b)), material)
                } else {
                    node_cell(material)
                });
            }
        }
    }

    /// Takes the dirty state: (structure changed, changed brick slab indices).
    /// The indices come in ascending order, each once.
    pub fn take_dirty(&mut self) -> (r: (bool, Vec<u32>))
        requires
            old(self).wf(),
        ensures
            final(self).wf(),
            r.0 == old(self).restructured(),
            forall|k: int, l: int| 0 <= k < l < r.1@.len() ==> r.1@[k] < r.1@[l],
            forall|i: u32|
                #[trigger] r.1@.contains(i) == (old(self).touched().contains(i) && old(
                    self,
                ).slab()[i as int].voxels() != solid_voxels(air())),
            forall|i: u32|
                old(self).touched().contains(i) && old(self).refers(i) ==> #[trigger] r.1@.contains(
                    i,
                ),
            forall|i: u32| #[trigger]
                r.1@.contains(i) ==> i < old(self).slab().len() && old(self).refers(i),
            !final(self).restructured(),
            final(self).touched() == Set::<u32>::empty(),
            final(self).slab() == old(self).slab(),
            final(self).nodes() == old(self).nodes(),
            final(self).number() == old(self).number(),
    {
        let mut bricks: Vec<u32> = Vec::new();
        let n: usize = self.dirty_bricks.len();
        let mut k: usize = 0;
        while k < n
            invariant
                *self == *old(self),
                self.wf(),
                n == self.dirty_bricks@.len(),
                k <= n,
                forall|x: int, y: int| 0 <= x < y < bricks@.len() ==> bricks@[x] < bricks@[y],
                forall|i: u32|
                    #[trigger] bricks@.contains(i) == (self.dirty_bricks@.take(
                        k as int,
                    ).contains(i) && self.slab()[i as int].voxels() != solid_voxels(air())),
            decreases n - k,
        {
            let i: u32 = self.dirty_bricks[k];
            let ghost seen = self.dirty_bricks@.take(k as int);
            let ghost next = self.dirty_bricks@.take(k + 1);
            let ghost before = bricks@;
            let empty: bool = self.bricks[i as usize].is_empty();
            proof {
                assert(next =~= seen.push(i));
                self.bricks@[i as int].lemma_shape();
                if empty {
                    assert(self.bricks@[i as int].voxels() =~= solid_voxels(air()));
                }
                assert(empty == (self.slab()[i as int].voxels() == solid_voxels(air())));
                assert forall|j: u32| #[trigger] next.contains(j) == (seen.contains(j) || j == i) by {
                    if seen.contains(j) {
                        let x = choose|x: int| 0 <= x < seen.len() && seen[x] == j;
                        assert(next[x] == j);
                    }
                    if j == i {
                        assert(next[k as int] == i);
                    }
                    if next.contains(j) {
                        let x = choose|x: int| 0 <= x < next.len() && next[x] == j;
                        if x < k {
                            assert(seen[x] == j);
                        }
                    }
                }
            }
            if !empty {
                insert_sorted(&mut bricks, i);
            }
            k += 1;
        }
        let changed: bool = self.structure_dirty;
        proof {
            assert(self.dirty_bricks@.take(n as int) =~= self.dirty_bricks@);
            assert forall|i: u32| self.touched().contains(i) && self.refers(
                i,
            ) implies #[trigger] bricks@.contains(i) by {
                let (a, m, c) = choose|a: int, m: int, c: int|
                    children(a, m, c) && #[trigger] self.cell_at(a, m, c) == Cell::Brick(i);
                assert(self.cell_at(a, m, c) == Cell::Brick(i));
                let brick = self.slab()[i as int];
                let p = choose|p: int| 0 <= p < 512 && #[trigger] brick.voxels()[p] != air();
                assert(solid_voxels(air())[p] == air());
            }
            assert forall|i: u32| #[trigger] bricks@.contains(i) implies i < self.slab().len()
                && self.refers(i) by {
                assert(self.touched().contains(i));
                let k = choose|k: int| 0 <= k < n && self.dirty_bricks@[k] == i;
                assert(self.dirty_bricks@[k] < self.bricks@.len());
                if self.free@.contains(i) {
                    let f = choose|f: int| 0 <= f < self.free@.len() && self.free@[f] == i;
                    assert(self.bricks@[self.free@[f] as int].voxels() == solid_voxels(air()));
                }
            }
        }
        self.dirty_bricks = Vec::new();
        self.structure_dirty = false;
        proof {
            lemma_same_root(*old(self), *self);
            assert(self.touched() =~= Set::<u32>::empty());
        }
        (changed, bricks)
    }
}

/// A tree with a node holds something.
pub proof fn lemma_something_held(t: ChunkTree)
    requires
        t.wf(),
        t.nodes().mask != 0,
    ensures
        exists|b: IVec3| b.within(64) && #[trigger] t.cell_of(b) != Cell::Empty,
{
    lemma_no_bits(t.root.mask);
    let a = choose|a: int| 0 <= a < 64 && bit(t.root.mask, a);
    assert(t.root.at(a) is Some);
    let n = t.root.at(a)->0;
    lemma_l2_holds(n);
    let (m, c) = choose|m: int, c: int|
        0 <= m < 64 && 0 <= c < 64 && #[trigger] n.cell(m, c) != Cell::Empty;
    lemma_unpath(a, m, c);
    assert(t.cell_of(cell_coord(a, m, c)) == t.cell_at(a, m, c));
}

/// A node in order holds something.
proof fn lemma_l1_holds(n: L1)
    requires
        n.wf(),
    ensures
        exists|c: int| 0 <= c < 64 && #[trigger] n.cell(c) != Cell::Empty,
{
    match n {
        L1::Uniform(u) => {
            assert(n.cell(0) != Cell::Empty);
        },
        L1::Cells(s) => {
            lemma_no_bits(s.mask);
            let c = choose|c: int| 0 <= c < 64 && bit(s.mask, c);
            assert(s.at(c) != Some(Cell::Empty));
            assert(n.cell(c) != Cell::Empty);
        },
    }
}

proof fn lemma_l2_holds(n: L2)
    requires
        n.wf(),
    ensures
        exists|m: int, c: int| 0 <= m < 64 && 0 <= c < 64 && #[trigger] n.cell(m, c) != Cell::Empty,
{
    match n {
        L2::Uniform(u) => {
            assert(n.cell(0, 0) != Cell::Empty);
        },
        L2::Nodes(s) => {
            lemma_no_bits(s.mask);
            let m = choose|m: int| 0 <= m < 64 && bit(s.mask, m);
            let n1 = s.at(m)->0;
            assert(n1.wf());
            lemma_l1_holds(n1);
            let c = choose|c: int| 0 <= c < 64 && #[trigger] n1.cell(c) != Cell::Empty;
            assert(n.cell(m, c) != Cell::Empty);
        },
    }
}

/// Spares after `new` takes the place of `was`.
spec fn exchange(spares: Set<u32>, new: Cell, was: Cell) -> Set<u32> {
    let rest = match new {
        Cell::Brick(i) => spares.remove(i),
        _ => spares,
    };
    match was {
        Cell::Brick(j) => rest.insert(j),
        _ => rest,
    }
}

/// Trees with one root have the same cells.
proof fn lemma_same_root(s: ChunkTree, t: ChunkTree)
    requires
        s.root == t.root,
    ensures
        forall|a: int, m: int, c: int|
            #![trigger s.cell_at(a, m, c)]
            #![trigger t.cell_at(a, m, c)]
            s.cell_at(a, m, c) == t.cell_at(a, m, c),
        forall|i: u32|
            #![trigger s.refers(i)]
            #![trigger t.refers(i)]
            s.refers(i) == t.refers(i),
{
    assert forall|i: u32| #[trigger] s.refers(i) == t.refers(i) by {
        if s.refers(i) {
            let (a, m, c) = choose|a: int, m: int, c: int|
                children(a, m, c) && #[trigger] s.cell_at(a, m, c) == Cell::Brick(i);
            assert(t.cell_at(a, m, c) == Cell::Brick(i));
        }
        if t.refers(i) {
            let (a, m, c) = choose|a: int, m: int, c: int|
                children(a, m, c) && #[trigger] t.cell_at(a, m, c) == Cell::Brick(i);
            assert(s.cell_at(a, m, c) == Cell::Brick(i));
        }
    }
}

/// One cell changed, nothing else: the slots are still accounted for.
proof fn lemma_relink(
    s: ChunkTree,
    t: ChunkTree,
    a: int,
    m: int,
    c: int,
    cell: Cell,
    spares: Set<u32>,
    rough: Option<u32>,
)
    requires
        s.linked_but(spares, rough),
        rough matches Some(r) ==> s.cell_at(a, m, c) == Cell::Brick(r),
        children(a, m, c),
        cell != s.cell_at(a, m, c),
        cell matches Cell::Brick(i) ==> spares.contains(i) && s.bricks@[i as int].mixed(),
        t.root.wf(),
        forall|x: int| 0 <= x < 64 ==> (#[trigger] t.root.at(x) matches Some(n) ==> n.wf()),
        t.bricks@ == s.bricks@,
        t.free@ == s.free@,
        t.dirty_bricks@ == s.dirty_bricks@,
        forall|x: int, y: int, z: int|
            children(x, y, z) ==> #[trigger] t.cell_at(x, y, z) == if x == a && y == m && z == c {
                cell
            } else {
                s.cell_at(x, y, z)
            },
    ensures
        t.linked(exchange(spares, cell, s.cell_at(a, m, c))),
{
    let was = s.cell_at(a, m, c);
    let next = exchange(spares, cell, was);
    assert forall|x: int, y: int, z: int| children(x, y, z) implies (#[trigger] t.cell_at(x, y, z)
        matches Cell::Brick(i) ==> {
        &&& i < t.bricks@.len()
        &&& t.bricks@[i as int].mixed()
        &&& !t.free@.contains(i)
        &&& !next.contains(i)
    }) by {
        if let Cell::Brick(i) = t.cell_at(x, y, z) {
            if x == a && y == m && z == c {
                assert(spares.contains(i));
                assert(was != Cell::Brick(i));
            } else {
                assert(s.cell_at(x, y, z) == Cell::Brick(i));
                if let Cell::Brick(j) = was {
                    assert(j != i);
                }
            }
        }
    }
    assert forall|x: int, y: int, z: int, x2: int, y2: int, z2: int|
        children(x, y, z) && children(x2, y2, z2) && #[trigger] t.cell_at(x, y, z)
            == #[trigger] t.cell_at(x2, y2, z2) && t.cell_at(x, y, z) is Brick implies x == x2 && y
        == y2 && z == z2 by {
        let p = x == a && y == m && z == c;
        let q = x2 == a && y2 == m && z2 == c;
        if !p && !q {
            assert(s.cell_at(x, y, z) == s.cell_at(x2, y2, z2));
        } else if p && !q {
            assert(s.cell_at(x2, y2, z2) == cell);
        } else if q && !p {
            assert(s.cell_at(x, y, z) == cell);
        }
    }
    assert forall|i: u32| i < t.bricks@.len() implies #[trigger] t.free@.contains(i)
        || next.contains(i) || t.refers(i) by {
        if !s.free@.contains(i) {
            if cell == Cell::Brick(i) {
                assert(t.cell_at(a, m, c) == Cell::Brick(i));
            } else if !spares.contains(i) {
                assert(s.refers(i));
                let (x, y, z) = choose|x: int, y: int, z: int|
                    children(x, y, z) && #[trigger] s.cell_at(x, y, z) == Cell::Brick(i);
                assert(s.cell_at(x, y, z) == Cell::Brick(i));
                if x == a && y == m && z == c {
                    assert(next.contains(i));
                } else {
                    assert(t.cell_at(x, y, z) == Cell::Brick(i));
                }
            }
        }
    }
}

/// With no free slot and none spare, each slot belongs to another cell, and
/// a chunk has 64^3 of those.
proof fn lemma_slab_bound(t: ChunkTree)
    requires
        t.wf(),
        t.free@.len() == 0,
    ensures
        t.bricks@.len() <= 262144,
{
    let n = t.bricks@.len() as int;
    if n > 262144 {
        let place = |i: int|
            {
                let (a, m, c) = choose|a: int, m: int, c: int|
                    children(a, m, c) && #[trigger] t.cell_at(a, m, c) == Cell::Brick(i as u32);
                a * 4096 + m * 64 + c
            };
        let some = vstd::set_lib::set_int_range(0, 262145);
        let cells = vstd::set_lib::set_int_range(0, 262144);
        vstd::set_lib::lemma_int_range(0, 262145);
        vstd::set_lib::lemma_int_range(0, 262144);
        assert forall|i: int| some.contains(i) implies 0 <= #[trigger] place(i) < 262144 by {
            lemma_place(t, i);
        }
        assert forall|i: int, j: int|
            some.contains(i) && some.contains(j) && #[trigger] place(i) == #[trigger] place(
                j,
            ) implies i == j by {
            lemma_place(t, i);
            lemma_place(t, j);
        }
        let image = some.map(place);
        vstd::set_lib::lemma_map_size(some, image, place);
        assert(image.subset_of(cells));
        vstd::set_lib::lemma_len_subset(image, cells);
    }
}

/// Where slot `i` is used.
proof fn lemma_place(t: ChunkTree, i: int)
    requires
        t.wf(),
        t.free@.len() == 0,
        0 <= i <= 262144 < t.bricks@.len(),
    ensures
        ({
            let (a, m, c) = choose|a: int, m: int, c: int|
                children(a, m, c) && #[trigger] t.cell_at(a, m, c) == Cell::Brick(i as u32);
            &&& children(a, m, c)
            &&& t.cell_at(a, m, c) == Cell::Brick(i as u32)
            &&& (a * 4096 + m * 64 + c) / 4096 == a
            &&& (a * 4096 + m * 64 + c) / 64 % 64 == m
            &&& (a * 4096 + m * 64 + c) % 64 == c
            &&& 0 <= a * 4096 + m * 64 + c < 262144
        }),
{
    assert(!t.free@.contains(i as u32));
    assert(t.refers(i as u32));
    let (a, m, c) = choose|a: int, m: int, c: int|
        children(a, m, c) && #[trigger] t.cell_at(a, m, c) == Cell::Brick(i as u32);
    let n = a * 4096 + m * 64 + c;
    assert(n / 64 == a * 64 + m);
}

/// The brick of `b` written in place, whatever became of it.
proof fn lemma_roughen(s: ChunkTree, t: ChunkTree, b: IVec3, i: u32)
    requires
        s.wf(),
        b.within(64),
        s.cell_of(b) == Cell::Brick(i),
        t.root == s.root,
        t.free@ == s.free@,
        t.dirty_bricks@ == s.dirty_bricks@,
        t.bricks@ == s.bricks@.update(i as int, t.bricks@[i as int]),
        t.bricks@[i as int].wf(),
    ensures
        t.linked_but(Set::empty(), Some(i)),
        i < t.bricks@.len(),
        forall|d: IVec3| #[trigger] t.cell_of(d) == s.cell_of(d),
        forall|d: IVec3|
            d.within(64) && d != b ==> #[trigger] t.cell_voxels(d) == s.cell_voxels(d)
                && t.cell_states(d) == s.cell_states(d),
        forall|d: IVec3|
            d.within(64) && d != b ==> (#[trigger] t.cell_of(d) matches Cell::Brick(k)
                ==> t.bricks@[k as int] == s.bricks@[k as int]),
{
    lemma_same_root(s, t);
    lemma_path(b);
    assert(s.cell_at(top(b), mid(b), low(b)) == Cell::Brick(i));
    assert forall|k: int| 0 <= k < t.free@.len() implies (#[trigger] t.free@[k]) < t.bricks@.len()
        && t.bricks@[t.free@[k] as int].voxels() == solid_voxels(air()) by {
        assert(s.free@.contains(s.free@[k]));
    }
    assert forall|d: IVec3| d.within(64) && d != b implies (#[trigger] t.cell_of(d)
        matches Cell::Brick(k) ==> t.bricks@[k as int] == s.bricks@[k as int]) by {
        lemma_path(d);
        assert(s.cell_at(top(d), mid(d), low(d)) == t.cell_of(d));
        if t.cell_of(d) == Cell::Brick(i) {
            s.bricks_are_not_shared(b, d);
        }
    }
    assert forall|d: IVec3| d.within(64) && d != b implies #[trigger] t.cell_voxels(d)
        == s.cell_voxels(d) && t.cell_states(d) == s.cell_states(d) by {
        assert(t.cell_of(d) == s.cell_of(d));
    }
}

/// A rough brick that turns out to need a brick is like any other.
proof fn lemma_smooth(t: ChunkTree, i: u32)
    requires
        t.linked_but(Set::empty(), Some(i)),
        t.bricks@[i as int].mixed(),
    ensures
        t.wf(),
{
}

/// What only a brick can store, told from its contents.
proof fn lemma_fits(v: Seq<MaterialId>, k: Brick)
    requires
        k.wf(),
        v == k.voxels(),
    ensures
        k.mixed() == (v != solid_voxels(air()) && (k.stateful() || v != solid_voxels(v[0]))),
{
    k.lemma_shape();
    if v != solid_voxels(air()) {
        assert(!(v =~= solid_voxels(air())));
        assert(exists|i: int| 0 <= i < 512 && #[trigger] v[i] != air());
    }
    if v != solid_voxels(v[0]) {
        assert(!(v =~= solid_voxels(v[0])));
        assert(exists|i: int| 0 <= i < 512 && #[trigger] v[i] != v[0]);
    }
}

/// Whether any state is left, told from all of them.
proof fn lemma_calm(k: Brick)
    requires
        k.wf(),
    ensures
        (exists|i: int| 0 <= i < 512 && k.states()[i] != calm()) == (k.states() != calm_states()),
{
    k.lemma_shape();
    if k.states() != calm_states() {
        assert(!(k.states() =~= calm_states()));
    }
}

/// From cells to voxels: one voxel of one cell changed.
proof fn lemma_voxels(s: ChunkTree, t: ChunkTree, v: IVec3, m: MaterialId)
    requires
        v.within(512),
        s.cell_voxels(cell_part(v)).len() == 512,
        t.cell_voxels(cell_part(v)) == s.cell_voxels(cell_part(v)).update(vindex(brick_part(v)), m),
        forall|d: IVec3|
            d.within(64) && d != cell_part(v) ==> #[trigger] t.cell_of(d) == s.cell_of(d)
                && t.cell_voxels(d) == s.cell_voxels(d),
    ensures
        forall|w: IVec3|
            w.within(512) ==> #[trigger] t.voxel_of(w) == if w == v {
                m
            } else {
                s.voxel_of(w)
            },
{
    assert forall|w: IVec3| w.within(512) implies #[trigger] t.voxel_of(w) == if w == v {
        m
    } else {
        s.voxel_of(w)
    } by {
        let d = cell_part(w);
        assert(d.within(64));
        if d != cell_part(v) {
            assert(t.cell_of(d) == s.cell_of(d));
        } else if w != v {
            let (p, q) = (brick_part(w), brick_part(v));
            assert(p != q);
            lemma_vindex(p);
            lemma_vindex(q);
        }
        lemma_vindex(brick_part(w));
        lemma_vindex(brick_part(v));
    }
}

/// A voxel's index gives its place back.
pub proof fn lemma_vindex(l: IVec3)
    requires
        l.within(8),
    ensures
        0 <= vindex(l) < 512,
        vindex(l) % 8 == l.x,
        vindex(l) / 8 % 8 == l.z,
        vindex(l) / 64 == l.y,
{
}

/// One more cell of a 2 m node counted.
proof fn lemma_l1_step(n1: L1, c: int)
    requires
        0 <= c < 64,
        forall|x: int, y: int|
            0 <= x < 64 && 0 <= y < 64 && #[trigger] n1.cell(x) == #[trigger] n1.cell(y)
                && n1.cell(x) is Brick ==> x == y,
    ensures
        match n1.cell(c) {
            Cell::Brick(i) => !bricks_of_l1(n1, c).contains(i) && bricks_of_l1(n1, c + 1)
                == bricks_of_l1(n1, c).insert(i),
            _ => bricks_of_l1(n1, c + 1) == bricks_of_l1(n1, c),
        },
{
    let now = bricks_of_l1(n1, c);
    let next = bricks_of_l1(n1, c + 1);
    assert forall|i: u32| #[trigger] next.contains(i) == (now.contains(i) || n1.cell(c)
        == Cell::Brick(i)) by {
        if next.contains(i) {
            let d = choose|d: int| 0 <= d < c + 1 && #[trigger] n1.cell(d) == Cell::Brick(i);
            if d < c {
                assert(n1.cell(d) == Cell::Brick(i));
            }
        }
        if now.contains(i) {
            let d = choose|d: int| 0 <= d < c && #[trigger] n1.cell(d) == Cell::Brick(i);
            assert(n1.cell(d) == Cell::Brick(i));
        }
    }
    match n1.cell(c) {
        Cell::Brick(i) => {
            assert(next =~= now.insert(i));
        },
        _ => {
            assert(next =~= now);
        },
    }
}

/// One more 2 m node counted.
proof fn lemma_l2_step(n2: L2, n1: L1, m: int)
    requires
        0 <= m < 64,
        forall|c: int| 0 <= c < 64 ==> #[trigger] n2.cell(m, c) == n1.cell(c),
        forall|x: int, c: int, y: int, d: int|
            0 <= x < 64 && 0 <= c < 64 && 0 <= y < 64 && 0 <= d < 64 && #[trigger] n2.cell(x, c)
                == #[trigger] n2.cell(y, d) && n2.cell(x, c) is Brick ==> x == y && c == d,
    ensures
        bricks_of_l2(n2, m + 1) == bricks_of_l2(n2, m).union(bricks_of_l1(n1, 64)),
        bricks_of_l2(n2, m).disjoint(bricks_of_l1(n1, 64)),
        bricks_of_l1(n1, 64).subset_of(bricks_of_l2(n2, 64)),
{
    let now = bricks_of_l2(n2, m);
    let next = bricks_of_l2(n2, m + 1);
    let more = bricks_of_l1(n1, 64);
    assert forall|i: u32| #[trigger] next.contains(i) == (now.contains(i) || more.contains(i)) by {
        if next.contains(i) {
            let (x, c) = choose|x: int, c: int|
                0 <= x < m + 1 && 0 <= c < 64 && #[trigger] n2.cell(x, c) == Cell::Brick(i);
            if x < m {
                assert(n2.cell(x, c) == Cell::Brick(i));
            } else {
                assert(n1.cell(c) == Cell::Brick(i));
            }
        }
        if now.contains(i) {
            let (x, c) = choose|x: int, c: int|
                0 <= x < m && 0 <= c < 64 && #[trigger] n2.cell(x, c) == Cell::Brick(i);
            assert(n2.cell(x, c) == Cell::Brick(i));
        }
        if more.contains(i) {
            let c = choose|c: int| 0 <= c < 64 && #[trigger] n1.cell(c) == Cell::Brick(i);
            assert(n2.cell(m, c) == Cell::Brick(i));
        }
    }
    assert(next =~= now.union(more));
    assert forall|i: u32| #[trigger] more.contains(i) implies !now.contains(i)
        && bricks_of_l2(n2, 64).contains(i) by {
        let c = choose|c: int| 0 <= c < 64 && #[trigger] n1.cell(c) == Cell::Brick(i);
        assert(n2.cell(m, c) == Cell::Brick(i));
        if now.contains(i) {
            let (x, d) = choose|x: int, d: int|
                0 <= x < m && 0 <= d < 64 && #[trigger] n2.cell(x, d) == Cell::Brick(i);
            assert(n2.cell(x, d) == n2.cell(m, c));
        }
    }
}

/// Slots in use are the slots that are not free.
proof fn lemma_live(t: ChunkTree)
    requires
        t.wf(),
    ensures
        t.free@.len() <= t.bricks@.len(),
        t.live().finite(),
        t.live().len() == t.bricks@.len() - t.free@.len(),
{
    let n = t.bricks@.len() as int;
    let all = vstd::set_lib::set_int_range(0, n);
    vstd::set_lib::lemma_int_range(0, n);
    let free_ints = t.free@.map_values(|x: u32| x as int);
    assert(free_ints.no_duplicates()) by {
        assert forall|x: int, y: int| 0 <= x < free_ints.len() && 0 <= y < free_ints.len() && x
            != y implies free_ints[x] != free_ints[y] by {
            assert(t.free@[x] != t.free@[y]);
        }
    }
    free_ints.unique_seq_to_set();
    let gone = free_ints.to_set();
    assert(gone.subset_of(all));
    vstd::set_lib::lemma_len_subset(gone, all);
    vstd::set_lib::lemma_len_difference(all, gone);
    let used = all.difference(gone);
    vstd::set_lib::lemma_set_disjoint_lens(used, gone);
    assert(used.union(gone) =~= all);
    assert forall|i: u32| #[trigger] t.live().contains(i) implies used.contains(i as int) by {
        let (a, m, c) = choose|a: int, m: int, c: int|
            children(a, m, c) && #[trigger] t.cell_at(a, m, c) == Cell::Brick(i);
        assert(t.cell_at(a, m, c) == Cell::Brick(i));
        assert(!t.free@.contains(i));
        if gone.contains(i as int) {
            let k = choose|k: int| 0 <= k < free_ints.len() && free_ints[k] == i as int;
            assert(t.free@[k] == i);
        }
    }
    assert forall|k: int| #[trigger] used.contains(k) implies t.live().contains(k as u32) by {
        if t.free@.contains(k as u32) {
            let x = choose|x: int| 0 <= x < t.free@.len() && t.free@[x] == k as u32;
            assert(free_ints[x] == k);
        }
        assert(t.refers(k as u32));
    }
    let back = |k: int| k as u32;
    let named = used.map(back);
    assert forall|i: u32| #[trigger] named.contains(i) == t.live().contains(i) by {
        if t.live().contains(i) {
            assert(used.contains(i as int));
            assert(back(i as int) == i);
        }
    }
    assert(named =~= t.live());
    assert forall|x: int, y: int|
        used.contains(x) && used.contains(y) && #[trigger] back(x) == #[trigger] back(
            y,
        ) implies x == y by {}
    vstd::set_lib::lemma_map_size(used, named, back);
}

/// Node `m` of node `a` is the 2 m node at `node`.
pub(crate) open spec fn in_l1(node: IVec3, a: int, m: int) -> bool {
    &&& a == cindex(node.x as int / 4, node.y as int / 4, node.z as int / 4)
    &&& m == cindex(node.x as int % 4, node.y as int % 4, node.z as int % 4)
}

/// A region cleared or filled: the bricks that were in it are spare.
proof fn lemma_cut(
    s: ChunkTree,
    t: ChunkTree,
    spares: Set<u32>,
    region: spec_fn(int, int, int) -> bool,
    u: MaterialId,
)
    requires
        s.wf(),
        t.root.wf(),
        forall|x: int| 0 <= x < 64 ==> (#[trigger] t.root.at(x) matches Some(n) ==> n.wf()),
        t.bricks@ == s.bricks@,
        t.free@ == s.free@,
        t.dirty_bricks@ == s.dirty_bricks@,
        forall|a: int, m: int, c: int|
            children(a, m, c) ==> #[trigger] t.cell_at(a, m, c) == if region(a, m, c) {
                node_cell(u)
            } else {
                s.cell_at(a, m, c)
            },
        forall|i: u32|
            #[trigger] spares.contains(i) == exists|a: int, m: int, c: int|
                children(a, m, c) && region(a, m, c) && #[trigger] s.cell_at(a, m, c) == Cell::Brick(
                    i,
                ),
    ensures
        t.linked(spares),
{
    assert forall|a: int, m: int, c: int| children(a, m, c) implies (#[trigger] t.cell_at(a, m, c)
        matches Cell::Brick(i) ==> {
        &&& i < t.bricks@.len()
        &&& t.bricks@[i as int].mixed()
        &&& !t.free@.contains(i)
        &&& !spares.contains(i)
    }) by {
        if let Cell::Brick(i) = t.cell_at(a, m, c) {
            assert(s.cell_at(a, m, c) == Cell::Brick(i));
            if spares.contains(i) {
                let (x, y, z) = choose|x: int, y: int, z: int|
                    children(x, y, z) && region(x, y, z) && #[trigger] s.cell_at(x, y, z)
                        == Cell::Brick(i);
                assert(s.cell_at(x, y, z) == s.cell_at(a, m, c));
            }
        }
    }
    assert forall|a: int, m: int, c: int, a2: int, m2: int, c2: int|
        children(a, m, c) && children(a2, m2, c2) && #[trigger] t.cell_at(a, m, c)
            == #[trigger] t.cell_at(a2, m2, c2) && t.cell_at(a, m, c) is Brick implies a == a2 && m
        == m2 && c == c2 by {
        assert(s.cell_at(a, m, c) == s.cell_at(a2, m2, c2));
    }
    assert forall|i: u32| #[trigger] spares.contains(i) implies i < t.bricks@.len()
        && !t.free@.contains(i) by {
        let (x, y, z) = choose|x: int, y: int, z: int|
            children(x, y, z) && region(x, y, z) && #[trigger] s.cell_at(x, y, z) == Cell::Brick(i);
        assert(s.cell_at(x, y, z) == Cell::Brick(i));
    }
    assert forall|i: u32| i < t.bricks@.len() implies #[trigger] t.free@.contains(i)
        || spares.contains(i) || t.refers(i) by {
        if !s.free@.contains(i) && !spares.contains(i) {
            assert(s.refers(i));
            let (x, y, z) = choose|x: int, y: int, z: int|
                children(x, y, z) && #[trigger] s.cell_at(x, y, z) == Cell::Brick(i);
            assert(s.cell_at(x, y, z) == Cell::Brick(i));
            assert(t.cell_at(x, y, z) == Cell::Brick(i));
        }
    }
}

/// What the cells of a 2 m node become: a uniform parent of the same
/// material stays as it is.
pub open spec fn fill_cell(parent: Option<L2>, u: MaterialId) -> Cell {
    if parent == Some(L2::Uniform(u)) {
        Cell::Uniform(u)
    } else {
        node_cell(u)
    }
}

/// Brick cell `b` lies in the node at `node` whose edge is `edge` cells.
pub open spec fn in_node(b: IVec3, node: IVec3, edge: int) -> bool {
    b.x as int / edge == node.x && b.y as int / edge == node.y && b.z as int / edge == node.z
}

pub(crate) proof fn lemma_in_l2(b: IVec3, node: IVec3)
    requires
        b.within(64),
        node.within(4),
    ensures
        in_node(b, node, 16) == (top(b) == cindex(node.x as int, node.y as int, node.z as int)),
{
    lemma_cindex(b.x as int / 16, b.y as int / 16, b.z as int / 16);
    lemma_cindex(node.x as int, node.y as int, node.z as int);
}

pub(crate) proof fn lemma_in_l1(b: IVec3, node: IVec3)
    requires
        b.within(64),
        node.within(16),
    ensures
        in_node(b, node, 4) == in_l1(node, top(b), mid(b)),
{
    lemma_cindex(b.x as int / 16, b.y as int / 16, b.z as int / 16);
    lemma_cindex(b.x as int / 4 % 4, b.y as int / 4 % 4, b.z as int / 4 % 4);
    lemma_cindex(node.x as int / 4, node.y as int / 4, node.z as int / 4);
    lemma_cindex(node.x as int % 4, node.y as int % 4, node.z as int % 4);
    lemma_quarter(b.x as int);
    lemma_quarter(b.y as int);
    lemma_quarter(b.z as int);
    lemma_quarter_digits(node.x as int);
    lemma_quarter_digits(node.y as int);
    lemma_quarter_digits(node.z as int);
}

proof fn lemma_quarter(n: int)
    ensures
        n / 4 == n / 16 * 4 + n / 4 % 4,
{
    assert(n / 16 == n / 4 / 4);
}

proof fn lemma_quarter_digits(n: int)
    ensures
        n == n / 4 * 4 + n % 4,
{
}

/// Puts `i` in its place in an ascending list, once.
fn insert_sorted(v: &mut Vec<u32>, i: u32)
    requires
        forall|x: int, y: int| 0 <= x < y < old(v)@.len() ==> old(v)@[x] < old(v)@[y],
    ensures
        forall|x: int, y: int| 0 <= x < y < final(v)@.len() ==> final(v)@[x] < final(v)@[y],
        forall|j: u32| #[trigger] final(v)@.contains(j) == (old(v)@.contains(j) || j == i),
{
    let n: usize = v.len();
    let mut at: usize = n;
    while at > 0 && v[at - 1] >= i
        invariant
            n == v@.len(),
            at <= n,
            v@ == old(v)@,
            forall|x: int, y: int| 0 <= x < y < v@.len() ==> v@[x] < v@[y],
            forall|x: int| at <= x < n ==> v@[x] >= i,
        decreases at,
    {
        at -= 1;
    }
    if at < n && v[at] == i {
        assert forall|j: u32| #[trigger] v@.contains(j) == (old(v)@.contains(j) || j == i) by {
            assert(v@[at as int] == i);
        }
        return;
    }
    let ghost before = v@;
    v.insert(at, i);
    proof {
        assert forall|j: u32| #[trigger] v@.contains(j) == (before.contains(j) || j == i) by {
            if before.contains(j) {
                let x = choose|x: int| 0 <= x < n && before[x] == j;
                if x < at {
                    assert(v@[x] == j);
                } else {
                    assert(v@[x + 1] == j);
                }
            }
            if j == i {
                assert(v@[at as int] == i);
            }
            if v@.contains(j) {
                let x = choose|x: int| 0 <= x < n + 1 && v@[x] == j;
                if x < at {
                    assert(before[x] == j);
                } else if x > at {
                    assert(before[x - 1] == j);
                }
            }
        }
    }
}

/// A 2 m node all of whose cells are the same uniform material is stored as
/// that material.
pub proof fn solid_nodes_collapse(t: ChunkTree, a: int, m: int, u: MaterialId)
    requires
        t.wf(),
        0 <= a < 64,
        0 <= m < 64,
        forall|c: int| 0 <= c < 64 ==> #[trigger] t.cell_at(a, m, c) == Cell::Uniform(u),
    ensures
        t.nodes().at(a) == Some(L2::Uniform(u)) || (t.nodes().at(a) matches Some(L2::Nodes(n))
            && n.at(m) == Some(L1::Uniform(u))),
{
    t.lemma_cells();
    assert(t.cell_at(a, m, 0) == Cell::Uniform(u));
    if let L2::Nodes(n) = t.nodes().at(a)->0 {
        assert(t.nodes().at(a)->0.wf());
        assert(n.at(m)->0.wf());
        if let L1::Cells(s) = n.at(m)->0 {
            assert forall|c: int| 0 <= c < 64 implies #[trigger] s.at(c) == Some(
                Cell::Uniform(u),
            ) by {
                assert(t.cell_at(a, m, c) == Cell::Uniform(u));
            }
            assert(all_cells(s, u));
        }
    }
}

/// An 8 m node all of whose cells are the same uniform material is stored as
/// that material.
pub proof fn solid_regions_collapse(t: ChunkTree, a: int, u: MaterialId)
    requires
        t.wf(),
        0 <= a < 64,
        forall|m: int, c: int|
            0 <= m < 64 && 0 <= c < 64 ==> #[trigger] t.cell_at(a, m, c) == Cell::Uniform(u),
    ensures
        t.nodes().at(a) == Some(L2::Uniform(u)),
{
    t.lemma_cells();
    assert(t.cell_at(a, 0, 0) == Cell::Uniform(u));
    if let L2::Nodes(n) = t.nodes().at(a)->0 {
        assert(t.nodes().at(a)->0.wf());
        assert forall|m: int| 0 <= m < 64 implies #[trigger] n.at(m) == Some(L1::Uniform(u)) by {
            solid_nodes_collapse(t, a, m, u);
        }
        assert(all_nodes(n, u));
    }
}

/// Contents are stored in the least form that holds them: in a tidy tree
/// every cell is of the kind that its contents ask for.
pub proof fn cells_fit_their_contents(t: ChunkTree, b: IVec3)
    requires
        t.wf(),
        t.tidy(),
        b.within(64),
    ensures
        fits(t.cell_of(b), t.cell_voxels(b), t.keeps_states(b)),
{
    t.lemma_cells();
    match t.cell_of(b) {
        Cell::Empty => {},
        Cell::Uniform(m) => {
            assert(t.cell_voxels(b)[0] == m);
            assert(solid_voxels(air())[0] == air());
        },
        Cell::Brick(i) => {
            lemma_fits(t.slab()[i as int].voxels(), t.slab()[i as int]);
        },
    }
}

/// Air takes no room: a tidy tree whose voxels are all air is empty.
pub proof fn air_is_not_stored(t: ChunkTree)
    requires
        t.wf(),
        t.tidy(),
        forall|b: IVec3| b.within(64) ==> #[trigger] t.cell_voxels(b) == solid_voxels(air()),
    ensures
        t.nodes().mask == 0,
        t.live() == Set::<u32>::empty(),
{
    assert forall|b: IVec3| b.within(64) implies #[trigger] t.cell_of(b) == Cell::Empty by {
        cells_fit_their_contents(t, b);
        assert(t.cell_voxels(b) == solid_voxels(air()));
    }
    if t.nodes().mask != 0 {
        lemma_something_held(t);
    }
    assert forall|i: u32| !#[trigger] t.live().contains(i) by {
        if t.refers(i) {
            let (a, m, c) = choose|a: int, m: int, c: int|
                children(a, m, c) && #[trigger] t.cell_at(a, m, c) == Cell::Brick(i);
            lemma_unpath(a, m, c);
            assert(t.cell_of(cell_coord(a, m, c)) == Cell::Brick(i));
        }
    }
    assert(t.live() =~= Set::<u32>::empty());
}

/// Writing a voxel and then writing back what was there restores every voxel.
pub proof fn writing_back_restores(s: ChunkTree, t: ChunkTree, r: ChunkTree, v: IVec3, m: MaterialId)
    requires
        v.within(512),
        wrote(s, t, v, m),
        wrote(t, r, v, s.voxel_of(v)),
    ensures
        forall|w: IVec3| w.within(512) ==> #[trigger] r.voxel_of(w) == s.voxel_of(w),
{
    assert forall|w: IVec3| w.within(512) implies #[trigger] r.voxel_of(w) == s.voxel_of(w) by {
        assert(t.voxel_of(w) == if w == v {
            m
        } else {
            s.voxel_of(w)
        });
    }
}

/// `t` is `s` with voxel `v` made `m`.
pub open spec fn wrote(s: ChunkTree, t: ChunkTree, v: IVec3, m: MaterialId) -> bool {
    forall|w: IVec3|
        w.within(512) ==> #[trigger] t.voxel_of(w) == if w == v {
            m
        } else {
            s.voxel_of(w)
        }
}

/// Voxels `lo..=hi` of a brick.
pub open spec fn part_of(i: int, lo: IVec3, hi: IVec3) -> bool {
    &&& lo.x <= i % 8 <= hi.x
    &&& lo.y <= i / 64 <= hi.y
    &&& lo.z <= i / 8 % 8 <= hi.z
}

/// `v` with the voxels `lo..=hi` made `m`.
pub open spec fn part_filled(
    v: Seq<MaterialId>,
    lo: IVec3,
    hi: IVec3,
    m: MaterialId,
) -> Seq<MaterialId> {
    Seq::new(
        512,
        |i: int|
            if part_of(i, lo, hi) {
                m
            } else {
                v[i]
            },
    )
}

/// Sets the voxels `lo..=hi` of a brick.
fn fill_part(brick: &mut Brick, lo: IVec3, hi: IVec3, m: MaterialId)
    requires
        old(brick).wf(),
        lo.within(8),
        hi.within(8),
        has_room(old(brick).voxels(), m),
    ensures
        final(brick).wf(),
        final(brick).voxels() == part_filled(old(brick).voxels(), lo, hi, m),
        final(brick).states() == old(brick).states(),
{
    let ghost v = brick.voxels();
    proof {
        brick.lemma_shape();
    }
    let mut i: usize = 0;
    while i < 512
        invariant
            i <= 512,
            lo.within(8),
            hi.within(8),
            v.len() == 512,
            brick.wf(),
            brick.voxels().len() == 512,
            brick.states() == old(brick).states(),
            has_room(brick.voxels(), m),
            forall|j: int|
                0 <= j < 512 ==> #[trigger] brick.voxels()[j] == if j < i && part_of(j, lo, hi) {
                    m
                } else {
                    v[j]
                },
        decreases 512 - i,
    {
        let l: IVec3 = IVec3 { x: (i % 8) as i32, y: (i / 64) as i32, z: (i / 8 % 8) as i32 };
        assert(vindex(l) == i);
        let ghost before = brick.voxels();
        if lo.all_le(l) && l.all_le(hi) {
            brick.set(l, m);
            proof {
                assert(brick.voxels()[i as int] == m);
                assert(brick.voxels().contains(m));
            }
        }
        i += 1;
    }
    assert(brick.voxels() =~= part_filled(v, lo, hi, m));
}

impl ChunkTree {
    /// Sets the voxels `lo..=hi` of brick cell `b`.
    fn fill_cell_part(&mut self, b: IVec3, lo: IVec3, hi: IVec3, m: MaterialId)
        requires
            old(self).wf(),
            b.within(64),
            lo.within(8),
            hi.within(8),
            has_room(old(self).cell_voxels(b), m),
        ensures
            final(self).wf(),
            final(self).cell_voxels(b) == part_filled(old(self).cell_voxels(b), lo, hi, m),
            final(self).cell_states(b) == kept_states(
                final(self).cell_voxels(b),
                old(self).cell_states(b),
            ),
            fits(
                final(self).cell_of(b),
                final(self).cell_voxels(b),
                old(self).cell_states(b) != calm_states(),
            ),
            final(self).records_edit(*old(self), b),
            forall|d: IVec3|
                d.within(64) && d != b ==> #[trigger] final(self).cell_of(d) == old(self).cell_of(d)
                    && final(self).cell_voxels(d) == old(self).cell_voxels(d)
                    && final(self).cell_states(d) == old(self).cell_states(d),
            forall|d: IVec3|
                d.within(64) && d != b ==> #[trigger] final(self).brick_of(d) == old(
                    self,
                ).brick_of(d),
            final(self).records_since(*old(self)),
            final(self).number() == old(self).number(),
    {
        let edit = |brick: &mut Brick|
            requires
                old(brick).wf(),
                has_room(old(brick).voxels(), m),
            ensures
                final(brick).wf(),
                final(brick).voxels() == part_filled(old(brick).voxels(), lo, hi, m),
                final(brick).states() == old(brick).states(),
            { fill_part(brick, lo, hi, m) };
        self.edit_brick(b, edit);
    }
}

impl ChunkTree {
    /// Sets brick cell `b` as a whole, or its voxels `lo..=hi`.
    pub(crate) fn fill_cell(&mut self, b: IVec3, whole: bool, lo: IVec3, hi: IVec3, m: MaterialId)
        requires
            old(self).wf(),
            b.within(64),
            !whole ==> lo.within(8) && hi.within(8) && has_room(old(self).cell_voxels(b), m),
        ensures
            final(self).wf(),
            if whole {
                final(self).cell_of(b) == node_cell(m)
            } else {
                fits(
                    final(self).cell_of(b),
                    final(self).cell_voxels(b),
                    old(self).cell_states(b) != calm_states(),
                )
            },
            final(self).cell_voxels(b) == if whole {
                solid_voxels(m)
            } else {
                part_filled(old(self).cell_voxels(b), lo, hi, m)
            },
            !whole ==> final(self).cell_states(b) == kept_states(
                final(self).cell_voxels(b),
                old(self).cell_states(b),
            ),
            forall|d: IVec3|
                d.within(64) && d != b ==> #[trigger] final(self).cell_of(d) == old(self).cell_of(d)
                    && final(self).cell_voxels(d) == old(self).cell_voxels(d)
                    && final(self).cell_states(d) == old(self).cell_states(d)
                    && final(self).keeps_states(d) == old(self).keeps_states(d),
    {
        if whole {
            let cell: Cell = if m.is_air() {
                Cell::Empty
            } else {
                Cell::Uniform(m)
            };
            self.set_cell(b, cell);
        } else {
            self.fill_cell_part(b, lo, hi, m);
        }
        assert forall|d: IVec3| d.within(64) && d != b implies #[trigger] self.cell_of(d) == old(
            self,
        ).cell_of(d) && self.cell_voxels(d) == old(self).cell_voxels(d) && self.cell_states(d)
            == old(self).cell_states(d) && self.keeps_states(d) == old(self).keeps_states(d) by {
            assert(self.cell_voxels(d) == old(self).cell_voxels(d));
            assert(self.brick_of(d) == old(self).brick_of(d));
        }
    }
}

/// Lengths of the child arrays of the first `n` 8 m nodes that have one.
pub open spec fn node_lens(items: Seq<L2>, n: int) -> Seq<nat>
    decreases n,
{
    if n <= 0 {
        Seq::empty()
    } else {
        match items[n - 1] {
            L2::Nodes(s) => node_lens(items, n - 1).push(s.items@.len()),
            L2::Uniform(_) => node_lens(items, n - 1),
        }
    }
}

/// Lengths of the cell arrays of the first `n` 2 m nodes that have one.
pub open spec fn l1_lens(items: Seq<L1>, n: int) -> Seq<nat>
    decreases n,
{
    if n <= 0 {
        Seq::empty()
    } else {
        match items[n - 1] {
            L1::Cells(s) => l1_lens(items, n - 1).push(s.items@.len()),
            L1::Uniform(_) => l1_lens(items, n - 1),
        }
    }
}

/// Lengths of the cell arrays under the first `n` 8 m nodes.
pub open spec fn cell_lens(items: Seq<L2>, n: int) -> Seq<nat>
    decreases n,
{
    if n <= 0 {
        Seq::empty()
    } else {
        match items[n - 1] {
            L2::Nodes(s) => cell_lens(items, n - 1) + l1_lens(s.items@, s.items@.len() as int),
            L2::Uniform(_) => cell_lens(items, n - 1),
        }
    }
}

/// The fewest bytes that the first `n` bricks can take.
pub open spec fn least_bricks(bricks: Seq<Brick>, n: int) -> int
    decreases n,
{
    if n <= 0 {
        0
    } else {
        least_bricks(bricks, n - 1) + bricks[n - 1].least_bytes()
    }
}

/// Bytes of a tree whose root has room for `root` nodes, its 8 m nodes for
/// `nodes`, its 2 m nodes for `cells`, and whose bricks take `bricks`.
pub open spec fn tree_total(
    root: usize,
    nodes: Seq<usize>,
    cells: Seq<usize>,
    bricks: Seq<usize>,
) -> int {
    core::mem::size_of::<ChunkTree>() + root * core::mem::size_of::<L2>() + total(
        nodes,
        nodes.len() as int,
    ) * core::mem::size_of::<L1>() + total(cells, cells.len() as int) * core::mem::size_of::<Cell>()
        + total(bricks, bricks.len() as int)
}

/// Bytes of a tree, from the room that its arrays have and the bytes of its
/// bricks.
pub fn tree_bytes(root: usize, nodes: &Vec<usize>, cells: &Vec<usize>, bricks: &Vec<usize>) -> (n:
    usize)
    ensures
        n == capped(tree_total(root, nodes@, cells@, bricks@)),
{
    proof {
        lemma_total_bounds(nodes@, nodes@.len() as int);
        lemma_total_bounds(cells@, cells@.len() as int);
        lemma_total_bounds(bricks@, bricks@.len() as int);
        lemma_product(root as int, core::mem::size_of::<L2>() as int);
        lemma_product(total(nodes@, nodes@.len() as int), core::mem::size_of::<L1>() as int);
        lemma_product(total(cells@, cells@.len() as int), core::mem::size_of::<Cell>() as int);
    }
    let mut n: usize = grown(
        core::mem::size_of::<ChunkTree>(),
        root,
        core::mem::size_of::<L2>(),
    );
    n = grown_all(n, nodes, core::mem::size_of::<L1>());
    n = grown_all(n, cells, core::mem::size_of::<Cell>());
    grown_all(n, bricks, 1)
}

proof fn lemma_product(a: int, b: int)
    requires
        0 <= a,
        0 <= b,
    ensures
        0 <= a * b,
{
    assert(0 <= a * b) by (nonlinear_arith)
        requires
            0 <= a,
            0 <= b,
    ;
}

proof fn lemma_more_rows(a: int, b: int, each: int)
    requires
        a <= b,
        0 <= each,
    ensures
        a * each <= b * each,
{
    assert(a * each <= b * each) by (nonlinear_arith)
        requires
            a <= b,
            0 <= each,
    ;
}

/// The room in each 2 m node's cell array, in order.
fn cell_rooms(items: &Vec<L1>, caps: &mut Vec<usize>, Ghost(lens): Ghost<Seq<nat>>)
    requires
        roomy(old(caps)@, lens),
    ensures
        roomy(final(caps)@, lens + l1_lens(items@, items@.len() as int)),
{
    let mut j: usize = 0;
    assert(lens + l1_lens(items@, 0) =~= lens);
    while j < items.len()
        invariant
            j <= items@.len(),
            roomy(caps@, lens + l1_lens(items@, j as int)),
        decreases items@.len() - j,
    {
        let ghost so_far = l1_lens(items@, j as int);
        if let L1::Cells(c) = &items[j] {
            let room: usize = capacity(&c.items);
            proof {
                lemma_roomy_push(caps@, lens + so_far, room, c.items@.len());
                assert((lens + so_far).push(c.items@.len()) =~= lens + so_far.push(c.items@.len()));
            }
            caps.push(room);
        }
        j += 1;
    }
}

impl ChunkTree {
    /// Arrays of a tree may have this much room, and its bricks take these
    /// bytes.
    pub open spec fn allocates(
        &self,
        root: usize,
        nodes: Seq<usize>,
        cells: Seq<usize>,
        bricks: Seq<usize>,
    ) -> bool {
        let items = self.nodes().items@;
        &&& root >= items.len()
        &&& roomy(nodes, node_lens(items, items.len() as int))
        &&& roomy(cells, cell_lens(items, items.len() as int))
        &&& bricks.len() == self.slab().len()
        &&& forall|k: int| 0 <= k < bricks.len() ==> self.slab()[k].takes(#[trigger] bricks[k])
    }

    /// `n` bytes may be what the tree takes.
    pub open spec fn takes(&self, n: usize) -> bool {
        exists|root: usize, nodes: Seq<usize>, cells: Seq<usize>, bricks: Seq<usize>|
            #[trigger] self.allocates(root, nodes, cells, bricks) && n == capped(
                tree_total(root, nodes, cells, bricks),
            )
    }

    /// The fewest bytes that the tree can take: itself, its nodes and cells,
    /// and its bricks.
    pub open spec fn least_bytes(&self) -> int {
        let items = self.nodes().items@;
        let nodes = node_lens(items, items.len() as int);
        let cells = cell_lens(items, items.len() as int);
        core::mem::size_of::<ChunkTree>() + items.len() * core::mem::size_of::<L2>() + total_len(
            nodes,
            nodes.len() as int,
        ) * core::mem::size_of::<L1>() + total_len(cells, cells.len() as int)
            * core::mem::size_of::<Cell>() + least_bricks(self.slab(), self.slab().len() as int)
    }

    pub proof fn lemma_least(&self)
        ensures
            self.least_bytes() >= 0,
    {
        let items = self.nodes().items@;
        let nl = node_lens(items, items.len() as int);
        let cl = cell_lens(items, items.len() as int);
        lemma_total_len_bounds(nl, nl.len() as int);
        lemma_total_len_bounds(cl, cl.len() as int);
        lemma_product(items.len() as int, core::mem::size_of::<L2>() as int);
        lemma_product(total_len(nl, nl.len() as int), core::mem::size_of::<L1>() as int);
        lemma_product(total_len(cl, cl.len() as int), core::mem::size_of::<Cell>() as int);
        lemma_bricks_bounds(self.slab(), self.slab().len() as int);
    }

    pub proof fn lemma_takes(&self, n: usize)
        requires
            self.takes(n),
        ensures
            n >= capped(self.least_bytes()),
    {
        let (root, nodes, cells, bricks) = choose|
            root: usize,
            nodes: Seq<usize>,
            cells: Seq<usize>,
            bricks: Seq<usize>,
        | #[trigger]
            self.allocates(root, nodes, cells, bricks) && n == capped(
                tree_total(root, nodes, cells, bricks),
            );
        let items = self.nodes().items@;
        let nl = node_lens(items, items.len() as int);
        let cl = cell_lens(items, items.len() as int);
        let (a, b, c) = (
            core::mem::size_of::<L2>() as int,
            core::mem::size_of::<L1>() as int,
            core::mem::size_of::<Cell>() as int,
        );
        lemma_roomy(nodes, nl, nl.len() as int);
        lemma_roomy(cells, cl, cl.len() as int);
        lemma_more_rows(items.len() as int, root as int, a);
        lemma_more_rows(
            total_len(nl, nl.len() as int),
            total(nodes, nodes.len() as int),
            b,
        );
        lemma_more_rows(
            total_len(cl, cl.len() as int),
            total(cells, cells.len() as int),
            c,
        );
        lemma_product(items.len() as int, a);
        lemma_product(total_len(nl, nl.len() as int), b);
        lemma_product(total_len(cl, cl.len() as int), c);
        lemma_least_bricks(self.slab(), bricks, bricks.len() as int);
        lemma_bricks_bounds(self.slab(), self.slab().len() as int);
        lemma_total_bounds(bricks, bricks.len() as int);
    }

    /// Bytes allocated for the tree, its nodes, cells and bricks: what its
    /// allocator gave each array, which is never less than what is in it.
    pub fn memory_bytes(&self) -> (n: usize)
        ensures
            self.takes(n),
            n >= capped(self.least_bytes()),
    {
        let root: usize = capacity(&self.root.items);
        let mut nodes: Vec<usize> = Vec::new();
        let mut cells: Vec<usize> = Vec::new();
        let ghost items = self.root.items@;
        let mut i: usize = 0;
        while i < self.root.items.len()
            invariant
                items == self.root.items@,
                i <= items.len(),
                roomy(nodes@, node_lens(items, i as int)),
                roomy(cells@, cell_lens(items, i as int)),
            decreases items.len() - i,
        {
            if let L2::Nodes(s) = &self.root.items[i] {
                let room: usize = capacity(&s.items);
                proof {
                    lemma_roomy_push(nodes@, node_lens(items, i as int), room, s.items@.len());
                }
                nodes.push(room);
                cell_rooms(&s.items, &mut cells, Ghost(cell_lens(items, i as int)));
            }
            i += 1;
        }
        let mut bricks: Vec<usize> = Vec::new();
        let mut k: usize = 0;
        while k < self.bricks.len()
            invariant
                k <= self.bricks@.len(),
                bricks@.len() == k,
                forall|j: int| 0 <= j < k ==> self.bricks@[j].takes(#[trigger] bricks@[j]),
            decreases self.bricks@.len() - k,
        {
            bricks.push(self.bricks[k].memory_bytes());
            k += 1;
        }
        let n: usize = tree_bytes(root, &nodes, &cells, &bricks);
        proof {
            assert(self.allocates(root, nodes@, cells@, bricks@));
            self.lemma_takes(n);
        }
        n
    }
}

proof fn lemma_bricks_bounds(slab: Seq<Brick>, n: int)
    requires
        0 <= n <= slab.len(),
    ensures
        0 <= least_bricks(slab, n),
    decreases n,
{
    if n > 0 {
        lemma_bricks_bounds(slab, n - 1);
    }
}

proof fn lemma_least_bricks(slab: Seq<Brick>, bytes: Seq<usize>, n: int)
    requires
        bytes.len() == slab.len(),
        0 <= n <= bytes.len(),
        forall|k: int| 0 <= k < bytes.len() ==> slab[k].takes(#[trigger] bytes[k]),
    ensures
        capped(total(bytes, n)) >= capped(least_bricks(slab, n)),
    decreases n,
{
    if n > 0 {
        lemma_least_bricks(slab, bytes, n - 1);
        lemma_bricks_bounds(slab, n - 1);
        lemma_total_bounds(bytes, n - 1);
        assert(slab[n - 1].takes(bytes[n - 1]));
        slab[n - 1].lemma_takes(bytes[n - 1]);
    }
}

} // verus!
