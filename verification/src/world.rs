//! The loaded voxel world: chunk trees keyed by chunk position.

use crate::brick::palette::has_room;
use crate::brick::{vindex, Brick, VoxelState};
use crate::coords::{
    chunk_local, chunk_of, in_world_voxel, local_of, voxel_in_world, ChunkPos, VoxelPos,
    WORLD_VOXELS_XZ, WORLD_VOXELS_Y,
};
use crate::footprint::{capped, lemma_total_bounds, lemma_total_same, sum, total};
use crate::ivec::IVec3;
use crate::material::{air, MaterialId};
use crate::tree::node::{node_cell, Cell};
use crate::tree::{
    brick_part, calm_states, cell_part, fits, kept_states, lemma_something_held, lemma_vindex,
    part_filled, part_of, solid_voxels, ChunkTree,
};
use std::collections::hash_map::Entry;
use std::collections::{HashMap, HashSet};
use vstd::prelude::*;
use vstd::std_specs::iter::IteratorSpec;

verus! {

broadcast use vstd::std_specs::hash::group_hash_axioms;

/// A chunk position as one number, the key it is stored under.
#[verifier::opaque]
pub open spec fn packed(p: ChunkPos) -> u128 {
    ((p.0.x + 0x8000_0000) + (p.0.y + 0x8000_0000) * 0x1_0000_0000 + (p.0.z + 0x8000_0000)
        * 0x1_0000_0000_0000_0000) as u128
}

pub(crate) fn pack(p: ChunkPos) -> (k: u128)
    ensures
        k == packed(p),
{
    proof {
        reveal(packed);
    }
    let x: u128 = (p.0.x as i64 + 0x8000_0000) as u128;
    let y: u128 = (p.0.y as i64 + 0x8000_0000) as u128;
    let z: u128 = (p.0.z as i64 + 0x8000_0000) as u128;
    x + y * 0x1_0000_0000 + z * 0x1_0000_0000_0000_0000
}

/// The position stored under key `k`.
#[verifier::opaque]
pub open spec fn unpacked(k: u128) -> ChunkPos {
    ChunkPos(
        IVec3 {
            x: (k as int % 0x1_0000_0000 - 0x8000_0000) as i32,
            y: (k as int / 0x1_0000_0000 % 0x1_0000_0000 - 0x8000_0000) as i32,
            z: (k as int / 0x1_0000_0000_0000_0000 % 0x1_0000_0000 - 0x8000_0000) as i32,
        },
    )
}

pub(crate) fn unpack(k: u128) -> (p: ChunkPos)
    ensures
        p == unpacked(k),
{
    proof {
        reveal(unpacked);
    }
    let x: i64 = (k % 0x1_0000_0000) as i64 - 0x8000_0000;
    let y: i64 = (k / 0x1_0000_0000 % 0x1_0000_0000) as i64 - 0x8000_0000;
    let z: i64 = (k / 0x1_0000_0000_0000_0000 % 0x1_0000_0000) as i64 - 0x8000_0000;
    ChunkPos(IVec3 { x: x as i32, y: y as i32, z: z as i32 })
}

/// Each position has a key of its own.
pub proof fn lemma_packed(p: ChunkPos)
    ensures
        unpacked(packed(p)) == p,
{
    reveal(packed);
    reveal(unpacked);
    let x = p.0.x + 0x8000_0000;
    let y = p.0.y + 0x8000_0000;
    let z = p.0.z + 0x8000_0000;
    let k = x + y * 0x1_0000_0000 + z * 0x1_0000_0000_0000_0000;
    assert(k / 0x1_0000_0000 == y + z * 0x1_0000_0000);
    assert(k / 0x1_0000_0000_0000_0000 == z);
}

/// The keys of a map, each once.
pub(crate) fn keys_of<V>(map: &HashMap<u128, V>) -> (r: Vec<u128>)
    ensures
        r@.no_duplicates(),
        r@.to_set() == map@.dom(),
{
    let mut r: Vec<u128> = Vec::new();
    for k in it: map.keys()
        invariant
            r@.len() == it.index(),
            it.seq() == map.keys().remaining(),
            forall|i: int| 0 <= i < r@.len() ==> r@[i] == *it.seq()[i],
    {
        r.push(*k);
    }
    proof {
        let s = map.keys().remaining();
        assert(r@ =~= s.unref());
        assert forall|i: int, j: int| 0 <= i < r@.len() && 0 <= j < r@.len() && i != j implies r@[i]
            != r@[j] by {
            assert(s[i] != s[j]);
        }
    }
    r
}

/// The members of a set, each once.
pub(crate) fn members_of(set: &HashSet<u128>) -> (r: Vec<u128>)
    ensures
        r@.no_duplicates(),
        r@.to_set() == set@,
{
    let mut r: Vec<u128> = Vec::new();
    for k in it: set.iter()
        invariant
            r@.len() == it.index(),
            it.seq() == set.iter().remaining(),
            forall|i: int| 0 <= i < r@.len() ==> r@[i] == *it.seq()[i],
    {
        r.push(*k);
    }
    proof {
        let s = set.iter().remaining();
        assert(r@ =~= s.unref());
        assert forall|i: int, j: int| 0 <= i < r@.len() && 0 <= j < r@.len() && i != j implies r@[i]
            != r@[j] by {
            assert(s[i] != s[j]);
        }
    }
    r
}

pub struct VoxelWorld {
    chunks: HashMap<u128, ChunkTree>,
    dirty: HashSet<u128>,
    /// Id of the next tree that the world makes itself.
    next_id: u64,
}

/// Trees that a world makes number from here, so that the ids below are left
/// to whoever makes trees to insert.
pub const FIRST_OWN_ID: u64 = 0x8000_0000_0000_0000;

impl VoxelWorld {
    /// The loaded chunks by key.
    pub closed spec fn trees(&self) -> Map<u128, ChunkTree> {
        self.chunks@
    }

    /// Keys of the chunks touched since the last `take_dirty`.
    pub closed spec fn touched(&self) -> Set<u128> {
        self.dirty@
    }

    pub closed spec fn own_id(&self) -> u64 {
        self.next_id
    }

    /// The chunk at `pos`, if it is loaded.
    pub open spec fn at(&self, pos: ChunkPos) -> Option<ChunkTree> {
        if self.trees().contains_key(packed(pos)) {
            Some(self.trees()[packed(pos)])
        } else {
            None
        }
    }

    pub open spec fn is_dirty(&self, pos: ChunkPos) -> bool {
        self.touched().contains(packed(pos))
    }

    /// Material of voxel `v`; where no chunk is loaded there is air.
    pub open spec fn voxel_of(&self, v: VoxelPos) -> MaterialId {
        match self.at(chunk_of(v)) {
            Some(t) => t.voxel_of(local_of(v)),
            None => air(),
        }
    }

    /// The 512 voxels of the brick cell that holds `v`.
    pub open spec fn around(&self, v: VoxelPos) -> Seq<MaterialId> {
        match self.at(chunk_of(v)) {
            Some(t) => t.cell_voxels(cell_part(local_of(v))),
            None => solid_voxels(air()),
        }
    }

    /// The brick cell that holds `v`; where no chunk is loaded it is empty.
    pub open spec fn cell_of(&self, v: VoxelPos) -> Cell {
        match self.at(chunk_of(v)) {
            Some(t) => t.cell_of(cell_part(local_of(v))),
            None => Cell::Empty,
        }
    }

    /// The 512 states of the brick cell that holds `v`.
    pub open spec fn states_around(&self, v: VoxelPos) -> Seq<VoxelState> {
        match self.at(chunk_of(v)) {
            Some(t) => t.cell_states(cell_part(local_of(v))),
            None => calm_states(),
        }
    }

    /// The brick cell that holds `v` uses a brick that keeps states.
    pub open spec fn keeps_states(&self, v: VoxelPos) -> bool {
        match self.at(chunk_of(v)) {
            Some(t) => t.keeps_states(cell_part(local_of(v))),
            None => false,
        }
    }

    /// Every tree in order, every key a chunk's.
    pub open spec fn wf(&self) -> bool {
        &&& forall|k: u128| #[trigger] self.trees().contains_key(k) ==> self.trees()[k].wf()
        &&& forall|k: u128|
            #[trigger] self.trees().contains_key(k) ==> packed(unpacked(k)) == k
        &&& forall|k: u128| #[trigger] self.touched().contains(k) ==> packed(unpacked(k)) == k
    }

    pub fn new() -> (w: VoxelWorld)
        ensures
            w.wf(),
            w.trees() == Map::<u128, ChunkTree>::empty(),
            w.touched() == Set::<u128>::empty(),
            w.own_id() == FIRST_OWN_ID,
            w.own_id() == 0x8000_0000_0000_0000,
    {
        VoxelWorld { chunks: HashMap::new(), dirty: HashSet::new(), next_id: FIRST_OWN_ID }
    }

    pub fn insert_chunk(&mut self, pos: ChunkPos, tree: ChunkTree)
        requires
            old(self).wf(),
            tree.wf(),
        ensures
            final(self).wf(),
            final(self).trees() == old(self).trees().insert(packed(pos), tree),
            final(self).touched() == old(self).touched().insert(packed(pos)),
            final(self).own_id() == old(self).own_id(),
    {
        let k: u128 = pack(pos);
        proof {
            lemma_packed(pos);
            assert(self.trees() == self.chunks@ && self.touched() == self.dirty@);
        }
        self.chunks.insert(k, tree);
        self.dirty.insert(k);
    }

    pub fn remove_chunk(&mut self, pos: ChunkPos) -> (r: Option<ChunkTree>)
        requires
            old(self).wf(),
        ensures
            final(self).wf(),
            r == old(self).at(pos),
            final(self).trees() == old(self).trees().remove(packed(pos)),
            final(self).touched() == old(self).touched().insert(packed(pos)),
            final(self).own_id() == old(self).own_id(),
    {
        let k: u128 = pack(pos);
        proof {
            lemma_packed(pos);
            assert(self.trees() == self.chunks@ && self.touched() == self.dirty@);
        }
        self.dirty.insert(k);
        self.chunks.remove(&k)
    }

    pub fn chunk(&self, pos: ChunkPos) -> (r: Option<&ChunkTree>)
        requires
            self.wf(),
        ensures
            match r {
                Some(t) => self.at(pos) == Some(*t) && t.wf(),
                None => self.at(pos) is None,
            },
    {
        let k: u128 = pack(pos);
        self.chunks.get(&k)
    }

    /// A chunk to edit; it counts as touched, loaded or not. The tree must be
    /// left in order.
    pub fn chunk_mut(&mut self, pos: ChunkPos) -> (r: Option<&mut ChunkTree>)
        requires
            old(self).wf(),
        ensures
            match r {
                Some(t) => {
                    &&& old(self).at(pos) == Some(*t)
                    &&& t.wf()
                    &&& final(self).trees() == old(self).trees().insert(packed(pos), *final(t))
                    &&& final(t).wf() ==> final(self).wf()
                },
                None => {
                    &&& old(self).at(pos) is None
                    &&& final(self).trees() == old(self).trees()
                    &&& final(self).wf()
                },
            },
            final(self).touched() == old(self).touched().insert(packed(pos)),
            final(self).own_id() == old(self).own_id(),
    {
        let k: u128 = pack(pos);
        proof {
            lemma_packed(pos);
            assert(self.trees() == self.chunks@ && self.touched() == self.dirty@);
        }
        self.dirty.insert(k);
        match self.chunks.entry(k) {
            Entry::Occupied(slot) => Some(slot.into_mut()),
            Entry::Vacant(_) => None,
        }
    }

    /// The loaded chunks, in no particular order.
    pub fn chunks(&self) -> (r: Vec<(ChunkPos, &ChunkTree)>)
        requires
            self.wf(),
        ensures
            r@.len() == self.trees().len(),
            forall|i: int|
                0 <= i < r@.len() ==> self.at((#[trigger] r@[i]).0) == Some(*r@[i].1)
                    && r@[i].1.wf(),
            forall|i: int, j: int| 0 <= i < j < r@.len() ==> r@[i].0 != r@[j].0,
            forall|p: ChunkPos|
                #[trigger] self.at(p) is Some ==> exists|i: int|
                    0 <= i < r@.len() && (#[trigger] r@[i]).0 == p,
    {
        let keys: Vec<u128> = keys_of(&self.chunks);
        let mut r: Vec<(ChunkPos, &ChunkTree)> = Vec::new();
        let mut n: usize = 0;
        while n < keys.len()
            invariant
                self.wf(),
                keys@.no_duplicates(),
                keys@.to_set() == self.chunks@.dom(),
                n <= keys@.len(),
                r@.len() == n,
                forall|i: int|
                    0 <= i < n ==> (#[trigger] r@[i]).0 == unpacked(keys@[i]) && self.at(r@[i].0)
                        == Some(*r@[i].1) && r@[i].1.wf(),
            decreases keys@.len() - n,
        {
            let k: u128 = keys[n];
            assert(keys@.to_set().contains(k));
            if let Some(t) = self.chunks.get(&k) {
                r.push((unpack(k), t));
            }
            n += 1;
        }
        proof {
            keys@.unique_seq_to_set();
            assert forall|i: int, j: int| 0 <= i < j < r@.len() implies r@[i].0 != r@[j].0 by {
                assert(keys@.to_set().contains(keys@[i]));
                assert(keys@.to_set().contains(keys@[j]));
                assert(packed(unpacked(keys@[i])) == keys@[i]);
                assert(packed(unpacked(keys@[j])) == keys@[j]);
            }
            assert forall|p: ChunkPos| #[trigger] self.at(p) is Some implies exists|i: int|
                0 <= i < r@.len() && (#[trigger] r@[i]).0 == p by {
                assert(keys@.to_set().contains(packed(p)));
                let i = choose|i: int| 0 <= i < keys@.len() && keys@[i] == packed(p);
                lemma_packed(p);
                assert(r@[i].0 == p);
            }
        }
        r
    }

    pub fn chunk_count(&self) -> (n: usize)
        requires
            self.wf(),
        ensures
            n == self.trees().len(),
    {
        self.chunks.len()
    }

    pub fn voxel(&self, v: VoxelPos) -> (m: MaterialId)
        requires
            self.wf(),
        ensures
            m == self.voxel_of(v),
    {
        match self.chunk(ChunkPos::of_voxel(v)) {
            Some(t) => t.voxel(chunk_local(v)),
            None => MaterialId(0),
        }
    }

    /// The chunk at `pos`, made empty if it is not loaded.
    fn ensure(&mut self, pos: ChunkPos)
        requires
            old(self).wf(),
        ensures
            final(self).wf(),
            final(self).trees().contains_key(packed(pos)),
            final(self).touched() == old(self).touched(),
            match old(self).at(pos) {
                Some(t) => final(self).trees() == old(self).trees() && final(self).own_id() == old(
                    self,
                ).own_id(),
                None => {
                    let t = final(self).trees()[packed(pos)];
                    &&& final(self).trees() == old(self).trees().insert(packed(pos), t)
                    &&& t.number() == old(self).own_id()
                    &&& forall|b: IVec3| b.within(64) ==> #[trigger] t.cell_of(b) == Cell::Empty
                    &&& final(self).own_id() == (if old(self).own_id() == u64::MAX {
                        0
                    } else {
                        old(self).own_id() + 1
                    })
                },
            },
            forall|v: VoxelPos| #[trigger] final(self).voxel_of(v) == old(self).voxel_of(v),
            forall|v: VoxelPos| #[trigger] final(self).around(v) == old(self).around(v),
            forall|v: VoxelPos| #[trigger] final(self).cell_of(v) == old(self).cell_of(v),
            forall|v: VoxelPos|
                #[trigger] final(self).states_around(v) == old(self).states_around(v),
            forall|v: VoxelPos|
                #[trigger] final(self).keeps_states(v) == old(self).keeps_states(v),
    {
        let k: u128 = pack(pos);
        proof {
            lemma_packed(pos);
            assert(self.trees() == self.chunks@ && self.touched() == self.dirty@);
        }
        if !self.chunks.contains_key(&k) {
            let t: ChunkTree = ChunkTree::new(self.next_id);
            let ghost fresh = t;
            self.next_id = self.next_id.wrapping_add(1);
            self.chunks.insert(k, t);
            proof {
                assert forall|v: VoxelPos| #[trigger] self.voxel_of(v) == old(self).voxel_of(v)
                    && self.around(v) == old(self).around(v) by {
                    lemma_packed(chunk_of(v));
                    assert(cell_part(local_of(v)).within(64));
                    assert(fresh.cell_of(cell_part(local_of(v))) == Cell::Empty);
                    lemma_vindex(brick_part(local_of(v)));
                }
                assert forall|v: VoxelPos| #[trigger] self.around(v) == old(self).around(v) by {
                    assert(self.voxel_of(v) == old(self).voxel_of(v));
                }
                assert forall|v: VoxelPos| #[trigger] self.cell_of(v) == old(self).cell_of(v)
                    && self.states_around(v) == old(self).states_around(v) by {
                    lemma_packed(chunk_of(v));
                    assert(cell_part(local_of(v)).within(64));
                    assert(fresh.cell_of(cell_part(local_of(v))) == Cell::Empty);
                }
                assert forall|v: VoxelPos| #[trigger] self.states_around(v) == old(
                    self,
                ).states_around(v) by {
                    assert(self.cell_of(v) == old(self).cell_of(v));
                }
                assert forall|v: VoxelPos| #[trigger] self.keeps_states(v) == old(
                    self,
                ).keeps_states(v) by {
                    lemma_packed(chunk_of(v));
                    assert(cell_part(local_of(v)).within(64));
                    assert(fresh.cell_of(cell_part(local_of(v))) == Cell::Empty);
                }
            }
        }
    }

    /// Sets a voxel, creating the chunk if needed. Out-of-world writes are
    /// ignored and report air.
    pub fn set_voxel(&mut self, v: VoxelPos, m: MaterialId) -> (was: MaterialId)
        requires
            old(self).wf(),
            voxel_in_world(v) ==> has_room(old(self).around(v), m),
        ensures
            final(self).wf(),
            !voxel_in_world(v) ==> was == air() && *final(self) == *old(self),
            voxel_in_world(v) ==> {
                &&& was == old(self).voxel_of(v)
                &&& forall|w: VoxelPos|
                    #[trigger] final(self).voxel_of(w) == if w == v {
                        m
                    } else {
                        old(self).voxel_of(w)
                    }
                &&& final(self).at(chunk_of(v)) is Some
                &&& forall|p: ChunkPos|
                    p != chunk_of(v) ==> #[trigger] final(self).at(p) == old(self).at(p)
                &&& final(self).touched() == if was != m {
                    old(self).touched().insert(packed(chunk_of(v)))
                } else {
                    old(self).touched()
                }
                &&& match (old(self).at(chunk_of(v)), final(self).at(chunk_of(v))) {
                    (Some(s), Some(t)) => {
                        &&& t.number() == s.number()
                        &&& t.records_since(s)
                        &&& was == m ==> t == s
                        &&& was != m ==> t.records_edit(s, cell_part(local_of(v))) && fits(
                            t.cell_of(cell_part(local_of(v))),
                            final(self).around(v),
                            s.keeps_states(cell_part(local_of(v))),
                        )
                    },
                    (None, Some(t)) => {
                        &&& t.number() == old(self).own_id()
                        &&& fits(t.cell_of(cell_part(local_of(v))), final(self).around(v), false)
                    },
                    _ => false,
                }
                &&& final(self).around(v) == old(self).around(v).update(
                    vindex(brick_part(local_of(v))),
                    m,
                )
                &&& was != m ==> fits(
                    final(self).cell_of(v),
                    final(self).around(v),
                    old(self).keeps_states(v),
                )
                &&& was != m ==> final(self).states_around(v) == kept_states(
                    final(self).around(v),
                    old(self).states_around(v),
                )
                &&& was != m ==> final(self).keeps_states(v) == (old(self).keeps_states(v)
                    && final(self).cell_of(v) is Brick)
                &&& forall|w: VoxelPos|
                    #![trigger final(self).cell_of(w)]
                    brick_of(w) != brick_of(v) ==> cell_kept(*old(self), *final(self), w)
                &&& was == m ==> forall|w: VoxelPos|
                    #![trigger final(self).cell_of(w)]
                    cell_kept(*old(self), *final(self), w)
            },
    {
        if !in_world_voxel(v) {
            return MaterialId(0);
        }
        let pos: ChunkPos = ChunkPos::of_voxel(v);
        let k: u128 = pack(pos);
        self.ensure(pos);
        let ghost half = *self;
        assert(half.around(v) == old(self).around(v));
        assert(half.voxel_of(v) == old(self).voxel_of(v));
        let was: MaterialId = match self.chunks.entry(k) {
            Entry::Occupied(slot) => slot.into_mut().set_voxel(chunk_local(v), m),
            Entry::Vacant(_) => MaterialId(0),
        };
        if was != m {
            self.dirty.insert(k);
        }
        proof {
            lemma_packed(pos);
            let s = half.trees()[k];
            let t = self.trees()[k];
            assert(self.trees() =~= half.trees().insert(k, t));
            let d = cell_part(local_of(v));
            assert(d.within(64));
            if old(self).at(pos) is None {
                assert(s.cell_of(d) == Cell::Empty);
                assert(self.around(v) == t.cell_voxels(d));
                if was == m {
                    assert(t.cell_voxels(d) == solid_voxels(air()));
                }
            }
            assert forall|w: VoxelPos| #[trigger] self.voxel_of(w) == if w == v {
                m
            } else {
                old(self).voxel_of(w)
            } by {
                lemma_packed(chunk_of(w));
                assert(half.voxel_of(w) == old(self).voxel_of(w));
                if chunk_of(w) == pos {
                    assert(local_of(w).within(512));
                    assert(t.voxel_of(local_of(w)) == if local_of(w) == local_of(v) {
                        m
                    } else {
                        s.voxel_of(local_of(w))
                    });
                }
            }
            assert forall|p: ChunkPos| p != pos implies #[trigger] self.at(p) == old(self).at(p) by {
                lemma_packed(p);
            }
            let b = brick_of(v);
            lemma_stands_for(b);
            lemma_brick_place(v);
            assert(half.keeps_states(v) == old(self).keeps_states(v));
            assert(half.states_around(v) == old(self).states_around(v));
            assert forall|e: IVec3| e.within(64) && e != d implies #[trigger] t.cell_of(e)
                == s.cell_of(e) && t.cell_voxels(e) == s.cell_voxels(e) && t.cell_states(e)
                == s.cell_states(e) && t.keeps_states(e) == s.keeps_states(e) by {
                assert(t.brick_of(e) == s.brick_of(e));
            }
            assert forall|w: VoxelPos|
                #![trigger self.cell_of(w)]
                brick_of(w) != b || was == m implies cell_kept(*old(self), *self, w) by {
                assert(half.cell_of(w) == old(self).cell_of(w));
                assert(half.around(w) == old(self).around(w));
                assert(half.states_around(w) == old(self).states_around(w));
                assert(half.keeps_states(w) == old(self).keeps_states(w));
                if brick_of(w) != b {
                    lemma_cell_edit(half, *self, b, pos, d, t, w);
                } else {
                    assert(self.trees() =~= half.trees());
                }
            }
        }
        was
    }

    /// Sets the voxels of a list one after the other; those outside the world
    /// are passed over. Returns the voxels that changed with their previous
    /// materials.
    pub fn set_voxels(&mut self, list: &Vec<VoxelPos>, m: MaterialId) -> (changed: Vec<
        (VoxelPos, MaterialId),
    >)
        requires
            old(self).wf(),
            forall|w: VoxelPos|
                list@.contains(w) && voxel_in_world(w) ==> has_room(
                    #[trigger] old(self).around(w),
                    m,
                ),
        ensures
            final(self).wf(),
            forall|w: VoxelPos|
                #[trigger] final(self).voxel_of(w) == if list@.contains(w) && voxel_in_world(w) {
                    m
                } else {
                    old(self).voxel_of(w)
                },
            changed@ == changes(*old(self), list@, m, list@.len() as int),
            forall|p: ChunkPos|
                #[trigger] final(self).is_dirty(p) == (old(self).is_dirty(p) || reaches(
                    changed@,
                    p,
                )),
            forall|p: ChunkPos|
                (forall|i: int|
                    0 <= i < list@.len() && voxel_in_world(#[trigger] list@[i]) ==> chunk_of(
                        list@[i],
                    ) != p) ==> #[trigger] final(self).at(p) == old(self).at(p),
            forall|w: VoxelPos|
                #![trigger final(self).cell_of(w)]
                if cell_reached(changed@, w) {
                    &&& fits(
                        final(self).cell_of(w),
                        final(self).around(w),
                        old(self).keeps_states(w),
                    )
                    &&& final(self).states_around(w) == kept_states(
                        final(self).around(w),
                        old(self).states_around(w),
                    )
                } else {
                    cell_kept(*old(self), *final(self), w)
                },
    {
        let mut changed: Vec<(VoxelPos, MaterialId)> = Vec::new();
        let mut n: usize = 0;
        while n < list.len()
            invariant
                self.wf(),
                n <= list@.len(),
                forall|w: VoxelPos|
                    list@.contains(w) && voxel_in_world(w) ==> has_room(
                        #[trigger] self.around(w),
                        m,
                    ),
                forall|w: VoxelPos|
                    #[trigger] self.voxel_of(w) == if list@.take(n as int).contains(w)
                        && voxel_in_world(w) {
                        m
                    } else {
                        old(self).voxel_of(w)
                    },
                changed@ == changes(*old(self), list@, m, n as int),
                forall|p: ChunkPos|
                    #[trigger] self.is_dirty(p) == (old(self).is_dirty(p) || reaches(changed@, p)),
                forall|p: ChunkPos|
                    (forall|i: int|
                        0 <= i < n && voxel_in_world(#[trigger] list@[i]) ==> chunk_of(list@[i])
                            != p) ==> #[trigger] self.at(p) == old(self).at(p),
                forall|w: VoxelPos|
                    #![trigger self.cell_of(w)]
                    if cell_reached(changed@, w) {
                        cell_settled(*old(self), *self, w, m)
                    } else {
                        cell_kept(*old(self), *self, w)
                    },
            decreases list@.len() - n,
        {
            let v: VoxelPos = list[n];
            let ghost before = *self;
            let ghost seen = list@.take(n as int);
            let ghost next = list@.take(n + 1);
            proof {
                assert(list@.contains(v));
                assert(next =~= seen.push(v));
            }
            let was: MaterialId = self.set_voxel(v, m);
            proof {
                assert forall|w: VoxelPos| #[trigger] next.contains(w) == (seen.contains(w) || w
                    == v) by {
                    if seen.contains(w) {
                        let i = choose|i: int| 0 <= i < seen.len() && seen[i] == w;
                        assert(next[i] == w);
                    }
                    assert(next[n as int] == v);
                }
                assert forall|w: VoxelPos| list@.contains(w) && voxel_in_world(w) implies has_room(
                    #[trigger] self.around(w),
                    m,
                ) by {
                    assert(has_room(before.around(w), m));
                    lemma_room_kept(before, *self, w, m);
                }
                assert(before.voxel_of(v) == if seen.contains(v) && voxel_in_world(v) {
                    m
                } else {
                    old(self).voxel_of(v)
                });
                assert(seen.contains(v) == exists|i: int| 0 <= i < n && list@[i] == v) by {
                    if seen.contains(v) {
                        let i = choose|i: int| 0 <= i < seen.len() && seen[i] == v;
                        assert(list@[i] == v);
                    }
                    if exists|i: int| 0 <= i < n && list@[i] == v {
                        let i = choose|i: int| 0 <= i < n && list@[i] == v;
                        assert(seen[i] == v);
                    }
                }
            }
            let ghost known = changed@;
            if was != m && in_world_voxel(v) {
                changed.push((v, was));
            }
            proof {
                assert forall|w: VoxelPos|
                    #![trigger self.cell_of(w)]
                    if cell_reached(changed@, w) {
                        cell_settled(*old(self), *self, w, m)
                    } else {
                        cell_kept(*old(self), *self, w)
                    } by {
                    lemma_cell_reached(known, (v, was), w);
                    if voxel_in_world(v) && was != m && brick_of(w) == brick_of(v) {
                        lemma_settle_again(
                            *old(self),
                            before,
                            *self,
                            v,
                            w,
                            m,
                            cell_reached(known, w),
                        );
                    } else {
                        assert(cell_kept(before, *self, w));
                        assert(before.cell_of(w) == self.cell_of(w));
                    }
                }
                assert forall|p: ChunkPos| #[trigger] self.is_dirty(p) == (old(self).is_dirty(p)
                    || reaches(changed@, p)) by {
                    lemma_packed(p);
                    lemma_packed(chunk_of(v));
                    assert(before.is_dirty(p) == (old(self).is_dirty(p) || reaches(known, p)));
                    lemma_reaches(known, (v, was), p);
                }
                assert forall|p: ChunkPos|
                    (forall|i: int|
                        0 <= i < n + 1 && voxel_in_world(#[trigger] list@[i]) ==> chunk_of(list@[i])
                            != p) implies #[trigger] self.at(p) == old(self).at(p) by {
                    assert(before.at(p) == old(self).at(p));
                    assert(voxel_in_world(list@[n as int]) ==> chunk_of(list@[n as int]) != p);
                }
            }
            n += 1;
        }
        assert(list@.take(n as int) =~= list@);
        changed
    }

    /// Chunks touched since the last call, in no particular order.
    pub fn take_dirty(&mut self) -> (r: Vec<ChunkPos>)
        requires
            old(self).wf(),
        ensures
            final(self).wf(),
            final(self).trees() == old(self).trees(),
            final(self).touched() == Set::<u128>::empty(),
            r@.no_duplicates(),
            forall|p: ChunkPos| #[trigger] r@.contains(p) == old(self).is_dirty(p),
    {
        proof {
            assert(self.trees() == self.chunks@ && self.touched() == self.dirty@);
        }
        let keys: Vec<u128> = members_of(&self.dirty);
        let mut r: Vec<ChunkPos> = Vec::new();
        let mut n: usize = 0;
        while n < keys.len()
            invariant
                n <= keys@.len(),
                r@.len() == n,
                forall|i: int| 0 <= i < n ==> #[trigger] r@[i] == unpacked(keys@[i]),
            decreases keys@.len() - n,
        {
            r.push(unpack(keys[n]));
            n += 1;
        }
        self.dirty.clear();
        proof {
            assert forall|i: int| 0 <= i < keys@.len() implies packed(unpacked(#[trigger] keys@[i]))
                == keys@[i] by {
                assert(keys@.to_set().contains(keys@[i]));
                assert(old(self).touched().contains(keys@[i]));
            }
            assert forall|p: ChunkPos| #[trigger] r@.contains(p) == old(self).is_dirty(p) by {
                lemma_packed(p);
                if r@.contains(p) {
                    let i = choose|i: int| 0 <= i < r@.len() && r@[i] == p;
                    assert(keys@.to_set().contains(keys@[i]));
                }
                if old(self).is_dirty(p) {
                    assert(keys@.to_set().contains(packed(p)));
                    let i = choose|i: int| 0 <= i < keys@.len() && keys@[i] == packed(p);
                    assert(r@[i] == p);
                }
            }
        }
        r
    }
}

/// The voxels among the first `n` of `list` that change, in order, with what
/// they held: the first mention of each that lies in the world and is not
/// yet `m`.
pub open spec fn changes(
    w: VoxelWorld,
    list: Seq<VoxelPos>,
    m: MaterialId,
    n: int,
) -> Seq<(VoxelPos, MaterialId)>
    decreases n,
{
    if n <= 0 {
        Seq::empty()
    } else {
        let v = list[n - 1];
        let again = exists|i: int| 0 <= i < n - 1 && list[i] == v;
        if voxel_in_world(v) && !again && w.voxel_of(v) != m {
            changes(w, list, m, n - 1).push((v, w.voxel_of(v)))
        } else {
            changes(w, list, m, n - 1)
        }
    }
}

/// Some voxel of a list of changes lies in chunk `p`.
pub open spec fn reaches(changed: Seq<(VoxelPos, MaterialId)>, p: ChunkPos) -> bool {
    exists|k: int| 0 <= k < changed.len() && chunk_of((#[trigger] changed[k]).0) == p
}

proof fn lemma_reaches(
    changed: Seq<(VoxelPos, MaterialId)>,
    e: (VoxelPos, MaterialId),
    p: ChunkPos,
)
    ensures
        reaches(changed.push(e), p) == (reaches(changed, p) || chunk_of(e.0) == p),
{
    let more = changed.push(e);
    if reaches(changed, p) {
        let k = choose|k: int| 0 <= k < changed.len() && chunk_of((#[trigger] changed[k]).0) == p;
        assert(more[k] == changed[k]);
    }
    assert(more[changed.len() as int] == e);
    if reaches(more, p) {
        let k = choose|k: int| 0 <= k < more.len() && chunk_of((#[trigger] more[k]).0) == p;
        if k < changed.len() {
            assert(changed[k] == more[k]);
        }
    }
}

/// Some voxel of a list of changes lies in the cell that holds `w`.
pub open spec fn cell_reached(changed: Seq<(VoxelPos, MaterialId)>, w: VoxelPos) -> bool {
    exists|k: int| 0 <= k < changed.len() && brick_of((#[trigger] changed[k]).0) == brick_of(w)
}

proof fn lemma_cell_reached(
    changed: Seq<(VoxelPos, MaterialId)>,
    e: (VoxelPos, MaterialId),
    w: VoxelPos,
)
    ensures
        cell_reached(changed.push(e), w) == (cell_reached(changed, w) || brick_of(e.0) == brick_of(
            w,
        )),
{
    let more = changed.push(e);
    if cell_reached(changed, w) {
        let k = choose|k: int|
            0 <= k < changed.len() && brick_of((#[trigger] changed[k]).0) == brick_of(w);
        assert(more[k] == changed[k]);
    }
    assert(more[changed.len() as int] == e);
    if cell_reached(more, w) {
        let k = choose|k: int|
            0 <= k < more.len() && brick_of((#[trigger] more[k]).0) == brick_of(w);
        if k < changed.len() {
            assert(changed[k] == more[k]);
        }
    }
}

/// A cell into which `m` was written, since world `s`.
spec fn cell_settled(s: VoxelWorld, t: VoxelWorld, w: VoxelPos, m: MaterialId) -> bool {
    &&& fits(t.cell_of(w), t.around(w), s.keeps_states(w))
    &&& t.keeps_states(w) == (s.keeps_states(w) && t.cell_of(w) is Brick)
    &&& t.states_around(w) == kept_states(t.around(w), s.states_around(w))
    &&& t.around(w).contains(m)
}

/// One more write of `m` into a cell.
proof fn lemma_settle_again(
    s: VoxelWorld,
    o: VoxelWorld,
    n: VoxelWorld,
    v: VoxelPos,
    w: VoxelPos,
    m: MaterialId,
    again: bool,
)
    requires
        o.wf(),
        brick_of(w) == brick_of(v),
        o.voxel_of(v) != m,
        again ==> cell_settled(s, o, w, m),
        !again ==> cell_kept(s, o, w),
        n.around(v) == o.around(v).update(vindex(brick_part(local_of(v))), m),
        fits(n.cell_of(v), n.around(v), o.keeps_states(v)),
        n.keeps_states(v) == (o.keeps_states(v) && n.cell_of(v) is Brick),
        n.states_around(v) == kept_states(n.around(v), o.states_around(v)),
    ensures
        cell_settled(s, n, w, m),
{
    let i = vindex(brick_part(local_of(v)));
    lemma_brick_place(v);
    lemma_brick_place(w);
    lemma_vindex(brick_part(local_of(v)));
    lemma_voxel_around(o, v);
    lemma_around(o, v);
    assert(n.around(v)[i] == m);
    if again && o.around(w) == solid_voxels(air()) {
        let k = choose|k: int| 0 <= k < o.around(w).len() && o.around(w)[k] == m;
        assert(m == air());
        assert(o.around(v)[i] == air());
    }
}

/// Writing `m` here and there leaves room for `m` wherever there was.
proof fn lemma_room_kept(s: VoxelWorld, t: VoxelWorld, w: VoxelPos, m: MaterialId)
    requires
        s.wf(),
        t.wf(),
        forall|x: VoxelPos| #[trigger] t.voxel_of(x) == s.voxel_of(x) || t.voxel_of(x) == m,
        has_room(s.around(w), m),
    ensures
        has_room(t.around(w), m),
{
    lemma_around(s, w);
    lemma_around(t, w);
    let (a, b) = (s.around(w), t.around(w));
    if a != b {
        if forall|i: int| 0 <= i < 512 ==> a[i] == b[i] {
            assert(a =~= b);
        }
        let i = choose|i: int| 0 <= i < 512 && #[trigger] a[i] != b[i];
        let x = neighbour(w, i);
        assert(a[i] == s.voxel_of(x));
        assert(b[i] == t.voxel_of(x));
        assert(b[i] == m);
        assert(b.contains(m));
    }
}

/// Voxel `i` of the brick cell that holds `w`.
pub open spec fn neighbour(w: VoxelPos, i: int) -> VoxelPos {
    IVec3 {
        x: (w.x as int / 8 * 8 + i % 8) as i32,
        y: (w.y as int / 8 * 8 + i / 64) as i32,
        z: (w.z as int / 8 * 8 + i / 8 % 8) as i32,
    }
}

/// A brick cell's voxels are the world's voxels there.
pub proof fn lemma_around(s: VoxelWorld, w: VoxelPos)
    requires
        s.wf(),
    ensures
        s.around(w).len() == 512,
        forall|i: int|
            0 <= i < 512 ==> #[trigger] s.around(w)[i] == s.voxel_of(neighbour(w, i)),
{
    let p = chunk_of(w);
    if let Some(t) = s.at(p) {
        assert(t.wf());
        t.lemma_cells();
        assert(cell_part(local_of(w)).within(64));
        assert(t.cell_voxels(cell_part(local_of(w))).len() == 512);
    }
    assert forall|i: int| 0 <= i < 512 implies #[trigger] s.around(w)[i] == s.voxel_of(
        neighbour(w, i),
    ) by {
        let x = neighbour(w, i);
        lemma_axis(w.x as int, i % 8);
        lemma_axis(w.y as int, i / 64);
        lemma_axis(w.z as int, i / 8 % 8);
        assert(chunk_of(x) == p);
        assert(cell_part(local_of(x)) == cell_part(local_of(w)));
        assert(vindex(brick_part(local_of(x))) == i);
    }
}

proof fn lemma_axis(w: int, d: int)
    requires
        i32::MIN <= w <= i32::MAX,
        0 <= d < 8,
    ensures
        i32::MIN <= w / 8 * 8 + d <= i32::MAX,
        (w / 8 * 8 + d) / 512 == w / 512,
        (w / 8 * 8 + d) % 512 / 8 == w % 512 / 8,
        (w / 8 * 8 + d) % 512 % 8 == d,
{
    let q = w / 512;
    let r = w % 512;
    assert(w == q * 512 + r);
    assert(w / 8 == q * 64 + r / 8);
    let x = w / 8 * 8 + d;
    assert(x == q * 512 + (r / 8 * 8 + d));
    assert(0 <= r / 8 * 8 + d < 512);
    assert(x / 512 == q && x % 512 == r / 8 * 8 + d);
}

/// Brick cell that holds voxel `w`, counted over the whole world.
pub open spec fn brick_of(w: VoxelPos) -> IVec3 {
    IVec3 { x: (w.x as int / 8) as i32, y: (w.y as int / 8) as i32, z: (w.z as int / 8) as i32 }
}

/// Minimum voxel of world brick cell `b`.
pub open spec fn corner(b: IVec3) -> VoxelPos {
    IVec3 { x: (b.x * 8) as i32, y: (b.y * 8) as i32, z: (b.z * 8) as i32 }
}

/// World brick cell `b` lies whole in the box `lo..=hi`.
pub open spec fn inside(b: IVec3, lo: VoxelPos, hi: VoxelPos) -> bool {
    &&& lo.x <= b.x * 8 && b.x * 8 + 7 <= hi.x
    &&& lo.y <= b.y * 8 && b.y * 8 + 7 <= hi.y
    &&& lo.z <= b.z * 8 && b.z * 8 + 7 <= hi.z
}

/// Some voxel of world brick cell `b` lies in the box `lo..=hi`.
pub open spec fn meets(b: IVec3, lo: VoxelPos, hi: VoxelPos) -> bool {
    &&& lo.x as int / 8 <= b.x <= hi.x as int / 8
    &&& lo.y as int / 8 <= b.y <= hi.y as int / 8
    &&& lo.z as int / 8 <= b.z <= hi.z as int / 8
}

/// A box of voxels of the world, at least one of them.
pub open spec fn world_box(lo: VoxelPos, hi: VoxelPos) -> bool {
    voxel_in_world(lo) && voxel_in_world(hi) && lo.x <= hi.x && lo.y <= hi.y && lo.z <= hi.z
}

/// Wherever the box cuts through a brick cell there is room for `m`.
pub open spec fn box_room(w: VoxelWorld, lo: VoxelPos, hi: VoxelPos, m: MaterialId) -> bool {
    forall|b: IVec3|
        #![trigger w.around(corner(b))]
        meets(b, lo, hi) && !inside(b, lo, hi) ==> has_room(w.around(corner(b)), m)
}

/// The cell that holds `w` is as it was.
pub open spec fn cell_kept(s: VoxelWorld, t: VoxelWorld, w: VoxelPos) -> bool {
    &&& t.cell_of(w) == s.cell_of(w)
    &&& t.around(w) == s.around(w)
    &&& t.states_around(w) == s.states_around(w)
    &&& t.keeps_states(w) == s.keeps_states(w)
}

/// What filling a box makes of a cell that it meets and that holds `w`: empty
/// or uniform if it lies whole in the box, else what its contents ask for.
pub open spec fn cell_filled(
    s: VoxelWorld,
    t: VoxelWorld,
    w: VoxelPos,
    lo: VoxelPos,
    hi: VoxelPos,
    m: MaterialId,
) -> bool {
    if inside(brick_of(w), lo, hi) {
        t.cell_of(w) == node_cell(m)
    } else {
        &&& fits(t.cell_of(w), t.around(w), s.states_around(w) != calm_states())
        &&& t.states_around(w) == kept_states(t.around(w), s.states_around(w))
    }
}

/// What filling a box makes of every cell.
pub open spec fn cells_filled(
    s: VoxelWorld,
    t: VoxelWorld,
    lo: VoxelPos,
    hi: VoxelPos,
    m: MaterialId,
) -> bool {
    forall|w: VoxelPos|
        #![trigger t.cell_of(w)]
        if meets(brick_of(w), lo, hi) {
            cell_filled(s, t, w, lo, hi, m)
        } else {
            cell_kept(s, t, w)
        }
}

/// Empty chunks are not kept.
pub open spec fn pruned(t: Option<ChunkTree>) -> Option<ChunkTree> {
    match t {
        Some(t) => if t.nodes().mask == 0 {
            None
        } else {
            Some(t)
        },
        None => None,
    }
}

/// Along one axis: a voxel lies in the cell that has its chunk and its place
/// there.
proof fn lemma_same_axis(w: int, b: int)
    ensures
        w / 8 == b <==> w / 512 == b / 64 && w % 512 / 8 == b % 64,
{
    lemma_where_axis(w);
    assert(b == b / 64 * 64 + b % 64);
}

/// Chunk and cell of the corner of brick cell `b`.
proof fn lemma_corner(b: IVec3)
    requires
        whole_cell(b),
    ensures
        chunk_of(corner(b)).0.x == b.x as int / 64,
        chunk_of(corner(b)).0.y == b.y as int / 64,
        chunk_of(corner(b)).0.z == b.z as int / 64,
        cell_part(local_of(corner(b))).x == b.x as int % 64,
        cell_part(local_of(corner(b))).y == b.y as int % 64,
        cell_part(local_of(corner(b))).z == b.z as int % 64,
        cell_part(local_of(corner(b))).within(64),
        brick_of(corner(b)) == b,
{
    lemma_brick_axis(b.x as int);
    lemma_brick_axis(b.y as int);
    lemma_brick_axis(b.z as int);
}

/// A brick cell whose voxels all have positions.
pub open spec fn whole_cell(b: IVec3) -> bool {
    &&& -0x1000_0000 <= b.x < 0x1000_0000
    &&& -0x1000_0000 <= b.y < 0x1000_0000
    &&& -0x1000_0000 <= b.z < 0x1000_0000
}

/// A voxel lies in brick cell `b` if it has the chunk and the cell of its
/// corner.
proof fn lemma_same_cell(w: VoxelPos, b: IVec3)
    requires
        whole_cell(b),
    ensures
        brick_of(w) == b <==> chunk_of(w) == chunk_of(corner(b)) && cell_part(local_of(w))
            == cell_part(local_of(corner(b))),
        cell_part(local_of(w)).within(64),
{
    lemma_corner(b);
    lemma_where(w);
    lemma_same_axis(w.x as int, b.x as int);
    lemma_same_axis(w.y as int, b.y as int);
    lemma_same_axis(w.z as int, b.z as int);
}

/// The voxels of brick cell `b` are those of cell `local` of chunk `pos`.
#[verifier::opaque]
spec fn stands_for(b: IVec3, pos: ChunkPos, local: IVec3) -> bool {
    forall|w: VoxelPos|
        #[trigger] brick_of(w) == b <==> chunk_of(w) == pos && cell_part(local_of(w)) == local
}

proof fn lemma_stands_for(b: IVec3)
    requires
        whole_cell(b),
    ensures
        stands_for(b, chunk_of(corner(b)), cell_part(local_of(corner(b)))),
{
    reveal(stands_for);
    assert forall|w: VoxelPos| #[trigger] brick_of(w) == b <==> chunk_of(w) == chunk_of(corner(b))
        && cell_part(local_of(w)) == cell_part(local_of(corner(b))) by {
        lemma_same_cell(w, b);
    }
}

/// A voxel's chunk and cell are those of its brick cell's corner.
proof fn lemma_brick_place(v: VoxelPos)
    ensures
        whole_cell(brick_of(v)),
        chunk_of(v) == chunk_of(corner(brick_of(v))),
        cell_part(local_of(v)) == cell_part(local_of(corner(brick_of(v)))),
{
    lemma_same_cell(v, brick_of(v));
}

/// One cell of one chunk becomes another: a voxel's cell stays, or it is that
/// one.
proof fn lemma_cell_edit(
    o: VoxelWorld,
    n: VoxelWorld,
    b: IVec3,
    pos: ChunkPos,
    local: IVec3,
    t: ChunkTree,
    w: VoxelPos,
)
    requires
        stands_for(b, pos, local),
        o.trees().contains_key(packed(pos)),
        n.trees() == o.trees().insert(packed(pos), t),
        forall|d: IVec3|
            d.within(64) && d != local ==> #[trigger] t.cell_of(d) == o.trees()[packed(
                pos,
            )].cell_of(d) && t.cell_voxels(d) == o.trees()[packed(pos)].cell_voxels(d)
                && t.cell_states(d) == o.trees()[packed(pos)].cell_states(d) && t.keeps_states(d)
                == o.trees()[packed(pos)].keeps_states(d),
    ensures
        brick_of(w) != b ==> cell_kept(o, n, w),
        brick_of(w) == b ==> chunk_of(w) == pos && cell_part(local_of(w)) == local,
{
    reveal(stands_for);
    lemma_where(w);
    let d = cell_part(local_of(w));
    if brick_of(w) != b {
        assert(d != local ==> t.cell_of(d) == o.trees()[packed(pos)].cell_of(d));
        lemma_cell_elsewhere(o, n, pos, local, t, w, chunk_of(w), d);
    }
}

proof fn lemma_cell_elsewhere(
    o: VoxelWorld,
    n: VoxelWorld,
    pos: ChunkPos,
    local: IVec3,
    t: ChunkTree,
    w: VoxelPos,
    c: ChunkPos,
    d: IVec3,
)
    requires
        c == chunk_of(w),
        d == cell_part(local_of(w)),
        c != pos || d != local,
        d.within(64),
        o.trees().contains_key(packed(pos)),
        n.trees() == o.trees().insert(packed(pos), t),
        d != local ==> t.cell_of(d) == o.trees()[packed(pos)].cell_of(d) && t.cell_voxels(d)
            == o.trees()[packed(pos)].cell_voxels(d) && t.cell_states(d) == o.trees()[packed(
            pos,
        )].cell_states(d) && t.keeps_states(d) == o.trees()[packed(pos)].keeps_states(d),
    ensures
        cell_kept(o, n, w),
{
    lemma_packed(c);
    lemma_packed(pos);
    if c == pos {
        assert(n.at(c) == Some(t));
    } else {
        assert(packed(c) != packed(pos));
        assert(n.at(c) == o.at(c));
    }
}

/// Where a voxel of brick cell `b` lies against the box, told from its place
/// in the cell.
proof fn lemma_part_of(b: IVec3, lo: VoxelPos, hi: VoxelPos, w: VoxelPos, l: IVec3)
    requires
        world_box(lo, hi),
        meets(b, lo, hi),
        l.within(8),
        w.x == b.x * 8 + l.x,
        w.y == b.y * 8 + l.y,
        w.z == b.z * 8 + l.z,
    ensures
        part_of(vindex(l), low_part(b, lo), high_part(b, hi)) == w.between(lo, hi),
        inside(b, lo, hi) ==> w.between(lo, hi),
{
    lemma_digits(l);
    lemma_part_axis(b.x as int, lo.x as int, hi.x as int, l.x as int);
    lemma_part_axis(b.y as int, lo.y as int, hi.y as int, l.y as int);
    lemma_part_axis(b.z as int, lo.z as int, hi.z as int, l.z as int);
}

/// Along one axis: where a voxel lies against the box's ends.
proof fn lemma_part_axis(b: int, lo: int, hi: int, l: int)
    requires
        0 <= lo <= hi <= 262143,
        lo / 8 <= b <= hi / 8,
        0 <= l < 8,
    ensures
        above(lo - b * 8) <= l <= below(hi - b * 8) <==> lo <= b * 8 + l <= hi,
        lo <= b * 8 && b * 8 + 7 <= hi ==> lo <= b * 8 + l <= hi,
{
}

/// The place of a voxel from its index.
proof fn lemma_digits(l: IVec3)
    requires
        l.within(8),
    ensures
        vindex(l) % 8 == l.x,
        vindex(l) / 8 % 8 == l.z,
        vindex(l) / 64 == l.y,
{
}

/// From cells to voxels: one voxel, where part of its cell or all of it is
/// filled.
proof fn lemma_voxel_filled(
    o: VoxelWorld,
    n: VoxelWorld,
    b: IVec3,
    lo: VoxelPos,
    hi: VoxelPos,
    m: MaterialId,
    w: VoxelPos,
)
    requires
        world_box(lo, hi),
        meets(b, lo, hi),
        brick_of(w) == b,
        n.around(w) == if inside(b, lo, hi) {
            solid_voxels(m)
        } else {
            part_filled(o.around(w), low_part(b, lo), high_part(b, hi), m)
        },
    ensures
        n.voxel_of(w) == if w.between(lo, hi) {
            m
        } else {
            o.voxel_of(w)
        },
{
    lemma_where(w);
    let l = brick_part(local_of(w));
    lemma_vindex(l);
    lemma_part_of(b, lo, hi, w, l);
    lemma_voxel_around(n, w);
    lemma_voxel_around(o, w);
}

/// A voxel is one of those of its cell.
proof fn lemma_voxel_around(s: VoxelWorld, w: VoxelPos)
    ensures
        s.voxel_of(w) == s.around(w)[vindex(brick_part(local_of(w)))],
{
    lemma_vindex(brick_part(local_of(w)));
}

/// What filling its part of the box makes of the cell of one voxel.
proof fn lemma_filled(
    o: VoxelWorld,
    n: VoxelWorld,
    b: IVec3,
    pos: ChunkPos,
    local: IVec3,
    t: ChunkTree,
    lo: VoxelPos,
    hi: VoxelPos,
    m: MaterialId,
    w: VoxelPos,
)
    requires
        world_box(lo, hi),
        meets(b, lo, hi),
        stands_for(b, pos, local),
        o.trees().contains_key(packed(pos)),
        n.trees() == o.trees().insert(packed(pos), t),
        ({
            let s = o.trees()[packed(pos)];
            &&& forall|d: IVec3|
                d.within(64) && d != local ==> #[trigger] t.cell_of(d) == s.cell_of(d)
                    && t.cell_voxels(d) == s.cell_voxels(d) && t.cell_states(d) == s.cell_states(d)
                    && t.keeps_states(d) == s.keeps_states(d)
            &&& if inside(b, lo, hi) {
                t.cell_of(local) == node_cell(m)
            } else {
                &&& fits(
                    t.cell_of(local),
                    t.cell_voxels(local),
                    s.cell_states(local) != calm_states(),
                )
                &&& t.cell_states(local) == kept_states(
                    t.cell_voxels(local),
                    s.cell_states(local),
                )
            }
            &&& t.cell_voxels(local) == if inside(b, lo, hi) {
                solid_voxels(m)
            } else {
                part_filled(s.cell_voxels(local), low_part(b, lo), high_part(b, hi), m)
            }
        }),
    ensures
        n.voxel_of(w) == if brick_of(w) == b && w.between(lo, hi) {
            m
        } else {
            o.voxel_of(w)
        },
        if brick_of(w) == b {
            cell_filled(o, n, w, lo, hi, m)
        } else {
            cell_kept(o, n, w)
        },
{
    lemma_cell_edit(o, n, b, pos, local, t, w);
    lemma_packed(pos);
    if brick_of(w) == b {
        assert(n.at(pos) == Some(t));
        assert(o.at(pos) == Some(o.trees()[packed(pos)]));
        assert(n.around(w) == t.cell_voxels(local));
        assert(o.around(w) == o.trees()[packed(pos)].cell_voxels(local));
        lemma_voxel_filled(o, n, b, lo, hi, m, w);
    } else {
        lemma_voxel_around(n, w);
        lemma_voxel_around(o, w);
    }
}

/// The box's low end, as seen from the corner of brick cell `b`.
pub open spec fn low_part(b: IVec3, lo: VoxelPos) -> IVec3 {
    IVec3 { x: above(lo.x - b.x * 8), y: above(lo.y - b.y * 8), z: above(lo.z - b.z * 8) }
}

/// The box's high end.
pub open spec fn high_part(b: IVec3, hi: VoxelPos) -> IVec3 {
    IVec3 { x: below(hi.x - b.x * 8), y: below(hi.y - b.y * 8), z: below(hi.z - b.z * 8) }
}

pub open spec fn above(d: int) -> i32 {
    if d > 0 {
        d as i32
    } else {
        0
    }
}

pub open spec fn below(d: int) -> i32 {
    if d < 7 {
        d as i32
    } else {
        7
    }
}

impl VoxelWorld {
    /// Sets the part of world brick cell `b` that lies in the box.
    fn fill_brick(&mut self, b: IVec3, lo: VoxelPos, hi: VoxelPos, m: MaterialId)
        requires
            old(self).wf(),
            world_box(lo, hi),
            meets(b, lo, hi),
            !inside(b, lo, hi) ==> has_room(old(self).around(corner(b)), m),
        ensures
            final(self).wf(),
            forall|w: VoxelPos|
                #[trigger] final(self).voxel_of(w) == if brick_of(w) == b && w.between(lo, hi) {
                    m
                } else {
                    old(self).voxel_of(w)
                },
            forall|w: VoxelPos|
                #![trigger final(self).cell_of(w)]
                if brick_of(w) == b {
                    cell_filled(*old(self), *final(self), w, lo, hi, m)
                } else {
                    cell_kept(*old(self), *final(self), w)
                },
            final(self).touched() == old(self).touched().insert(packed(chunk_of(corner(b)))),
            forall|p: ChunkPos|
                p != chunk_of(corner(b)) ==> #[trigger] final(self).at(p) == old(self).at(p),
    {
        let bmin: IVec3 = b.scale(8);
        let bmax: IVec3 = bmin.plus(IVec3::splat(7));
        let pos: ChunkPos = ChunkPos(b.div(64));
        let local: IVec3 = b.rem(64);
        proof {
            lemma_corner(b);
            assert(bmin == corner(b));
            assert(pos == chunk_of(corner(b)));
            assert(local == cell_part(local_of(corner(b))));
        }
        let k: u128 = pack(pos);
        self.ensure(pos);
        let ghost half = *self;
        proof {
            assert(half.around(corner(b)) == old(self).around(corner(b)));
            lemma_packed(pos);
        }
        self.dirty.insert(k);
        let whole: bool = lo.all_le(bmin) && bmax.all_le(hi);
        let a: IVec3 = lo.max(bmin).minus(bmin);
        let z: IVec3 = hi.min(bmax).minus(bmin);
        assert(whole == inside(b, lo, hi));
        assert(a == low_part(b, lo) && z == high_part(b, hi));
        match self.chunks.entry(k) {
            Entry::Occupied(slot) => slot.into_mut().fill_cell(local, whole, a, z, m),
            Entry::Vacant(_) => {},
        }
        proof {
            let t = self.trees()[k];
            assert(self.trees() =~= half.trees().insert(k, t));
            lemma_stands_for(b);
            assert forall|w: VoxelPos| #[trigger] self.voxel_of(w) == if brick_of(w) == b
                && w.between(lo, hi) {
                m
            } else {
                old(self).voxel_of(w)
            } by {
                lemma_filled(half, *self, b, pos, local, t, lo, hi, m, w);
                assert(half.voxel_of(w) == old(self).voxel_of(w));
            }
            assert forall|w: VoxelPos|
                #![trigger self.cell_of(w)]
                if brick_of(w) == b {
                    cell_filled(*old(self), *self, w, lo, hi, m)
                } else {
                    cell_kept(*old(self), *self, w)
                } by {
                lemma_filled(half, *self, b, pos, local, t, lo, hi, m, w);
                assert(half.cell_of(w) == old(self).cell_of(w));
                assert(half.around(w) == old(self).around(w));
                assert(half.states_around(w) == old(self).states_around(w));
                assert(half.keeps_states(w) == old(self).keeps_states(w));
            }
            assert forall|p: ChunkPos| p != pos implies #[trigger] self.at(p) == old(self).at(p) by {
                lemma_packed(p);
            }
        }
    }

    /// Sets the part of a row of brick cells that lies in the box.
    fn fill_row(&mut self, by: i32, bz: i32, lo: VoxelPos, hi: VoxelPos, m: MaterialId)
        requires
            old(self).wf(),
            world_box(lo, hi),
            lo.y as int / 8 <= by <= hi.y as int / 8,
            lo.z as int / 8 <= bz <= hi.z as int / 8,
            box_room(*old(self), lo, hi, m),
        ensures
            final(self).wf(),
            box_room(*final(self), lo, hi, m),
            forall|w: VoxelPos|
                #[trigger] final(self).voxel_of(w) == if brick_of(w).y == by && brick_of(w).z == bz
                    && w.between(lo, hi) {
                    m
                } else {
                    old(self).voxel_of(w)
                },
            forall|w: VoxelPos|
                #![trigger final(self).cell_of(w)]
                if meets(brick_of(w), lo, hi) && brick_of(w).y == by && brick_of(w).z == bz {
                    cell_filled(*old(self), *final(self), w, lo, hi, m)
                } else {
                    cell_kept(*old(self), *final(self), w)
                },
            forall|p: ChunkPos|
                #[trigger] final(self).is_dirty(p) == (old(self).is_dirty(p) || (p.0.y == by as int
                    / 64 && p.0.z == bz as int / 64 && lo.x as int / 512 <= p.0.x <= hi.x as int
                    / 512)),
            forall|p: ChunkPos|
                !(p.0.y == by as int / 64 && p.0.z == bz as int / 64 && lo.x as int / 512 <= p.0.x
                    <= hi.x as int / 512) ==> #[trigger] final(self).at(p) == old(self).at(p),
    {
        let first: i32 = lo.x / 8;
        let last: i32 = hi.x / 8;
        let mut bx: i32 = first;
        while bx <= last
            invariant
                self.wf(),
                world_box(lo, hi),
                lo.y as int / 8 <= by <= hi.y as int / 8,
                lo.z as int / 8 <= bz <= hi.z as int / 8,
                first == lo.x as int / 8,
                last == hi.x as int / 8,
                first <= bx <= last + 1,
                box_room(*self, lo, hi, m),
                forall|w: VoxelPos|
                    #[trigger] self.voxel_of(w) == if brick_of(w).x < bx && brick_of(w).y == by
                        && brick_of(w).z == bz && w.between(lo, hi) {
                        m
                    } else {
                        old(self).voxel_of(w)
                    },
                forall|w: VoxelPos|
                    #![trigger self.cell_of(w)]
                    if meets(brick_of(w), lo, hi) && brick_of(w).x < bx && brick_of(w).y == by
                        && brick_of(w).z == bz {
                        cell_filled(*old(self), *self, w, lo, hi, m)
                    } else {
                        cell_kept(*old(self), *self, w)
                    },
                forall|p: ChunkPos|
                    #[trigger] self.is_dirty(p) == (old(self).is_dirty(p) || (p.0.y == by as int
                        / 64 && p.0.z == bz as int / 64 && bx > first && lo.x as int / 512 <= p.0.x
                        <= (bx - 1) / 64)),
                forall|p: ChunkPos|
                    !(p.0.y == by as int / 64 && p.0.z == bz as int / 64 && lo.x as int / 512
                        <= p.0.x <= hi.x as int / 512) ==> #[trigger] self.at(p) == old(self).at(p),
            decreases last + 1 - bx,
        {
            let b: IVec3 = IVec3 { x: bx, y: by, z: bz };
            let ghost before = *self;
            assert(before.around(corner(b)) == before.around(corner(b)));
            self.fill_brick(b, lo, hi, m);
            proof {
                lemma_brick_axis(bx as int);
                lemma_brick_axis(by as int);
                lemma_brick_axis(bz as int);
                let q = chunk_of(corner(b));
                assert(q.0.x == bx as int / 64 && q.0.y == by as int / 64 && q.0.z == bz as int
                    / 64);
                assert(lo.x as int / 512 == first as int / 64);
                assert(hi.x as int / 512 == last as int / 64);
                assert forall|c: IVec3|
                    #![trigger self.around(corner(c))]
                    meets(c, lo, hi) && !inside(c, lo, hi) implies has_room(
                    self.around(corner(c)),
                    m,
                ) by {
                    assert(has_room(before.around(corner(c)), m));
                    lemma_room_kept(before, *self, corner(c), m);
                }
                assert forall|w: VoxelPos| #[trigger] self.voxel_of(w) == if brick_of(w).x < bx + 1
                    && brick_of(w).y == by && brick_of(w).z == bz && w.between(lo, hi) {
                    m
                } else {
                    old(self).voxel_of(w)
                } by {
                    assert(before.voxel_of(w) == if brick_of(w).x < bx && brick_of(w).y == by
                        && brick_of(w).z == bz && w.between(lo, hi) {
                        m
                    } else {
                        old(self).voxel_of(w)
                    });
                }
                assert forall|w: VoxelPos|
                    #![trigger self.cell_of(w)]
                    if meets(brick_of(w), lo, hi) && brick_of(w).x < bx + 1 && brick_of(w).y == by
                        && brick_of(w).z == bz {
                        cell_filled(*old(self), *self, w, lo, hi, m)
                    } else {
                        cell_kept(*old(self), *self, w)
                    } by {
                    if brick_of(w) == b {
                        assert(cell_kept(*old(self), before, w));
                        assert(cell_filled(before, *self, w, lo, hi, m));
                    } else {
                        assert(cell_kept(before, *self, w));
                        assert(before.cell_of(w) == self.cell_of(w));
                    }
                }
                assert forall|p: ChunkPos| #[trigger] self.is_dirty(p) == (old(self).is_dirty(p) || (
                p.0.y == by as int / 64 && p.0.z == bz as int / 64 && lo.x as int / 512 <= p.0.x
                    <= bx as int / 64)) by {
                    lemma_packed(p);
                    lemma_packed(q);
                    assert(before.is_dirty(p) == before.touched().contains(packed(p)));
                    assert(bx > first ==> (bx - 1) / 64 <= bx as int / 64 <= (bx - 1) / 64 + 1);
                }
            }
            bx += 1;
        }
        proof {
            assert(hi.x as int / 512 == last as int / 64);
            assert forall|w: VoxelPos| #[trigger] self.voxel_of(w) == if brick_of(w).y == by
                && brick_of(w).z == bz && w.between(lo, hi) {
                m
            } else {
                old(self).voxel_of(w)
            } by {
                if w.between(lo, hi) {
                    assert(w.x as int / 8 <= hi.x as int / 8);
                }
            }
        }
    }

    /// Sets the part of a layer of brick cells that lies in the box.
    fn fill_layer(&mut self, bz: i32, lo: VoxelPos, hi: VoxelPos, m: MaterialId)
        requires
            old(self).wf(),
            world_box(lo, hi),
            lo.z as int / 8 <= bz <= hi.z as int / 8,
            box_room(*old(self), lo, hi, m),
        ensures
            final(self).wf(),
            box_room(*final(self), lo, hi, m),
            forall|w: VoxelPos|
                #[trigger] final(self).voxel_of(w) == if brick_of(w).z == bz && w.between(lo, hi) {
                    m
                } else {
                    old(self).voxel_of(w)
                },
            forall|w: VoxelPos|
                #![trigger final(self).cell_of(w)]
                if meets(brick_of(w), lo, hi) && brick_of(w).z == bz {
                    cell_filled(*old(self), *final(self), w, lo, hi, m)
                } else {
                    cell_kept(*old(self), *final(self), w)
                },
            forall|p: ChunkPos|
                #[trigger] final(self).is_dirty(p) == (old(self).is_dirty(p) || (p.0.z == bz as int
                    / 64 && lo.y as int / 512 <= p.0.y <= hi.y as int / 512 && lo.x as int / 512
                    <= p.0.x <= hi.x as int / 512)),
            forall|p: ChunkPos|
                !(p.0.z == bz as int / 64 && lo.y as int / 512 <= p.0.y <= hi.y as int / 512
                    && lo.x as int / 512 <= p.0.x <= hi.x as int / 512) ==> #[trigger] final(
                    self).at(p) == old(self).at(p),
    {
        let first: i32 = lo.y / 8;
        let last: i32 = hi.y / 8;
        let mut by: i32 = first;
        while by <= last
            invariant
                self.wf(),
                world_box(lo, hi),
                lo.z as int / 8 <= bz <= hi.z as int / 8,
                first == lo.y as int / 8,
                last == hi.y as int / 8,
                first <= by <= last + 1,
                box_room(*self, lo, hi, m),
                forall|w: VoxelPos|
                    #[trigger] self.voxel_of(w) == if brick_of(w).y < by && brick_of(w).z == bz
                        && w.between(lo, hi) {
                        m
                    } else {
                        old(self).voxel_of(w)
                    },
                forall|w: VoxelPos|
                    #![trigger self.cell_of(w)]
                    if meets(brick_of(w), lo, hi) && brick_of(w).y < by && brick_of(w).z == bz {
                        cell_filled(*old(self), *self, w, lo, hi, m)
                    } else {
                        cell_kept(*old(self), *self, w)
                    },
                forall|p: ChunkPos|
                    #[trigger] self.is_dirty(p) == (old(self).is_dirty(p) || (by > first && lo.y
                        as int / 512 <= p.0.y <= (by - 1) / 64 && p.0.z == bz as int / 64 && lo.x
                        as int / 512 <= p.0.x <= hi.x as int / 512)),
                forall|p: ChunkPos|
                    !(p.0.z == bz as int / 64 && lo.y as int / 512 <= p.0.y <= hi.y as int / 512
                        && lo.x as int / 512 <= p.0.x <= hi.x as int / 512) ==> #[trigger] self.at(
                        p,
                    ) == old(self).at(p),
            decreases last + 1 - by,
        {
            let ghost before = *self;
            self.fill_row(by, bz, lo, hi, m);
            proof {
                assert(lo.y as int / 512 == first as int / 64);
                assert(hi.y as int / 512 == last as int / 64);
                assert(by > first ==> (by - 1) / 64 <= by as int / 64 <= (by - 1) / 64 + 1);
                assert(first as int / 64 <= by as int / 64 <= last as int / 64);
                assert forall|w: VoxelPos| #[trigger] self.voxel_of(w) == if brick_of(w).y < by + 1
                    && brick_of(w).z == bz && w.between(lo, hi) {
                    m
                } else {
                    old(self).voxel_of(w)
                } by {
                    assert(before.voxel_of(w) == if brick_of(w).y < by && brick_of(w).z == bz
                        && w.between(lo, hi) {
                        m
                    } else {
                        old(self).voxel_of(w)
                    });
                }
                assert forall|w: VoxelPos|
                    #![trigger self.cell_of(w)]
                    if meets(brick_of(w), lo, hi) && brick_of(w).y < by + 1 && brick_of(w).z == bz {
                        cell_filled(*old(self), *self, w, lo, hi, m)
                    } else {
                        cell_kept(*old(self), *self, w)
                    } by {
                    if meets(brick_of(w), lo, hi) && brick_of(w).y == by && brick_of(w).z
                        == bz {
                        assert(cell_kept(*old(self), before, w));
                        assert(cell_filled(before, *self, w, lo, hi, m));
                    } else {
                        assert(cell_kept(before, *self, w));
                        assert(before.cell_of(w) == self.cell_of(w));
                    }
                }
                assert forall|p: ChunkPos| #[trigger] self.is_dirty(p) == (old(self).is_dirty(p) || (
                lo.y as int / 512 <= p.0.y <= by as int / 64 && p.0.z == bz as int / 64 && lo.x
                    as int / 512 <= p.0.x <= hi.x as int / 512)) by {
                    assert(before.is_dirty(p) == before.is_dirty(p));
                }
                assert forall|p: ChunkPos|
                    !(p.0.z == bz as int / 64 && lo.y as int / 512 <= p.0.y <= hi.y as int / 512
                        && lo.x as int / 512 <= p.0.x <= hi.x as int / 512) implies
                    #[trigger] self.at(p) == old(self).at(p) by {
                    assert(before.at(p) == old(self).at(p));
                }
            }
            by += 1;
        }
        proof {
            assert(hi.y as int / 512 == last as int / 64);
            assert forall|w: VoxelPos| #[trigger] self.voxel_of(w) == if brick_of(w).z == bz
                && w.between(lo, hi) {
                m
            } else {
                old(self).voxel_of(w)
            } by {
                if w.between(lo, hi) {
                    assert(w.y as int / 8 <= hi.y as int / 8);
                }
            }
        }
    }

    /// Unloads chunks that hold nothing.
    fn prune(&mut self)
        requires
            old(self).wf(),
        ensures
            final(self).wf(),
            final(self).touched() == old(self).touched(),
            forall|w: VoxelPos| #[trigger] final(self).voxel_of(w) == old(self).voxel_of(w),
            forall|p: ChunkPos| #[trigger] final(self).at(p) == pruned(old(self).at(p)),
            forall|w: VoxelPos|
                #![trigger final(self).cell_of(w)]
                cell_kept(*old(self), *final(self), w),
    {
        let keys: Vec<u128> = keys_of(&self.chunks);
        proof {
            assert(self.trees() == self.chunks@ && self.touched() == self.dirty@);
        }
        let mut n: usize = 0;
        while n < keys.len()
            invariant
                self.wf(),
                self.trees() == self.chunks@,
                self.touched() == self.dirty@,
                keys@.no_duplicates(),
                keys@.to_set() == old(self).trees().dom(),
                n <= keys@.len(),
                self.touched() == old(self).touched(),
                forall|k: u128|
                    #[trigger] self.trees().contains_key(k) == (old(self).trees().contains_key(k)
                        && !(old(self).trees()[k].nodes().mask == 0 && keys@.take(
                        n as int,
                    ).contains(k))),
                forall|k: u128|
                    #[trigger] self.trees().contains_key(k) ==> self.trees()[k] == old(
                        self,
                    ).trees()[k],
            decreases keys@.len() - n,
        {
            let k: u128 = keys[n];
            let ghost seen = keys@.take(n as int);
            let ghost next = keys@.take(n + 1);
            proof {
                assert(next =~= seen.push(k));
                assert forall|j: u128| #[trigger] next.contains(j) == (seen.contains(j) || j == k) by {
                    if seen.contains(j) {
                        let i = choose|i: int| 0 <= i < seen.len() && seen[i] == j;
                        assert(next[i] == j);
                    }
                    assert(next[n as int] == k);
                }
            }
            let empty: bool = match self.chunks.get(&k) {
                Some(t) => t.is_empty(),
                None => false,
            };
            if empty {
                self.chunks.remove(&k);
            }
            n += 1;
        }
        proof {
            assert(keys@.take(n as int) =~= keys@);
            assert forall|p: ChunkPos| #[trigger] self.at(p) == pruned(old(self).at(p)) by {
                let k = packed(p);
                if old(self).trees().contains_key(k) {
                    assert(keys@.to_set().contains(k));
                }
            }
            assert forall|w: VoxelPos| #[trigger] self.voxel_of(w) == old(self).voxel_of(w) by {
                let p = chunk_of(w);
                assert(self.at(p) == pruned(old(self).at(p)));
                if let Some(t) = old(self).at(p) {
                    if t.nodes().mask == 0 {
                        crate::bits::lemma_no_bits(0);
                        let d = cell_part(local_of(w));
                        crate::tree::path::lemma_path(d);
                        lemma_vindex(brick_part(local_of(w)));
                        assert(t.cell_of(d) == Cell::Empty);
                    }
                }
            }
            assert forall|w: VoxelPos|
                #![trigger self.cell_of(w)]
                cell_kept(*old(self), *self, w) by {
                let p = chunk_of(w);
                assert(self.at(p) == pruned(old(self).at(p)));
                if let Some(t) = old(self).at(p) {
                    if t.nodes().mask == 0 {
                        crate::bits::lemma_no_bits(0);
                        let d = cell_part(local_of(w));
                        crate::tree::path::lemma_path(d);
                        assert(t.cell_of(d) == Cell::Empty);
                    }
                }
            }
        }
    }

    /// Fills an inclusive voxel box. Whole brick cells become uniform cells
    /// directly; only the boundary bricks are edited voxel by voxel. Chunks
    /// left with nothing in them are unloaded.
    pub fn fill_box(&mut self, min: VoxelPos, max: VoxelPos, m: MaterialId)
        requires
            old(self).wf(),
            box_room(*old(self), clip_low(min), clip_high(max), m),
        ensures
            final(self).wf(),
            forall|w: VoxelPos|
                #[trigger] final(self).voxel_of(w) == if voxel_in_world(w) && w.between(min, max) {
                    m
                } else {
                    old(self).voxel_of(w)
                },
            !world_box(clip_low(min), clip_high(max)) ==> *final(self) == *old(self),
            world_box(clip_low(min), clip_high(max)) ==> {
                &&& cells_filled(*old(self), *final(self), clip_low(min), clip_high(max), m)
                &&& forall|p: ChunkPos|
                    #[trigger] final(self).is_dirty(p) == (old(self).is_dirty(p) || chunk_meets(
                        p,
                        clip_low(min),
                        clip_high(max),
                    ))
                &&& forall|p: ChunkPos|
                    (#[trigger] final(self).at(p)) is Some ==> pruned(final(self).at(p))
                        == final(self).at(p)
                &&& forall|p: ChunkPos|
                    !chunk_meets(p, clip_low(min), clip_high(max)) ==> #[trigger] final(self).at(p)
                        == pruned(old(self).at(p))
            },
    {
        let lo: IVec3 = min.max(IVec3::splat(0));
        let hi: IVec3 = max.min(
            IVec3 { x: WORLD_VOXELS_XZ - 1, y: WORLD_VOXELS_Y - 1, z: WORLD_VOXELS_XZ - 1 },
        );
        assert(lo == clip_low(min) && hi == clip_high(max));
        if !lo.all_le(hi) {
            return;
        }
        assert(world_box(lo, hi));
        let first: i32 = lo.z / 8;
        let last: i32 = hi.z / 8;
        let mut bz: i32 = first;
        while bz <= last
            invariant
                self.wf(),
                world_box(lo, hi),
                first == lo.z as int / 8,
                last == hi.z as int / 8,
                first <= bz <= last + 1,
                box_room(*self, lo, hi, m),
                forall|w: VoxelPos|
                    #[trigger] self.voxel_of(w) == if brick_of(w).z < bz && w.between(lo, hi) {
                        m
                    } else {
                        old(self).voxel_of(w)
                    },
                forall|w: VoxelPos|
                    #![trigger self.cell_of(w)]
                    if meets(brick_of(w), lo, hi) && brick_of(w).z < bz {
                        cell_filled(*old(self), *self, w, lo, hi, m)
                    } else {
                        cell_kept(*old(self), *self, w)
                    },
                forall|p: ChunkPos|
                    #[trigger] self.is_dirty(p) == (old(self).is_dirty(p) || (bz > first && lo.z
                        as int / 512 <= p.0.z <= (bz - 1) / 64 && lo.y as int / 512 <= p.0.y <= hi.y
                        as int / 512 && lo.x as int / 512 <= p.0.x <= hi.x as int / 512)),
                forall|p: ChunkPos|
                    !chunk_meets(p, lo, hi) ==> #[trigger] self.at(p) == old(self).at(p),
            decreases last + 1 - bz,
        {
            let ghost before = *self;
            self.fill_layer(bz, lo, hi, m);
            proof {
                assert(lo.z as int / 512 == first as int / 64);
                assert(hi.z as int / 512 == last as int / 64);
                assert(bz > first ==> (bz - 1) / 64 <= bz as int / 64 <= (bz - 1) / 64 + 1);
                assert(first as int / 64 <= bz as int / 64 <= last as int / 64);
                assert forall|w: VoxelPos| #[trigger] self.voxel_of(w) == if brick_of(w).z < bz + 1
                    && w.between(lo, hi) {
                    m
                } else {
                    old(self).voxel_of(w)
                } by {
                    assert(before.voxel_of(w) == if brick_of(w).z < bz && w.between(lo, hi) {
                        m
                    } else {
                        old(self).voxel_of(w)
                    });
                }
                assert forall|w: VoxelPos|
                    #![trigger self.cell_of(w)]
                    if meets(brick_of(w), lo, hi) && brick_of(w).z < bz + 1 {
                        cell_filled(*old(self), *self, w, lo, hi, m)
                    } else {
                        cell_kept(*old(self), *self, w)
                    } by {
                    if meets(brick_of(w), lo, hi) && brick_of(w).z == bz {
                        assert(cell_kept(*old(self), before, w));
                        assert(cell_filled(before, *self, w, lo, hi, m));
                    } else {
                        assert(cell_kept(before, *self, w));
                        assert(before.cell_of(w) == self.cell_of(w));
                    }
                }
                assert forall|p: ChunkPos| #[trigger] self.is_dirty(p) == (old(self).is_dirty(p) || (
                lo.z as int / 512 <= p.0.z <= bz as int / 64 && lo.y as int / 512 <= p.0.y <= hi.y
                    as int / 512 && lo.x as int / 512 <= p.0.x <= hi.x as int / 512)) by {
                    assert(before.is_dirty(p) == before.is_dirty(p));
                }
                assert forall|p: ChunkPos| !chunk_meets(p, lo, hi) implies #[trigger] self.at(p)
                    == old(self).at(p) by {
                    assert(before.at(p) == old(self).at(p));
                }
            }
            bz += 1;
        }
        let ghost filled = *self;
        self.prune();
        proof {
            assert(hi.z as int / 512 == last as int / 64);
            assert forall|w: VoxelPos| #[trigger] self.voxel_of(w) == if voxel_in_world(w)
                && w.between(min, max) {
                m
            } else {
                old(self).voxel_of(w)
            } by {
                assert(filled.voxel_of(w) == self.voxel_of(w));
                if w.between(lo, hi) {
                    assert(w.z as int / 8 <= hi.z as int / 8);
                }
            }
            assert forall|w: VoxelPos|
                #![trigger self.cell_of(w)]
                if meets(brick_of(w), lo, hi) {
                    cell_filled(*old(self), *self, w, lo, hi, m)
                } else {
                    cell_kept(*old(self), *self, w)
                } by {
                assert(filled.cell_of(w) == self.cell_of(w));
            }
            assert forall|p: ChunkPos| #[trigger] self.is_dirty(p) == (old(self).is_dirty(p)
                || chunk_meets(p, lo, hi)) by {
                assert(self.is_dirty(p) == filled.is_dirty(p));
            }
        }
    }
}

/// `p` clipped from below to the world.
pub open spec fn clip_low(p: VoxelPos) -> VoxelPos {
    IVec3 {
        x: if p.x >= 0 {
            p.x
        } else {
            0
        },
        y: if p.y >= 0 {
            p.y
        } else {
            0
        },
        z: if p.z >= 0 {
            p.z
        } else {
            0
        },
    }
}

/// `p` clipped from above to the world.
pub open spec fn clip_high(p: VoxelPos) -> VoxelPos {
    IVec3 {
        x: if p.x <= 262143 {
            p.x
        } else {
            262143
        },
        y: if p.y <= 8191 {
            p.y
        } else {
            8191
        },
        z: if p.z <= 262143 {
            p.z
        } else {
            262143
        },
    }
}

/// Some voxel of chunk `p` lies in the box `lo..=hi`.
pub open spec fn chunk_meets(p: ChunkPos, lo: VoxelPos, hi: VoxelPos) -> bool {
    &&& lo.x as int / 512 <= p.0.x <= hi.x as int / 512
    &&& lo.y as int / 512 <= p.0.y <= hi.y as int / 512
    &&& lo.z as int / 512 <= p.0.z <= hi.z as int / 512
}

proof fn lemma_cell_axis(p: int, d: int)
    requires
        0 <= d < 64,
    ensures
        (p * 512 + d * 8) / 512 == p,
        (p * 512 + d * 8) % 512 / 8 == d,
        (p * 512 + d * 8) / 8 == p * 64 + d,
{
    assert(0 <= d * 8 < 512);
}

/// Filling a box with air unloads every chunk that lies whole in it: with the
/// whole world, no chunk of it is left.
pub proof fn cleared_chunks_are_unloaded(
    s: VoxelWorld,
    t: VoxelWorld,
    lo: VoxelPos,
    hi: VoxelPos,
    p: ChunkPos,
)
    requires
        t.wf(),
        world_box(lo, hi),
        cells_filled(s, t, lo, hi, air()),
        t.at(p) is Some ==> pruned(t.at(p)) == t.at(p),
        lo.x <= p.0.x * 512 && p.0.x * 512 + 511 <= hi.x,
        lo.y <= p.0.y * 512 && p.0.y * 512 + 511 <= hi.y,
        lo.z <= p.0.z * 512 && p.0.z * 512 + 511 <= hi.z,
    ensures
        t.at(p) is None,
{
    if let Some(tree) = t.at(p) {
        lemma_something_held(tree);
        let d = choose|d: IVec3| d.within(64) && #[trigger] tree.cell_of(d) != Cell::Empty;
        let w = IVec3 {
            x: (p.0.x * 512 + d.x * 8) as i32,
            y: (p.0.y * 512 + d.y * 8) as i32,
            z: (p.0.z * 512 + d.z * 8) as i32,
        };
        lemma_cell_axis(p.0.x as int, d.x as int);
        lemma_cell_axis(p.0.y as int, d.y as int);
        lemma_cell_axis(p.0.z as int, d.z as int);
        assert(chunk_of(w) == p);
        assert(cell_part(local_of(w)) == d);
        assert(brick_of(w).x == p.0.x * 64 + d.x);
        assert(brick_of(w).y == p.0.y * 64 + d.y);
        assert(brick_of(w).z == p.0.z * 64 + d.z);
        assert(inside(brick_of(w), lo, hi));
        assert(meets(brick_of(w), lo, hi));
        assert(t.cell_of(w) == Cell::Empty);
    }
}

/// Chunk and cell of a world brick cell's corner.
pub proof fn lemma_brick_axis(b: int)
    ensures
        b * 8 / 512 == b / 64,
        b * 8 % 512 / 8 == b % 64,
{
    let q = b / 64;
    let r = b % 64;
    assert(b * 8 == q * 512 + r * 8);
    assert(b * 8 / 512 == q);
    assert(b * 8 % 512 == r * 8);
}

/// Chunk, cell and place of a voxel are the digits of its coordinates.
pub proof fn lemma_where(w: VoxelPos)
    ensures
        w.x as int / 8 == chunk_of(w).0.x * 64 + cell_part(local_of(w)).x,
        w.y as int / 8 == chunk_of(w).0.y * 64 + cell_part(local_of(w)).y,
        w.z as int / 8 == chunk_of(w).0.z * 64 + cell_part(local_of(w)).z,
        w.x == w.x as int / 8 * 8 + brick_part(local_of(w)).x,
        w.y == w.y as int / 8 * 8 + brick_part(local_of(w)).y,
        w.z == w.z as int / 8 * 8 + brick_part(local_of(w)).z,
        cell_part(local_of(w)).within(64),
        brick_part(local_of(w)).within(8),
{
    lemma_where_axis(w.x as int);
    lemma_where_axis(w.y as int);
    lemma_where_axis(w.z as int);
}

proof fn lemma_where_axis(w: int)
    ensures
        w / 8 == w / 512 * 64 + w % 512 / 8,
        w == w / 8 * 8 + w % 512 % 8,
        0 <= w % 512 / 8 < 64,
        0 <= w % 512 % 8 < 8,
{
    let q = w / 512;
    let r = w % 512;
    assert(w == q * 512 + r);
    assert(r == r / 8 * 8 + r % 8);
    assert(w == (q * 64 + r / 8) * 8 + r % 8);
}

/// The fewest bytes that a map of trees can take, in whatever order they are
/// counted.
pub open spec fn least_trees(m: Map<u128, ChunkTree>) -> int
    decreases m.dom().len(),
{
    if m.dom().finite() && m.dom().len() > 0 {
        let k = m.dom().choose();
        m[k].least_bytes() + least_trees(m.remove(k))
    } else {
        0
    }
}

/// Any tree may be counted first.
proof fn lemma_least_trees(m: Map<u128, ChunkTree>, k: u128)
    requires
        m.dom().finite(),
        m.dom().contains(k),
    ensures
        least_trees(m) == m[k].least_bytes() + least_trees(m.remove(k)),
    decreases m.dom().len(),
{
    let c = m.dom().choose();
    assert(m.dom().len() > 0);
    assert(m.dom().contains(c));
    assert(m.remove(c).dom() =~= m.dom().remove(c));
    assert(m.remove(k).dom() =~= m.dom().remove(k));
    if c != k {
        lemma_least_trees(m.remove(c), k);
        lemma_least_trees(m.remove(k), c);
        assert(m.remove(c).remove(k) =~= m.remove(k).remove(c));
    }
}

proof fn lemma_least_positive(m: Map<u128, ChunkTree>)
    ensures
        least_trees(m) >= 0,
    decreases m.dom().len(),
{
    if m.dom().finite() && m.dom().len() > 0 {
        let k = m.dom().choose();
        m[k].lemma_least();
        assert(m.remove(k).dom() =~= m.dom().remove(k));
        lemma_least_positive(m.remove(k));
    }
}

impl VoxelWorld {
    /// `n` bytes may be what the chunks take: the sum of what each takes.
    pub open spec fn takes(&self, n: usize) -> bool {
        exists|keys: Seq<u128>, bytes: Seq<usize>|
            #[trigger] self.takes_each(keys, bytes) && n == capped(
                total(bytes, bytes.len() as int),
            )
    }

    /// Every chunk once, with bytes that its tree may take.
    pub open spec fn takes_each(&self, keys: Seq<u128>, bytes: Seq<usize>) -> bool {
        &&& keys.no_duplicates()
        &&& keys.to_set() == self.trees().dom()
        &&& bytes.len() == keys.len()
        &&& forall|i: int| 0 <= i < keys.len() ==> self.trees()[keys[i]].takes(#[trigger] bytes[i])
    }

    /// Bytes allocated for the chunks: what their trees take together.
    pub fn memory_bytes(&self) -> (n: usize)
        requires
            self.wf(),
        ensures
            self.takes(n),
            n >= capped(least_trees(self.trees())),
            self.trees().len() == 0 ==> n == 0,
    {
        let keys: Vec<u128> = keys_of(&self.chunks);
        let mut bytes: Vec<usize> = Vec::new();
        let ghost mut left = self.chunks@;
        let mut i: usize = 0;
        proof {
            keys@.unique_seq_to_set();
        }
        while i < keys.len()
            invariant
                keys@.no_duplicates(),
                keys@.to_set() == self.chunks@.dom(),
                self.chunks@.dom().finite(),
                i <= keys@.len(),
                bytes@.len() == i,
                forall|j: int| 0 <= j < i ==> self.chunks@[keys@[j]].takes(#[trigger] bytes@[j]),
                left.dom().finite(),
                left.submap_of(self.chunks@),
                forall|j: int| i <= j < keys@.len() ==> left.dom().contains(#[trigger] keys@[j]),
                left.dom().len() == keys@.len() - i,
                capped(total(bytes@, i as int) + least_trees(left)) >= capped(
                    least_trees(self.chunks@),
                ),
            decreases keys@.len() - i,
        {
            let k: u128 = keys[i];
            let ghost before = bytes@;
            assert(keys@.to_set().contains(k));
            let more: usize = match self.chunks.get(&k) {
                Some(t) => t.memory_bytes(),
                None => 0,
            };
            proof {
                let t = self.chunks@[k];
                lemma_least_trees(left, k);
                t.lemma_takes(more);
                t.lemma_least();
                lemma_total_bounds(before, i as int);
                lemma_least_positive(left.remove(k));
            }
            bytes.push(more);
            proof {
                lemma_total_same(before, bytes@, i as int);
                left = left.remove(k);
            }
            i += 1;
        }
        let n: usize = sum(&bytes);
        proof {
            assert(self.takes_each(keys@, bytes@));
            assert(least_trees(left) == 0);
        }
        n
    }
}

/// What is reported as changed: every voxel of the list that lies in the world
/// and was not yet the material, each once, with what it held, in the order in
/// which they are first named.
pub proof fn changes_are_reported_once(
    w: VoxelWorld,
    list: Seq<VoxelPos>,
    m: MaterialId,
    n: int,
    v: VoxelPos,
)
    requires
        0 <= n <= list.len(),
    ensures
        forall|k: int|
            0 <= k < changes(w, list, m, n).len() ==> voxel_in_world(
                (#[trigger] changes(w, list, m, n)[k]).0,
            ) && changes(w, list, m, n)[k].1 == w.voxel_of(changes(w, list, m, n)[k].0) && changes(
                w,
                list,
                m,
                n,
            )[k].1 != m && list.take(n).contains(changes(w, list, m, n)[k].0),
        list.take(n).contains(v) && voxel_in_world(v) && w.voxel_of(v) != m ==> changes(
            w,
            list,
            m,
            n,
        ).contains((v, w.voxel_of(v))),
        forall|i: int, j: int|
            0 <= i < j < changes(w, list, m, n).len() ==> (#[trigger] changes(w, list, m, n)[i]).0
                != (#[trigger] changes(w, list, m, n)[j]).0,
    decreases n,
{
    if n > 0 {
        changes_are_reported_once(w, list, m, n - 1, v);
        let last = list[n - 1];
        let again = exists|i: int| 0 <= i < n - 1 && list[i] == last;
        let before = changes(w, list, m, n - 1);
        let now = changes(w, list, m, n);
        let few = list.take(n - 1);
        let all = list.take(n);
        assert(forall|x: VoxelPos| few.contains(x) ==> all.contains(x)) by {
            assert forall|x: VoxelPos| few.contains(x) implies all.contains(x) by {
                let i = choose|i: int| 0 <= i < few.len() && few[i] == x;
                assert(all[i] == x);
            }
        }
        assert(all[n - 1] == last);
        if all.contains(v) && !few.contains(v) {
            let i = choose|i: int| 0 <= i < all.len() && all[i] == v;
            if i < n - 1 {
                assert(few[i] == v);
            }
            assert(v == last);
            assert(!again) by {
                if again {
                    let i = choose|i: int| 0 <= i < n - 1 && list[i] == last;
                    assert(few[i] == v);
                }
            }
        }
        if voxel_in_world(last) && !again && w.voxel_of(last) != m {
            assert(now == before.push((last, w.voxel_of(last))));
            assert(now[before.len() as int] == (last, w.voxel_of(last)));
            assert forall|k: int| 0 <= k < before.len() implies (#[trigger] before[k]).0 != last by {
                assert(few.contains(before[k].0));
                let i = choose|i: int| 0 <= i < few.len() && few[i] == before[k].0;
                assert(list[i] == before[k].0);
            }
            assert forall|x: (VoxelPos, MaterialId)| before.contains(x) implies now.contains(x) by {
                let i = choose|i: int| 0 <= i < before.len() && before[i] == x;
                assert(now[i] == x);
            }
        }
    } else {
        assert(list.take(n).len() == 0);
    }
}

/// Clipping a box leaves the voxels of it that lie in the world, and no other.
pub proof fn clipping_keeps_the_world_part(lo: VoxelPos, hi: VoxelPos, v: VoxelPos)
    ensures
        v.between(clip_low(lo), clip_high(hi)) <==> v.between(lo, hi) && 0 <= v.x < 262144 && 0
            <= v.y < 8192 && 0 <= v.z < 262144,
{
}

/// A box meets a chunk, or a brick cell, exactly where some voxel of it lies
/// there.
pub proof fn boxes_meet_what_they_share(lo: VoxelPos, hi: VoxelPos, v: VoxelPos)
    requires
        v.between(lo, hi),
    ensures
        chunk_meets(chunk_of(v), lo, hi),
        meets(brick_of(v), lo, hi),
{
}

} // verus!
