//! Chunk streaming: which chunks exist around the camera, at what detail.
//!
//! When the camera crosses a chunk boundary the streamer derives a desired
//! level of detail for each chunk within the outermost radius. Generation
//! runs elsewhere and results come back one by one. Chunks refine as the
//! camera approaches and coarsen or unload as it leaves, with hysteresis so a
//! camera sitting on a boundary does not regenerate forever. Chunks the player
//! has changed are pinned at full detail and never regenerated.

use crate::coords::ChunkPos;
use crate::ivec::IVec3;
use crate::lod::Lod;
use crate::sort::{falling, lemma_same_items, lemma_same_once, sort_falling};
use crate::tree::ChunkTree;
use crate::world::{
    keys_of, lemma_packed, members_of, pack, packed, unpack, unpacked, VoxelWorld,
};
use std::collections::{HashMap, HashSet};
use vstd::prelude::*;

verus! {

broadcast use vstd::std_specs::hash::group_hash_axioms;

/// Distances, as the bits of their f32, inside which each level applies.
#[derive(Clone, Copy, Debug)]
pub struct Radii {
    pub full: u32,
    pub cell: u32,
    pub node2: u32,
    pub node8: u32,
}

/// The finest level whose radius reaches `d`.
pub open spec fn wanted(d: u32, r: Radii) -> Option<Lod> {
    if d <= r.full {
        Some(Lod::Full)
    } else if d <= r.cell {
        Some(Lod::Cell)
    } else if d <= r.node2 {
        Some(Lod::Node2)
    } else if d <= r.node8 {
        Some(Lod::Node8)
    } else {
        None
    }
}

pub fn lod_for(d: u32, r: &Radii) -> (l: Option<Lod>)
    ensures
        l == wanted(d, *r),
{
    if d <= r.full {
        Some(Lod::Full)
    } else if d <= r.cell {
        Some(Lod::Cell)
    } else if d <= r.node2 {
        Some(Lod::Node2)
    } else if d <= r.node8 {
        Some(Lod::Node8)
    } else {
        None
    }
}

/// How coarse a wish is; no chunk at all is the coarsest.
pub open spec fn coarseness(l: Option<Lod>) -> int {
    match l {
        Some(l) => l.level(),
        None => 4,
    }
}

/// Detail never rises with distance, and never falls when the radii grow.
pub proof fn detail_falls_with_distance(d: u32, e: u32, r: Radii, s: Radii)
    requires
        d <= e,
        r.full <= s.full,
        r.cell <= s.cell,
        r.node2 <= s.node2,
        r.node8 <= s.node8,
    ensures
        coarseness(wanted(d, r)) <= coarseness(wanted(e, r)),
        coarseness(wanted(d, s)) <= coarseness(wanted(d, r)),
{
}

/// The level a chunk should have: `ideal` by its distance, `relaxed` with the
/// slack added, `current` if it is loaded. What is loaded stays while it is
/// within the slack, coarsens beyond it; a finer ideal wins at once.
pub open spec fn chosen(ideal: Option<Lod>, relaxed: Lod, current: Option<Lod>) -> Option<Lod> {
    match (ideal, current) {
        (Some(i), Some(c)) => if relaxed.level() <= c.level() && c.level() < i.level() {
            Some(c)
        } else {
            Some(i)
        },
        (Some(i), None) => Some(i),
        (None, Some(c)) => if relaxed.level() > c.level() {
            Some(relaxed)
        } else {
            Some(c)
        },
        (None, None) => None,
    }
}

pub fn choose_lod(ideal: Option<Lod>, relaxed: Lod, current: Option<Lod>) -> (r: Option<Lod>)
    ensures
        r == chosen(ideal, relaxed, current),
{
    match (ideal, current) {
        (Some(i), Some(c)) => if relaxed.rank() <= c.rank() && c.rank() < i.rank() {
            Some(c)
        } else {
            Some(i)
        },
        (Some(i), None) => Some(i),
        (None, Some(c)) => Some(c.coarser(relaxed)),
        (None, None) => None,
    }
}

/// A camera that does not move settles: the level a chunk was just given is
/// the level it is given again.
pub proof fn choice_is_stable(ideal: Option<Lod>, relaxed: Lod, current: Option<Lod>)
    requires
        coarseness(Some(relaxed)) <= coarseness(ideal),
    ensures
        chosen(ideal, relaxed, chosen(ideal, relaxed, current)) == chosen(ideal, relaxed, current),
{
}

/// Within the slack of its level a loaded chunk is left alone; beyond it the
/// chunk coarsens, and nearer than its level wants it refines.
pub proof fn slack_keeps_what_is_loaded(ideal: Option<Lod>, relaxed: Lod, current: Lod)
    requires
        relaxed.level() <= coarseness(ideal),
    ensures
        relaxed.level() <= current.level() <= coarseness(ideal) ==> chosen(
            ideal,
            relaxed,
            Some(current),
        ) == Some(current),
        current.level() < relaxed.level() ==> coarseness(chosen(ideal, relaxed, Some(current)))
            > current.level(),
        current.level() > coarseness(ideal) ==> coarseness(chosen(ideal, relaxed, Some(current)))
            < current.level(),
{
}

/// One chunk column as the camera sees it.
#[derive(Clone, Copy, Debug)]
pub struct ColumnView {
    pub cx: i32,
    pub cz: i32,
    pub ideal: Option<Lod>,
    pub relaxed: Lod,
    /// Whole metres to the column.
    pub distance: u32,
    /// Chunks from the world's floor up to the highest ground of the column.
    pub layers: i32,
    /// Chunks that lie wholly under its lowest ground.
    pub buried: i32,
    /// Chunks too far under the camera to dig to.
    pub deep: i32,
}

impl ColumnView {
    /// The chunk at height `cy` of the column.
    pub open spec fn chunk_at(&self, cy: i32) -> ChunkPos {
        ChunkPos(IVec3 { x: self.cx, y: cy, z: self.cz })
    }

    /// The level the chunk at height `cy` of the column should have. Buried
    /// chunks are invisible; only a thin solid layer under a nearby camera is
    /// kept for digging and physics. Pinned chunks stay at full detail.
    pub open spec fn target(&self, cy: int, pinned: bool, current: Option<Lod>) -> Option<Lod> {
        match chosen(self.ideal, self.relaxed, current) {
            None => None,
            Some(lod) => if pinned {
                Some(Lod::Full)
            } else if cy < self.buried && (lod != Lod::Full || cy < self.deep) {
                None
            } else {
                Some(lod)
            },
        }
    }

    fn target_of(&self, cy: i32, pinned: bool, current: Option<Lod>) -> (r: Option<Lod>)
        ensures
            r == self.target(cy as int, pinned, current),
    {
        match choose_lod(self.ideal, self.relaxed, current) {
            None => None,
            Some(lod) => if pinned {
                Some(Lod::Full)
            } else if cy < self.buried && (lod != Lod::Full || cy < self.deep) {
                None
            } else {
                Some(lod)
            },
        }
    }
}

/// What a queued chunk is dispatched by: finest first, then nearest.
pub open spec fn job_key(lod: Lod, distance: u32) -> int {
    lod.level() * 0x100_0000_0000 + distance
}

/// What streaming is at.
#[derive(Clone, Copy, Debug, PartialEq, Eq, Structural)]
pub struct StreamStats {
    pub loaded: usize,
    pub inflight: usize,
    pub queued: usize,
    pub inserted_last_frame: usize,
    pub generated_total: u64,
    pub full: usize,
}

/// The chunks loaded at full detail.
pub open spec fn full_chunks(m: Map<u128, Lod>) -> Set<u128> {
    m.dom().filter(|k: u128| m[k] is Full)
}

/// No two jobs are for the same chunk.
pub open spec fn once(q: Seq<(u64, (u128, Lod))>) -> bool {
    forall|i: int, j: int|
        #![trigger q[i], q[j]]
        0 <= i < j < q.len() ==> q[i].1.0 != q[j].1.0
}

/// No two views are of the same column.
pub open spec fn columns_apart(c: Seq<ColumnView>) -> bool {
    forall|i: int, j: int|
        #![trigger c[i], c[j]]
        0 <= i < j < c.len() ==> c[i].cx != c[j].cx || c[i].cz != c[j].cz
}

/// No job is for a chunk of column `c`.
spec fn none_in(q: Seq<(u64, (u128, Lod))>, c: ColumnView) -> bool {
    forall|i: int|
        #![trigger q[i]]
        0 <= i < q.len() ==> unpacked(q[i].1.0).0.x != c.cx || unpacked(q[i].1.0).0.z != c.cz
}

/// Whatever order the jobs are put in, each still waits once.
proof fn lemma_once(a: Seq<(u64, (u128, Lod))>, b: Seq<(u64, (u128, Lod))>)
    requires
        crate::sort::items(a) == crate::sort::items(b),
        once(b),
    ensures
        once(a),
{
    assert forall|i: int, j: int| 0 <= i < b.len() && 0 <= j < b.len() && i != j implies b[i]
        != b[j] by {
        if i < j {
            assert(b[i].1.0 != b[j].1.0);
        } else {
            assert(b[j].1.0 != b[i].1.0);
        }
    }
    lemma_same_once(a, b);
    assert forall|i: int, j: int|
        #![trigger a[i], a[j]]
        0 <= i < j < a.len() implies a[i].1.0 != a[j].1.0 by {
        assert(a[i] != a[j]);
        assert(a.contains(a[i]) && a.contains(a[j]));
        lemma_same_items(a, b, a[i]);
        lemma_same_items(a, b, a[j]);
        let x = choose|x: int| 0 <= x < b.len() && b[x] == a[i];
        let y = choose|y: int| 0 <= y < b.len() && b[y] == a[j];
        if x < y {
            assert(b[x].1.0 != b[y].1.0);
        } else {
            assert(b[y].1.0 != b[x].1.0);
        }
    }
}

proof fn lemma_pushed(s: Seq<u128>, k: u128, q: u128)
    ensures
        s.push(k).contains(q) <==> s.contains(q) || q == k,
{
    if s.contains(q) {
        let i = choose|i: int| 0 <= i < s.len() && s[i] == q;
        assert(s.push(k)[i] == q);
    }
    if q == k {
        assert(s.push(k)[s.len() as int] == q);
    }
    if s.push(k).contains(q) && q != k {
        let i = choose|i: int| 0 <= i < s.push(k).len() && s.push(k)[i] == q;
        assert(s[i] == q);
    }
}

pub struct ChunkStreamer {
    loaded: HashMap<u128, Lod>,
    pinned: HashSet<u128>,
    inflight: HashMap<u128, Lod>,
    queue: Vec<(u64, (u128, Lod))>,
    targets: HashMap<u128, Lod>,
    unload: Vec<u128>,
    generated_total: u64,
}

impl ChunkStreamer {
    pub closed spec fn loaded_map(&self) -> Map<u128, Lod> {
        self.loaded@
    }

    pub closed spec fn pins(&self) -> Set<u128> {
        self.pinned@
    }

    pub closed spec fn running(&self) -> Map<u128, Lod> {
        self.inflight@
    }

    pub closed spec fn wanted_map(&self) -> Map<u128, Lod> {
        self.targets@
    }

    /// Work waiting, last first.
    pub closed spec fn waiting(&self) -> Seq<(u64, (u128, Lod))> {
        self.queue@
    }

    /// Keys of the chunks to take out of the world.
    pub closed spec fn leaving(&self) -> Seq<u128> {
        self.unload@
    }

    pub closed spec fn total(&self) -> u64 {
        self.generated_total
    }

    /// Keys are chunks', and nothing that is leaving is pinned at full detail
    /// or still loaded.
    pub open spec fn wf(&self) -> bool {
        &&& forall|k: u128| #[trigger] self.loaded_map().contains_key(k) ==> packed(unpacked(k)) == k
        &&& forall|i: int|
            0 <= i < self.leaving().len() ==> packed(unpacked(#[trigger] self.leaving()[i]))
                == self.leaving()[i] && !self.loaded_map().contains_key(self.leaving()[i])
        &&& forall|i: int|
            0 <= i < self.waiting().len() ==> packed(unpacked((#[trigger] self.waiting()[i]).1.0))
                == self.waiting()[i].1.0
        &&& falling(self.waiting())
    }

    /// Everything in the world is loaded or on its way out.
    pub open spec fn holds_world(&self, w: VoxelWorld) -> bool {
        forall|k: u128|
            #[trigger] w.trees().contains_key(k) ==> self.loaded_map().contains_key(k)
                || self.leaving().contains(k)
    }

    /// Changed by play, and loaded with every voxel.
    pub open spec fn kept(&self, k: u128) -> bool {
        self.pins().contains(k) && self.loaded_map().contains_key(k) && self.loaded_map()[k]
            == Lod::Full
    }

    proof fn lemma_views(&self)
        ensures
            self.loaded_map() == self.loaded@,
            self.pins() == self.pinned@,
            self.running() == self.inflight@,
            self.wanted_map() == self.targets@,
            self.waiting() == self.queue@,
            self.leaving() == self.unload@,
    {
    }

    pub fn new() -> (s: ChunkStreamer)
        ensures
            s.wf(),
            s.loaded_map() == Map::<u128, Lod>::empty(),
            s.pins() == Set::<u128>::empty(),
            s.running() == Map::<u128, Lod>::empty(),
            s.wanted_map() == Map::<u128, Lod>::empty(),
            s.waiting().len() == 0,
            s.leaving().len() == 0,
            s.total() == 0,
    {
        ChunkStreamer {
            loaded: HashMap::new(),
            pinned: HashSet::new(),
            inflight: HashMap::new(),
            queue: Vec::new(),
            targets: HashMap::new(),
            unload: Vec::new(),
            generated_total: 0,
        }
    }

    /// Marks a chunk as changed by play: it stays at full detail forever.
    pub fn pin(&mut self, pos: ChunkPos)
        requires
            old(self).wf(),
        ensures
            final(self).wf(),
            final(self).pins() == old(self).pins().insert(packed(pos)),
            final(self).loaded_map() == old(self).loaded_map(),
            final(self).running() == old(self).running(),
            final(self).wanted_map() == old(self).wanted_map(),
            final(self).waiting() == old(self).waiting(),
            final(self).leaving() == old(self).leaving(),
            final(self).total() == old(self).total(),
    {
        proof {
            self.lemma_views();
        }
        self.pinned.insert(pack(pos));
    }

    pub fn lod_of(&self, pos: ChunkPos) -> (r: Option<Lod>)
        ensures
            r == if self.loaded_map().contains_key(packed(pos)) {
                Some(self.loaded_map()[packed(pos)])
            } else {
                None
            },
    {
        let k: u128 = pack(pos);
        match self.loaded.get(&k) {
            Some(l) => Some(*l),
            None => None,
        }
    }

    /// True once nothing near the camera is waiting for generation.
    pub fn settled(&self) -> (b: bool)
        ensures
            b == (self.waiting().len() == 0 && self.running().len() == 0),
    {
        self.queue.len() == 0 && self.inflight.len() == 0
    }

    /// Counts for the overlay, `inserted` being what the last frame took in.
    pub fn stats(&self, inserted: usize) -> (s: StreamStats)
        ensures
            s.loaded == self.loaded_map().len(),
            s.inflight == self.running().len(),
            s.queued == self.waiting().len(),
            s.inserted_last_frame == inserted,
            s.generated_total == self.total(),
            s.full == full_chunks(self.loaded_map()).len(),
    {
        let keys: Vec<u128> = keys_of(&self.loaded);
        let mut full: usize = 0;
        let mut i: usize = 0;
        let ghost mut seen: Set<u128> = Set::empty();
        while i < keys.len()
            invariant
                i <= keys@.len(),
                keys@.no_duplicates(),
                keys@.to_set() == self.loaded@.dom(),
                full <= i,
                seen.finite(),
                full == seen.len(),
                forall|k: u128|
                    #[trigger] seen.contains(k) <==> full_chunks(self.loaded@).contains(k)
                        && keys@.take(i as int).contains(k),
            decreases keys@.len() - i,
        {
            let k: u128 = keys[i];
            let ghost was = seen;
            assert(keys@.to_set().contains(k));
            assert(keys@.take(i + 1) =~= keys@.take(i as int).push(k));
            assert(!keys@.take(i as int).contains(k)) by {
                if keys@.take(i as int).contains(k) {
                    let j = choose|j: int| 0 <= j < i && keys@.take(i as int)[j] == k;
                    assert(keys@[j] == k);
                }
            }
            if let Some(l) = self.loaded.get(&k) {
                if *l == Lod::Full {
                    full += 1;
                    proof {
                        seen = seen.insert(k);
                    }
                }
            }
            proof {
                assert forall|q: u128| #[trigger] seen.contains(q) <==> full_chunks(
                    self.loaded@,
                ).contains(q) && keys@.take(i + 1).contains(q) by {
                    lemma_pushed(keys@.take(i as int), k, q);
                    assert(was.contains(q) <==> full_chunks(self.loaded@).contains(q)
                        && keys@.take(i as int).contains(q));
                }
            }
            i += 1;
        }
        proof {
            assert(keys@.take(keys@.len() as int) =~= keys@);
            assert forall|k: u128| full_chunks(self.loaded@).contains(k) implies keys@.contains(
                k,
            ) by {
                assert(keys@.to_set().contains(k));
            }
            assert(seen =~= full_chunks(self.loaded@));
            self.lemma_views();
        }
        StreamStats {
            loaded: self.loaded.len(),
            inflight: self.inflight.len(),
            queued: self.queue.len(),
            inserted_last_frame: inserted,
            generated_total: self.generated_total,
            full,
        }
    }

    pub fn loaded_count(&self) -> (n: usize)
        ensures
            n == self.loaded_map().len(),
    {
        self.loaded.len()
    }

    pub fn inflight_count(&self) -> (n: usize)
        ensures
            n == self.running().len(),
    {
        self.inflight.len()
    }

    pub fn queued_count(&self) -> (n: usize)
        ensures
            n == self.waiting().len(),
    {
        self.queue.len()
    }

    pub fn generated(&self) -> (n: u64)
        ensures
            n == self.total(),
    {
        self.generated_total
    }

    /// The next chunk to generate: the last in the queue that is not already
    /// being generated, while fewer than `max_inflight` are.
    pub fn next_job(&mut self, max_inflight: usize) -> (r: Option<(ChunkPos, Lod)>)
        requires
            old(self).wf(),
        ensures
            final(self).wf(),
            final(self).loaded_map() == old(self).loaded_map(),
            final(self).pins() == old(self).pins(),
            final(self).wanted_map() == old(self).wanted_map(),
            final(self).leaving() == old(self).leaving(),
            final(self).total() == old(self).total(),
            match r {
                Some((pos, lod)) => {
                    let n = final(self).waiting().len() as int;
                    &&& n < old(self).waiting().len()
                    &&& old(self).running().len() < max_inflight
                    &&& old(self).waiting()[n].1 == (packed(pos), lod)
                    &&& !old(self).running().contains_key(packed(pos))
                    &&& final(self).running() == old(self).running().insert(packed(pos), lod)
                    &&& final(self).waiting() == old(self).waiting().take(n)
                    &&& forall|i: int|
                        n < i < old(self).waiting().len() ==> old(self).running().contains_key(
                            (#[trigger] old(self).waiting()[i]).1.0,
                        )
                },
                None => {
                    &&& final(self).running() == old(self).running()
                    &&& old(self).running().len() >= max_inflight && final(self).waiting() == old(
                        self,
                    ).waiting() || final(self).waiting().len() == 0 && forall|i: int|
                        0 <= i < old(self).waiting().len() ==> old(self).running().contains_key(
                            (#[trigger] old(self).waiting()[i]).1.0,
                        )
                },
            },
    {
        if self.inflight.len() >= max_inflight {
            return None;
        }
        proof {
            assert(self.queue@ =~= self.queue@.take(self.queue@.len() as int));
        }
        loop
            invariant
                self.wf(),
                self.loaded@ == old(self).loaded@,
                self.pinned@ == old(self).pinned@,
                self.targets@ == old(self).targets@,
                self.unload@ == old(self).unload@,
                self.inflight@ == old(self).inflight@,
                self.generated_total == old(self).generated_total,
                old(self).inflight@.len() < max_inflight,
                self.queue@.len() <= old(self).queue@.len(),
                self.queue@ == old(self).queue@.take(self.queue@.len() as int),
                forall|i: int|
                    self.queue@.len() <= i < old(self).queue@.len() ==> old(
                        self,
                    ).inflight@.contains_key((#[trigger] old(self).queue@[i]).1.0),
                self.queue@ == self.waiting(),
                self.loaded@ == self.loaded_map(),
                self.unload@ == self.leaving(),
            decreases self.queue@.len(),
        {
            let ghost before = self.queue@;
            match self.queue.pop() {
                None => {
                    return None;
                },
                Some((_, (k, lod))) => {
                    let ghost n = self.queue@.len() as int;
                    proof {
                        assert(before[n] == old(self).queue@[n]);
                        assert(before[n].1.0 == k);
                        assert(packed(unpacked(k)) == k);
                        assert(self.queue@ =~= old(self).queue@.take(n));
                        assert(falling(self.queue@)) by {
                            assert forall|i: int, j: int| 0 <= i <= j < n implies (
                            #[trigger] self.queue@[i]).0 >= (#[trigger] self.queue@[j]).0 by {
                                assert(before[i].0 >= before[j].0);
                            }
                        }
                        assert forall|i: int| 0 <= i < n implies packed(
                            unpacked((#[trigger] self.queue@[i]).1.0),
                        ) == self.queue@[i].1.0 by {
                            assert(before[i].1.0 == self.queue@[i].1.0);
                        }
                    }
                    if !self.inflight.contains_key(&k) {
                        self.inflight.insert(k, lod);
                        return Some((unpack(k), lod));
                    }
                },
            }
        }
    }

    /// A generated chunk comes back. It goes into the world if it is still
    /// what the streamer wants there; an empty one leaves nothing there. A
    /// chunk that play changed meanwhile stays as it is.
    pub fn finish(&mut self, world: &mut VoxelWorld, pos: ChunkPos, lod: Lod, tree: ChunkTree) -> (r:
        bool)
        requires
            old(self).wf(),
            old(world).wf(),
            tree.wf(),
        ensures
            final(self).wf(),
            final(world).wf(),
            r == (old(self).wanted_map().contains_key(packed(pos)) && old(
                self,
            ).wanted_map()[packed(pos)] == lod && !old(self).kept(packed(pos))),
            final(self).running() == old(self).running().remove(packed(pos)),
            final(self).total() == (if old(self).total() == u64::MAX {
                0
            } else {
                old(self).total() + 1
            }),
            final(self).pins() == old(self).pins(),
            final(self).wanted_map() == old(self).wanted_map(),
            final(self).waiting() == old(self).waiting(),
            final(self).loaded_map() == if r {
                old(self).loaded_map().insert(packed(pos), lod)
            } else {
                old(self).loaded_map()
            },
            final(world).trees() == if !r {
                old(world).trees()
            } else if tree.nodes().mask == 0 {
                old(world).trees().remove(packed(pos))
            } else {
                old(world).trees().insert(packed(pos), tree)
            },
            old(self).holds_world(*old(world)) ==> final(self).holds_world(*final(world)),
            r ==> final(self).loaded_map().contains_key(packed(pos)),
            r ==> final(self).loaded_map()[packed(pos)] == lod,
            old(self).pins().contains(packed(pos)) && old(self).loaded_map().contains_key(
                packed(pos),
            ) && old(self).loaded_map()[packed(pos)] is Full ==> !r && final(world).trees() == old(
                world,
            ).trees(),
            !old(self).wanted_map().contains_key(packed(pos)) ==> !r,
            !final(self).running().contains_key(packed(pos)),
    {
        let k: u128 = pack(pos);
        proof {
            lemma_packed(pos);
            self.lemma_views();
        }
        self.inflight.remove(&k);
        self.generated_total = self.generated_total.wrapping_add(1);
        let wanted: bool = match self.targets.get(&k) {
            Some(l) => *l == lod,
            None => false,
        };
        let full: bool = match self.loaded.get(&k) {
            Some(l) => *l == Lod::Full,
            None => false,
        };
        let kept: bool = full && self.pinned.contains(&k);
        if !wanted || kept {
            return false;
        }
        if tree.is_empty() {
            world.remove_chunk(pos);
        } else {
            world.insert_chunk(pos, tree);
        }
        self.loaded.insert(k, lod);
        self.drop_leaving(k);
        true
    }

    /// A chunk that has come back is no longer on its way out.
    fn drop_leaving(&mut self, k: u128)
        requires
            packed(unpacked(k)) == k,
            old(self).loaded_map().contains_key(k),
            forall|x: u128|
                #[trigger] old(self).loaded_map().contains_key(x) ==> packed(unpacked(x)) == x,
            forall|i: int|
                0 <= i < old(self).leaving().len() ==> packed(
                    unpacked(#[trigger] old(self).leaving()[i]),
                ) == old(self).leaving()[i] && (old(self).leaving()[i] == k || !old(
                    self,
                ).loaded_map().contains_key(old(self).leaving()[i])),
            forall|i: int|
                0 <= i < old(self).waiting().len() ==> packed(
                    unpacked((#[trigger] old(self).waiting()[i]).1.0),
                ) == old(self).waiting()[i].1.0,
            falling(old(self).waiting()),
        ensures
            final(self).wf(),
            final(self).loaded_map() == old(self).loaded_map(),
            final(self).pins() == old(self).pins(),
            final(self).running() == old(self).running(),
            final(self).wanted_map() == old(self).wanted_map(),
            final(self).waiting() == old(self).waiting(),
            final(self).total() == old(self).total(),
            forall|x: u128|
                #[trigger] final(self).leaving().contains(x) == (old(self).leaving().contains(x) && x
                    != k),
    {
        let mut kept: Vec<u128> = Vec::new();
        let mut i: usize = 0;
        while i < self.unload.len()
            invariant
                *self == *old(self),
                i <= self.unload@.len(),
                forall|x: u128|
                    #[trigger] kept@.contains(x) == (self.unload@.take(i as int).contains(x) && x
                        != k),
            decreases self.unload@.len() - i,
        {
            let x: u128 = self.unload[i];
            let ghost before = kept@;
            let ghost seen = self.unload@.take(i as int);
            let ghost next = self.unload@.take(i + 1);
            if x != k {
                kept.push(x);
            }
            proof {
                assert(next =~= seen.push(x));
                assert forall|y: u128| #[trigger] kept@.contains(y) == (next.contains(y) && y
                    != k) by {
                    assert(before.contains(y) == (seen.contains(y) && y != k));
                    if before.contains(y) {
                        let j = choose|j: int| 0 <= j < before.len() && before[j] == y;
                        assert(kept@[j] == y);
                    }
                    if seen.contains(y) {
                        let j = choose|j: int| 0 <= j < seen.len() && seen[j] == y;
                        assert(next[j] == y);
                    }
                    assert(next[i as int] == x);
                    if x != k {
                        assert(kept@[before.len() as int] == x);
                    }
                }
            }
            i += 1;
        }
        assert(self.unload@.take(i as int) =~= self.unload@);
        self.unload = kept;
        proof {
            assert forall|j: int| 0 <= j < self.unload@.len() implies packed(
                unpacked(#[trigger] self.leaving()[j]),
            ) == self.leaving()[j] && !self.loaded_map().contains_key(self.leaving()[j]) by {
                let x = self.unload@[j];
                assert(self.unload@.contains(x));
                assert(old(self).unload@.contains(x));
                let m = choose|m: int| 0 <= m < old(self).unload@.len() && old(self).unload@[m] == x;
                assert(old(self).leaving()[m] == x);
            }
        }
    }

    /// Takes the chunks that are leaving out of the world.
    pub fn unload_chunks(&mut self, world: &mut VoxelWorld)
        requires
            old(self).wf(),
            old(world).wf(),
        ensures
            final(self).wf(),
            final(world).wf(),
            final(self).leaving().len() == 0,
            final(self).loaded_map() == old(self).loaded_map(),
            final(self).pins() == old(self).pins(),
            final(self).running() == old(self).running(),
            final(self).wanted_map() == old(self).wanted_map(),
            final(self).waiting() == old(self).waiting(),
            final(self).total() == old(self).total(),
            forall|k: u128|
                #[trigger] final(world).trees().contains_key(k) == (old(
                    world,
                ).trees().contains_key(k) && !old(self).leaving().contains(k)),
            forall|k: u128|
                #[trigger] final(world).trees().contains_key(k) ==> final(world).trees()[k] == old(
                    world,
                ).trees()[k],
            old(self).holds_world(*old(world)) ==> final(self).holds_world(*final(world)),
    {
        proof {
            self.lemma_views();
        }
        let mut i: usize = 0;
        while i < self.unload.len()
            invariant
                *self == *old(self),
                self.wf(),
                world.wf(),
                i <= self.unload@.len(),
                self.unload@ == self.leaving(),
                forall|k: u128|
                    #[trigger] world.trees().contains_key(k) == (old(world).trees().contains_key(k)
                        && !self.unload@.take(i as int).contains(k)),
                forall|k: u128|
                    #[trigger] world.trees().contains_key(k) ==> world.trees()[k] == old(
                        world,
                    ).trees()[k],
            decreases self.unload@.len() - i,
        {
            let k: u128 = self.unload[i];
            let ghost before = world.trees();
            let ghost seen = self.unload@.take(i as int);
            let ghost next = self.unload@.take(i + 1);
            assert(packed(unpacked(self.leaving()[i as int])) == k);
            world.remove_chunk(unpack(k));
            proof {
                assert(next =~= seen.push(k));
                assert forall|x: u128| #[trigger] world.trees().contains_key(x) == (old(
                    world,
                ).trees().contains_key(x) && !next.contains(x)) by {
                    assert(before.contains_key(x) == (old(world).trees().contains_key(x)
                        && !seen.contains(x)));
                    if seen.contains(x) {
                        let j = choose|j: int| 0 <= j < seen.len() && seen[j] == x;
                        assert(next[j] == x);
                    }
                    assert(next[i as int] == k);
                }
            }
            i += 1;
        }
        assert(self.unload@.take(i as int) =~= self.unload@);
        self.unload.clear();
    }
}

/// Chunks along the world's height.
pub const WORLD_CHUNKS_Y: i32 = 16;

impl ChunkStreamer {
    /// The level of a loaded chunk.
    pub open spec fn current(&self, k: u128) -> Option<Lod> {
        if self.loaded_map().contains_key(k) {
            Some(self.loaded_map()[k])
        } else {
            None
        }
    }

    /// The level that chunk `k` is wanted at.
    pub open spec fn wanted_level(&self, k: u128) -> Option<Lod> {
        if self.wanted_map().contains_key(k) {
            Some(self.wanted_map()[k])
        } else {
            None
        }
    }

    /// What column `c` wants of the chunk with key `k`, if it is one of its
    /// chunks.
    pub open spec fn wish(&self, c: ColumnView, k: u128) -> Option<Lod> {
        let p = unpacked(k).0;
        if packed(unpacked(k)) == k && unpacked(k).inside() && p.x == c.cx && p.z == c.cz && p.y
            < c.layers {
            c.target(p.y as int, self.pins().contains(k), self.current(k))
        } else {
            None
        }
    }

    /// What the first `n` columns want of the chunk with key `k`.
    pub open spec fn wishes(&self, columns: Seq<ColumnView>, n: int, k: u128) -> Option<Lod>
        decreases n,
    {
        if n <= 0 {
            None
        } else {
            match self.wish(columns[n - 1], k) {
                Some(l) => Some(l),
                None => self.wishes(columns, n - 1, k),
            }
        }
    }

    /// What is wanted of chunk `k` once the columns have been looked at: what
    /// they want, and what play changed in any case.
    pub open spec fn goal(&self, columns: Seq<ColumnView>, k: u128) -> Option<Lod> {
        if self.kept(k) {
            Some(Lod::Full)
        } else {
            self.wishes(columns, columns.len() as int, k)
        }
    }

    /// A wish that nothing loaded or on its way meets.
    pub open spec fn unmet(&self, k: u128, l: Lod) -> bool {
        self.current(k) != Some(l) && !(self.running().contains_key(k) && self.running()[k] == l)
    }

    /// Job `e` is for a chunk that one of the first `n` columns wants so.
    pub open spec fn is_job(
        &self,
        columns: Seq<ColumnView>,
        n: int,
        e: (u64, (u128, Lod)),
    ) -> bool {
        exists|i: int|
            0 <= i < n && self.wish(#[trigger] columns[i], e.1.0) == Some(e.1.1) && self.unmet(
                e.1.0,
                e.1.1,
            ) && e.0 == job_key(e.1.1, columns[i].distance)
    }

    /// Adds what one column wants.
    fn add_column(&mut self, c: &ColumnView)
        requires
            forall|i: int|
                0 <= i < old(self).waiting().len() ==> packed(
                    unpacked((#[trigger] old(self).waiting()[i]).1.0),
                ) == old(self).waiting()[i].1.0,
        ensures
            final(self).loaded_map() == old(self).loaded_map(),
            final(self).pins() == old(self).pins(),
            final(self).running() == old(self).running(),
            final(self).leaving() == old(self).leaving(),
            final(self).total() == old(self).total(),
            forall|i: int|
                0 <= i < final(self).waiting().len() ==> packed(
                    unpacked((#[trigger] final(self).waiting()[i]).1.0),
                ) == final(self).waiting()[i].1.0,
            forall|k: u128|
                #[trigger] final(self).wanted_map().contains_key(k) == (old(self).wish(*c, k)
                    is Some || old(self).wanted_map().contains_key(k)),
            forall|k: u128|
                #[trigger] final(self).wanted_map().contains_key(k) ==> final(self).wanted_map()[k]
                    == (match old(self).wish(*c, k) {
                    Some(l) => l,
                    None => old(self).wanted_map()[k],
                }),
            forall|e: (u64, (u128, Lod))|
                #[trigger] final(self).waiting().contains(e) == (old(self).waiting().contains(e) || (
                old(self).wish(*c, e.1.0) == Some(e.1.1) && old(self).unmet(e.1.0, e.1.1) && e.0
                    == job_key(e.1.1, c.distance))),
            once(old(self).waiting()) && none_in(old(self).waiting(), *c) ==> once(
                final(self).waiting(),
            ),
    {
        proof {
            self.lemma_views();
        }
        let mut cy: i32 = 0;
        while cy < WORLD_CHUNKS_Y && cy < c.layers
            invariant
                0 <= cy <= 16,
                cy == 0 || cy <= c.layers,
                self.loaded@ == old(self).loaded@,
                self.pinned@ == old(self).pinned@,
                self.inflight@ == old(self).inflight@,
                self.unload@ == old(self).unload@,
                self.generated_total == old(self).generated_total,
                forall|i: int|
                    0 <= i < self.queue@.len() ==> packed(
                        unpacked((#[trigger] self.queue@[i]).1.0),
                    ) == self.queue@[i].1.0,
                forall|k: u128|
                    #[trigger] self.targets@.contains_key(k) == (old(self).wish(*c, k) is Some
                        && unpacked(k).0.y < cy || old(self).targets@.contains_key(k)),
                forall|k: u128|
                    #[trigger] self.targets@.contains_key(k) ==> self.targets@[k] == (if old(
                        self,
                    ).wish(*c, k) is Some && unpacked(k).0.y < cy {
                        old(self).wish(*c, k)->0
                    } else {
                        old(self).targets@[k]
                    }),
                forall|e: (u64, (u128, Lod))|
                    #[trigger] self.queue@.contains(e) == (old(self).queue@.contains(e) || (old(
                        self,
                    ).wish(*c, e.1.0) == Some(e.1.1) && unpacked(e.1.0).0.y < cy && old(
                        self,
                    ).unmet(e.1.0, e.1.1) && e.0 == job_key(e.1.1, c.distance))),
                self.queue@.len() >= old(self).queue@.len(),
                self.queue@.take(old(self).queue@.len() as int) == old(self).queue@,
                forall|i: int|
                    #![trigger self.queue@[i]]
                    old(self).queue@.len() <= i < self.queue@.len() ==> unpacked(
                        self.queue@[i].1.0,
                    ).0.x == c.cx && unpacked(self.queue@[i].1.0).0.z == c.cz && unpacked(
                        self.queue@[i].1.0,
                    ).0.y < cy,
                once(old(self).queue@) && none_in(old(self).queue@, *c) ==> once(self.queue@),
            decreases 16 - cy,
        {
            let pos: ChunkPos = ChunkPos(IVec3 { x: c.cx, y: cy, z: c.cz });
            let k: u128 = pack(pos);
            let ghost queue0 = self.queue@;
            let ghost targets0 = self.targets@;
            let mut wanted: Option<Lod> = None;
            if pos.in_world() {
                let current: Option<Lod> = match self.loaded.get(&k) {
                    Some(l) => Some(*l),
                    None => None,
                };
                let pinned: bool = self.pinned.contains(&k);
                wanted = c.target_of(cy, pinned, current);
                if let Some(lod) = wanted {
                    self.targets.insert(k, lod);
                    let running: bool = match self.inflight.get(&k) {
                        Some(l) => *l == lod,
                        None => false,
                    };
                    if current != Some(lod) && !running {
                        let key: u64 = lod.rank() as u64 * 0x100_0000_0000 + c.distance as u64;
                        self.queue.push((key, (k, lod)));
                    }
                }
            }
            proof {
                lemma_packed(pos);
                let m = old(self).queue@.len() as int;
                assert(self.queue@.take(m) =~= old(self).queue@) by {
                    assert(queue0.take(m) == old(self).queue@);
                    assert forall|i: int| 0 <= i < m implies self.queue@[i] == old(
                        self,
                    ).queue@[i] by {
                        assert(queue0.take(m)[i] == queue0[i]);
                    }
                }
                if once(old(self).queue@) && none_in(old(self).queue@, *c) {
                    assert forall|i: int, j: int|
                        #![trigger self.queue@[i], self.queue@[j]]
                        0 <= i < j < self.queue@.len() implies self.queue@[i].1.0
                        != self.queue@[j].1.0 by {
                        assert(self.queue@[i] == queue0[i]);
                        if j < queue0.len() {
                            assert(self.queue@[j] == queue0[j]);
                        } else if i < m {
                            assert(old(self).queue@[i] == queue0.take(m)[i]);
                        }
                    }
                }
                assert(old(self).wish(*c, k) == wanted);
                assert forall|x: u128| old(self).wish(*c, x) is Some && unpacked(x).0.y == cy implies x
                    == k by {
                    assert(unpacked(x).0 == pos.0);
                    assert(unpacked(x) == pos);
                }
                assert forall|e: (u64, (u128, Lod))| #[trigger] self.queue@.contains(e) == (old(
                    self,
                ).queue@.contains(e) || (old(self).wish(*c, e.1.0) == Some(e.1.1) && unpacked(
                    e.1.0,
                ).0.y < cy + 1 && old(self).unmet(e.1.0, e.1.1) && e.0 == job_key(
                    e.1.1,
                    c.distance,
                ))) by {
                    assert(queue0.contains(e) == (old(self).queue@.contains(e) || (old(self).wish(
                        *c,
                        e.1.0,
                    ) == Some(e.1.1) && unpacked(e.1.0).0.y < cy && old(self).unmet(
                        e.1.0,
                        e.1.1,
                    ) && e.0 == job_key(e.1.1, c.distance))));
                    if queue0.contains(e) {
                        let j = choose|j: int| 0 <= j < queue0.len() && queue0[j] == e;
                        assert(self.queue@[j] == e);
                    }
                    if self.queue@.len() > queue0.len() {
                        assert(self.queue@[queue0.len() as int].1.0 == k);
                        assert(self.queue@.contains(self.queue@[queue0.len() as int]));
                    }
                }
            }
            cy += 1;
        }
        proof {
            assert forall|k: u128| #[trigger] old(self).wish(*c, k) is Some implies unpacked(k).0.y
                < cy by {}
        }
    }
}

impl ChunkStreamer {
    /// Gathers what the columns want.
    fn add_columns(&mut self, columns: &Vec<ColumnView>)
        requires
            old(self).waiting().len() == 0,
            old(self).wanted_map() == Map::<u128, Lod>::empty(),
        ensures
            final(self).loaded_map() == old(self).loaded_map(),
            final(self).pins() == old(self).pins(),
            final(self).running() == old(self).running(),
            final(self).leaving() == old(self).leaving(),
            final(self).total() == old(self).total(),
            forall|i: int|
                0 <= i < final(self).waiting().len() ==> packed(
                    unpacked((#[trigger] final(self).waiting()[i]).1.0),
                ) == final(self).waiting()[i].1.0,
            forall|k: u128|
                #[trigger] final(self).wanted_map().contains_key(k) == old(self).wishes(
                    columns@,
                    columns@.len() as int,
                    k,
                ) is Some,
            forall|k: u128|
                #[trigger] final(self).wanted_map().contains_key(k) ==> old(self).wishes(
                    columns@,
                    columns@.len() as int,
                    k,
                ) == Some(final(self).wanted_map()[k]),
            forall|e: (u64, (u128, Lod))|
                #[trigger] final(self).waiting().contains(e) == old(self).is_job(
                    columns@,
                    columns@.len() as int,
                    e,
                ),
            columns_apart(columns@) ==> once(final(self).waiting()),
    {
        let mut n: usize = 0;
        while n < columns.len()
            invariant
                n <= columns@.len(),
                self.loaded_map() == old(self).loaded_map(),
                self.pins() == old(self).pins(),
                self.running() == old(self).running(),
                self.leaving() == old(self).leaving(),
                self.total() == old(self).total(),
                forall|i: int|
                    0 <= i < self.waiting().len() ==> packed(
                        unpacked((#[trigger] self.waiting()[i]).1.0),
                    ) == self.waiting()[i].1.0,
                forall|k: u128|
                    #[trigger] self.wanted_map().contains_key(k) == old(self).wishes(
                        columns@,
                        n as int,
                        k,
                    ) is Some,
                forall|k: u128|
                    #[trigger] self.wanted_map().contains_key(k) ==> old(self).wishes(
                        columns@,
                        n as int,
                        k,
                    ) == Some(self.wanted_map()[k]),
                forall|e: (u64, (u128, Lod))|
                    #[trigger] self.waiting().contains(e) == old(self).is_job(
                        columns@,
                        n as int,
                        e,
                    ),
                columns_apart(columns@) ==> once(self.waiting()),
            decreases columns@.len() - n,
        {
            let ghost before = *self;
            proof {
                if columns_apart(columns@) {
                    let c = columns@[n as int];
                    let q = self.waiting();
                    assert forall|j: int|
                        #![trigger q[j]]
                        0 <= j < q.len() implies unpacked(q[j].1.0).0.x != c.cx || unpacked(
                        q[j].1.0,
                    ).0.z != c.cz by {
                        let e = q[j];
                        assert(q.contains(e));
                        assert(old(self).is_job(columns@, n as int, e));
                        let i = choose|i: int|
                            0 <= i < n && old(self).wish(#[trigger] columns@[i], e.1.0) == Some(
                                e.1.1,
                            ) && old(self).unmet(e.1.0, e.1.1) && e.0 == job_key(
                                e.1.1,
                                columns@[i].distance,
                            );
                        assert(columns@[i].cx != c.cx || columns@[i].cz != c.cz);
                    }
                    assert(none_in(q, c));
                }
            }
            self.add_column(&columns[n]);
            proof {
                let c = columns@[n as int];
                assert forall|k: u128| before.wish(c, k) == old(self).wish(c, k) by {}
                assert forall|e: (u64, (u128, Lod))| #[trigger] self.waiting().contains(e) == old(
                    self,
                ).is_job(columns@, n + 1, e) by {
                    assert(before.waiting().contains(e) == old(self).is_job(columns@, n as int, e));
                    assert(before.wish(c, e.1.0) == old(self).wish(c, e.1.0));
                    if old(self).is_job(columns@, n as int, e) {
                        let i = choose|i: int|
                            0 <= i < n && old(self).wish(#[trigger] columns@[i], e.1.0) == Some(
                                e.1.1,
                            ) && old(self).unmet(e.1.0, e.1.1) && e.0 == job_key(
                                e.1.1,
                                columns@[i].distance,
                            );
                        assert(0 <= i < n + 1);
                        assert(old(self).is_job(columns@, n + 1, e));
                    }
                    if self.waiting().contains(e) && !before.waiting().contains(e) {
                        assert(old(self).wish(columns@[n as int], e.1.0) == Some(e.1.1));
                        assert(old(self).is_job(columns@, n + 1, e));
                    }
                }
            }
            n += 1;
        }
    }

    /// Keeps what play changed among the wanted.
    fn keep_pinned(&mut self)
        ensures
            final(self).loaded_map() == old(self).loaded_map(),
            final(self).pins() == old(self).pins(),
            final(self).running() == old(self).running(),
            final(self).leaving() == old(self).leaving(),
            final(self).waiting() == old(self).waiting(),
            final(self).total() == old(self).total(),
            forall|k: u128|
                #[trigger] final(self).wanted_map().contains_key(k) == (old(self).kept(k) || old(
                    self,
                ).wanted_map().contains_key(k)),
            forall|k: u128|
                #[trigger] final(self).wanted_map().contains_key(k) ==> final(self).wanted_map()[k]
                    == (if old(self).kept(k) {
                    Lod::Full
                } else {
                    old(self).wanted_map()[k]
                }),
    {
        let pins: Vec<u128> = members_of(&self.pinned);
        let mut i: usize = 0;
        while i < pins.len()
            invariant
                i <= pins@.len(),
                pins@.to_set() == old(self).pinned@,
                self.loaded@ == old(self).loaded@,
                self.pinned@ == old(self).pinned@,
                self.inflight@ == old(self).inflight@,
                self.unload@ == old(self).unload@,
                self.queue@ == old(self).queue@,
                self.generated_total == old(self).generated_total,
                forall|k: u128|
                    #[trigger] self.targets@.contains_key(k) == (old(self).kept(k) && pins@.take(
                        i as int,
                    ).contains(k) || old(self).targets@.contains_key(k)),
                forall|k: u128|
                    #[trigger] self.targets@.contains_key(k) ==> self.targets@[k] == (if old(
                        self,
                    ).kept(k) && pins@.take(i as int).contains(k) {
                        Lod::Full
                    } else {
                        old(self).targets@[k]
                    }),
            decreases pins@.len() - i,
        {
            let k: u128 = pins[i];
            let full: bool = match self.loaded.get(&k) {
                Some(l) => *l == Lod::Full,
                None => false,
            };
            proof {
                assert(pins@.to_set().contains(k));
                let seen = pins@.take(i as int);
                let next = pins@.take(i + 1);
                assert(next =~= seen.push(k));
                assert forall|x: u128| #[trigger] next.contains(x) == (seen.contains(x) || x
                    == k) by {
                    if seen.contains(x) {
                        let j = choose|j: int| 0 <= j < seen.len() && seen[j] == x;
                        assert(next[j] == x);
                    }
                    assert(next[i as int] == k);
                }
                assert(full == old(self).kept(k));
            }
            if full {
                self.targets.insert(k, Lod::Full);
            }
            i += 1;
        }
        proof {
            assert(pins@.take(i as int) =~= pins@);
            assert forall|k: u128| old(self).kept(k) implies pins@.contains(k) by {
                assert(pins@.to_set().contains(k));
            }
        }
    }

    /// Moves what is loaded but not wanted to the chunks that leave.
    fn drop_unwanted(&mut self)
        requires
            forall|k: u128|
                #[trigger] old(self).loaded_map().contains_key(k) ==> packed(unpacked(k)) == k,
            forall|i: int|
                0 <= i < old(self).leaving().len() ==> packed(
                    unpacked(#[trigger] old(self).leaving()[i]),
                ) == old(self).leaving()[i] && !old(self).loaded_map().contains_key(
                    old(self).leaving()[i],
                ),
        ensures
            final(self).pins() == old(self).pins(),
            final(self).running() == old(self).running(),
            final(self).waiting() == old(self).waiting(),
            final(self).wanted_map() == old(self).wanted_map(),
            final(self).total() == old(self).total(),
            forall|k: u128|
                #[trigger] final(self).loaded_map().contains_key(k) == (old(
                    self,
                ).loaded_map().contains_key(k) && old(self).wanted_map().contains_key(k)),
            forall|k: u128|
                #[trigger] final(self).loaded_map().contains_key(k) ==> final(self).loaded_map()[k]
                    == old(self).loaded_map()[k],
            forall|k: u128|
                #[trigger] final(self).leaving().contains(k) == (old(self).leaving().contains(k) || (
                old(self).loaded_map().contains_key(k) && !old(self).wanted_map().contains_key(k))),
            forall|i: int|
                0 <= i < final(self).leaving().len() ==> packed(
                    unpacked(#[trigger] final(self).leaving()[i]),
                ) == final(self).leaving()[i] && !final(self).loaded_map().contains_key(
                    final(self).leaving()[i],
                ),
    {
        let keys: Vec<u128> = keys_of(&self.loaded);
        proof {
            self.lemma_views();
        }
        let mut i: usize = 0;
        while i < keys.len()
            invariant
                i <= keys@.len(),
                keys@.to_set() == old(self).loaded@.dom(),
                self.pinned@ == old(self).pinned@,
                self.inflight@ == old(self).inflight@,
                self.queue@ == old(self).queue@,
                self.targets@ == old(self).targets@,
                self.generated_total == old(self).generated_total,
                forall|k: u128| #[trigger] old(self).loaded@.contains_key(k) ==> packed(unpacked(k)) == k,
                forall|k: u128|
                    #[trigger] self.loaded@.contains_key(k) == (old(self).loaded@.contains_key(k)
                        && !(keys@.take(i as int).contains(k) && !self.targets@.contains_key(k))),
                forall|k: u128|
                    #[trigger] self.loaded@.contains_key(k) ==> self.loaded@[k] == old(
                        self,
                    ).loaded@[k],
                forall|k: u128|
                    #[trigger] self.unload@.contains(k) == (old(self).unload@.contains(k) || (
                    keys@.take(i as int).contains(k) && !self.targets@.contains_key(k))),
                forall|j: int|
                    0 <= j < self.unload@.len() ==> packed(unpacked(#[trigger] self.unload@[j]))
                        == self.unload@[j] && !self.loaded@.contains_key(self.unload@[j]),
            decreases keys@.len() - i,
        {
            let k: u128 = keys[i];
            let ghost seen = keys@.take(i as int);
            let ghost next = keys@.take(i + 1);
            let ghost unload0 = self.unload@;
            let ghost loaded0 = self.loaded@;
            proof {
                assert(keys@.to_set().contains(k));
                assert(next =~= seen.push(k));
                assert forall|x: u128| #[trigger] next.contains(x) == (seen.contains(x) || x
                    == k) by {
                    if seen.contains(x) {
                        let j = choose|j: int| 0 <= j < seen.len() && seen[j] == x;
                        assert(next[j] == x);
                    }
                    assert(next[i as int] == k);
                }
            }
            if !self.targets.contains_key(&k) {
                self.loaded.remove(&k);
                self.unload.push(k);
                proof {
                    assert forall|x: u128| #[trigger] self.unload@.contains(x) == (unload0.contains(
                        x,
                    ) || x == k) by {
                        if unload0.contains(x) {
                            let j = choose|j: int| 0 <= j < unload0.len() && unload0[j] == x;
                            assert(self.unload@[j] == x);
                        }
                        assert(self.unload@[unload0.len() as int] == k);
                    }
                    assert forall|j: int| 0 <= j < self.unload@.len() implies packed(
                        unpacked(#[trigger] self.unload@[j]),
                    ) == self.unload@[j] && !self.loaded@.contains_key(self.unload@[j]) by {
                        if j < unload0.len() {
                            assert(unload0[j] == self.unload@[j]);
                        }
                    }
                }
            }
            i += 1;
        }
        proof {
            assert(keys@.take(i as int) =~= keys@);
            assert forall|k: u128| #[trigger] old(self).loaded@.contains_key(k) == keys@.contains(
                k,
            ) by {
                assert(keys@.to_set().contains(k) == old(self).loaded@.contains_key(k));
            }
        }
    }

    /// Desired chunks and their detail, recomputed when the camera crosses a
    /// chunk boundary. What is no longer wanted leaves; what is missing is
    /// queued, finest and nearest last, so dispatch takes them first.
    pub fn rebuild_targets(&mut self, columns: &Vec<ColumnView>)
        requires
            old(self).wf(),
        ensures
            final(self).wf(),
            final(self).pins() == old(self).pins(),
            final(self).running() == old(self).running(),
            final(self).total() == old(self).total(),
            forall|k: u128|
                #[trigger] final(self).wanted_map().contains_key(k) == old(self).goal(columns@, k)
                    is Some,
            forall|k: u128|
                #[trigger] final(self).wanted_map().contains_key(k) ==> old(self).goal(columns@, k)
                    == Some(final(self).wanted_map()[k]),
            forall|k: u128|
                #[trigger] final(self).loaded_map().contains_key(k) == (old(
                    self,
                ).loaded_map().contains_key(k) && old(self).goal(columns@, k) is Some),
            forall|k: u128|
                #[trigger] final(self).loaded_map().contains_key(k) ==> final(self).loaded_map()[k]
                    == old(self).loaded_map()[k],
            forall|k: u128|
                #[trigger] final(self).leaving().contains(k) == (old(self).leaving().contains(k) || (
                old(self).loaded_map().contains_key(k) && old(self).goal(columns@, k) is None)),
            forall|e: (u64, (u128, Lod))|
                #[trigger] final(self).waiting().contains(e) == old(self).is_job(
                    columns@,
                    columns@.len() as int,
                    e,
                ),
            columns_apart(columns@) ==> once(final(self).waiting()),
            columns_apart(columns@) ==> forall|i: int, cy: i32|
                #![trigger columns@[i].chunk_at(cy)]
                0 <= i < columns@.len() && 0 <= cy < columns@[i].layers && columns@[i].chunk_at(
                    cy,
                ).inside() ==> {
                    let c = columns@[i];
                    let k = packed(c.chunk_at(cy));
                    let lod = chosen(c.ideal, c.relaxed, old(self).current(k));
                    let wants = final(self).wanted_level(k);
                    &&& !old(self).pins().contains(k) && cy >= c.buried ==> wants == lod
                    &&& !old(self).pins().contains(k) && c.deep <= cy < c.buried ==> wants == (
                    if lod == Some(Lod::Full) {
                        Some(Lod::Full)
                    } else {
                        None
                    })
                    &&& !old(self).pins().contains(k) && cy < c.buried && cy < c.deep ==> wants
                        is None
                    &&& old(self).pins().contains(k) && lod is Some ==> wants == Some(Lod::Full)
                },
            forall|k: u128| #[trigger] final(self).wanted_map().contains_key(k) ==> {
                ||| old(self).kept(k)
                ||| exists|i: int|
                    0 <= i < columns@.len() && unpacked(k).0.x == (#[trigger] columns@[i]).cx
                        && unpacked(k).0.z == columns@[i].cz && unpacked(k).0.y < columns@[i].layers
                        && unpacked(k).inside()
            },
            forall|k: u128| #[trigger] old(self).kept(k) ==> final(self).kept(k),
            forall|w: VoxelWorld|
                #[trigger] old(self).holds_world(w) ==> final(self).holds_world(w),
    {
        proof {
            self.lemma_views();
        }
        self.targets.clear();
        self.queue.clear();
        let ghost bare = *self;
        self.add_columns(columns);
        let ghost asked = *self;
        self.keep_pinned();
        let ghost full = *self;
        self.drop_unwanted();
        let ghost last = *self;
        self.queue = sort_falling(&self.queue);
        proof {
            self.lemma_views();
            last.lemma_views();
            if columns_apart(columns@) {
                asked.lemma_views();
                assert(last.queue@ == asked.queue@);
                lemma_once(self.queue@, last.queue@);
            }
            assert forall|k: u128| bare.wishes(columns@, columns@.len() as int, k) == old(
                self,
            ).wishes(columns@, columns@.len() as int, k) by {
                lemma_wishes_same(bare, *old(self), columns@, columns@.len() as int, k);
            }
            assert forall|e: (u64, (u128, Lod))| #[trigger] self.waiting().contains(e) == old(
                self,
            ).is_job(columns@, columns@.len() as int, e) by {
                lemma_same_items(self.queue@, last.queue@, e);
                assert(asked.waiting().contains(e) == bare.is_job(
                    columns@,
                    columns@.len() as int,
                    e,
                ));
                lemma_jobs_same(bare, *old(self), columns@, columns@.len() as int, e);
            }
            assert forall|i: int| 0 <= i < self.queue@.len() implies packed(
                unpacked((#[trigger] self.waiting()[i]).1.0),
            ) == self.waiting()[i].1.0 by {
                let e = self.queue@[i];
                assert(self.queue@.contains(e));
                lemma_same_items(self.queue@, last.queue@, e);
                let j = choose|j: int| 0 <= j < last.queue@.len() && last.queue@[j] == e;
                assert(last.waiting()[j] == e);
                assert(asked.waiting()[j] == e);
            }
            assert forall|k: u128| #[trigger] old(self).kept(k) implies self.kept(k) by {
                assert(asked.kept(k));
                assert(full.wanted_map().contains_key(k));
                assert(self.loaded_map().contains_key(k));
            }
            assert forall|w: VoxelWorld| #[trigger] old(self).holds_world(
                w,
            ) implies self.holds_world(w) by {
                assert forall|k: u128| #[trigger] w.trees().contains_key(
                    k,
                ) implies self.loaded_map().contains_key(k) || self.leaving().contains(k) by {
                    assert(old(self).loaded_map().contains_key(k) || old(self).leaving().contains(
                        k,
                    ));
                    assert(last.leaving().contains(k) == (full.leaving().contains(k) || (
                    full.loaded_map().contains_key(k) && !full.wanted_map().contains_key(k))));
                    assert(last.loaded_map().contains_key(k) == (full.loaded_map().contains_key(k)
                        && full.wanted_map().contains_key(k)));
                }
            }
            assert forall|k: u128| #[trigger] self.wanted_level(k) == old(self).goal(columns@, k) by {
                assert(full.wanted_map().contains_key(k) == last.wanted_map().contains_key(k));
                assert(old(self).wishes(columns@, columns@.len() as int, k) == bare.wishes(
                    columns@,
                    columns@.len() as int,
                    k,
                ));
                assert(asked.wanted_map().contains_key(k) == asked.wanted_map().contains_key(k));
                assert(asked.kept(k) == old(self).kept(k));
            }
            if columns_apart(columns@) {
                assert forall|i: int, cy: i32|
                    #![trigger columns@[i].chunk_at(cy)]
                    0 <= i < columns@.len() && 0 <= cy < columns@[i].layers && columns@[i].chunk_at(
                        cy,
                    ).inside() implies {
                    let c = columns@[i];
                    let k = packed(c.chunk_at(cy));
                    let lod = chosen(c.ideal, c.relaxed, old(self).current(k));
                    let wants = self.wanted_level(k);
                    &&& !old(self).pins().contains(k) && cy >= c.buried ==> wants == lod
                    &&& !old(self).pins().contains(k) && c.deep <= cy < c.buried ==> wants == (
                    if lod == Some(Lod::Full) {
                        Some(Lod::Full)
                    } else {
                        None
                    })
                    &&& !old(self).pins().contains(k) && cy < c.buried && cy < c.deep ==> wants
                        is None
                    &&& old(self).pins().contains(k) && lod is Some ==> wants == Some(Lod::Full)
                } by {
                    let k = packed(columns@[i].chunk_at(cy));
                    buried_chunks_are_for_digging(*old(self), columns@, i, cy);
                    assert(self.wanted_map().contains_key(k) == last.wanted_map().contains_key(k));
                    assert(self.wanted_level(k) == old(self).goal(columns@, k));
                }
            }
            assert forall|k: u128| #[trigger] self.wanted_map().contains_key(k) implies {
                ||| old(self).kept(k)
                ||| exists|i: int|
                    0 <= i < columns@.len() && unpacked(k).0.x == (#[trigger] columns@[i]).cx
                        && unpacked(k).0.z == columns@[i].cz && unpacked(k).0.y < columns@[i].layers
                        && unpacked(k).inside()
            } by {
                assert(old(self).goal(columns@, k) is Some);
                lemma_wisher(*old(self), columns@, columns@.len() as int, k);
            }
        }
    }
}

proof fn lemma_wishes_same(
    a: ChunkStreamer,
    b: ChunkStreamer,
    columns: Seq<ColumnView>,
    n: int,
    k: u128,
)
    requires
        a.loaded_map() == b.loaded_map(),
        a.pins() == b.pins(),
    ensures
        a.wishes(columns, n, k) == b.wishes(columns, n, k),
    decreases n,
{
    if n > 0 {
        lemma_wishes_same(a, b, columns, n - 1, k);
        assert(a.wish(columns[n - 1], k) == b.wish(columns[n - 1], k));
    }
}

proof fn lemma_jobs_same(
    a: ChunkStreamer,
    b: ChunkStreamer,
    columns: Seq<ColumnView>,
    n: int,
    e: (u64, (u128, Lod)),
)
    requires
        a.loaded_map() == b.loaded_map(),
        a.pins() == b.pins(),
        a.running() == b.running(),
    ensures
        a.is_job(columns, n, e) == b.is_job(columns, n, e),
{
    if a.is_job(columns, n, e) {
        let i = choose|i: int|
            0 <= i < n && a.wish(#[trigger] columns[i], e.1.0) == Some(e.1.1) && a.unmet(
                e.1.0,
                e.1.1,
            ) && e.0 == job_key(e.1.1, columns[i].distance);
        assert(b.wish(columns[i], e.1.0) == Some(e.1.1) && b.unmet(e.1.0, e.1.1));
    }
    if b.is_job(columns, n, e) {
        let i = choose|i: int|
            0 <= i < n && b.wish(#[trigger] columns[i], e.1.0) == Some(e.1.1) && b.unmet(
                e.1.0,
                e.1.1,
            ) && e.0 == job_key(e.1.1, columns[i].distance);
        assert(a.wish(columns[i], e.1.0) == Some(e.1.1) && a.unmet(e.1.0, e.1.1));
    }
}

proof fn lemma_wisher(s: ChunkStreamer, columns: Seq<ColumnView>, n: int, k: u128)
    requires
        0 <= n <= columns.len(),
    ensures
        s.wishes(columns, n, k) is Some ==> exists|i: int|
            0 <= i < n && unpacked(k).0.x == (#[trigger] columns[i]).cx && unpacked(k).0.z
                == columns[i].cz && unpacked(k).0.y < columns[i].layers && unpacked(k).inside()
                && s.wish(columns[i], k) == s.wishes(columns, n, k),
    decreases n,
{
    if n > 0 {
        if s.wish(columns[n - 1], k) is Some {
            assert(unpacked(k).0.x == columns[n - 1].cx);
        } else {
            lemma_wisher(s, columns, n - 1, k);
        }
    }
}

/// What the one column of a chunk wants is what is wanted.
proof fn lemma_one_column(s: ChunkStreamer, columns: Seq<ColumnView>, n: int, i: int, k: u128)
    requires
        columns_apart(columns),
        0 <= i < n <= columns.len(),
        unpacked(k).0.x == columns[i].cx,
        unpacked(k).0.z == columns[i].cz,
    ensures
        s.wishes(columns, n, k) == s.wish(columns[i], k),
    decreases n,
{
    if i < n - 1 {
        assert(columns[i].cx != columns[n - 1].cx || columns[i].cz != columns[n - 1].cz);
        lemma_one_column(s, columns, n - 1, i, k);
    } else {
        lemma_wisher(s, columns, n - 1, k);
        if s.wishes(columns, n - 1, k) is Some {
            let j = choose|j: int|
                0 <= j < n - 1 && unpacked(k).0.x == (#[trigger] columns[j]).cx && unpacked(k).0.z
                    == columns[j].cz && unpacked(k).0.y < columns[j].layers && unpacked(k).inside()
                    && s.wish(columns[j], k) == s.wishes(columns, n - 1, k);
            assert(columns[j].cx != columns[i].cx || columns[j].cz != columns[i].cz);
        }
    }
}

/// What is wanted of a column's chunks: everything that is not wholly under
/// its lowest ground, at the level its distance asks for; of what is buried
/// only what a camera close by could dig to, at full detail; and what play
/// changed at full detail in any case.
pub proof fn buried_chunks_are_for_digging(
    s: ChunkStreamer,
    columns: Seq<ColumnView>,
    i: int,
    cy: i32,
)
    requires
        columns_apart(columns),
        0 <= i < columns.len(),
        0 <= cy < columns[i].layers,
        columns[i].chunk_at(cy).inside(),
    ensures
        ({
            let c = columns[i];
            let k = packed(c.chunk_at(cy));
            let lod = chosen(c.ideal, c.relaxed, s.current(k));
            let wants = s.goal(columns, k);
            &&& !s.pins().contains(k) && cy >= c.buried ==> wants == lod
            &&& !s.pins().contains(k) && c.deep <= cy < c.buried ==> wants == (if lod == Some(
                Lod::Full,
            ) {
                Some(Lod::Full)
            } else {
                None
            })
            &&& !s.pins().contains(k) && cy < c.buried && cy < c.deep ==> wants is None
            &&& s.pins().contains(k) && lod is Some ==> wants == Some(Lod::Full)
        }),
{
    let c = columns[i];
    let k = packed(c.chunk_at(cy));
    lemma_packed(c.chunk_at(cy));
    lemma_one_column(s, columns, columns.len() as int, i, k);
}

/// Distances decide the level: full within the first radius, then cells, 2 m
/// and 8 m nodes, each from one radius to the next, and nothing beyond.
pub proof fn levels_reach_their_radius(d: u32, r: Radii)
    requires
        r.full <= r.cell <= r.node2 <= r.node8,
    ensures
        wanted(d, r) == Some(Lod::Full) <==> d <= r.full,
        wanted(d, r) == Some(Lod::Cell) <==> r.full < d <= r.cell,
        wanted(d, r) == Some(Lod::Node2) <==> r.cell < d <= r.node2,
        wanted(d, r) == Some(Lod::Node8) <==> r.node2 < d <= r.node8,
        wanted(d, r) is None <==> r.node8 < d,
{
}

/// What is not loaded comes at the ideal level, and not at all where there is
/// none. A finer ideal, and one to which the slack no longer reaches, is taken
/// as it is; beyond every radius what is too fine coarsens to what the slack
/// allows.
pub proof fn ideals_win_outside_the_slack(ideal: Option<Lod>, relaxed: Lod, current: Lod)
    requires
        relaxed.level() <= coarseness(ideal),
    ensures
        chosen(ideal, relaxed, None) == ideal,
        current.level() > coarseness(ideal) ==> chosen(ideal, relaxed, Some(current)) == ideal,
        current.level() < relaxed.level() && ideal is Some ==> chosen(
            ideal,
            relaxed,
            Some(current),
        ) == ideal,
        current.level() < relaxed.level() && ideal is None ==> chosen(
            ideal,
            relaxed,
            Some(current),
        ) == Some(relaxed),
{
}

/// Work is ordered by detail before distance: finer levels have smaller keys
/// whatever the distances, and at one level nearer chunks do.
pub proof fn finer_and_nearer_come_first(a: Lod, b: Lod, d: u32, e: u32)
    ensures
        a.level() < b.level() ==> job_key(a, d) < job_key(b, e),
        d < e ==> job_key(a, d) < job_key(a, e),
{
}

/// Exactly what is wanted and missing waits: a job is for a chunk at the level
/// it is wanted at, that is neither loaded at it nor being made at it, and
/// every such chunk has a job.
pub proof fn what_is_missing_waits(s: ChunkStreamer, columns: Seq<ColumnView>, k: u128, l: Lod)
    requires
        columns_apart(columns),
    ensures
        (exists|d: u64| #[trigger] s.is_job(columns, columns.len() as int, (d, (k, l)))) <==> {
            &&& s.goal(columns, k) == Some(l)
            &&& !(s.loaded_map().contains_key(k) && s.loaded_map()[k] == l)
            &&& !(s.running().contains_key(k) && s.running()[k] == l)
        },
{
    let n = columns.len() as int;
    if exists|d: u64| #[trigger] s.is_job(columns, n, (d, (k, l))) {
        let d = choose|d: u64| #[trigger] s.is_job(columns, n, (d, (k, l)));
        let i = choose|i: int|
            0 <= i < n && s.wish(#[trigger] columns[i], k) == Some(l) && s.unmet(k, l) && d
                == job_key(l, columns[i].distance);
        lemma_one_column(s, columns, n, i, k);
    }
    if s.goal(columns, k) == Some(l) && s.unmet(k, l) {
        lemma_wisher(s, columns, n, k);
        let i = choose|i: int|
            0 <= i < n && unpacked(k).0.x == (#[trigger] columns[i]).cx && unpacked(k).0.z
                == columns[i].cz && unpacked(k).0.y < columns[i].layers && unpacked(k).inside()
                && s.wish(columns[i], k) == s.wishes(columns, n, k);
        let d = job_key(l, columns[i].distance) as u64;
        assert(s.wish(columns[i], k) == Some(l));
        assert(s.is_job(columns, n, (d, (k, l))));
    }
}

} // verus!
