//! Palette storage: a list of materials, how many voxels use each, and one
//! index per voxel.

use crate::brick::{NARROW_CAP, VOXELS};
use crate::material::{air, MaterialId};
use crate::tally::{lemma_tally_bounds, lemma_tally_update, tally};
use vstd::prelude::*;

verus! {

#[derive(Clone, Debug)]
pub struct Wide {
    pub(crate) palette: Vec<MaterialId>,
    pub(crate) counts: Vec<u16>,
    pub(crate) indices: Box<[u8; 512]>,
}

// The narrow case is the common one and stays inline to avoid a heap
// allocation per brick; only the rare wide case is boxed.
#[derive(Clone, Debug)]
pub(crate) enum Storage {
    Narrow { palette: [MaterialId; 16], counts: [u16; 16], len: u8, nibbles: [u8; 256] },
    Wide(Box<Wide>),
}

/// Four-bit index `i` of a packed array, low nibble first.
pub open spec fn nibble(bytes: Seq<u8>, i: int) -> int {
    if i % 2 == 0 {
        bytes[i / 2] as int % 16
    } else {
        bytes[i / 2] as int / 16
    }
}

/// The materials other than air that occur in `v`.
pub open spec fn matter(v: Seq<MaterialId>) -> Set<MaterialId> {
    v.to_set().remove(air())
}

/// Whether a brick that holds `v` can take one voxel of `m`: palette entries
/// are bytes and one of them is air, so at most 255 other materials fit.
pub open spec fn has_room(v: Seq<MaterialId>, m: MaterialId) -> bool {
    m == air() || v.contains(m) || matter(v).len() < 255
}

/// The entry that gives way to a new material: the first after air, at `p` or
/// behind it, that no voxel of `v` uses; the palette's end if all are in use.
pub open spec fn spare_entry(pal: Seq<MaterialId>, v: Seq<MaterialId>, p: int) -> int
    decreases pal.len() - p,
{
    if p >= pal.len() {
        pal.len() as int
    } else if tally(v, pal[p]) == 0 {
        p
    } else {
        spare_entry(pal, v, p + 1)
    }
}

/// A palette once `m` has an entry: as it was if it has one, else with `m` in
/// place of the first unused entry or, without one, at the end.
pub open spec fn with_entry(pal: Seq<MaterialId>, v: Seq<MaterialId>, m: MaterialId) -> Seq<
    MaterialId,
> {
    if pal.contains(m) {
        pal
    } else if spare_entry(pal, v, 1) < pal.len() {
        pal.update(spare_entry(pal, v, 1), m)
    } else {
        pal.push(m)
    }
}

/// A palette as narrow bricks store it: air behind its last entry.
pub open spec fn padded(pal: Seq<MaterialId>) -> Seq<MaterialId> {
    Seq::new(
        16,
        |k: int|
            if k < pal.len() {
                pal[k]
            } else {
                air()
            },
    )
}

proof fn lemma_spare(pal: Seq<MaterialId>, v: Seq<MaterialId>, from: int, p: int)
    requires
        1 <= from <= p <= pal.len(),
        forall|q: int| from <= q < p ==> tally(v, pal[q]) > 0,
        p < pal.len() ==> tally(v, pal[p]) == 0,
    ensures
        spare_entry(pal, v, from) == p,
    decreases p - from,
{
    if from < p {
        assert(tally(v, pal[from]) > 0);
        lemma_spare(pal, v, from + 1, p);
    }
}

impl Storage {
    pub(crate) open spec fn wide(&self) -> bool {
        self is Wide
    }

    pub(crate) open spec fn cap(&self) -> int {
        if self.wide() {
            256
        } else {
            16
        }
    }

    pub(crate) open spec fn pal(&self) -> Seq<MaterialId> {
        match self {
            Storage::Narrow { palette, len, .. } => palette@.take(*len as int),
            Storage::Wide(w) => w.palette@,
        }
    }

    pub(crate) open spec fn cnt(&self) -> Seq<u16> {
        match self {
            Storage::Narrow { counts, len, .. } => counts@.take(*len as int),
            Storage::Wide(w) => w.counts@,
        }
    }

    pub(crate) open spec fn idx(&self, i: int) -> int {
        match self {
            Storage::Narrow { nibbles, .. } => nibble(nibbles@, i),
            Storage::Wide(w) => w.indices@[i] as int,
        }
    }

    pub(crate) open spec fn vox(&self) -> Seq<MaterialId> {
        Seq::new(512, |i: int| self.pal()[self.idx(i)])
    }

    /// Shape: palette and counts of one length, each index inside them.
    pub(crate) open spec fn shaped(&self) -> bool {
        &&& self matches Storage::Narrow { palette, len, .. } ==> *len <= 16 && forall|k: int|
            *len <= k < 16 ==> #[trigger] palette@[k] == air()
        &&& 1 <= self.pal().len() <= self.cap()
        &&& self.cnt().len() == self.pal().len()
        &&& forall|i: int| 0 <= i < 512 ==> 0 <= #[trigger] self.idx(i) < self.pal().len()
    }

    /// Shape, air in entry 0, no entry twice, and counts that are true.
    pub(crate) open spec fn wf(&self) -> bool {
        &&& self.shaped()
        &&& self.pal()[0] == air()
        &&& self.pal().no_duplicates()
        &&& forall|p: int|
            0 <= p < self.pal().len() ==> #[trigger] self.cnt()[p] == tally(
                self.vox(),
                self.pal()[p],
            )
    }

    pub(crate) fn index(&self, i: usize) -> (p: usize)
        requires
            i < 512,
        ensures
            p == self.idx(i as int),
            p < 256,
            !self.wide() ==> p < 16,
    {
        match self {
            Storage::Narrow { nibbles, .. } => if i % 2 == 0 {
                (nibbles[i / 2] % 16) as usize
            } else {
                (nibbles[i / 2] / 16) as usize
            },
            Storage::Wide(w) => w.indices[i] as usize,
        }
    }

    pub(crate) fn entry(&self, p: usize) -> (m: MaterialId)
        requires
            self.shaped(),
            p < self.pal().len(),
        ensures
            m == self.pal()[p as int],
    {
        match self {
            Storage::Narrow { palette, .. } => palette[p],
            Storage::Wide(w) => w.palette[p],
        }
    }

    pub(crate) fn count(&self, p: usize) -> (c: u16)
        requires
            self.shaped(),
            p < self.pal().len(),
        ensures
            c == self.cnt()[p as int],
    {
        match self {
            Storage::Narrow { counts, .. } => counts[p],
            Storage::Wide(w) => w.counts[p],
        }
    }

    pub(crate) fn len(&self) -> (n: usize)
        requires
            self.shaped(),
        ensures
            n == self.pal().len(),
            n <= 256,
    {
        match self {
            Storage::Narrow { len, .. } => *len as usize,
            Storage::Wide(w) => w.palette.len(),
        }
    }

    /// The first entry after air that holds `m`.
    fn find(&self, m: MaterialId) -> (r: Option<usize>)
        requires
            self.wf(),
        ensures
            match r {
                Some(p) => 1 <= p < self.pal().len() && self.pal()[p as int] == m,
                None => forall|p: int| 1 <= p < self.pal().len() ==> self.pal()[p] != m,
            },
    {
        let n: usize = self.len();
        let mut p: usize = 1;
        while p < n
            invariant
                self.wf(),
                n == self.pal().len(),
                1 <= p <= n,
                forall|q: int| 1 <= q < p ==> self.pal()[q] != m,
            decreases n - p,
        {
            if self.entry(p) == m {
                return Some(p);
            }
            p += 1;
        }
        None
    }

    /// The first entry after air whose voxels have all been overwritten.
    fn find_unused(&self) -> (r: Option<usize>)
        requires
            self.wf(),
        ensures
            match r {
                Some(p) => 1 <= p < self.pal().len() && self.cnt()[p as int] == 0 && p
                    == spare_entry(self.pal(), self.vox(), 1),
                None => (forall|p: int| 1 <= p < self.pal().len() ==> self.cnt()[p] > 0)
                    && spare_entry(self.pal(), self.vox(), 1) == self.pal().len(),
            },
    {
        let n: usize = self.len();
        let mut p: usize = 1;
        while p < n
            invariant
                self.wf(),
                n == self.pal().len(),
                1 <= p <= n,
                forall|q: int| 1 <= q < p ==> self.cnt()[q] > 0,
            decreases n - p,
        {
            if self.count(p) == 0 {
                proof {
                    assert forall|q: int| 1 <= q < p implies tally(self.vox(), self.pal()[q]) > 0 by {
                        assert(self.cnt()[q] > 0);
                    }
                    lemma_spare(self.pal(), self.vox(), 1, p as int);
                }
                return Some(p);
            }
            p += 1;
        }
        proof {
            assert forall|q: int| 1 <= q < n implies tally(self.vox(), self.pal()[q]) > 0 by {
                assert(self.cnt()[q] > 0);
            }
            lemma_spare(self.pal(), self.vox(), 1, n as int);
        }
        None
    }

    /// Gives entry `p`, which no voxel uses, to material `m`.
    fn rename(&mut self, p: usize, m: MaterialId)
        requires
            old(self).wf(),
            1 <= p < old(self).pal().len(),
            old(self).cnt()[p as int] == 0,
            forall|q: int| 0 <= q < old(self).pal().len() ==> old(self).pal()[q] != m,
        ensures
            final(self).wf(),
            final(self).vox() == old(self).vox(),
            final(self).wide() == old(self).wide(),
            final(self).pal() == old(self).pal().update(p as int, m),
            forall|i: int| 0 <= i < 512 ==> #[trigger] final(self).idx(i) == old(self).idx(i),
    {
        let ghost before = *self;
        proof {
            lemma_unused(before, p as int);
        }
        match self {
            Storage::Narrow { palette, len, .. } => {
                palette[p] = m;
                assert(palette@.take(*len as int) =~= before.pal().update(p as int, m));
            },
            Storage::Wide(w) => {
                w.palette[p] = m;
                assert(w.palette@ =~= before.pal().update(p as int, m));
            },
        }
        proof {
            assert(self.cnt() =~= before.cnt());
            assert(forall|i: int| 0 <= i < 512 ==> #[trigger] self.idx(i) == before.idx(i));
            assert(self.vox() =~= before.vox());
            lemma_absent(before.vox(), before.pal(), m);
            lemma_tally_bounds(before.vox(), m, 512);
        }
    }

    /// Adds an entry for `m`.
    fn extend(&mut self, m: MaterialId) -> (p: usize)
        requires
            old(self).wf(),
            old(self).pal().len() < old(self).cap(),
            forall|q: int| 0 <= q < old(self).pal().len() ==> old(self).pal()[q] != m,
        ensures
            final(self).wf(),
            final(self).vox() == old(self).vox(),
            final(self).wide() == old(self).wide(),
            final(self).pal() == old(self).pal().push(m),
            forall|i: int| 0 <= i < 512 ==> #[trigger] final(self).idx(i) == old(self).idx(i),
            p == old(self).pal().len(),
    {
        let ghost before = *self;
        let n: usize = self.len();
        match self {
            Storage::Narrow { palette, counts, len, .. } => {
                palette[n] = m;
                counts[n] = 0;
                *len = *len + 1;
                assert(palette@.take(*len as int) =~= before.pal().push(m));
                assert(counts@.take(*len as int) =~= before.cnt().push(0));
            },
            Storage::Wide(w) => {
                w.palette.push(m);
                w.counts.push(0);
            },
        }
        proof {
            assert(self.pal() =~= before.pal().push(m));
            assert(self.cnt() =~= before.cnt().push(0));
            assert(forall|i: int| 0 <= i < 512 ==> #[trigger] self.idx(i) == before.idx(i));
            assert(self.vox() =~= before.vox());
            lemma_absent(before.vox(), before.pal(), m);
            lemma_tally_bounds(before.vox(), m, 512);
        }
        n
    }

    /// Moves narrow storage to one byte per voxel.
    fn widen(&mut self)
        requires
            old(self).wf(),
            !old(self).wide(),
        ensures
            final(self).wf(),
            final(self).wide(),
            final(self).vox() == old(self).vox(),
            final(self).pal() == old(self).pal(),
            forall|i: int| 0 <= i < 512 ==> #[trigger] final(self).idx(i) == old(self).idx(i),
    {
        let n: usize = self.len();
        let mut indices: Box<[u8; 512]> = Box::new([0u8;512]);
        let mut i: usize = 0;
        while i < VOXELS
            invariant
                i <= 512,
                self.wf(),
                !self.wide(),
                forall|j: int| 0 <= j < i ==> indices@[j] == self.idx(j),
            decreases VOXELS - i,
        {
            indices[i] = self.index(i) as u8;
            i += 1;
        }
        let mut palette: Vec<MaterialId> = Vec::new();
        let mut counts: Vec<u16> = Vec::new();
        let mut p: usize = 0;
        while p < n
            invariant
                self.wf(),
                n == self.pal().len(),
                p <= n,
                palette@ == self.pal().take(p as int),
                counts@ == self.cnt().take(p as int),
            decreases n - p,
        {
            palette.push(self.entry(p));
            counts.push(self.count(p));
            p += 1;
        }
        let ghost before = *self;
        *self = Storage::Wide(Box::new(Wide { palette, counts, indices }));
        proof {
            assert(self.pal() =~= before.pal());
            assert(self.cnt() =~= before.cnt());
            assert(forall|i: int| 0 <= i < 512 ==> #[trigger] self.idx(i) == before.idx(i));
            assert(self.vox() =~= before.vox());
        }
    }

    /// Palette entry for `m`, taking an unused one, adding one or widening if
    /// needed.
    pub(crate) fn slot_for(&mut self, m: MaterialId) -> (p: usize)
        requires
            old(self).wf(),
            has_room(old(self).vox(), m),
        ensures
            final(self).wf(),
            final(self).vox() == old(self).vox(),
            p < final(self).pal().len(),
            final(self).pal()[p as int] == m,
            final(self).pal() == with_entry(old(self).pal(), old(self).vox(), m),
            final(self).wide() == (old(self).wide() || (m != air() && !old(self).vox().contains(m)
                && matter(old(self).vox()).len() == 15)),
            forall|i: int| 0 <= i < 512 ==> #[trigger] final(self).idx(i) == old(self).idx(i),
    {
        let ghost before = *self;
        if m.is_air() {
            assert(self.pal()[0] == m);
            return 0;
        }
        if let Some(p) = self.find(m) {
            proof {
                lemma_matter(before);
                if before.cnt()[p as int] > 0 {
                    lemma_tally_bounds(before.vox(), m, 512);
                }
            }
            return p;
        }
        assert forall|q: int| 0 <= q < self.pal().len() implies self.pal()[q] != m by {}
        proof {
            lemma_matter(before);
            lemma_absent(before.vox(), before.pal(), m);
        }
        if let Some(p) = self.find_unused() {
            self.rename(p, m);
            return p;
        }
        let n: usize = self.len();
        let full: bool = match self {
            Storage::Narrow { .. } => n == NARROW_CAP,
            Storage::Wide(_) => false,
        };
        if full {
            self.widen();
        }
        self.extend(m)
    }

    /// Points voxel `i` at entry `p`.
    pub(crate) fn point(&mut self, i: usize, p: usize)
        requires
            old(self).wf(),
            i < 512,
            p < old(self).pal().len(),
            p != old(self).idx(i as int),
        ensures
            final(self).wf(),
            final(self).vox() == old(self).vox().update(i as int, old(self).pal()[p as int]),
            final(self).pal() == old(self).pal(),
            final(self).wide() == old(self).wide(),
    {
        let ghost before = *self;
        let q: usize = self.index(i);
        proof {
            let v = before.vox();
            assert(v[i as int] == before.pal()[q as int]);
            lemma_tally_bounds(v, v[i as int], 512);
            assert(before.pal()[q as int] != before.pal()[p as int]);
            assert(before.cnt()[q as int] == tally(v, v[i as int]));
            assert(before.cnt()[p as int] == tally(v, before.pal()[p as int]));
            lemma_tally_bounds(v, before.pal()[p as int], 512);
        }
        match self {
            Storage::Narrow { counts, nibbles, len, .. } => {
                counts[q] = counts[q] - 1;
                counts[p] = counts[p] + 1;
                let b: u8 = nibbles[i / 2];
                nibbles[i / 2] = if i % 2 == 0 {
                    b / 16 * 16 + p as u8
                } else {
                    b % 16 + p as u8 * 16
                };
                assert(counts@.take(*len as int) =~= before.cnt().update(
                    q as int,
                    (before.cnt()[q as int] - 1) as u16,
                ).update(p as int, (before.cnt()[p as int] + 1) as u16));
            },
            Storage::Wide(w) => {
                w.counts[q] = w.counts[q] - 1;
                w.counts[p] = w.counts[p] + 1;
                w.indices[i] = p as u8;
            },
        }
        proof {
            assert(self.pal() =~= before.pal());
            assert(self.cnt() =~= before.cnt().update(
                q as int,
                (before.cnt()[q as int] - 1) as u16,
            ).update(p as int, (before.cnt()[p as int] + 1) as u16));
            assert forall|j: int| 0 <= j < 512 implies #[trigger] self.idx(j) == if j == i {
                p as int
            } else {
                before.idx(j)
            } by {
                if j / 2 == i / 2 && j != i {
                    assert(j % 2 != i % 2);
                }
            }
            assert(self.vox() =~= before.vox().update(i as int, before.pal()[p as int]));
            assert forall|r: int| 0 <= r < self.pal().len() implies #[trigger] self.cnt()[r]
                == tally(self.vox(), self.pal()[r]) by {
                lemma_tally_update(
                    before.vox(),
                    i as int,
                    before.pal()[p as int],
                    before.pal()[r],
                    512,
                );
            }
        }
    }
}

/// The materials present, air aside, are the entries with voxels: as many as
/// the palette has entries after air, less those that no voxel uses.
proof fn lemma_matter(s: Storage)
    requires
        s.wf(),
    ensures
        matter(s.vox()).finite(),
        matter(s.vox()).len() <= s.pal().len() - 1,
        (forall|p: int| 1 <= p < s.pal().len() ==> s.cnt()[p] > 0) ==> matter(s.vox()).len()
            == s.pal().len() - 1,
        (exists|p: int| 1 <= p < s.pal().len() && s.cnt()[p] == 0) ==> matter(s.vox()).len()
            < s.pal().len() - 1,
{
    let v = s.vox();
    let tail = s.pal().subrange(1, s.pal().len() as int);
    let all = tail.to_set();
    tail.unique_seq_to_set();
    v.lemma_cardinality_of_set();
    assert forall|m: MaterialId| matter(v).contains(m) implies all.contains(m) by {
        let i = choose|i: int| 0 <= i < v.len() && v[i] == m;
        let p = s.idx(i);
        assert(s.pal()[p] == m);
        assert(tail[p - 1] == m);
    }
    vstd::set_lib::lemma_len_subset(matter(v), all);
    if forall|p: int| 1 <= p < s.pal().len() ==> s.cnt()[p] > 0 {
        assert forall|m: MaterialId| all.contains(m) implies matter(v).contains(m) by {
            let k = choose|k: int| 0 <= k < tail.len() && tail[k] == m;
            assert(s.pal()[k + 1] == m);
            assert(s.cnt()[k + 1] > 0);
            lemma_tally_bounds(v, m, 512);
            assert(s.pal()[0] != m);
        }
        assert(all =~= matter(v));
    }
    if exists|p: int| 1 <= p < s.pal().len() && s.cnt()[p] == 0 {
        let p = choose|p: int| 1 <= p < s.pal().len() && s.cnt()[p] == 0;
        let m = s.pal()[p];
        lemma_unused(s, p);
        lemma_tally_bounds(v, m, 512);
        assert(tail[p - 1] == m);
        assert(all.contains(m));
        assert(!v.contains(m));
        assert(matter(v).subset_of(all.remove(m)));
        vstd::set_lib::lemma_len_subset(matter(v), all.remove(m));
    }
}

/// No voxel uses an entry whose count is zero.
proof fn lemma_unused(s: Storage, p: int)
    requires
        s.wf(),
        0 <= p < s.pal().len(),
        s.cnt()[p] == 0,
    ensures
        forall|i: int| 0 <= i < 512 ==> #[trigger] s.idx(i) != p,
{
    lemma_tally_bounds(s.vox(), s.pal()[p], 512);
    assert forall|i: int| 0 <= i < 512 implies #[trigger] s.idx(i) != p by {
        assert(s.vox()[i] == s.pal()[s.idx(i)]);
    }
}

/// A material outside the palette is no voxel's.
proof fn lemma_absent(v: Seq<MaterialId>, pal: Seq<MaterialId>, m: MaterialId)
    requires
        v.len() == 512,
        forall|i: int| 0 <= i < 512 ==> pal.contains(#[trigger] v[i]),
        forall|q: int| 0 <= q < pal.len() ==> pal[q] != m,
    ensures
        forall|i: int| 0 <= i < 512 ==> v[i] != m,
{
}

} // verus!
