//! Voxel counts per material, for the filtered appearance of a node.

use crate::material::{air, MaterialId};
use vstd::prelude::*;

verus! {

/// Material histogram: each material once, air never, no count zero.
pub struct Histogram(pub Vec<(MaterialId, u32)>);

/// What the list counts for material `m`.
pub open spec fn listed_count(s: Seq<(MaterialId, u32)>, m: MaterialId, n: int) -> nat
    decreases n,
{
    if n <= 0 {
        0
    } else {
        listed_count(s, m, n - 1) + if s[n - 1].0 == m {
            s[n - 1].1 as nat
        } else {
            0
        }
    }
}

proof fn lemma_absent(s: Seq<(MaterialId, u32)>, m: MaterialId, n: int)
    requires
        0 <= n <= s.len(),
        forall|k: int| 0 <= k < n ==> (#[trigger] s[k]).0 != m,
    ensures
        listed_count(s, m, n) == 0,
    decreases n,
{
    if n > 0 {
        lemma_absent(s, m, n - 1);
    }
}

proof fn lemma_present(s: Seq<(MaterialId, u32)>, k: int, n: int)
    requires
        0 <= k < n <= s.len(),
        forall|i: int, j: int| 0 <= i < j < s.len() ==> (#[trigger] s[i]).0 != (#[trigger] s[j]).0,
    ensures
        listed_count(s, s[k].0, n) == s[k].1,
    decreases n,
{
    if k == n - 1 {
        lemma_absent(s, s[k].0, n - 1);
    } else {
        lemma_present(s, k, n - 1);
    }
}

proof fn lemma_some_entry(s: Seq<(MaterialId, u32)>, m: MaterialId, n: int)
    requires
        0 <= n <= s.len(),
        listed_count(s, m, n) > 0,
    ensures
        exists|k: int| 0 <= k < n && (#[trigger] s[k]).0 == m,
{
    if forall|k: int| 0 <= k < n ==> (#[trigger] s[k]).0 != m {
        lemma_absent(s, m, n);
    }
}

proof fn lemma_same_prefix(
    s: Seq<(MaterialId, u32)>,
    t: Seq<(MaterialId, u32)>,
    m: MaterialId,
    n: int,
)
    requires
        0 <= n <= s.len(),
        n <= t.len(),
        forall|k: int| 0 <= k < n ==> s[k] == t[k] || (s[k].0 != m && t[k].0 != m),
    ensures
        listed_count(s, m, n) == listed_count(t, m, n),
    decreases n,
{
    if n > 0 {
        lemma_same_prefix(s, t, m, n - 1);
    }
}

impl Histogram {
    pub open spec fn count(&self, m: MaterialId) -> nat {
        listed_count(self.0@, m, self.0@.len() as int)
    }

    pub open spec fn wf(&self) -> bool {
        &&& forall|i: int, j: int|
            0 <= i < j < self.0@.len() ==> (#[trigger] self.0@[i]).0 != (#[trigger] self.0@[j]).0
        &&& forall|i: int|
            0 <= i < self.0@.len() ==> (#[trigger] self.0@[i]).0 != air() && self.0@[i].1 > 0
    }

    pub fn new() -> (h: Histogram)
        ensures
            h.wf(),
            forall|m: MaterialId| #[trigger] h.count(m) == 0,
    {
        Histogram(Vec::new())
    }

    /// Counts `n` more voxels of `m`. Air is not counted.
    pub fn add(&mut self, m: MaterialId, n: u32)
        requires
            old(self).wf(),
            old(self).count(m) + n <= u32::MAX,
        ensures
            final(self).wf(),
            forall|x: MaterialId|
                #[trigger] final(self).count(x) == old(self).count(x) + if x == m && m != air() {
                    n as int
                } else {
                    0
                },
    {
        if m.is_air() || n == 0 {
            return;
        }
        let ghost before = self.0@;
        let mut k: usize = 0;
        while k < self.0.len()
            invariant
                k <= self.0@.len(),
                self.0@ == before,
                before == old(self).0@,
                old(self).wf(),
                old(self).count(m) + n <= u32::MAX,
                n > 0,
                m != air(),
                forall|j: int| 0 <= j < k ==> (#[trigger] self.0@[j]).0 != m,
            decreases self.0@.len() - k,
        {
            if self.0[k].0 == m {
                proof {
                    lemma_present(before, k as int, before.len() as int);
                }
                let c: u32 = self.0[k].1;
                self.0[k] = (m, c + n);
                proof {
                    let after = self.0@;
                    assert forall|x: MaterialId| #[trigger] self.count(x) == old(self).count(x)
                        + if x == m && m != air() {
                        n as int
                    } else {
                        0
                    } by {
                        if x == m {
                            lemma_present(after, k as int, after.len() as int);
                        } else {
                            lemma_same_prefix(before, after, x, before.len() as int);
                        }
                    }
                }
                return;
            }
            k += 1;
        }
        self.0.push((m, n));
        proof {
            let after = self.0@;
            lemma_absent(before, m, before.len() as int);
            assert forall|x: MaterialId| #[trigger] self.count(x) == old(self).count(x) + if x == m
                && m != air() {
                n as int
            } else {
                0
            } by {
                lemma_same_prefix(before, after, x, before.len() as int);
            }
        }
    }

    pub fn merge(&mut self, other: &Histogram)
        requires
            old(self).wf(),
            other.wf(),
            forall|m: MaterialId| #[trigger] old(self).count(m) + other.count(m) <= u32::MAX,
        ensures
            final(self).wf(),
            forall|m: MaterialId|
                #[trigger] final(self).count(m) == old(self).count(m) + other.count(m),
    {
        let mut k: usize = 0;
        while k < other.0.len()
            invariant
                k <= other.0@.len(),
                self.wf(),
                other.wf(),
                forall|m: MaterialId| #[trigger] old(self).count(m) + other.count(m) <= u32::MAX,
                forall|m: MaterialId|
                    #[trigger] self.count(m) == old(self).count(m) + listed_count(
                        other.0@,
                        m,
                        k as int,
                    ),
            decreases other.0@.len() - k,
        {
            let (m, n) = other.0[k];
            let ghost before = *self;
            proof {
                lemma_present(other.0@, k as int, other.0@.len() as int);
                lemma_present(other.0@, k as int, k + 1);
                assert(old(self).count(m) + other.count(m) <= u32::MAX);
                assert(before.count(m) == old(self).count(m) + listed_count(other.0@, m, k as int));
            }
            self.add(m, n);
            proof {
                assert forall|x: MaterialId| #[trigger] self.count(x) == old(self).count(x)
                    + listed_count(other.0@, x, k + 1) by {
                    assert(before.count(x) == old(self).count(x) + listed_count(
                        other.0@,
                        x,
                        k as int,
                    ));
                }
            }
            k += 1;
        }
    }

    /// Dominant entry by voxel coverage, never by averaging colours. Of
    /// several, the one with the lowest id; air where nothing is counted.
    pub fn dominant(&self) -> (r: MaterialId)
        requires
            self.wf(),
        ensures
            is_dominant(|m: MaterialId| self.count(m), r),
    {
        if self.0.len() == 0 {
            return MaterialId(0);
        }
        let mut best: usize = 0;
        let mut k: usize = 1;
        while k < self.0.len()
            invariant
                self.wf(),
                best < k <= self.0@.len(),
                forall|j: int|
                    0 <= j < k ==> (#[trigger] self.0@[j]).1 < self.0@[best as int].1 || (
                    self.0@[j].1 == self.0@[best as int].1 && self.0@[j].0.0
                        >= self.0@[best as int].0.0),
            decreases self.0@.len() - k,
        {
            let (m, n) = self.0[k];
            let (bm, bn) = self.0[best];
            if n > bn || (n == bn && m.0 < bm.0) {
                best = k;
            }
            k += 1;
        }
        let r: MaterialId = self.0[best].0;
        proof {
            lemma_present(self.0@, best as int, self.0@.len() as int);
            let f = |m: MaterialId| self.count(m);
            assert forall|x: MaterialId| x != air() implies #[trigger] f(x) < f(r) || (f(x) == f(r)
                && x.0 >= r.0) by {
                if self.count(x) > 0 {
                    lemma_some_entry(self.0@, x, self.0@.len() as int);
                    let j = choose|j: int| 0 <= j < self.0@.len() && (#[trigger] self.0@[j]).0 == x;
                    lemma_present(self.0@, j, self.0@.len() as int);
                }
            }
        }
        r
    }
}

/// `r` is the material with the largest count, the lowest id of several; air
/// where every count is zero.
pub open spec fn is_dominant(count: spec_fn(MaterialId) -> nat, r: MaterialId) -> bool {
    if r == air() {
        forall|x: MaterialId| x != air() ==> #[trigger] count(x) == 0
    } else {
        count(r) > 0 && forall|x: MaterialId|
            x != air() ==> #[trigger] count(x) < count(r) || (count(x) == count(r) && x.0 >= r.0)
    }
}

/// A histogram has one dominant material. Nothing is counted oftener, of two
/// counted as often the lower id is it, and it is air only where nothing at
/// all is counted.
pub proof fn one_material_dominates(
    count: spec_fn(MaterialId) -> nat,
    r: MaterialId,
    x: MaterialId,
)
    requires
        is_dominant(count, r),
        x != air(),
        count(x) > 0,
    ensures
        r != air(),
        count(x) <= count(r),
        count(x) == count(r) ==> r.0 <= x.0,
        is_dominant(count, x) ==> x == r,
{
}

} // verus!
