//! Compact 64-way child arrays.

use crate::bits::{
    bit, lemma_all_bits, lemma_clear_bit, lemma_full_rank, lemma_no_bits, lemma_ones_mono,
    lemma_ones_set, lemma_rank_injective, lemma_select, lemma_set_bit, ones, ones_below, rank,
    select, test_bit,
};
use vstd::prelude::*;

verus! {

/// Compact 64-way child array: child `i` lives at the number of set mask
/// bits below `i`.
#[derive(Clone, Debug)]
pub struct Sparse64<T> {
    pub mask: u64,
    pub items: Vec<T>,
}

impl<T> Default for Sparse64<T> {
    fn default() -> (s: Self)
        ensures
            s.wf(),
            s.mask == 0,
            forall|i: int| 0 <= i < 64 ==> #[trigger] s.at(i) is None,
    {
        proof {
            lemma_no_bits(0);
        }
        Sparse64 { mask: 0, items: Vec::new() }
    }
}

/// The `(index, item)` pairs of the children below `n`, in index order.
pub open spec fn pairs<T>(s: Sparse64<T>, n: int) -> Seq<(u32, T)>
    decreases n,
{
    if n <= 0 {
        Seq::empty()
    } else {
        match s.at(n - 1) {
            Some(t) => pairs(s, n - 1).push(((n - 1) as u32, t)),
            None => pairs(s, n - 1),
        }
    }
}

impl<T> Sparse64<T> {
    /// One item for each set bit.
    pub open spec fn wf(&self) -> bool {
        self.items@.len() == ones(self.mask)
    }

    /// Child `i`, if there is one.
    pub open spec fn at(&self, i: int) -> Option<T> {
        if bit(self.mask, i) {
            Some(self.items@[ones_below(self.mask, i) as int])
        } else {
            None
        }
    }

    /// All 64 children set to clones of `item`.
    pub fn full(item: T) -> (s: Self) where T: Clone
        ensures
            s.wf(),
            s.mask == u64::MAX,
            forall|i: int| 0 <= i < 64 ==> (#[trigger] s.at(i) matches Some(t) && cloned(item, t)),
    {
        let s = Sparse64 { mask: u64::MAX, items: vec![item; 64] };
        proof {
            lemma_all_bits(u64::MAX);
            lemma_full_rank();
        }
        s
    }

    pub fn get(&self, i: u32) -> (r: Option<&T>)
        requires
            self.wf(),
            i < 64,
        ensures
            match r {
                Some(t) => self.at(i as int) == Some(*t),
                None => self.at(i as int) is None,
            },
    {
        if test_bit(self.mask, i) {
            let k: usize = rank(self.mask, i);
            Some(&self.items[k])
        } else {
            None
        }
    }

    pub fn get_mut(&mut self, i: u32) -> (r: Option<&mut T>)
        requires
            old(self).wf(),
            i < 64,
        ensures
            final(self).wf(),
            final(self).mask == old(self).mask,
            match r {
                Some(t) => {
                    &&& old(self).at(i as int) == Some(*t)
                    &&& final(self).at(i as int) == Some(*final(t))
                    &&& forall|j: int|
                        0 <= j < 64 && j != i ==> #[trigger] final(self).at(j) == old(self).at(j)
                },
                None => old(self).at(i as int) is None && *final(self) == *old(self),
            },
    {
        if !test_bit(self.mask, i) {
            return None;
        }
        let k: usize = rank(self.mask, i);
        proof {
            lemma_ranks(self.mask, i as int);
        }
        Some(&mut self.items[k])
    }

    pub fn get_or_insert_with(&mut self, i: u32, f: impl FnOnce() -> T) -> (r: &mut T)
        requires
            old(self).wf(),
            i < 64,
            old(self).at(i as int) is None ==> f.requires(()),
        ensures
            final(self).wf(),
            match old(self).at(i as int) {
                Some(t) => *r == t,
                None => f.ensures((), *r),
            },
            final(self).at(i as int) == Some(*final(r)),
            forall|j: int|
                0 <= j < 64 && j != i ==> #[trigger] final(self).at(j) == old(self).at(j),
    {
        let k: usize = rank(self.mask, i);
        if !test_bit(self.mask, i) {
            let ghost mask = self.mask;
            let ghost items = self.items@;
            self.items.insert(k, f());
            proof {
                lemma_set_bit(mask, i as u64);
                lemma_insert_ranks(mask, mask | (1u64 << i), i as int);
            }
            self.mask = self.mask | (1u64 << i);
            assert forall|j: int| 0 <= j < 64 && j != i implies #[trigger] self.at(j) == old(
                self,
            ).at(j) by {
                lemma_ones_mono(mask, 0, j);
                if bit(mask, j) {
                    lemma_ones_mono(mask, j, 64);
                }
            }
        }
        proof {
            lemma_ranks(self.mask, i as int);
        }
        &mut self.items[k]
    }

    pub fn remove(&mut self, i: u32) -> (r: Option<T>)
        requires
            old(self).wf(),
            i < 64,
        ensures
            final(self).wf(),
            r == old(self).at(i as int),
            final(self).at(i as int) is None,
            forall|j: int|
                0 <= j < 64 && j != i ==> #[trigger] final(self).at(j) == old(self).at(j),
    {
        if !test_bit(self.mask, i) {
            return None;
        }
        let ghost mask = self.mask;
        let k: usize = rank(self.mask, i);
        let t: T = self.items.remove(k);
        proof {
            lemma_clear_bit(mask, i as u64);
            lemma_insert_ranks(mask & !(1u64 << i), mask, i as int);
        }
        self.mask = self.mask & !(1u64 << i);
        assert forall|j: int| 0 <= j < 64 && j != i implies #[trigger] self.at(j) == old(self).at(
            j,
        ) by {
            lemma_ones_mono(self.mask, 0, j);
            if bit(self.mask, j) {
                lemma_ones_mono(self.mask, j, 64);
                if i < j {
                    lemma_ones_mono(self.mask, i as int, j);
                } else {
                    lemma_ones_mono(self.mask, j, i as int);
                }
            }
        }
        Some(t)
    }

    pub fn is_empty(&self) -> (b: bool)
        ensures
            b == (self.mask == 0),
            b == forall|i: int| 0 <= i < 64 ==> #[trigger] self.at(i) is None,
    {
        proof {
            lemma_no_bits(self.mask);
            if self.mask != 0 {
                let j = choose|j: int| 0 <= j < 64 && bit(self.mask, j);
                assert(self.at(j) is Some);
            }
        }
        self.mask == 0
    }

    pub fn is_full(&self) -> (b: bool)
        ensures
            b == (self.mask == u64::MAX),
            b == forall|i: int| 0 <= i < 64 ==> #[trigger] self.at(i) is Some,
    {
        proof {
            lemma_all_bits(self.mask);
            if self.mask != u64::MAX {
                let j = choose|j: int| 0 <= j < 64 && !bit(self.mask, j);
                assert(self.at(j) is None);
            }
        }
        self.mask == u64::MAX
    }

    /// `(child index, item)` in ascending index order.
    pub fn iter(&self) -> (r: Vec<(u32, &T)>)
        requires
            self.wf(),
        ensures
            r@.len() == self.items@.len(),
            r@ == pairs(*self, 64).map_values(|p: (u32, T)| (p.0, &p.1)),
            forall|k: int|
                0 <= k < r@.len() ==> (#[trigger] r@[k]).0 < 64 && r@[k].0 == select(self.mask, k)
                    && self.at(r@[k].0 as int) == Some(*r@[k].1) && *r@[k].1 == self.items@[k],
            forall|k: int, l: int| 0 <= k < l < r@.len() ==> r@[k].0 < r@[l].0,
            forall|i: int|
                0 <= i < 64 && #[trigger] self.at(i) is Some ==> exists|k: int|
                    0 <= k < r@.len() && (#[trigger] r@[k]).0 == i,
    {
        let mut r: Vec<(u32, &T)> = Vec::new();
        let mut i: u32 = 0;
        while i < 64
            invariant
                self.wf(),
                i <= 64,
                r@.len() == ones_below(self.mask, i as int),
                r@ == pairs(*self, i as int).map_values(|p: (u32, T)| (p.0, &p.1)),
                forall|k: int|
                    0 <= k < r@.len() ==> (#[trigger] r@[k]).0 < i && r@[k].0 == select(
                        self.mask,
                        k,
                    ) && self.at(r@[k].0 as int) == Some(*r@[k].1) && *r@[k].1 == self.items@[k],
                forall|k: int, l: int| 0 <= k < l < r@.len() ==> r@[k].0 < r@[l].0,
                forall|j: int|
                    0 <= j < i && #[trigger] self.at(j) is Some ==> exists|k: int|
                        0 <= k < r@.len() && (#[trigger] r@[k]).0 == j,
            decreases 64 - i,
        {
            let ghost before = r@;
            match self.get(i) {
                Some(t) => {
                    r.push((i, t));
                    proof {
                        lemma_ones_mono(self.mask, i as int, 64);
                        lemma_select(self.mask, before.len() as int);
                        lemma_rank_injective(
                            self.mask,
                            i as int,
                            select(self.mask, before.len() as int),
                        );
                        assert(pairs(*self, i + 1) == pairs(*self, i as int).push((i, *t)));
                        assert(r@ =~= pairs(*self, i + 1).map_values(
                            |p: (u32, T)| (p.0, &p.1),
                        ));
                        assert(r@[before.len() as int].0 == i);
                        assert forall|j: int| 0 <= j < i + 1 && #[trigger] self.at(
                            j,
                        ) is Some implies exists|k: int|
                            0 <= k < r@.len() && (#[trigger] r@[k]).0 == j by {
                            if j < i {
                                let k = choose|k: int| 0 <= k < before.len() && before[k].0 == j;
                                assert(r@[k].0 == j);
                            }
                        }
                    }
                },
                None => {},
            }
            i += 1;
        }
        r
    }
}

/// Two set bits have different ranks; all lie below the count.
proof fn lemma_ranks(m: u64, i: int)
    requires
        0 <= i < 64,
        bit(m, i),
    ensures
        ones_below(m, i) < ones(m),
        forall|j: int|
            0 <= j < 64 && j != i && #[trigger] bit(m, j) ==> ones_below(m, j) != ones_below(m, i)
                && ones_below(m, j) < ones(m),
{
    lemma_ones_mono(m, i, 64);
    assert forall|j: int| 0 <= j < 64 && j != i && #[trigger] bit(m, j) implies ones_below(m, j)
        != ones_below(m, i) && ones_below(m, j) < ones(m) by {
        lemma_ones_mono(m, j, 64);
        if ones_below(m, j) == ones_below(m, i) {
            lemma_rank_injective(m, i, j);
        }
    }
}

/// With bit `i` set as well, later ranks move up by one.
proof fn lemma_insert_ranks(a: u64, b: u64, i: int)
    requires
        0 <= i < 64,
        !bit(a, i),
        forall|j: int| 0 <= j < 64 ==> #[trigger] bit(b, j) == (j == i || bit(a, j)),
    ensures
        ones(b) == ones(a) + 1,
        ones_below(b, i) == ones_below(a, i),
        forall|j: int|
            0 <= j < 64 ==> #[trigger] ones_below(b, j) == ones_below(a, j) + if i < j {
                1int
            } else {
                0
            },
        forall|j: int| 0 <= j <= i ==> #[trigger] ones_below(a, j) <= ones_below(a, i),
        forall|j: int| i < j < 64 ==> #[trigger] ones_below(a, j) >= ones_below(a, i),
        forall|j: int|
            0 <= j < i && #[trigger] bit(a, j) ==> ones_below(a, j) < ones_below(a, i),
{
    lemma_ones_set(a, b, i, 64);
    assert forall|j: int| 0 <= j < 64 implies #[trigger] ones_below(b, j) == ones_below(a, j) + if i
        < j {
        1int
    } else {
        0
    } by {
        lemma_ones_set(a, b, i, j);
    }
    assert forall|j: int| 0 <= j <= i implies #[trigger] ones_below(a, j) <= ones_below(a, i) by {
        lemma_ones_mono(a, j, i);
    }
    assert forall|j: int| i < j < 64 implies #[trigger] ones_below(a, j) >= ones_below(a, i) by {
        lemma_ones_mono(a, i, j);
    }
    assert forall|j: int| 0 <= j < i && #[trigger] bit(a, j) implies ones_below(a, j) < ones_below(
        a,
        i,
    ) by {
        lemma_ones_mono(a, j, i);
    }
}

/// Every stored item is some child.
pub proof fn lemma_item_is_child<T>(s: Sparse64<T>, k: int)
    requires
        s.wf(),
        0 <= k < s.items@.len(),
    ensures
        0 <= select(s.mask, k) < 64,
        s.at(select(s.mask, k)) == Some(s.items@[k]),
{
    lemma_select(s.mask, k);
}

} // verus!
