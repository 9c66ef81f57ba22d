//! Sorting work by key, largest first.

use vstd::multiset::Multiset;
use vstd::prelude::*;

verus! {

broadcast use vstd::seq_lib::group_to_multiset_ensures;

/// Keys never rise along the list.
pub open spec fn falling<T>(s: Seq<(u64, T)>) -> bool {
    forall|i: int, j: int| 0 <= i <= j < s.len() ==> (#[trigger] s[i]).0 >= (#[trigger] s[j]).0
}

/// The items of a list, in no order.
pub open spec fn items<T>(s: Seq<(u64, T)>) -> Multiset<(u64, T)> {
    s.to_multiset()
}

/// Merges two falling lists.
fn merge<T: Copy>(a: &Vec<(u64, T)>, b: &Vec<(u64, T)>) -> (r: Vec<(u64, T)>)
    requires
        falling(a@),
        falling(b@),
        a@.len() + b@.len() <= usize::MAX,
    ensures
        falling(r@),
        r@.len() == a@.len() + b@.len(),
        items(r@) == items(a@).add(items(b@)),
{
    let mut r: Vec<(u64, T)> = Vec::new();
    let mut i: usize = 0;
    let mut j: usize = 0;
    assert(a@.take(0) =~= Seq::empty());
    assert(b@.take(0) =~= Seq::empty());
    assert(items(r@) =~= items(a@.take(0)).add(items(b@.take(0))));
    while i < a.len() || j < b.len()
        invariant
            i <= a@.len(),
            j <= b@.len(),
            r@.len() == i + j,
            a@.len() + b@.len() <= usize::MAX,
            falling(a@),
            falling(b@),
            falling(r@),
            forall|k: int| 0 <= k < r@.len() && i < a@.len() ==> (#[trigger] r@[k]).0 >= a@[i as int].0,
            forall|k: int| 0 <= k < r@.len() && j < b@.len() ==> (#[trigger] r@[k]).0 >= b@[j as int].0,
            items(r@) == items(a@.take(i as int)).add(items(b@.take(j as int))),
        decreases a@.len() - i + b@.len() - j,
    {
        let from_a: bool = if i >= a.len() {
            false
        } else if j >= b.len() {
            true
        } else {
            a[i].0 >= b[j].0
        };
        let ghost before = r@;
        let ghost (x, y) = (items(a@.take(i as int)), items(b@.take(j as int)));
        if from_a {
            let ghost it = a@[i as int];
            assert(a@.take(i + 1) =~= a@.take(i as int).push(it));
            assert(items(a@.take(i + 1)) =~= x.insert(it));
            r.push(a[i]);
            i += 1;
            assert(r@ =~= before.push(it));
            assert(items(r@) =~= items(before).insert(it));
            assert(items(r@) =~= x.insert(it).add(y));
        } else {
            let ghost it = b@[j as int];
            assert(b@.take(j + 1) =~= b@.take(j as int).push(it));
            assert(items(b@.take(j + 1)) =~= y.insert(it));
            r.push(b[j]);
            j += 1;
            assert(r@ =~= before.push(it));
            assert(items(r@) =~= items(before).insert(it));
            assert(items(r@) =~= x.add(y.insert(it)));
        }
    }
    assert(a@.take(i as int) =~= a@);
    assert(b@.take(j as int) =~= b@);
    r
}

/// Sorts by key, largest first.
pub fn sort_falling<T: Copy>(v: &Vec<(u64, T)>) -> (r: Vec<(u64, T)>)
    ensures
        falling(r@),
        r@.len() == v@.len(),
        items(r@) == items(v@),
{
    assert(v@.subrange(0, v@.len() as int) =~= v@);
    sort_range(v, 0, v.len())
}

fn sort_range<T: Copy>(v: &Vec<(u64, T)>, lo: usize, hi: usize) -> (r: Vec<(u64, T)>)
    requires
        lo <= hi <= v@.len(),
    ensures
        falling(r@),
        r@.len() == hi - lo,
        items(r@) == items(v@.subrange(lo as int, hi as int)),
    decreases hi - lo,
{
    let mut r: Vec<(u64, T)> = Vec::new();
    if hi - lo == 0 {
        assert(v@.subrange(lo as int, hi as int) =~= r@);
        return r;
    }
    if hi - lo == 1 {
        r.push(v[lo]);
        assert(v@.subrange(lo as int, hi as int) =~= r@);
        return r;
    }
    let mid: usize = lo + (hi - lo) / 2;
    let a: Vec<(u64, T)> = sort_range(v, lo, mid);
    let b: Vec<(u64, T)> = sort_range(v, mid, hi);
    let whole: usize = v.len();
    assert(a@.len() + b@.len() <= whole);
    proof {
        let x = v@.subrange(lo as int, mid as int);
        let y = v@.subrange(mid as int, hi as int);
        assert(v@.subrange(lo as int, hi as int) =~= x + y);
        vstd::seq_lib::lemma_multiset_commutative(x, y);
    }
    merge(&a, &b)
}

/// Sorting loses nothing and adds nothing.
pub proof fn lemma_same_items<T>(a: Seq<(u64, T)>, b: Seq<(u64, T)>, x: (u64, T))
    requires
        items(a) == items(b),
    ensures
        a.contains(x) == b.contains(x),
{
    assert(items(a).count(x) == items(b).count(x));
    assert(a.contains(x) <==> items(a).count(x) > 0);
    assert(b.contains(x) <==> items(b).count(x) > 0);
}

/// Sorting leaves a list without repetitions without them.
pub proof fn lemma_same_once<T>(a: Seq<(u64, T)>, b: Seq<(u64, T)>)
    requires
        items(a) == items(b),
        b.no_duplicates(),
    ensures
        a.no_duplicates(),
{
    b.lemma_multiset_has_no_duplicates();
    a.lemma_multiset_has_no_duplicates_conv();
}

} // verus!
