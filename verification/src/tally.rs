//! How often a value occurs in a sequence.

use vstd::prelude::*;

verus! {

/// Occurrences of `v` among the first `n` items of `s`.
pub open spec fn tally_upto<T>(s: Seq<T>, v: T, n: int) -> nat
    decreases n,
{
    if n <= 0 {
        0
    } else {
        tally_upto(s, v, n - 1) + if s[n - 1] == v {
            1nat
        } else {
            0
        }
    }
}

/// Occurrences of `v` in `s`.
pub open spec fn tally<T>(s: Seq<T>, v: T) -> nat {
    tally_upto(s, v, s.len() as int)
}

pub proof fn lemma_tally_bounds<T>(s: Seq<T>, v: T, n: int)
    requires
        0 <= n <= s.len(),
    ensures
        tally_upto(s, v, n) <= n,
        tally_upto(s, v, n) == 0 <==> forall|i: int| 0 <= i < n ==> s[i] != v,
        tally_upto(s, v, n) == n <==> forall|i: int| 0 <= i < n ==> s[i] == v,
    decreases n,
{
    if n > 0 {
        lemma_tally_bounds(s, v, n - 1);
        if tally_upto(s, v, n) == 0 {
            assert(forall|i: int| 0 <= i < n ==> s[i] != v);
        } else if s[n - 1] == v {
            assert(!(forall|i: int| 0 <= i < n ==> s[i] != v));
        }
        if tally_upto(s, v, n) != n && s[n - 1] != v {
            assert(!(forall|i: int| 0 <= i < n ==> s[i] == v));
        }
    }
}

pub proof fn lemma_tally_update<T>(s: Seq<T>, i: int, w: T, v: T, n: int)
    requires
        0 <= i < s.len(),
        0 <= n <= s.len(),
    ensures
        tally_upto(s.update(i, w), v, n) == tally_upto(s, v, n) + (if i < n && w == v {
            1int
        } else {
            0
        }) - (if i < n && s[i] == v {
            1int
        } else {
            0
        }),
    decreases n,
{
    if n > 0 {
        lemma_tally_update(s, i, w, v, n - 1);
    }
}

} // verus!
