//! Adding up what is allocated, without ever wrapping round.

use vstd::prelude::*;

verus! {

/// `n`, or the largest number that fits.
pub open spec fn capped(n: int) -> int {
    if n > usize::MAX {
        usize::MAX as int
    } else {
        n
    }
}

/// How many items a vector has room for. Calls `Vec::capacity`, of which no
/// more is stated than its documentation promises of every allocator: it is
/// never less than the length.
#[verifier::external_body]
pub(crate) fn capacity<T>(v: &Vec<T>) -> (c: usize)
    ensures
        c >= v@.len(),
{
    v.capacity()
}

/// `n` bytes and `count` times `each` more.
pub(crate) fn grown(n: usize, count: usize, each: usize) -> (r: usize)
    ensures
        r == capped(n + count * each),
{
    proof {
        assert(0 <= count * each <= usize::MAX * usize::MAX) by (nonlinear_arith)
            requires
                0 <= count <= usize::MAX,
                0 <= each <= usize::MAX,
        ;
        assert(usize::MAX * usize::MAX <= 0xffff_ffff_ffff_fffe_0000_0000_0000_0001)
            by (nonlinear_arith)
            requires
                0 <= usize::MAX <= 0xffff_ffff_ffff_ffff,
        ;
    }
    let more: u128 = count as u128 * each as u128;
    let all: u128 = n as u128 + more;
    if all > usize::MAX as u128 {
        usize::MAX
    } else {
        all as usize
    }
}

/// The first `n` numbers together.
pub open spec fn total(s: Seq<usize>, n: int) -> int
    decreases n,
{
    if n <= 0 {
        0
    } else {
        total(s, n - 1) + s[n - 1]
    }
}

/// The first `n` lengths together.
pub open spec fn total_len(s: Seq<nat>, n: int) -> int
    decreases n,
{
    if n <= 0 {
        0
    } else {
        total_len(s, n - 1) + s[n - 1]
    }
}

/// Room for at least so many items, array by array.
pub open spec fn roomy(caps: Seq<usize>, lens: Seq<nat>) -> bool {
    &&& caps.len() == lens.len()
    &&& forall|i: int| 0 <= i < caps.len() ==> #[trigger] caps[i] >= lens[i]
}

pub proof fn lemma_total_bounds(s: Seq<usize>, n: int)
    requires
        0 <= n <= s.len(),
    ensures
        0 <= total(s, n),
    decreases n,
{
    if n > 0 {
        lemma_total_bounds(s, n - 1);
    }
}

pub proof fn lemma_total_len_bounds(s: Seq<nat>, n: int)
    requires
        0 <= n <= s.len(),
    ensures
        0 <= total_len(s, n),
    decreases n,
{
    if n > 0 {
        lemma_total_len_bounds(s, n - 1);
    }
}

/// Only the numbers counted matter.
pub proof fn lemma_total_same(s: Seq<usize>, t: Seq<usize>, n: int)
    requires
        0 <= n <= s.len(),
        n <= t.len(),
        forall|i: int| 0 <= i < n ==> #[trigger] s[i] == t[i],
    ensures
        total(s, n) == total(t, n),
    decreases n,
{
    if n > 0 {
        lemma_total_same(s, t, n - 1);
        assert(s[n - 1] == t[n - 1]);
    }
}

pub proof fn lemma_roomy(caps: Seq<usize>, lens: Seq<nat>, n: int)
    requires
        roomy(caps, lens),
        0 <= n <= caps.len(),
    ensures
        0 <= total_len(lens, n) <= total(caps, n),
    decreases n,
{
    if n > 0 {
        lemma_roomy(caps, lens, n - 1);
        assert(caps[n - 1] >= lens[n - 1]);
    }
}

pub proof fn lemma_roomy_push(caps: Seq<usize>, lens: Seq<nat>, cap: usize, len: nat)
    requires
        roomy(caps, lens),
        cap >= len,
    ensures
        roomy(caps.push(cap), lens.push(len)),
{
}

/// `n` bytes and `each` more for every one of `counts`.
pub(crate) fn grown_all(n: usize, counts: &Vec<usize>, each: usize) -> (r: usize)
    ensures
        r == capped(n + total(counts@, counts@.len() as int) * each),
{
    let mut r: usize = n;
    let mut i: usize = 0;
    assert(total(counts@, 0) * each == 0) by (nonlinear_arith)
        requires
            total(counts@, 0) == 0,
    ;
    while i < counts.len()
        invariant
            i <= counts@.len(),
            r == capped(n + total(counts@, i as int) * each),
        decreases counts@.len() - i,
    {
        let c: usize = counts[i];
        proof {
            let t = total(counts@, i as int);
            lemma_total_bounds(counts@, i as int);
            assert((t + c) * each == t * each + c * each) by (nonlinear_arith);
            assert(0 <= t * each && 0 <= c * each) by (nonlinear_arith)
                requires
                    0 <= t,
                    0 <= c,
                    0 <= each,
            ;
        }
        r = grown(r, c, each);
        i += 1;
    }
    r
}

/// All of `counts` together.
pub fn sum(counts: &Vec<usize>) -> (r: usize)
    ensures
        r == capped(total(counts@, counts@.len() as int)),
{
    grown_all(0, counts, 1)
}

} // verus!
