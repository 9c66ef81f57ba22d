//! Bits of 64-bit masks and how many are set.

use vstd::prelude::*;

verus! {

/// Bit `i` of `m`.
pub open spec fn bit(m: u64, i: int) -> bool {
    0 <= i < 64 && (m >> (i as u64)) & 1 == 1
}

/// How many of the low `n` bits of `m` are set.
pub open spec fn ones_below(m: u64, n: int) -> nat
    decreases n,
{
    if n <= 0 {
        0
    } else {
        ones_below(m, n - 1) + if bit(m, n - 1) {
            1nat
        } else {
            0
        }
    }
}

/// How many bits of `m` are set.
pub open spec fn ones(m: u64) -> nat {
    ones_below(m, 64)
}

/// `u64::count_ones`: the number of ones in the binary representation.
pub assume_specification[ u64::count_ones ](m: u64) -> (n: u32)
    ensures
        n == ones(m),
;

pub fn test_bit(m: u64, i: u32) -> (b: bool)
    requires
        i < 64,
    ensures
        b == bit(m, i as int),
{
    proof {
        let x: u64 = m >> i;
        assert(x & 1 == 0 || x & 1 == 1) by (bit_vector);
    }
    (m >> i) & 1 != 0
}

pub proof fn lemma_set_bit(m: u64, i: u64)
    requires
        i < 64,
    ensures
        forall|j: int|
            0 <= j < 64 ==> #[trigger] bit(m | (1u64 << i), j) == (j == i || bit(m, j)),
{
    assert forall|j: int| 0 <= j < 64 implies #[trigger] bit(m | (1u64 << i), j) == (j == i || bit(
        m,
        j,
    )) by {
        let k = j as u64;
        assert(((m | (1u64 << i)) >> k) & 1 == 1 <==> (k == i || (m >> k) & 1 == 1)) by (bit_vector)
            requires
                i < 64,
                k < 64,
        ;
    }
}

pub proof fn lemma_clear_bit(m: u64, i: u64)
    requires
        i < 64,
    ensures
        forall|j: int|
            0 <= j < 64 ==> #[trigger] bit(m & !(1u64 << i), j) == (j != i && bit(m, j)),
{
    assert forall|j: int| 0 <= j < 64 implies #[trigger] bit(m & !(1u64 << i), j) == (j != i && bit(
        m,
        j,
    )) by {
        let k = j as u64;
        assert(((m & !(1u64 << i)) >> k) & 1 == 1 <==> (k != i && (m >> k) & 1 == 1)) by (bit_vector)
            requires
                i < 64,
                k < 64,
        ;
    }
}

proof fn lemma_low_bits(m: u64, i: u64)
    requires
        i < 64,
    ensures
        (1u64 << i) >= 1,
        forall|j: int|
            0 <= j < 64 ==> #[trigger] bit(m & (((1u64 << i) - 1) as u64), j) == (j < i && bit(m, j)),
{
    assert((1u64 << i) >= 1) by (bit_vector)
        requires
            i < 64,
    ;
    let low: u64 = ((1u64 << i) - 1) as u64;
    assert forall|j: int| 0 <= j < 64 implies #[trigger] bit(m & low, j) == (j < i && bit(m, j)) by {
        let k = j as u64;
        assert(((m & low) >> k) & 1 == 1 <==> (k < i && (m >> k) & 1 == 1)) by (bit_vector)
            requires
                i < 64,
                k < 64,
                low + 1 == (1u64 << i),
        ;
    }
}

/// Masks with the same bits are the same mask.
pub proof fn lemma_same_bits(a: u64, b: u64)
    requires
        forall|j: int| 0 <= j < 64 ==> bit(a, j) == bit(b, j),
    ensures
        a == b,
{
    if a != b {
        let x = a ^ b;
        assert(x != 0) by (bit_vector)
            requires
                x == a ^ b,
                a != b,
        ;
        let t = vstd::std_specs::bits::u64_trailing_zeros(x);
        vstd::std_specs::bits::axiom_u64_trailing_zeros(x);
        let k = t as u64;
        assert((a >> k) & 1 == 1 <==> (b >> k) & 1 != 1) by (bit_vector)
            requires
                x == a ^ b,
                (x >> k) & 1 == 1,
                k < 64,
        ;
        assert(bit(a, k as int) != bit(b, k as int));
    }
}

pub proof fn lemma_no_bits(m: u64)
    ensures
        m == 0 <==> forall|j: int| 0 <= j < 64 ==> !#[trigger] bit(m, j),
        m == 0 ==> ones(m) == 0,
{
    assert forall|j: int| 0 <= j < 64 implies !#[trigger] bit(0, j) by {
        let k = j as u64;
        assert((0u64 >> k) & 1 == 0) by (bit_vector);
    }
    if forall|j: int| 0 <= j < 64 ==> !#[trigger] bit(m, j) {
        lemma_same_bits(m, 0);
    }
    if m == 0 {
        lemma_ones_agree(0, 0, 64);
        lemma_no_ones(0, 64);
    }
}

pub proof fn lemma_all_bits(m: u64)
    ensures
        m == u64::MAX <==> forall|j: int| 0 <= j < 64 ==> #[trigger] bit(m, j),
{
    assert forall|j: int| 0 <= j < 64 implies #[trigger] bit(u64::MAX, j) by {
        let k = j as u64;
        assert((0xffff_ffff_ffff_ffffu64 >> k) & 1 == 1) by (bit_vector)
            requires
                k < 64,
        ;
    }
    if forall|j: int| 0 <= j < 64 ==> #[trigger] bit(m, j) {
        lemma_same_bits(m, u64::MAX);
    }
}

proof fn lemma_no_ones(m: u64, n: int)
    requires
        0 <= n <= 64,
        forall|j: int| 0 <= j < n ==> !#[trigger] bit(m, j),
    ensures
        ones_below(m, n) == 0,
    decreases n,
{
    if n > 0 {
        lemma_no_ones(m, n - 1);
    }
}

/// The count depends on the low bits alone.
pub proof fn lemma_ones_agree(a: u64, b: u64, n: int)
    requires
        0 <= n <= 64,
        forall|j: int| 0 <= j < n ==> bit(a, j) == bit(b, j),
    ensures
        ones_below(a, n) == ones_below(b, n),
    decreases n,
{
    if n > 0 {
        lemma_ones_agree(a, b, n - 1);
    }
}

pub proof fn lemma_ones_mono(m: u64, i: int, j: int)
    requires
        0 <= i <= j <= 64,
    ensures
        ones_below(m, i) <= ones_below(m, j),
        ones_below(m, j) <= ones_below(m, i) + (j - i),
        i < j && bit(m, i) ==> ones_below(m, i) < ones_below(m, j),
    decreases j - i,
{
    if i < j {
        lemma_ones_mono(m, i, j - 1);
        if i == j - 1 {
        }
    }
}

/// Counts after one bit `i` is set that was not.
pub proof fn lemma_ones_set(a: u64, b: u64, i: int, n: int)
    requires
        0 <= i < 64,
        0 <= n <= 64,
        !bit(a, i),
        forall|j: int| 0 <= j < 64 ==> #[trigger] bit(b, j) == (j == i || bit(a, j)),
    ensures
        ones_below(b, n) == ones_below(a, n) + if i < n {
            1int
        } else {
            0
        },
    decreases n,
{
    if n > 0 {
        lemma_ones_set(a, b, i, n - 1);
        assert(bit(b, n - 1) == (n - 1 == i || bit(a, n - 1)));
    }
}

/// Set bits below `i`: where a compact array indexed by the mask keeps
/// what belongs to bit `i`.
pub fn rank(m: u64, i: u32) -> (n: usize)
    requires
        i < 64,
    ensures
        n == ones_below(m, i as int),
        n <= ones(m),
        n <= i,
        bit(m, i as int) ==> n < ones(m),
{
    let low: u64 = {
        proof {
            lemma_low_bits(m, i as u64);
        }
        (1u64 << i) - 1
    };
    let k: u64 = m & low;
    proof {
        lemma_ones_agree(m, k, i as int);
        lemma_rank_tail(k, i as int, 64);
        lemma_ones_mono(m, i as int, 64);
        lemma_ones_mono(m, 0, i as int);
    }
    k.count_ones() as usize
}

proof fn lemma_rank_tail(k: u64, i: int, n: int)
    requires
        0 <= i <= n <= 64,
        forall|j: int| i <= j < 64 ==> !#[trigger] bit(k, j),
    ensures
        ones_below(k, n) == ones_below(k, i),
    decreases n - i,
{
    if i < n {
        lemma_rank_tail(k, i, n - 1);
        assert(!bit(k, n - 1));
    }
}

/// The bit of rank `r`: the set bit with `r` set bits below it.
pub open spec fn select(m: u64, r: int) -> int {
    choose|i: int| 0 <= i < 64 && bit(m, i) && ones_below(m, i) == r
}

/// Every rank below the count belongs to one bit.
pub proof fn lemma_select(m: u64, r: int)
    requires
        0 <= r < ones(m),
    ensures
        0 <= select(m, r) < 64,
        bit(m, select(m, r)),
        ones_below(m, select(m, r)) == r,
{
    lemma_select_exists(m, r, 64);
    let i = choose|i: int| 0 <= i < 64 && bit(m, i) && ones_below(m, i) == r;
    assert(bit(m, i) && ones_below(m, i) == r);
}

proof fn lemma_select_exists(m: u64, r: int, n: int)
    requires
        0 <= n <= 64,
        0 <= r < ones_below(m, n),
    ensures
        exists|i: int| 0 <= i < n && bit(m, i) && ones_below(m, i) == r,
    decreases n,
{
    if n > 0 {
        if r < ones_below(m, n - 1) {
            lemma_select_exists(m, r, n - 1);
        } else {
            assert(bit(m, n - 1) && ones_below(m, n - 1) == r);
        }
    }
}

/// Two set bits of one rank are one bit.
pub proof fn lemma_rank_injective(m: u64, i: int, j: int)
    requires
        0 <= i < 64,
        0 <= j < 64,
        bit(m, i),
        bit(m, j),
        ones_below(m, i) == ones_below(m, j),
    ensures
        i == j,
{
    if i < j {
        lemma_ones_mono(m, i, j);
    } else if j < i {
        lemma_ones_mono(m, j, i);
    }
}

/// In a full mask every bit's rank is its own index.
pub proof fn lemma_full_rank()
    ensures
        ones(u64::MAX) == 64,
        forall|j: int| 0 <= j < 64 ==> bit(u64::MAX, j) && #[trigger] ones_below(u64::MAX, j) == j,
{
    lemma_all_bits(u64::MAX);
    lemma_full_below(64);
    assert forall|j: int| 0 <= j < 64 implies bit(u64::MAX, j) && #[trigger] ones_below(
        u64::MAX,
        j,
    ) == j by {
        lemma_full_below(j);
        assert(bit(u64::MAX, j));
    }
}

proof fn lemma_full_below(n: int)
    requires
        0 <= n <= 64,
        forall|j: int| 0 <= j < 64 ==> #[trigger] bit(u64::MAX, j),
    ensures
        ones_below(u64::MAX, n) == n,
    decreases n,
{
    if n > 0 {
        lemma_full_below(n - 1);
        assert(bit(u64::MAX, n - 1));
    }
}

} // verus!
