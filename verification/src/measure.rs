//! Decoding what the graphics card hands back.

use vstd::prelude::*;

verus! {

/// The place of the highest bit of a number under 1024 that is set.
pub open spec fn top_bit(m: int) -> int
    decreases m,
{
    if m <= 1 {
        0
    } else {
        1 + top_bit(m / 2)
    }
}

/// Two to the power `k`.
pub open spec fn two_to(k: int) -> int
    decreases k,
{
    if k <= 0 {
        1
    } else {
        2 * two_to(k - 1)
    }
}

pub proof fn lemma_top_bit(m: int)
    requires
        1 <= m,
    ensures
        0 <= top_bit(m),
        two_to(top_bit(m)) <= m < 2 * two_to(top_bit(m)),
    decreases m,
{
    if m > 1 {
        lemma_top_bit(m / 2);
        assert(two_to(1 + top_bit(m / 2)) == 2 * two_to(top_bit(m / 2)));
    }
}

proof fn lemma_two_to(a: int, b: int)
    requires
        0 <= a,
        0 <= b,
    ensures
        two_to(a + b) == two_to(a) * two_to(b),
        two_to(a) >= 1,
    decreases a,
{
    if a > 0 {
        lemma_two_to(a - 1, b);
        assert(two_to(a + b) == 2 * two_to(a - 1 + b));
        assert(2 * (two_to(a - 1) * two_to(b)) == (2 * two_to(a - 1)) * two_to(b))
            by (nonlinear_arith);
    }
}

/// A 16-bit float's parts: sign, exponent, mantissa.
pub open spec fn parts16(h: u16) -> (int, int, int) {
    (h as int / 0x8000, h as int / 0x400 % 32, h as int % 0x400)
}

/// A 32-bit float put together from its parts.
pub open spec fn bits32(sign: int, exponent: int, mantissa: int) -> int {
    sign * 0x8000_0000 + exponent * 0x80_0000 + mantissa
}

/// The bits of the 32-bit float of the same value as 16-bit float `h`; the
/// largest exponent stands for infinity, whatever the mantissa.
pub fn half(h: u16) -> (b: u32)
    ensures
        ({
            let (s, e, m) = parts16(h);
            &&& e == 31 ==> b == bits32(s, 255, 0)
            &&& 0 < e < 31 ==> b == bits32(s, e + 112, m * 0x2000)
            &&& e == 0 && m == 0 ==> b == bits32(s, 0, 0)
            &&& e == 0 && m > 0 ==> b == bits32(
                s,
                top_bit(m) + 103,
                m * two_to(23 - top_bit(m)) - 0x80_0000,
            )
        }),
{
    let s: u32 = (h / 0x8000) as u32;
    let e: u32 = (h / 0x400 % 32) as u32;
    let m: u32 = (h % 0x400) as u32;
    if e == 31 {
        return s * 0x8000_0000 + 255 * 0x80_0000;
    }
    if e > 0 {
        return s * 0x8000_0000 + (e + 112) * 0x80_0000 + m * 0x2000;
    }
    if m == 0 {
        return s * 0x8000_0000;
    }
    // Shift the mantissa up until its highest bit is the hidden one.
    let mut f: u32 = m;
    let mut k: u32 = 23;
    proof {
        lemma_top_bit(m as int);
        reveal_with_fuel(two_to, 25);
        lemma_bound(m as int);
    }
    let ghost t = top_bit(m as int);
    while f < 0x80_0000
        invariant
            1 <= m < 0x400,
            t == top_bit(m as int),
            0 <= t <= 9,
            two_to(t) <= m < 2 * two_to(t),
            t <= k <= 23,
            f == m * two_to(23 - k),
            f < 0x100_0000,
        decreases k,
    {
        proof {
            assert(two_to(23 - k + 1) == 2 * two_to(23 - k));
            if k == t {
                lemma_two_to(t, 23 - t);
                reveal_with_fuel(two_to, 25);
                assert(two_to(23) == 0x80_0000);
                assert(m * two_to(23 - t) >= two_to(t) * two_to(23 - t)) by (nonlinear_arith)
                    requires
                        m >= two_to(t),
                        two_to(23 - t) >= 1,
                ;
            }
            let p = two_to(23 - k);
            assert(m * (2 * p) == 2 * (m * p)) by (nonlinear_arith);
        }
        f = f * 2;
        k -= 1;
    }
    proof {
        if k > t {
            lemma_two_to(k as int, 23 - k);
            lemma_two_to(t, k - t);
            reveal_with_fuel(two_to, 25);
            assert(two_to(23) == 0x80_0000);
            assert(two_to(k - t) >= 2) by {
                lemma_two_to(k - t - 1, 0);
                assert(two_to(k - t) == 2 * two_to(k - t - 1));
            }
            let p = two_to(23 - k);
            lemma_two_to(23 - k, 0);
            assert(2 * two_to(t) <= two_to(k as int)) by (nonlinear_arith)
                requires
                    two_to(t + (k - t)) == two_to(t) * two_to(k - t),
                    two_to(k - t) >= 2,
                    two_to(t) >= 1,
                    t + (k - t) == k,
            ;
            assert(m * p < two_to(k as int) * p) by (nonlinear_arith)
                requires
                    m < two_to(k as int),
                    p >= 1,
            ;
            assert(false);
        }
        assert(k == t);
    }
    s * 0x8000_0000 + (k + 103) * 0x80_0000 + (f - 0x80_0000)
}

proof fn lemma_bound(m: int)
    requires
        1 <= m < 0x400,
    ensures
        top_bit(m) <= 9,
{
    lemma_top_bit(m);
    if top_bit(m) >= 10 {
        lemma_two_to(10, top_bit(m) - 10);
        lemma_two_to(top_bit(m) - 10, 0);
        reveal_with_fuel(two_to, 12);
        assert(two_to(10) == 0x400);
        assert(two_to(top_bit(m)) >= 0x400) by (nonlinear_arith)
            requires
                two_to(top_bit(m)) == 0x400 * two_to(top_bit(m) - 10),
                two_to(top_bit(m) - 10) >= 1,
        ;
    }
}

/// Where the value that `p` percent of `n` sorted values lie below is; none of
/// an empty list.
pub fn percentile(n: usize, p: usize) -> (r: Option<usize>)
    requires
        p < 100,
        n * p <= usize::MAX,
    ensures
        r == (if n == 0 {
            None
        } else {
            Some((n * p / 100) as usize)
        }),
        r matches Some(i) ==> i < n,
{
    if n == 0 {
        return None;
    }
    proof {
        assert(n * p / 100 < n) by (nonlinear_arith)
            requires
                0 <= p <= 99,
                0 < n,
        ;
    }
    Some(n * p / 100)
}

/// Counts frames in a row with nothing left to stream or upload.
pub fn quiet_after(quiet: u32, settled: bool, uploads: u64) -> (q: u32)
    ensures
        q == (if settled && uploads == 0 {
            if quiet < u32::MAX {
                quiet + 1
            } else {
                u32::MAX as int
            }
        } else {
            0
        }),
{
    if settled && uploads == 0 {
        quiet.saturating_add(1)
    } else {
        0
    }
}

} // verus!
