//! The whole part and the rest of a single-precision number that is not
//! negative, from its bits.

use vstd::arithmetic::power2::{
    lemma2_to64, lemma_pow2_adds, lemma_pow2_pos, lemma_pow2_strictly_increases, lemma_pow2_unfold,
    pow2,
};
use vstd::prelude::*;

verus! {

/// The number with these bits, in steps of 2^-149, the smallest there are.
/// Infinity counts as the number that would come next.
pub open spec fn steps(bits: u32) -> int {
    let (e, m) = (bits as int / 0x80_0000, bits as int % 0x80_0000);
    if e == 0 {
        m
    } else {
        (m + 0x80_0000) * pow2((e - 1) as nat)
    }
}

/// Steps to the unit.
pub open spec fn unit_steps() -> int {
    pow2(149) as int
}

proof fn lemma_scale(a: int, b: int, e: int)
    requires
        0 <= e,
        a < b,
    ensures
        a * pow2(e as nat) < b * pow2(e as nat),
{
    lemma_pow2_pos(e as nat);
    assert(a * pow2(e as nat) < b * pow2(e as nat)) by (nonlinear_arith)
        requires
            a < b,
            pow2(e as nat) > 0,
    ;
}

/// Bits order as the numbers do.
pub proof fn lemma_steps_order(a: u32, b: u32)
    requires
        a < b,
    ensures
        steps(a) < steps(b),
{
    let (e, m) = (a as int / 0x80_0000, a as int % 0x80_0000);
    let (f, n) = (b as int / 0x80_0000, b as int % 0x80_0000);
    if e == f {
        if e > 0 {
            lemma_scale(m + 0x80_0000, n + 0x80_0000, e - 1);
        }
    } else {
        let least = 0x80_0000 * pow2((f - 1) as nat);
        lemma_pow2_pos((f - 1) as nat);
        assert(steps(b) >= least) by (nonlinear_arith)
            requires
                steps(b) == (n + 0x80_0000) * pow2((f - 1) as nat),
                least == 0x80_0000 * pow2((f - 1) as nat),
                n >= 0,
                pow2((f - 1) as nat) > 0,
        ;
        if e == 0 {
            assert(least >= 0x80_0000) by (nonlinear_arith)
                requires
                    least == 0x80_0000 * pow2((f - 1) as nat),
                    pow2((f - 1) as nat) > 0,
            ;
        } else {
            lemma_scale(m + 0x80_0000, 0x100_0000, e - 1);
            lemma_pow2_unfold(e as nat);
            if e < f - 1 {
                lemma_pow2_strictly_increases(e as nat, (f - 1) as nat);
            }
            assert(0x100_0000 * pow2((e - 1) as nat) <= least) by (nonlinear_arith)
                requires
                    pow2(e as nat) == 2 * pow2((e - 1) as nat),
                    pow2(e as nat) <= pow2((f - 1) as nat),
                    least == 0x80_0000 * pow2((f - 1) as nat),
            ;
        }
    }
}

/// `m` times a power of two, by units: the quotient is that of `m` alone.
proof fn lemma_units(m: int, shift: int)
    requires
        0 <= m,
        1 <= shift <= 149,
    ensures
        m * pow2((149 - shift) as nat) / unit_steps() == m / (pow2(shift as nat) as int),
        m * pow2((149 - shift) as nat) % unit_steps() == m % (pow2(shift as nat) as int) * pow2(
            (149 - shift) as nat,
        ),
{
    let (a, b) = (pow2((149 - shift) as nat) as int, pow2(shift as nat) as int);
    lemma_pow2_pos((149 - shift) as nat);
    lemma_pow2_pos(shift as nat);
    lemma_pow2_adds((149 - shift) as nat, shift as nat);
    let (q, r) = (m / b, m % b);
    vstd::arithmetic::div_mod::lemma_fundamental_div_mod(m, b);
    assert(0 <= r * a < a * b) by (nonlinear_arith)
        requires
            0 <= r < b,
            0 < a,
    ;
    assert(m * a == q * (a * b) + r * a) by (nonlinear_arith)
        requires
            m == b * q + r,
    ;
    vstd::arithmetic::div_mod::lemma_fundamental_div_mod_converse(m * a, a * b, q, r * a);
}

/// The bits of `r` times a power of two.
fn normal(r: u32, e: u32) -> (bits: u32)
    requires
        r < 0x80_0000,
        127 <= e <= 149,
    ensures
        steps(bits) == r * pow2((e - 1) as nat),
{
    if r == 0 {
        assert(r * pow2((e - 1) as nat) == 0) by (nonlinear_arith)
            requires
                r == 0,
        ;
        return 0;
    }
    let mut f: u32 = r;
    let mut x: u32 = e;
    proof {
        lemma2_to64();
    }
    while f < 0x80_0000
        invariant
            r < 0x80_0000,
            127 <= e <= 149,
            1 <= f < 0x100_0000,
            e - 23 <= x <= e,
            f >= pow2((e - x) as nat),
            f * pow2((x - 1) as nat) == r * pow2((e - 1) as nat),
        decreases 0x100_0000 - f,
    {
        proof {
            lemma_pow2_unfold((x - 1) as nat);
            lemma_pow2_unfold((e - x + 1) as nat);
            lemma2_to64();
            assert(2 * f * pow2((x - 2) as nat) == f * pow2((x - 1) as nat)) by (nonlinear_arith)
                requires
                    pow2((x - 1) as nat) == 2 * pow2((x - 2) as nat),
            ;
            if x == e - 23 {
                assert(f >= 0x80_0000);
            }
        }
        f = f * 2;
        x = x - 1;
    }
    let bits: u32 = x * 0x80_0000 + (f - 0x80_0000);
    assert(bits as int / 0x80_0000 == x && bits as int % 0x80_0000 == f - 0x80_0000);
    bits
}

/// 2^28 and more: numbers whose whole part is out of range.
pub const TOO_MANY: u32 = 0x4d80_0000;

/// The whole part of a number below 2^28, and the bits of the rest.
pub fn split(bits: u32) -> (r: (u32, u32))
    requires
        bits < TOO_MANY,
    ensures
        r.0 == steps(bits) / unit_steps(),
        steps(r.1) == steps(bits) % unit_steps(),
        r.0 < 0x1000_0000,
{
    let e: u32 = bits / 0x80_0000;
    let m: u32 = bits % 0x80_0000 + 0x80_0000;
    proof {
        lemma_pow2_pos(149);
        lemma2_to64();
    }
    if e < 127 {
        proof {
            // Below one: 127 stands for the unit.
            lemma_steps_order(bits, 0x3f80_0000);
            lemma_one();
            lemma_steps_positive(bits);
            vstd::arithmetic::div_mod::lemma_fundamental_div_mod_converse(
                steps(bits),
                unit_steps(),
                0,
                steps(bits),
            );
        }
        return (0, bits);
    }
    if e < 150 {
        let shift: u32 = 150 - e;
        let base: u32 = power(shift);
        proof {
            lemma_units(m as int, shift as int);
            assert(149 - shift == e - 1);
            if shift < 23 {
                lemma_pow2_strictly_increases(shift as nat, 23);
            }
        }
        return (m / base, normal(m % base, e));
    }
    let up: u32 = power(e - 150);
    proof {
        let k = (e - 150) as nat;
        lemma_pow2_adds(149, k);
        assert(m * pow2((e - 1) as nat) == (m * pow2(k)) * pow2(149)) by (nonlinear_arith)
            requires
                pow2((e - 1) as nat) == pow2(149) * pow2(k),
        ;
        assert(m * pow2(k) < 0x1000_0000) by (nonlinear_arith)
            requires
                m < 0x100_0000,
                0 < pow2(k) <= 16,
        ;
        vstd::arithmetic::div_mod::lemma_fundamental_div_mod_converse(
            steps(bits),
            unit_steps(),
            m * pow2(k),
            0,
        );
        assert(steps(0) == 0);
    }
    (m * up, 0)
}

/// A small power of two.
fn power(k: u32) -> (p: u32)
    requires
        k <= 23,
    ensures
        p == pow2(k as nat),
        k <= 4 ==> p <= 16,
        1 <= p <= 0x80_0000,
{
    let mut p: u32 = 1;
    let mut i: u32 = 0;
    proof {
        lemma2_to64();
    }
    while i < k
        invariant
            i <= k <= 23,
            p == pow2(i as nat),
            1 <= p,
        decreases k - i,
    {
        proof {
            lemma_pow2_unfold((i + 1) as nat);
            lemma2_to64();
            lemma_pow2_strictly_increases(i as nat, 23);
        }
        p = p * 2;
        i += 1;
    }
    proof {
        lemma2_to64();
        if k < 23 {
            lemma_pow2_strictly_increases(k as nat, 23);
        }
        if k < 4 {
            lemma_pow2_strictly_increases(k as nat, 4);
        }
    }
    p
}

/// One is a unit.
proof fn lemma_one()
    ensures
        steps(0x3f80_0000) == unit_steps(),
{
    lemma_pow2_adds(23, 126);
    lemma2_to64();
}

pub proof fn lemma_steps_positive(bits: u32)
    ensures
        steps(bits) >= 0,
{
    if bits > 0 {
        lemma_steps_order(0, bits);
    }
}

/// Numbers in order have their whole parts in order and, where these are the
/// same, the rests too.
pub proof fn parts_keep_the_order(a: u32, b: u32)
    requires
        a <= b,
    ensures
        steps(a) / unit_steps() <= steps(b) / unit_steps(),
        steps(a) / unit_steps() == steps(b) / unit_steps() ==> steps(a) % unit_steps() <= steps(b)
            % unit_steps(),
{
    lemma_pow2_pos(149);
    lemma_steps_positive(a);
    if a < b {
        lemma_steps_order(a, b);
    }
    vstd::arithmetic::div_mod::lemma_div_is_ordered(steps(a), steps(b), unit_steps());
    vstd::arithmetic::div_mod::lemma_fundamental_div_mod(steps(a), unit_steps());
    vstd::arithmetic::div_mod::lemma_fundamental_div_mod(steps(b), unit_steps());
}

} // verus!
