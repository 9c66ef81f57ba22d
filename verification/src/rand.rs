//! The generator behind the choices of plants and settlements.

use crate::noise::hash_unit24;
use vstd::prelude::*;

verus! {

/// Linear congruential generator; draws come from its mixed high bits.
pub struct Rand(pub u64);

/// The state after `s`.
pub open spec fn step(s: u64) -> u64 {
    s.wrapping_mul(6364136223846793005).wrapping_add(1442695040888963407)
}

/// The draw that state `s` gives, in steps of 2^-24 of the unit interval.
pub open spec fn draw(s: u64) -> int {
    (s ^ (s >> 29)) as int / 0x100_0000_0000
}

/// Bits of `x` that a 24-bit significand has no room for.
pub open spec fn excess(x: int) -> int
    decreases x,
{
    if x < 0x100_0000 {
        0
    } else {
        1 + excess(x / 2)
    }
}

pub open spec fn power(e: int) -> int
    decreases e,
{
    if e <= 0 {
        1
    } else {
        2 * power(e - 1)
    }
}

/// `x` rounded to 24 significant bits, to the nearest, halves to even.
#[verifier::opaque]
pub open spec fn rounded(x: int) -> int {
    let u = power(excess(x));
    let q = x / u;
    let r = x % u;
    if 2 * r > u || (2 * r == u && q % 2 == 1) {
        (q + 1) * u
    } else {
        q * u
    }
}

/// What drawing a whole number in `0..k` comes to: the draw times `k`, in
/// single precision, cut to a whole number.
pub open spec fn pick(n: int, k: int) -> int {
    rounded(n * k) / 0x100_0000
}

proof fn lemma_excess(x: int)
    requires
        x >= 0,
    ensures
        excess(x) >= 0,
        power(excess(x)) >= 1,
        excess(x) > 0 ==> power(excess(x)) * 0x80_0000 <= x,
        x < power(excess(x)) * 0x100_0000,
    decreases x,
{
    if x >= 0x100_0000 {
        lemma_excess(x / 2);
        let e = excess(x / 2);
        assert(power(1 + e) == 2 * power(e));
        assert(x < 2 * (x / 2) + 2);
        if e == 0 {
            assert(power(0) == 1);
            assert(power(1) == 2);
        }
    }
}

/// The product of a draw and a whole number is rounded down to below it, so a
/// draw from `0..k` is never `k`.
pub proof fn picks_stay_below(n: int, k: int)
    requires
        0 <= n < 0x100_0000,
        0 < k,
    ensures
        0 <= pick(n, k) < k,
{
    reveal(rounded);
    let x = n * k;
    assert(0 <= x && x <= k * 0x100_0000 - k) by (nonlinear_arith)
        requires
            0 <= n <= 0x100_0000 - 1,
            0 < k,
            x == n * k,
    ;
    lemma_excess(x);
    let e = excess(x);
    let u = power(e);
    let q = x / u;
    let r = x % u;
    vstd::arithmetic::div_mod::lemma_fundamental_div_mod(x, u);
    assert(q >= 0) by (nonlinear_arith)
        requires
            x == u * q + r,
            0 <= r < u,
            x >= 0,
            u >= 1,
    ;
    assert(rounded(x) >= 0 && 2 * (rounded(x) - x) <= u) by (nonlinear_arith)
        requires
            x == u * q + r,
            0 <= r < u,
            q >= 0,
            u >= 1,
            rounded(x) == (q + 1) * u && 2 * r >= u || rounded(x) == q * u,
    ;
    if e == 0 {
        assert(u == 1);
        assert(2 * (rounded(x) - x) <= 1);
        assert(rounded(x) <= x);
    } else {
        assert(u * 0x80_0000 <= x);
        assert(u < 2 * k);
        assert(2 * rounded(x) < 2 * x + 2 * k);
    }
    assert(rounded(x) < k * 0x100_0000);
    assert(rounded(x) / 0x100_0000 < k);
}

fn excess_of(x: u64) -> (e: u32)
    ensures
        e == excess(x as int),
        e <= 41,
{
    let mut v: u64 = x;
    let mut e: u32 = 0;
    while v >= 0x100_0000
        invariant
            excess(x as int) == e + excess(v as int),
            e <= 41,
            v as int * power(e as int) <= x,
        decreases v,
    {
        proof {
            if e >= 41 {
                reveal_with_fuel(power, 42);
                assert(power(41) == 0x200_0000_0000);
                let p = power(e as int);
                assert(v as int * p >= 0x100_0000 * 0x200_0000_0000) by (nonlinear_arith)
                    requires
                        v >= 0x100_0000,
                        p >= 0x200_0000_0000,
                ;
            }
            lemma_shift(v as int, e as int, x as int);
        }
        v = v / 2;
        e += 1;
    }
    e
}

proof fn lemma_power_grows(e: int)
    requires
        e >= 0,
    ensures
        power(e) >= e + 1,
    decreases e,
{
    if e > 0 {
        lemma_power_grows(e - 1);
    }
}

proof fn lemma_shift(v: int, e: int, x: int)
    requires
        v >= 0,
        0 <= e,
        v * power(e) <= x,
    ensures
        v / 2 * power(e + 1) <= x,
{
    assert(power(e + 1) == 2 * power(e));
    lemma_power_grows(e);
    let h = v / 2;
    let p = power(e);
    assert(h * (2 * p) <= v * p) by (nonlinear_arith)
        requires
            2 * h <= v,
            p >= 1,
    ;
}

impl Rand {
    /// The next draw, in steps of 2^-24 of the unit interval.
    pub fn next(&mut self) -> (n: u32)
        ensures
            final(self).0 == step(old(self).0),
            n == draw(step(old(self).0)),
            n < 0x100_0000,
    {
        self.0 = self.0.wrapping_mul(6364136223846793005).wrapping_add(1442695040888963407);
        hash_unit24(self.0 ^ (self.0 >> 29))
    }

    /// A whole number in `a..=b`.
    pub fn whole(&mut self, a: i32, b: i32) -> (r: i32)
        requires
            a <= b,
            b - a < 0x1_0000,
        ensures
            final(self).0 == step(old(self).0),
            r == a + pick(draw(step(old(self).0)), b - a + 1),
            a <= r <= b,
    {
        let n: u32 = self.next();
        let k: u32 = (b as i64 - a as i64 + 1) as u32;
        let r: u32 = pick_of(n, k);
        (a as i64 + r as i64) as i32
    }
}

/// A draw times a whole number, cut to a whole number.
pub(crate) fn pick_of(n: u32, k: u32) -> (r: u32)
    requires
        n < 0x100_0000,
        0 < k <= 0x10_0000,
    ensures
        r == pick(n as int, k as int),
        r < k,
{
    proof {
        assert(0 <= n * k < 0x100_0000 * 0x10_0001) by (nonlinear_arith)
            requires
                0 <= n < 0x100_0000,
                0 <= k <= 0x10_0000,
        ;
        picks_stay_below(n as int, k as int);
    }
    let x: u64 = n as u64 * k as u64;
    let r: u64 = round24(x);
    (r / 0x100_0000) as u32
}

/// A draw times a number of `m` steps of 2^-22, in single precision, cut to a
/// whole number.
pub open spec fn share(n: int, m: int) -> int {
    rounded(n * m) / 0x4000_0000_0000
}

/// The state after `n` draws.
pub open spec fn after(s: u64, n: int) -> u64
    decreases n,
{
    if n <= 0 {
        s
    } else {
        step(after(s, n - 1))
    }
}

/// Draw number `n`, from 1, of the stream that starts at `s`.
pub open spec fn nth(s: u64, n: int) -> int {
    draw(after(s, n))
}

pub(crate) fn share_of(n: u32, m: u32) -> (r: u32)
    requires
        n < 0x100_0000,
        m < 0x100_0000,
    ensures
        r == share(n as int, m as int),
        r <= 8,
{
    proof {
        assert(0 <= n * m <= 0xffffff * 0xffffff) by (nonlinear_arith)
            requires
                0 <= n <= 0xffffff,
                0 <= m <= 0xffffff,
        ;
        lemma_rounded(n * m);
    }
    let x: u64 = n as u64 * m as u64;
    let r: u64 = round24(x);
    (r / 0x4000_0000_0000) as u32
}

/// Rounding moves a number by at most half of the last place kept.
pub(crate) proof fn lemma_rounded(x: int)
    requires
        x >= 0,
    ensures
        0 <= rounded(x) <= 2 * x,
        2 * rounded(x) >= x,
{
    reveal(rounded);
    lemma_excess(x);
    let u = power(excess(x));
    let q = x / u;
    let r = x % u;
    vstd::arithmetic::div_mod::lemma_fundamental_div_mod(x, u);
    assert(0 <= rounded(x) && rounded(x) <= x + u && rounded(x) >= x - r && (u == 1 ==> rounded(x)
        == x)) by (nonlinear_arith)
        requires
            x == u * q + r,
            0 <= r < u,
            u >= 1,
            q >= 0,
            rounded(x) == (q + 1) * u && 2 * r >= u || rounded(x) == q * u,
    ;
    if u > 1 {
        assert(u * 0x80_0000 <= x);
    }
}

/// The product of two draws and a whole number, rounded after each step, cut
/// to a whole number.
pub open spec fn pick_two(a: int, b: int, k: int) -> int {
    rounded(rounded(a * b) * k) / 0x1_0000_0000_0000
}

pub(crate) fn pick_two_of(a: u32, b: u32, k: u32) -> (r: u32)
    requires
        a < 0x100_0000,
        b < 0x100_0000,
        k < 16,
    ensures
        r == pick_two(a as int, b as int, k as int),
        r <= 64,
{
    proof {
        assert(0 <= a * b <= 0xffffff * 0xffffff) by (nonlinear_arith)
            requires
                0 <= a <= 0xffffff,
                0 <= b <= 0xffffff,
        ;
        lemma_rounded(a * b);
    }
    let x: u64 = a as u64 * b as u64;
    let y: u64 = round24(x);
    proof {
        assert(0 <= y * k <= 30 * 0x1_0000_0000_0000) by (nonlinear_arith)
            requires
                0 <= y <= 2 * 0x1_0000_0000_0000,
                0 <= k <= 15,
        ;
        lemma_rounded(y * k);
    }
    let z: u64 = round24(y * k as u64);
    (z / 0x1_0000_0000_0000) as u32
}

/// `x` rounded to 24 significant bits.
pub(crate) fn round24(x: u64) -> (r: u64)
    requires
        x < 0x100_0000_0000_0000,
    ensures
        r == rounded(x as int),
{
    proof {
        reveal(rounded);
    }
    let e: u32 = excess_of(x);
    let mut u: u64 = 1;
    let mut k: u32 = 0;
    proof {
        lemma_excess(x as int);
    }
    while k < e
        invariant
            k <= e,
            e == excess(x as int),
            u == power(k as int),
            power(e as int) * 0x80_0000 <= x || e == 0,
            x < 0x100_0000_0000_0000,
        decreases e - k,
    {
        proof {
            lemma_power_mono(k + 1, e as int);
        }
        u = u * 2;
        k += 1;
    }
    let q: u64 = x / u;
    let r: u64 = x % u;
    proof {
        let (gq, gu) = (q as int, u as int);
        vstd::arithmetic::div_mod::lemma_fundamental_div_mod(x as int, gu);
        assert(0 <= gq * gu <= x) by (nonlinear_arith)
            requires
                x == gu * gq + r,
                0 <= r,
                0 <= gq,
                1 <= gu,
        ;
        assert((gq + 1) * gu == gq * gu + gu) by (nonlinear_arith);
    }
    if 2 * r > u || (2 * r == u && q % 2 == 1) {
        (q + 1) * u
    } else {
        q * u
    }
}

proof fn lemma_power_mono(a: int, b: int)
    requires
        0 <= a <= b,
    ensures
        power(a) <= power(b),
    decreases b - a,
{
    if a < b {
        lemma_power_mono(a, b - 1);
        lemma_power_grows(b - 1);
    }
}

/// Rounding is to the nearest number of 24 significant bits: it moves a number
/// by at most one part in 2^24, small numbers not at all, and ties go to the
/// even one.
pub proof fn rounding_is_to_nearest(x: int)
    requires
        x >= 0,
    ensures
        0x100_0000 * (rounded(x) - x) <= x,
        0x100_0000 * (x - rounded(x)) <= x,
        x < 0x100_0000 ==> rounded(x) == x,
        2 * (rounded(x) - x) == power(excess(x)) || 2 * (x - rounded(x)) == power(excess(x))
            ==> rounded(x) / power(excess(x)) % 2 == 0,
        rounded(x) % power(excess(x)) == 0,
{
    reveal(rounded);
    lemma_excess(x);
    let u = power(excess(x));
    let q = x / u;
    let r = x % u;
    vstd::arithmetic::div_mod::lemma_fundamental_div_mod(x, u);
    assert((q + 1) * u == q * u + u) by (nonlinear_arith);
    assert(q * u == u * q) by (nonlinear_arith);
    vstd::arithmetic::div_mod::lemma_fundamental_div_mod_converse(q * u, u, q, 0);
    vstd::arithmetic::div_mod::lemma_fundamental_div_mod_converse((q + 1) * u, u, q + 1, 0);
}

/// A draw picks in proportion: of `k` numbers, the one that many `k`th parts
/// up the unit interval, but for the rounding of the product.
pub proof fn picks_are_in_proportion(n: int, k: int)
    requires
        0 <= n < 0x100_0000,
        0 < k,
    ensures
        0x1_0000_0000_0000 * pick(n, k) <= (n * k) * 0x100_0001,
        (n * k) * 0xff_ffff < 0x1_0000_0000_0000 * (pick(n, k) + 1),
{
    let x = n * k;
    assert(x >= 0) by (nonlinear_arith)
        requires
            x == n * k,
            0 <= n,
            0 < k,
    ;
    rounding_is_to_nearest(x);
    let r = rounded(x);
    assert(0x100_0000 * (r / 0x100_0000) <= r < 0x100_0000 * (r / 0x100_0000) + 0x100_0000);
}

/// The generator is congruential: each state is a fixed multiple of the last
/// and a fixed step, modulo 2^64.
pub proof fn states_are_congruent(s: u64)
    ensures
        step(s) == (s * 6364136223846793005 + 1442695040888963407) % 0x1_0000_0000_0000_0000,
{
    let m = s * 6364136223846793005;
    let w = 0x1_0000_0000_0000_0000int;
    assert(s.wrapping_mul(6364136223846793005) == m % w);
    vstd::arithmetic::div_mod::lemma_add_mod_noop(m, 1442695040888963407, w);
    assert(1442695040888963407int % w == 1442695040888963407);
}

/// Two draws and a number below ten pick below the number.
pub proof fn lemma_pick_two(a: int, b: int, k: int)
    requires
        0 <= a < 0x100_0000,
        0 <= b < 0x100_0000,
        1 <= k <= 9,
    ensures
        0 <= pick_two(a, b, k) < k,
{
    let x = a * b;
    assert(0 <= x <= 0xff_ffff * 0xff_ffff) by (nonlinear_arith)
        requires
            x == a * b,
            0 <= a <= 0xff_ffff,
            0 <= b <= 0xff_ffff,
    ;
    rounding_is_to_nearest(x);
    lemma_rounded(x);
    let y = rounded(x);
    assert(0 <= y <= 0xffff_feff_ffff);
    let z = y * k;
    assert(0 <= z <= 0xffff_feff_ffff * k) by (nonlinear_arith)
        requires
            z == y * k,
            0 <= y <= 0xffff_feff_ffff,
            1 <= k,
    ;
    rounding_is_to_nearest(z);
    lemma_rounded(z);
}

/// A share of a draw is in proportion, but for the rounding of the product.
pub proof fn shares_are_in_proportion(n: int, m: int)
    requires
        0 <= n,
        0 <= m,
    ensures
        0x40_0000_0000_0000_0000 * share(n, m) <= (n * m) * 0x100_0001,
        (n * m) * 0xff_ffff < 0x40_0000_0000_0000_0000 * (share(n, m) + 1),
{
    let x = n * m;
    assert(x >= 0) by (nonlinear_arith)
        requires
            x == n * m,
            0 <= n,
            0 <= m,
    ;
    rounding_is_to_nearest(x);
    let r = rounded(x);
    let w = 0x4000_0000_0000int;
    assert(w * (r / w) <= r < w * (r / w) + w);
}

} // verus!
