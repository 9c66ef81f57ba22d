//! Integer lattice vectors.
//!
//! Lattice units nest by powers of two, so moving between them is floor
//! division and the remainder that goes with it; both are exact on negative
//! coordinates.

use vstd::prelude::*;

verus! {

/// Floor division by a positive divisor.
pub fn floor_div(a: i32, d: i32) -> (q: i32)
    requires
        d > 0,
    ensures
        q == (a as int) / (d as int),
{
    if a >= 0 {
        a / d
    } else {
        proof {
            let n = -1 - a as int;
            let dd = d as int;
            assert(a as int == dd * (-(n / dd) - 1) + (dd - 1 - n % dd)) by (nonlinear_arith)
                requires
                    n == -1 - a as int,
                    dd > 0,
            ;
            vstd::arithmetic::div_mod::lemma_fundamental_div_mod_converse(
                a as int,
                dd,
                -(n / dd) - 1,
                dd - 1 - n % dd,
            );
            assert(0 <= n / dd <= n) by (nonlinear_arith)
                requires
                    n >= 0,
                    dd > 0,
            ;
        }
        -((-1 - a) / d) - 1
    }
}

/// Non-negative remainder by a positive divisor.
pub fn floor_mod(a: i32, d: i32) -> (r: i32)
    requires
        d > 0,
    ensures
        r == (a as int) % (d as int),
{
    let q: i32 = floor_div(a, d);
    proof {
        vstd::arithmetic::div_mod::lemma_fundamental_div_mod(a as int, d as int);
        assert(-0x8000_0000 <= (q as int) * (d as int) + 0 || (q as int) * (d as int) <= a);
    }
    (a as i64 - (q as i64) * (d as i64)) as i32
}

/// A point of the integer lattice.
#[derive(Clone, Copy, Debug, PartialEq, Eq, Hash, Structural)]
pub struct IVec3 {
    pub x: i32,
    pub y: i32,
    pub z: i32,
}

impl IVec3 {
    /// Every component in `0..n`.
    pub open spec fn within(self, n: int) -> bool {
        &&& 0 <= self.x < n
        &&& 0 <= self.y < n
        &&& 0 <= self.z < n
    }

    /// Every component in `lo..=hi`.
    pub open spec fn between(self, lo: IVec3, hi: IVec3) -> bool {
        &&& lo.x <= self.x <= hi.x
        &&& lo.y <= self.y <= hi.y
        &&& lo.z <= self.z <= hi.z
    }

    pub fn new(x: i32, y: i32, z: i32) -> (v: IVec3)
        ensures
            v == (IVec3 { x, y, z }),
    {
        IVec3 { x, y, z }
    }

    pub fn splat(n: i32) -> (v: IVec3)
        ensures
            v == (IVec3 { x: n, y: n, z: n }),
    {
        IVec3 { x: n, y: n, z: n }
    }

    /// Component-wise floor division.
    pub fn div(self, d: i32) -> (v: IVec3)
        requires
            d > 0,
        ensures
            v.x == (self.x as int) / (d as int),
            v.y == (self.y as int) / (d as int),
            v.z == (self.z as int) / (d as int),
    {
        IVec3 { x: floor_div(self.x, d), y: floor_div(self.y, d), z: floor_div(self.z, d) }
    }

    /// Component-wise remainder, never negative.
    pub fn rem(self, d: i32) -> (v: IVec3)
        requires
            d > 0,
        ensures
            v.x == (self.x as int) % (d as int),
            v.y == (self.y as int) % (d as int),
            v.z == (self.z as int) % (d as int),
            v.within(d as int),
    {
        IVec3 { x: floor_mod(self.x, d), y: floor_mod(self.y, d), z: floor_mod(self.z, d) }
    }

    /// Component-wise product with a scalar.
    pub fn scale(self, k: i32) -> (v: IVec3)
        requires
            i32::MIN <= self.x * k <= i32::MAX,
            i32::MIN <= self.y * k <= i32::MAX,
            i32::MIN <= self.z * k <= i32::MAX,
        ensures
            v.x == self.x * k,
            v.y == self.y * k,
            v.z == self.z * k,
    {
        IVec3 { x: self.x * k, y: self.y * k, z: self.z * k }
    }

    pub fn plus(self, o: IVec3) -> (v: IVec3)
        requires
            i32::MIN <= self.x + o.x <= i32::MAX,
            i32::MIN <= self.y + o.y <= i32::MAX,
            i32::MIN <= self.z + o.z <= i32::MAX,
        ensures
            v.x == self.x + o.x,
            v.y == self.y + o.y,
            v.z == self.z + o.z,
    {
        IVec3 { x: self.x + o.x, y: self.y + o.y, z: self.z + o.z }
    }

    pub fn minus(self, o: IVec3) -> (v: IVec3)
        requires
            i32::MIN <= self.x - o.x <= i32::MAX,
            i32::MIN <= self.y - o.y <= i32::MAX,
            i32::MIN <= self.z - o.z <= i32::MAX,
        ensures
            v.x == self.x - o.x,
            v.y == self.y - o.y,
            v.z == self.z - o.z,
    {
        IVec3 { x: self.x - o.x, y: self.y - o.y, z: self.z - o.z }
    }

    pub fn min(self, o: IVec3) -> (v: IVec3)
        ensures
            v.x == if self.x <= o.x { self.x } else { o.x },
            v.y == if self.y <= o.y { self.y } else { o.y },
            v.z == if self.z <= o.z { self.z } else { o.z },
    {
        IVec3 {
            x: if self.x <= o.x { self.x } else { o.x },
            y: if self.y <= o.y { self.y } else { o.y },
            z: if self.z <= o.z { self.z } else { o.z },
        }
    }

    pub fn max(self, o: IVec3) -> (v: IVec3)
        ensures
            v.x == if self.x >= o.x { self.x } else { o.x },
            v.y == if self.y >= o.y { self.y } else { o.y },
            v.z == if self.z >= o.z { self.z } else { o.z },
    {
        IVec3 {
            x: if self.x >= o.x { self.x } else { o.x },
            y: if self.y >= o.y { self.y } else { o.y },
            z: if self.z >= o.z { self.z } else { o.z },
        }
    }

    /// Every component at most `o`'s.
    pub fn all_le(self, o: IVec3) -> (b: bool)
        ensures
            b == (self.x <= o.x && self.y <= o.y && self.z <= o.z),
    {
        self.x <= o.x && self.y <= o.y && self.z <= o.z
    }
}

} // verus!
