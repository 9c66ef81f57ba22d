//! Deterministic scenes for tests, benchmarks and golden images.

use crate::material::{ids, MaterialId};
use vstd::prelude::*;

verus! {

/// Xorshift64: reproducible across platforms, no dependency.
pub struct Rng(pub u64);

/// The state after `s`.
pub open spec fn shifted(s: u64) -> u64 {
    let a = s ^ (s << 13);
    let b = a ^ (a >> 7);
    b ^ (b << 17)
}

impl Rng {
    /// The next draw, in steps of 2^-53 of the unit interval.
    pub fn next53(&mut self) -> (n: u64)
        ensures
            final(self).0 == shifted(old(self).0),
            n == shifted(old(self).0) >> 11,
            n < 0x20_0000_0000_0000,
    {
        self.0 = self.0 ^ (self.0 << 13);
        self.0 = self.0 ^ (self.0 >> 7);
        self.0 = self.0 ^ (self.0 << 17);
        let s: u64 = self.0;
        assert(s >> 11 < 0x20_0000_0000_0000) by (bit_vector);
        s >> 11
    }
}

/// A generator that is not stuck at zero never gets there.
pub proof fn the_stream_never_dries_up(s: u64)
    requires
        s != 0,
    ensures
        shifted(s) != 0,
{
    assert(s != 0 ==> {
        let a = s ^ (s << 13);
        let b = a ^ (a >> 7);
        b ^ (b << 17) != 0
    }) by (bit_vector);
}

/// Material of a column of rolling terrain whose top voxel is `top`: grass
/// over granite and, in every fifth band, sandstone, six voxels deep but not
/// below 150.
pub open spec fn rolling(x: int, y: int, z: int, top: int) -> Option<u16> {
    if y > top || y < top - 6 || y < 150 {
        None
    } else if y > top - 2 {
        Some(ids::GRASS)
    } else if (x / 16 + z / 16) % 5 == 0 {
        Some(ids::SANDSTONE)
    } else {
        Some(ids::GRANITE)
    }
}

/// What rolling terrain puts at a voxel of a column.
pub fn rolling_voxel(x: i32, y: i32, z: i32, top: i32) -> (r: Option<MaterialId>)
    requires
        0 <= x <= 0x1000_0000,
        0 <= z <= 0x1000_0000,
        -0x1000_0000 <= top <= 0x1000_0000,
    ensures
        r == match rolling(x as int, y as int, z as int, top as int) {
            Some(m) => Some(MaterialId(m)),
            None => None,
        },
{
    if y > top || y < top - 6 || y < 150 {
        return None;
    }
    if y > top - 2 {
        return Some(MaterialId(ids::GRASS));
    }
    if (x / 16 + z / 16) % 5 == 0 {
        Some(MaterialId(ids::SANDSTONE))
    } else {
        Some(MaterialId(ids::GRANITE))
    }
}

/// Rolling terrain is at most seven voxels deep, starts no lower than 150, and
/// is grass in its top two; below that bands of 16 voxels run diagonally, one
/// in five of sandstone and the rest of granite.
pub proof fn terrain_is_grass_over_rock(x: int, y: int, z: int, top: int)
    ensures
        rolling(x, y, z, top) is Some <==> y >= 150 && top - 6 <= y <= top,
        y >= 150 && (y == top || y == top - 1) ==> rolling(x, y, z, top) == Some(9u16),
        y >= 150 && top - 6 <= y <= top - 2 ==> rolling(x, y, z, top) == Some(
            if (x / 16 + z / 16) % 5 == 0 {
                4u16
            } else {
                1u16
            },
        ),
{
}

} // verus!
