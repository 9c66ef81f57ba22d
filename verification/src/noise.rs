//! Seeded lattice hashing behind gradient and cellular noise.
//!
//! Perlin's improved noise (2002) takes its gradients from a seeded
//! permutation; Worley noise takes one feature point per unit cell from a
//! hash. Everything here is deterministic per seed and identical on every
//! platform: which gradient belongs to which lattice corner, and where in
//! its cell a feature point lies.

use crate::ivec::floor_mod;
use vstd::prelude::*;

verus! {

/// Advance of the splitmix state.
pub open spec fn next_state(s: u64) -> u64 {
    s.wrapping_add(0x9e37_79b9_7f4a_7c15)
}

/// The splitmix finaliser.
pub open spec fn mix(s: u64) -> u64 {
    let a = (s ^ (s >> 30)).wrapping_mul(0xbf58_476d_1ce4_e5b9);
    let b = (a ^ (a >> 27)).wrapping_mul(0x94d0_49bb_1331_11eb);
    b ^ (b >> 31)
}

/// One splitmix step: advances the state and returns its mixed value.
pub fn splitmix(state: &mut u64) -> (r: u64)
    ensures
        *final(state) == next_state(*old(state)),
        r == mix(next_state(*old(state))),
{
    *state = state.wrapping_add(0x9e37_79b9_7f4a_7c15);
    let mut z: u64 = *state;
    z = (z ^ (z >> 30)).wrapping_mul(0xbf58_476d_1ce4_e5b9);
    z = (z ^ (z >> 27)).wrapping_mul(0x94d0_49bb_1331_11eb);
    z ^ (z >> 31)
}

/// The hash of a lattice point.
pub open spec fn point_hash(x: i32, y: i32, z: i32, seed: u64) -> u64 {
    mix(
        next_state(
            seed ^ (x as u64).wrapping_mul(0x9e37_79b9_7f4a_7c15) ^ (y as u64).wrapping_mul(
                0xc2b2_ae3d_27d4_eb4f,
            ) ^ (z as u64).wrapping_mul(0x1656_67b1_9e37_79f9),
        ),
    )
}

/// Hash of integer lattice coordinates and a seed, well mixed.
#[inline]
pub fn hash3(x: i32, y: i32, z: i32, seed: u64) -> (h: u64)
    ensures
        h == point_hash(x, y, z, seed),
{
    let mut s: u64 = seed ^ (x as u64).wrapping_mul(0x9e37_79b9_7f4a_7c15) ^ (
    y as u64).wrapping_mul(0xc2b2_ae3d_27d4_eb4f) ^ (z as u64).wrapping_mul(0x1656_67b1_9e37_79f9);
    splitmix(&mut s)
}

/// The top 24 bits of a hash: its place in the unit interval, in steps of
/// 2^-24.
#[inline]
pub fn hash_unit24(h: u64) -> (n: u32)
    ensures
        n == h as int / 0x100_0000_0000,
        n < 0x100_0000,
{
    (h / 0x100_0000_0000) as u32
}

/// `h` turned left by `n` bits.
pub open spec fn turned(h: u64, n: u64) -> u64 {
    (h << n) | (h >> ((64 - n) as u64))
}

pub(crate) fn rotate(h: u64, n: u64) -> (r: u64)
    requires
        0 < n < 64,
    ensures
        r == turned(h, n),
{
    (h << n) | (h >> (64 - n))
}

/// A lattice of gradients: a permutation of the bytes, twice over.
#[derive(Clone)]
pub struct Perlin {
    perm: [u8; 512],
}

/// The bytes in order.
pub open spec fn in_order() -> Seq<u8> {
    Seq::new(256, |i: int| i as u8)
}

/// `p` with items `i` and `j` exchanged.
pub open spec fn swapped(p: Seq<u8>, i: int, j: int) -> Seq<u8> {
    p.update(i, p[j]).update(j, p[i])
}

/// Splitmix state after `n` steps from `s`.
pub open spec fn state_after(s: u64, n: int) -> u64
    decreases n,
{
    if n <= 0 {
        s
    } else {
        next_state(state_after(s, n - 1))
    }
}

/// The shuffle of the bytes after `n` exchanges: item `255 - k` with the one
/// that the `k`-th draw picks among those not yet placed.
pub open spec fn shuffled(seed: u64, n: int) -> Seq<u8>
    decreases n,
{
    if n <= 0 {
        in_order()
    } else {
        let i = 256 - n;
        swapped(shuffled(seed, n - 1), i, mix(state_after(seed, n)) as int % (i + 1))
    }
}

/// Gradient `byte` of permutation `p`, which repeats every 256.
#[verifier::opaque]
pub open spec fn entry(p: Seq<u8>, i: int) -> int {
    p[i % 256] as int
}

/// Hash of the corner at `(x, y)`.
pub open spec fn corner2(p: Seq<u8>, x: int, y: int) -> int {
    entry(p, entry(p, x) + y)
}

/// Hash of the corner at `(x, y, z)`.
pub open spec fn corner3(p: Seq<u8>, x: int, y: int, z: int) -> int {
    entry(p, entry(p, entry(p, x) + y) + z)
}

impl Perlin {
    /// The permutation.
    pub closed spec fn table(&self) -> Seq<u8> {
        self.perm@.take(256)
    }

    pub closed spec fn wf(&self) -> bool {
        forall|i: int| 0 <= i < 512 ==> #[trigger] self.perm@[i] == self.perm@[i % 256]
    }

    pub fn new(seed: u64) -> (n: Perlin)
        ensures
            n.wf(),
            n.table() == shuffled(seed, 255),
            n.table().len() == 256,
            n.table().no_duplicates(),
    {
        let mut p: [u8; 256] = [0;256];
        let mut k: usize = 0;
        while k < 256
            invariant
                k <= 256,
                forall|j: int| 0 <= j < k ==> #[trigger] p@[j] == j,
            decreases 256 - k,
        {
            p[k] = k as u8;
            k += 1;
        }
        assert(p@ =~= in_order());
        let mut s: u64 = seed;
        let mut i: usize = 255;
        while i >= 1
            invariant
                0 <= i <= 255,
                p@.len() == 256,
                p@ == shuffled(seed, 255 - i),
                p@.no_duplicates(),
                s == state_after(seed, 255 - i),
            decreases i,
        {
            let ghost n = 256 - i;
            let j: usize = (splitmix(&mut s) % (i as u64 + 1)) as usize;
            let (a, b): (u8, u8) = (p[i], p[j]);
            p[i] = b;
            p[j] = a;
            proof {
                assert(state_after(seed, n) == next_state(state_after(seed, n - 1)));
                assert(p@ == swapped(shuffled(seed, n - 1), i as int, j as int));
            }
            i -= 1;
        }
        let mut perm: [u8; 512] = [0;512];
        let mut k: usize = 0;
        while k < 512
            invariant
                k <= 512,
                p@.len() == 256,
                forall|j: int| 0 <= j < k ==> #[trigger] perm@[j] == p@[j % 256],
            decreases 512 - k,
        {
            perm[k] = p[k % 256];
            k += 1;
        }
        assert(perm@.take(256) =~= p@);
        Perlin { perm }
    }

    #[inline]
    fn p(&self, i: i32) -> (r: i32)
        requires
            self.wf(),
        ensures
            r == entry(self.table(), i as int),
            0 <= r < 256,
    {
        let k: i32 = floor_mod(i, 512);
        proof {
            reveal(entry);
            assert((i as int % 512) % 256 == i as int % 256);
        }
        self.perm[k as usize] as i32
    }

    /// Gradient hashes of the corners of the square at `(xi, yi)`: at
    /// `(0, 0)`, `(1, 0)`, `(0, 1)` and `(1, 1)`.
    pub fn corners2(&self, xi: i32, yi: i32) -> (h: [u8; 4])
        requires
            self.wf(),
        ensures
            h@.len() == 4,
            h@[0] == corner2(self.table(), xi as int % 256, yi as int % 256),
            h@[1] == corner2(self.table(), xi as int % 256 + 1, yi as int % 256),
            h@[2] == corner2(self.table(), xi as int % 256, yi as int % 256 + 1),
            h@[3] == corner2(self.table(), xi as int % 256 + 1, yi as int % 256 + 1),
    {
        let x: i32 = floor_mod(xi, 256);
        let y: i32 = floor_mod(yi, 256);
        let a: i32 = self.p(x) + y;
        let b: i32 = self.p(x + 1) + y;
        [self.p(a) as u8, self.p(b) as u8, self.p(a + 1) as u8, self.p(b + 1) as u8]
    }

    /// Gradient hashes of the corners of the cube at `(xi, yi, zi)`, x
    /// fastest, then y, then z.
    pub fn corners3(&self, xi: i32, yi: i32, zi: i32) -> (h: [u8; 8])
        requires
            self.wf(),
        ensures
            h@.len() == 8,
            forall|k: int|
                0 <= k < 8 ==> #[trigger] h@[k] == corner3(
                    self.table(),
                    xi as int % 256 + k % 2,
                    yi as int % 256 + k / 2 % 2,
                    zi as int % 256 + k / 4,
                ),
    {
        let x: i32 = floor_mod(xi, 256);
        let y: i32 = floor_mod(yi, 256);
        let z: i32 = floor_mod(zi, 256);
        let a: i32 = self.p(x) + y;
        let aa: i32 = self.p(a) + z;
        let ab: i32 = self.p(a + 1) + z;
        let b: i32 = self.p(x + 1) + y;
        let ba: i32 = self.p(b) + z;
        let bb: i32 = self.p(b + 1) + z;
        let h: [u8; 8] = [
            self.p(aa) as u8,
            self.p(ba) as u8,
            self.p(ab) as u8,
            self.p(bb) as u8,
            self.p(aa + 1) as u8,
            self.p(ba + 1) as u8,
            self.p(ab + 1) as u8,
            self.p(bb + 1) as u8,
        ];
        proof {
            let t = self.table();
            let (gx, gy, gz) = (xi as int % 256, yi as int % 256, zi as int % 256);
            assert forall|k: int| 0 <= k < 8 implies #[trigger] h@[k] == corner3(
                t,
                gx + k % 2,
                gy + k / 2 % 2,
                gz + k / 4,
            ) by {
                if k == 0 {
                } else if k == 1 {
                } else if k == 2 {
                } else if k == 3 {
                } else if k == 4 {
                } else if k == 5 {
                } else if k == 6 {
                } else {
                    assert(k == 7);
                }
            }
        }
        h
    }
}

/// The table is a permutation: every byte is some corner's gradient.
pub proof fn every_byte_occurs(p: Seq<u8>, b: u8)
    requires
        p.len() == 256,
        p.no_duplicates(),
    ensures
        p.contains(b),
{
    let ints = p.map_values(|x: u8| x as int);
    assert(ints.no_duplicates()) by {
        assert forall|i: int, j: int| 0 <= i < 256 && 0 <= j < 256 && i != j implies ints[i]
            != ints[j] by {
            assert(p[i] != p[j]);
        }
    }
    ints.unique_seq_to_set();
    let all = vstd::set_lib::set_int_range(0, 256);
    vstd::set_lib::lemma_int_range(0, 256);
    assert(ints.to_set().subset_of(all));
    vstd::set_lib::lemma_subset_equality(ints.to_set(), all);
    assert(all.contains(b as int));
    let i = choose|i: int| 0 <= i < 256 && ints[i] == b as int;
    assert(p[i] == b);
}

/// Direction of a 3D gradient: two of the axes, each one way or the other.
pub open spec fn dir3(h: u8) -> (int, int, int) {
    let k = h as int % 16;
    if k == 0 || k == 12 {
        (1, 1, 0)
    } else if k == 1 || k == 14 {
        (-1, 1, 0)
    } else if k == 2 {
        (1, -1, 0)
    } else if k == 3 {
        (-1, -1, 0)
    } else if k == 4 {
        (1, 0, 1)
    } else if k == 5 {
        (-1, 0, 1)
    } else if k == 6 {
        (1, 0, -1)
    } else if k == 7 {
        (-1, 0, -1)
    } else if k == 8 {
        (0, 1, 1)
    } else if k == 9 || k == 13 {
        (0, -1, 1)
    } else if k == 10 {
        (0, 1, -1)
    } else {
        (0, -1, -1)
    }
}

#[inline]
pub fn grad3(h: u8) -> (d: (i32, i32, i32))
    ensures
        d.0 == dir3(h).0,
        d.1 == dir3(h).1,
        d.2 == dir3(h).2,
{
    match h % 16 {
        0 | 12 => (1, 1, 0),
        1 | 14 => (-1, 1, 0),
        2 => (1, -1, 0),
        3 => (-1, -1, 0),
        4 => (1, 0, 1),
        5 => (-1, 0, 1),
        6 => (1, 0, -1),
        7 => (-1, 0, -1),
        8 => (0, 1, 1),
        9 | 13 => (0, -1, 1),
        10 => (0, 1, -1),
        _ => (0, -1, -1),
    }
}

/// Every 3D gradient points at the middle of a cube's edge.
pub proof fn gradients_point_at_edges(h: u8)
    ensures
        dir3(h).0 * dir3(h).0 + dir3(h).1 * dir3(h).1 + dir3(h).2 * dir3(h).2 == 2,
{
}

/// Direction of a 2D gradient: a diagonal or an axis.
pub open spec fn dir2(h: u8) -> (int, int) {
    let k = h as int % 8;
    if k == 0 {
        (1, 1)
    } else if k == 1 {
        (-1, 1)
    } else if k == 2 {
        (1, -1)
    } else if k == 3 {
        (-1, -1)
    } else if k == 4 {
        (1, 0)
    } else if k == 5 {
        (-1, 0)
    } else if k == 6 {
        (0, 1)
    } else {
        (0, -1)
    }
}

#[inline]
pub fn grad2(h: u8) -> (d: (i32, i32))
    ensures
        d.0 == dir2(h).0,
        d.1 == dir2(h).1,
{
    match h % 8 {
        0 => (1, 1),
        1 => (-1, 1),
        2 => (1, -1),
        3 => (-1, -1),
        4 => (1, 0),
        5 => (-1, 0),
        6 => (0, 1),
        _ => (0, -1),
    }
}

/// A feature point: its cell and its place in it, in steps of 2^-24.
#[derive(Clone, Copy, Debug, PartialEq, Eq, Structural)]
pub struct Feature {
    pub x: i32,
    pub y: i32,
    pub z: i32,
    pub fx: u32,
    pub fy: u32,
    pub fz: u32,
}

/// The feature point of cell `(x, y, z)`.
pub open spec fn feature(x: int, y: int, z: int, seed: u64) -> Feature {
    let h = point_hash(x as i32, y as i32, z as i32, seed);
    Feature {
        x: x as i32,
        y: y as i32,
        z: z as i32,
        fx: (h as int / 0x100_0000_0000) as u32,
        fy: (turned(h, 21) as int / 0x100_0000_0000) as u32,
        fz: (turned(h, 42) as int / 0x100_0000_0000) as u32,
    }
}

fn feature_of(x: i32, y: i32, z: i32, seed: u64) -> (f: Feature)
    ensures
        f == feature(x as int, y as int, z as int, seed),
{
    let h: u64 = hash3(x, y, z, seed);
    Feature {
        x,
        y,
        z,
        fx: hash_unit24(h),
        fy: hash_unit24(rotate(h, 21)),
        fz: hash_unit24(rotate(h, 42)),
    }
}

/// The feature points of the 27 cells around `(cx, cy, cz)`, x fastest.
pub fn worley3(cx: i32, cy: i32, cz: i32, seed: u64) -> (r: Vec<Feature>)
    requires
        i32::MIN < cx < i32::MAX,
        i32::MIN < cy < i32::MAX,
        i32::MIN < cz < i32::MAX,
    ensures
        r@.len() == 27,
        forall|k: int|
            0 <= k < 27 ==> #[trigger] r@[k] == feature(
                cx + k % 3 - 1,
                cy + k / 3 % 3 - 1,
                cz + k / 9 - 1,
                seed,
            ),
{
    let mut r: Vec<Feature> = Vec::new();
    let mut k: i32 = 0;
    while k < 27
        invariant
            0 <= k <= 27,
            i32::MIN < cx < i32::MAX,
            i32::MIN < cy < i32::MAX,
            i32::MIN < cz < i32::MAX,
            r@.len() == k,
            forall|j: int|
                0 <= j < k ==> #[trigger] r@[j] == feature(
                    cx + j % 3 - 1,
                    cy + j / 3 % 3 - 1,
                    cz + j / 9 - 1,
                    seed,
                ),
        decreases 27 - k,
    {
        r.push(feature_of(cx + (k % 3 - 1), cy + (k / 3 % 3 - 1), cz + (k / 9 - 1), seed));
        k += 1;
    }
    r
}

/// The feature points of the 9 cells around `(cx, cy)` of layer 0, x fastest.
pub fn worley2(cx: i32, cy: i32, seed: u64) -> (r: Vec<Feature>)
    requires
        i32::MIN < cx < i32::MAX,
        i32::MIN < cy < i32::MAX,
    ensures
        r@.len() == 9,
        forall|k: int|
            0 <= k < 9 ==> #[trigger] r@[k] == feature(cx + k % 3 - 1, cy + k / 3 - 1, 0, seed),
{
    let mut r: Vec<Feature> = Vec::new();
    let mut k: i32 = 0;
    while k < 9
        invariant
            0 <= k <= 9,
            i32::MIN < cx < i32::MAX,
            i32::MIN < cy < i32::MAX,
            r@.len() == k,
            forall|j: int|
                0 <= j < k ==> #[trigger] r@[j] == feature(cx + j % 3 - 1, cy + j / 3 - 1, 0, seed),
        decreases 9 - k,
    {
        r.push(feature_of(cx + (k % 3 - 1), cy + (k / 3 - 1), 0, seed));
        k += 1;
    }
    r
}

/// The least value of the first `n` of `s`, no more than `cap`.
pub open spec fn least(s: Seq<u32>, n: int, cap: u32) -> u32
    decreases n,
{
    if n <= 0 {
        cap
    } else if s[n - 1] < least(s, n - 1, cap) {
        s[n - 1]
    } else {
        least(s, n - 1, cap)
    }
}

/// The second least value of the first `n` of `s`, counting repeats, no more
/// than `cap`.
pub open spec fn second(s: Seq<u32>, n: int, cap: u32) -> u32
    decreases n,
{
    if n <= 0 {
        cap
    } else if s[n - 1] < least(s, n - 1, cap) {
        least(s, n - 1, cap)
    } else if s[n - 1] < second(s, n - 1, cap) {
        s[n - 1]
    } else {
        second(s, n - 1, cap)
    }
}

/// Least and second least of a list of distances, each no more than `cap`.
pub fn two_least(s: &Vec<u32>, cap: u32) -> (r: (u32, u32))
    ensures
        r.0 == least(s@, s@.len() as int, cap),
        r.1 == second(s@, s@.len() as int, cap),
        r.0 <= r.1 <= cap,
        forall|k: int| 0 <= k < s@.len() ==> r.0 <= #[trigger] s@[k],
        r.0 == cap || s@.contains(r.0),
{
    let mut a: u32 = cap;
    let mut b: u32 = cap;
    let mut k: usize = 0;
    while k < s.len()
        invariant
            k <= s@.len(),
            a == least(s@, k as int, cap),
            b == second(s@, k as int, cap),
            a <= b <= cap,
            forall|j: int| 0 <= j < k ==> a <= #[trigger] s@[j],
            a == cap || s@.contains(a),
        decreases s@.len() - k,
    {
        let d: u32 = s[k];
        assert(s@.contains(d));
        if d < a {
            b = a;
            a = d;
        } else if d < b {
            b = d;
        }
        k += 1;
    }
    (a, b)
}

/// Moving along an axis is changing the seed: a step of each axis has its own
/// odd constant.
pub proof fn moving_a_point_changes_the_seed(x: i32, y: i32, z: i32, seed: u64)
    ensures
        point_hash(x, y, z, seed) == point_hash(
            0,
            y,
            z,
            seed ^ (x as u64).wrapping_mul(0x9e37_79b9_7f4a_7c15),
        ),
        point_hash(0, y, z, seed) == point_hash(
            0,
            0,
            z,
            seed ^ (y as u64).wrapping_mul(0xc2b2_ae3d_27d4_eb4f),
        ),
        point_hash(0, 0, z, seed) == point_hash(
            0,
            0,
            0,
            seed ^ (z as u64).wrapping_mul(0x1656_67b1_9e37_79f9),
        ),
        point_hash(0, 0, 0, seed) == mix(next_state(seed)),
{
    assert(0u64.wrapping_mul(0x9e37_79b9_7f4a_7c15) == 0);
    assert(0u64.wrapping_mul(0xc2b2_ae3d_27d4_eb4f) == 0);
    assert(0u64.wrapping_mul(0x1656_67b1_9e37_79f9) == 0);
    assert(forall|a: u64| #[trigger] (a ^ 0) == a) by (bit_vector);
}

/// Turning loses nothing: turned on by the rest of 64 bits a number is itself
/// again, and one whose top bits are clear is turned by shifting it up.
pub proof fn turns_come_round(h: u64, n: u64)
    requires
        0 < n < 64,
    ensures
        turned(turned(h, n), (64 - n) as u64) == h,
        h >> ((64 - n) as u64) == 0 ==> turned(h, n) == h << n,
{
    let m = (64 - n) as u64;
    assert(64 - m == n);
    assert((((h << n) | (h >> m)) << m) | (((h << n) | (h >> m)) >> n) == h) by (bit_vector)
        requires
            0 < n < 64,
            m == 64 - n,
    ;
    assert((h << n) | 0 == h << n) by (bit_vector);
}

/// Eight gradients of the plane and twelve of space are used, none of them
/// zero: the same byte's low bits give the same one, and the four spare ones
/// of space repeat four that lie in two planes.
pub proof fn gradients_are_spread_evenly(a: u8, b: u8)
    ensures
        dir2(a) == dir2(b) <==> a as int % 8 == b as int % 8,
        a as int % 8 < 4 ==> dir2(a).0 * dir2(a).0 == 1 && dir2(a).1 * dir2(a).1 == 1,
        a as int % 8 >= 4 ==> dir2(a).0 * dir2(a).0 + dir2(a).1 * dir2(a).1 == 1,
        a as int % 16 < 12 && b as int % 16 < 12 ==> (dir3(a) == dir3(b) <==> a as int % 16
            == b as int % 16),
        a as int % 16 < 4 ==> dir3(a).2 == 0,
        4 <= a as int % 16 < 8 ==> dir3(a).1 == 0,
        8 <= a as int % 16 < 12 ==> dir3(a).0 == 0,
        a as int % 16 == 12 ==> dir3(a) == (1int, 1int, 0int),
        a as int % 16 == 13 ==> dir3(a) == (0int, -1int, 1int),
        a as int % 16 == 14 ==> dir3(a) == (-1int, 1int, 0int),
        a as int % 16 == 15 ==> dir3(a) == (0int, -1int, -1int),
{
}

/// Bit 0 of the byte turns the first part of a gradient round, bit 1 the
/// second, in the plane's diagonals and in space.
pub proof fn gradient_bits_are_signs(h: u8)
    ensures
        h as int % 8 < 4 ==> dir2(h).0 == 1 - 2 * (h as int % 2) && dir2(h).1 == 1 - 2 * (h as int
            / 2 % 2),
        h as int % 8 == 4 || h as int % 8 == 5 ==> dir2(h) == (1 - 2 * (h as int % 2), 0int),
        h as int % 8 >= 6 ==> dir2(h) == (0int, 1 - 2 * (h as int % 2)),
        h as int % 16 < 4 ==> dir3(h) == (1 - 2 * (h as int % 2), 1 - 2 * (h as int / 2 % 2), 0int),
        4 <= h as int % 16 < 8 ==> dir3(h) == (
            1 - 2 * (h as int % 2),
            0int,
            1 - 2 * (h as int / 2 % 2),
        ),
        8 <= h as int % 16 < 12 ==> dir3(h) == (
            0int,
            1 - 2 * (h as int % 2),
            1 - 2 * (h as int / 2 % 2),
        ),
{
}

/// A feature point lies in its own cell, and its three places are the top bits
/// of the cell's hash, turned by 21 and by 42 for the last two.
pub proof fn features_lie_in_their_cell(x: i32, y: i32, z: i32, seed: u64)
    ensures
        ({
            let f = feature(x as int, y as int, z as int, seed);
            let h = point_hash(x, y, z, seed);
            &&& f.x == x && f.y == y && f.z == z
            &&& f.fx < 0x100_0000 && f.fy < 0x100_0000 && f.fz < 0x100_0000
            &&& 0 <= h - f.fx * 0x100_0000_0000 < 0x100_0000_0000
            &&& 0 <= turned(h, 21) - f.fy * 0x100_0000_0000 < 0x100_0000_0000
            &&& 0 <= turned(h, 42) - f.fz * 0x100_0000_0000 < 0x100_0000_0000
        }),
{
}

/// The second least is that: no two of the values are both less, and it is one
/// of them or the most allowed.
pub proof fn the_second_is_next_to_least(s: Seq<u32>, n: int, cap: u32, i: int, j: int)
    requires
        0 <= i < j < n <= s.len(),
    ensures
        s[i] >= second(s, n, cap) || s[j] >= second(s, n, cap),
        least(s, n, cap) <= s[i] && least(s, n, cap) <= s[j],
        least(s, n, cap) <= second(s, n, cap) <= cap,
    decreases n,
{
    lemma_least_all(s, n, cap, i);
    lemma_least_all(s, n, cap, j);
    if j < n - 1 {
        the_second_is_next_to_least(s, n - 1, cap, i, j);
    } else {
        lemma_least_all(s, n - 1, cap, i);
    }
}

proof fn lemma_least_all(s: Seq<u32>, n: int, cap: u32, i: int)
    requires
        0 <= i,
        0 <= n <= s.len(),
    ensures
        i < n ==> least(s, n, cap) <= s[i],
        least(s, n, cap) <= second(s, n, cap) <= cap,
    decreases n,
{
    if n > 0 {
        lemma_least_all(s, n - 1, cap, i);
    }
}

/// The lattice repeats every 256 steps along each axis, and a corner's hash
/// chains its coordinates through the table: x first, then y, then z.
pub proof fn the_lattice_repeats(p: Seq<u8>, x: int, y: int, z: int)
    requires
        p.len() == 256,
    ensures
        corner2(p, x + 256, y) == corner2(p, x, y),
        corner2(p, x, y + 256) == corner2(p, x, y),
        corner3(p, x, y, z + 256) == corner3(p, x, y, z),
        corner2(p, x, y) == p[(p[x % 256] + y) % 256],
        corner3(p, x, y, z) == p[(corner2(p, x, y) + z) % 256],
{
    reveal(entry);
    assert((x + 256) % 256 == x % 256);
    assert((entry(p, x) + (y + 256)) % 256 == (entry(p, x) + y) % 256);
    assert((corner2(p, x, y) + (z + 256)) % 256 == (corner2(p, x, y) + z) % 256);
}

/// The shuffle places bytes from the top down: exchange `n` settles place
/// `256 - n` with one at or below it, and what lies above stays.
pub proof fn shuffles_settle_from_the_top(seed: u64, n: int, j: int)
    requires
        1 <= n <= 255,
        256 - n < j < 256,
    ensures
        shuffled(seed, n)[j] == shuffled(seed, n - 1)[j],
        shuffled(seed, n)[256 - n] == shuffled(seed, n - 1)[mix(state_after(seed, n)) as int % (257
            - n)],
{
    lemma_shuffled_len(seed, n - 1);
    let i = 256 - n;
    let k = mix(state_after(seed, n)) as int % (i + 1);
    assert(0 <= k <= i);
}

proof fn lemma_shuffled_len(seed: u64, n: int)
    requires
        n <= 255,
    ensures
        shuffled(seed, n).len() == 256,
    decreases n,
{
    if n > 0 {
        lemma_shuffled_len(seed, n - 1);
        let i = 256 - n;
        let k = mix(state_after(seed, n)) as int % (i + 1);
        assert(0 <= k <= i);
    }
}

} // verus!
