//! Byte format of the coarse terrain cache, so erosion runs once per world.
//!
//! Format (little endian): 8-byte magic, u32 version, u64 seed, u32 size,
//! f32 cell size, f32 sea level, u64 parameter fingerprint, then the height,
//! flow and sediment grids as raw f32, then a u64 FNV-1a checksum of
//! everything before it. An f32 is carried as its 32 bits.

use vstd::prelude::*;

verus! {

/// 2: kinematic plate uplift replaced the noise mountain belt.
pub const VERSION: u32 = 2;

pub const HEADER: usize = 40;

/// Byte `k` of the file's magic, `MC2TERR` and a zero.
pub open spec fn magic(k: int) -> u8 {
    if k == 0 {
        0x4d
    } else if k == 1 {
        0x43
    } else if k == 2 {
        0x32
    } else if k == 3 {
        0x54
    } else if k == 4 {
        0x45
    } else if k == 5 || k == 6 {
        0x52
    } else {
        0
    }
}

/// A coarse terrain: what it was made from and its three grids, every f32 as
/// its bits.
pub struct CoarseBits {
    pub seed: u64,
    pub size: u32,
    pub cell_m: u32,
    pub sea_level: u32,
    pub fingerprint: u64,
    pub height: Vec<u32>,
    pub flow: Vec<u32>,
    pub sediment: Vec<u32>,
}

/// The grids read back.
pub struct Grids {
    pub height: Vec<u32>,
    pub flow: Vec<u32>,
    pub sediment: Vec<u32>,
}

#[derive(Clone, Copy, Debug, PartialEq, Eq, Structural)]
pub enum CacheError {
    /// The checksum is not that of the bytes before it.
    Checksum,
}

/// The u32 at `o`.
pub open spec fn u32_at(s: Seq<u8>, o: int) -> int {
    s[o] + s[o + 1] * 256 + s[o + 2] * 65536 + s[o + 3] * 16777216
}

/// The u64 at `o`.
pub open spec fn u64_at(s: Seq<u8>, o: int) -> int {
    u32_at(s, o) + u32_at(s, o + 4) * 0x1_0000_0000
}

/// FNV-1a over the first `n` bytes.
pub open spec fn fnv(s: Seq<u8>, n: int) -> u64
    decreases n,
{
    if n <= 0 {
        0xcbf2_9ce4_8422_2325
    } else {
        (fnv(s, n - 1) ^ (s[n - 1] as u64)).wrapping_mul(0x0100_0000_01b3)
    }
}

pub fn fnv1a(bytes: &[u8], n: usize) -> (h: u64)
    requires
        n <= bytes@.len(),
    ensures
        h == fnv(bytes@, n as int),
{
    let mut h: u64 = 0xcbf2_9ce4_8422_2325;
    let mut k: usize = 0;
    while k < n
        invariant
            k <= n <= bytes@.len(),
            h == fnv(bytes@, k as int),
        decreases n - k,
    {
        h = (h ^ (bytes[k] as u64)).wrapping_mul(0x0100_0000_01b3);
        k += 1;
    }
    h
}

/// Changes whenever a parameter that affects the result changes: the hash of
/// the parameters written out as text.
pub fn fingerprint(text: &[u8]) -> (h: u64)
    ensures
        h == fnv(text@, text@.len() as int),
{
    fnv1a(text, text.len())
}

/// Bytes of a file for grids of `n` cells.
pub open spec fn file_len(n: int) -> int {
    40 + 12 * n + 8
}

/// `s` is the file of `t`.
pub open spec fn is_file(s: Seq<u8>, t: CoarseBits) -> bool {
    let n = t.size * t.size;
    &&& s.len() == file_len(n)
    &&& forall|k: int| 0 <= k < 8 ==> #[trigger] s[k] == magic(k)
    &&& u32_at(s, 8) == VERSION
    &&& u64_at(s, 12) == t.seed
    &&& u32_at(s, 20) == t.size
    &&& u32_at(s, 24) == t.cell_m
    &&& u32_at(s, 28) == t.sea_level
    &&& u64_at(s, 32) == t.fingerprint
    &&& forall|i: int| 0 <= i < n ==> u32_at(s, 40 + 4 * i) == #[trigger] t.height@[i]
    &&& forall|i: int| 0 <= i < n ==> u32_at(s, 40 + 4 * n + 4 * i) == #[trigger] t.flow@[i]
    &&& forall|i: int| 0 <= i < n ==> u32_at(s, 40 + 8 * n + 4 * i) == #[trigger] t.sediment@[i]
    &&& u64_at(s, s.len() - 8) == fnv(s, s.len() - 8)
}

fn push_u32(buf: &mut Vec<u8>, x: u32)
    requires
        old(buf)@.len() + 4 <= usize::MAX,
    ensures
        final(buf)@.len() == old(buf)@.len() + 4,
        forall|k: int| 0 <= k < old(buf)@.len() ==> #[trigger] final(buf)@[k] == old(buf)@[k],
        u32_at(final(buf)@, old(buf)@.len() as int) == x,
{
    buf.push((x % 256) as u8);
    buf.push((x / 256 % 256) as u8);
    buf.push((x / 65536 % 256) as u8);
    buf.push((x / 16777216) as u8);
    proof {
        let n = x as int;
        assert(n / 65536 == n / 256 / 256);
        assert(n / 16777216 == n / 65536 / 256);
    }
}

fn push_u64(buf: &mut Vec<u8>, x: u64)
    requires
        old(buf)@.len() + 8 <= usize::MAX,
    ensures
        final(buf)@.len() == old(buf)@.len() + 8,
        forall|k: int| 0 <= k < old(buf)@.len() ==> #[trigger] final(buf)@[k] == old(buf)@[k],
        u64_at(final(buf)@, old(buf)@.len() as int) == x,
{
    let ghost o = buf@.len() as int;
    push_u32(buf, (x % 0x1_0000_0000) as u32);
    let ghost half = buf@;
    push_u32(buf, (x / 0x1_0000_0000) as u32);
    proof {
        assert(buf@[o] == half[o] && buf@[o + 1] == half[o + 1] && buf@[o + 2] == half[o + 2]
            && buf@[o + 3] == half[o + 3]);
    }
}

fn push_grid(buf: &mut Vec<u8>, g: &Vec<u32>)
    requires
        old(buf)@.len() + 4 * g@.len() <= usize::MAX,
    ensures
        final(buf)@.len() == old(buf)@.len() + 4 * g@.len(),
        forall|k: int| 0 <= k < old(buf)@.len() ==> #[trigger] final(buf)@[k] == old(buf)@[k],
        forall|i: int|
            0 <= i < g@.len() ==> u32_at(final(buf)@, old(buf)@.len() + 4 * i)
                == #[trigger] g@[i],
{
    let ghost o = buf@.len() as int;
    let mut i: usize = 0;
    while i < g.len()
        invariant
            i <= g@.len(),
            o == old(buf)@.len(),
            o + 4 * g@.len() <= usize::MAX,
            buf@.len() == o + 4 * i,
            forall|k: int| 0 <= k < o ==> #[trigger] buf@[k] == old(buf)@[k],
            forall|j: int| 0 <= j < i ==> u32_at(buf@, o + 4 * j) == #[trigger] g@[j],
        decreases g@.len() - i,
    {
        let ghost before = buf@;
        push_u32(buf, g[i]);
        proof {
            assert forall|j: int| 0 <= j < i implies u32_at(buf@, o + 4 * j)
                == #[trigger] g@[j] by {
                lemma_u32_same(before, buf@, o + 4 * j);
            }
        }
        i += 1;
    }
}

/// A u32 read at `o` depends on its four bytes.
proof fn lemma_u32_same(s: Seq<u8>, t: Seq<u8>, o: int)
    requires
        0 <= o,
        o + 4 <= s.len(),
        o + 4 <= t.len(),
        forall|k: int| o <= k < o + 4 ==> #[trigger] s[k] == t[k],
    ensures
        u32_at(s, o) == u32_at(t, o),
{
    assert(s[o] == t[o] && s[o + 1] == t[o + 1] && s[o + 2] == t[o + 2] && s[o + 3] == t[o + 3]);
}

proof fn lemma_fnv_same(s: Seq<u8>, t: Seq<u8>, n: int)
    requires
        0 <= n <= s.len(),
        n <= t.len(),
        forall|k: int| 0 <= k < n ==> #[trigger] s[k] == t[k],
    ensures
        fnv(s, n) == fnv(t, n),
    decreases n,
{
    if n > 0 {
        lemma_fnv_same(s, t, n - 1);
        assert(s[n - 1] == t[n - 1]);
    }
}

/// The file of a terrain.
pub fn save(t: &CoarseBits) -> (buf: Vec<u8>)
    requires
        t.height@.len() == t.size * t.size,
        t.flow@.len() == t.size * t.size,
        t.sediment@.len() == t.size * t.size,
        file_len(t.size * t.size) <= usize::MAX,
    ensures
        is_file(buf@, *t),
{
    let mut buf: Vec<u8> = Vec::new();
    buf.push(0x4d);
    buf.push(0x43);
    buf.push(0x32);
    buf.push(0x54);
    buf.push(0x45);
    buf.push(0x52);
    buf.push(0x52);
    buf.push(0);
    let ghost b0 = buf@;
    assert forall|k: int| 0 <= k < 8 implies #[trigger] b0[k] == magic(k) by {}
    push_u32(&mut buf, VERSION);
    let ghost b1 = buf@;
    push_u64(&mut buf, t.seed);
    let ghost b2 = buf@;
    push_u32(&mut buf, t.size);
    let ghost b3 = buf@;
    push_u32(&mut buf, t.cell_m);
    let ghost b4 = buf@;
    push_u32(&mut buf, t.sea_level);
    let ghost b5 = buf@;
    push_u64(&mut buf, t.fingerprint);
    let ghost b6 = buf@;
    push_grid(&mut buf, &t.height);
    let ghost b7 = buf@;
    push_grid(&mut buf, &t.flow);
    let ghost b8 = buf@;
    push_grid(&mut buf, &t.sediment);
    let ghost b9 = buf@;
    let n: usize = buf.len();
    let sum: u64 = fnv1a(buf.as_slice(), n);
    push_u64(&mut buf, sum);
    proof {
        let s = buf@;
        let c = t.size * t.size;
        assert forall|k: int| 0 <= k < 8 implies #[trigger] s[k] == magic(k) by {
            assert(b0[k] == b1[k] && b1[k] == b2[k] && b2[k] == b3[k] && b3[k] == b4[k] && b4[k]
                == b5[k] && b5[k] == b6[k] && b6[k] == b7[k] && b7[k] == b8[k] && b8[k] == b9[k]
                && b9[k] == s[k]);
        }
        assert forall|k: int| 0 <= k < 40 implies #[trigger] b6[k] == s[k] by {
            assert(b6[k] == b7[k] && b7[k] == b8[k] && b8[k] == b9[k] && b9[k] == s[k]);
        }
        assert forall|k: int| 8 <= k < 12 implies #[trigger] b1[k] == s[k] by {
            assert(b1[k] == b2[k] && b2[k] == b3[k] && b3[k] == b4[k] && b4[k] == b5[k] && b5[k]
                == b6[k] && b6[k] == s[k]);
        }
        lemma_u32_same(b1, s, 8);
        assert forall|k: int| 12 <= k < 20 implies #[trigger] b2[k] == s[k] by {
            assert(b2[k] == b3[k] && b3[k] == b4[k] && b4[k] == b5[k] && b5[k] == b6[k] && b6[k]
                == s[k]);
        }
        lemma_u32_same(b2, s, 12);
        lemma_u32_same(b2, s, 16);
        assert forall|k: int| 20 <= k < 24 implies #[trigger] b3[k] == s[k] by {
            assert(b3[k] == b4[k] && b4[k] == b5[k] && b5[k] == b6[k] && b6[k] == s[k]);
        }
        lemma_u32_same(b3, s, 20);
        assert forall|k: int| 24 <= k < 28 implies #[trigger] b4[k] == s[k] by {
            assert(b4[k] == b5[k] && b5[k] == b6[k] && b6[k] == s[k]);
        }
        lemma_u32_same(b4, s, 24);
        assert forall|k: int| 28 <= k < 32 implies #[trigger] b5[k] == s[k] by {
            assert(b5[k] == b6[k] && b6[k] == s[k]);
        }
        lemma_u32_same(b5, s, 28);
        lemma_u32_same(b6, s, 32);
        lemma_u32_same(b6, s, 36);
        assert forall|i: int| 0 <= i < c implies u32_at(s, 40 + 4 * i) == #[trigger] t.height@[i] by {
            assert forall|k: int| 40 + 4 * i <= k < 44 + 4 * i implies #[trigger] b7[k] == s[k] by {
                assert(b7[k] == b8[k] && b8[k] == b9[k] && b9[k] == s[k]);
            }
            lemma_u32_same(b7, s, 40 + 4 * i);
        }
        assert forall|i: int| 0 <= i < c implies u32_at(s, 40 + 4 * c + 4 * i)
            == #[trigger] t.flow@[i] by {
            let o = 40 + 4 * c + 4 * i;
            assert forall|k: int| o <= k < o + 4 implies #[trigger] b8[k] == s[k] by {
                assert(b8[k] == b9[k] && b9[k] == s[k]);
            }
            lemma_u32_same(b8, s, o);
        }
        assert forall|i: int| 0 <= i < c implies u32_at(s, 40 + 8 * c + 4 * i)
            == #[trigger] t.sediment@[i] by {
            let o = 40 + 8 * c + 4 * i;
            assert forall|k: int| o <= k < o + 4 implies #[trigger] b9[k] == s[k] by {}
            lemma_u32_same(b9, s, o);
        }
        lemma_fnv_same(b9, s, n as int);
    }
    buf
}

/// The header fields that decide whether a file is for this world.
pub open spec fn matches_world(s: Seq<u8>, seed: u64, fingerprint: u64) -> bool {
    u32_at(s, 8) == VERSION && u64_at(s, 12) == seed && u64_at(s, 32) == fingerprint
}

/// The right length, with the magic in front.
pub open spec fn has_shape(s: Seq<u8>, n: int) -> bool {
    s.len() == file_len(n) && forall|k: int| 0 <= k < 8 ==> #[trigger] s[k] == magic(k)
}

/// The last eight bytes are the checksum of those before.
pub open spec fn sum_ok(s: Seq<u8>) -> bool {
    u64_at(s, s.len() - 8) == fnv(s, s.len() - 8)
}

/// What loading a file gives: nothing where the shape, the seed or the
/// parameters are others, an error where the checksum is wrong, else the
/// grids.
pub open spec fn loads(
    s: Seq<u8>,
    seed: u64,
    n: int,
    fingerprint: u64,
    r: Result<Option<Grids>, CacheError>,
) -> bool {
    if !has_shape(s, n) {
        r matches Ok(None)
    } else if !sum_ok(s) {
        r == Err::<Option<Grids>, CacheError>(CacheError::Checksum)
    } else if !matches_world(s, seed, fingerprint) {
        r matches Ok(None)
    } else {
        r matches Ok(Some(g)) && {
            &&& g.height@.len() == n && g.flow@.len() == n && g.sediment@.len() == n
            &&& forall|i: int| 0 <= i < n ==> u32_at(s, 40 + 4 * i) == #[trigger] g.height@[i]
            &&& forall|i: int| 0 <= i < n ==> u32_at(s, 40 + 4 * n + 4 * i) == #[trigger] g.flow@[i]
            &&& forall|i: int|
                0 <= i < n ==> u32_at(s, 40 + 8 * n + 4 * i) == #[trigger] g.sediment@[i]
        }
    }
}

fn read_u32(buf: &[u8], o: usize) -> (x: u32)
    requires
        o + 4 <= buf@.len(),
    ensures
        x == u32_at(buf@, o as int),
{
    buf[o] as u32 + buf[o + 1] as u32 * 256 + buf[o + 2] as u32 * 65536 + buf[o + 3] as u32
        * 16777216
}

fn read_u64(buf: &[u8], o: usize) -> (x: u64)
    requires
        o + 8 <= buf@.len(),
    ensures
        x == u64_at(buf@, o as int),
{
    let len: usize = buf.len();
    assert(o + 8 <= len);
    read_u32(buf, o) as u64 + read_u32(buf, o + 4) as u64 * 0x1_0000_0000
}

fn read_grid(buf: &[u8], o: usize, n: usize) -> (g: Vec<u32>)
    requires
        o + 4 * n <= buf@.len(),
    ensures
        g@.len() == n,
        forall|i: int| 0 <= i < n ==> u32_at(buf@, o + 4 * i) == #[trigger] g@[i],
{
    let mut g: Vec<u32> = Vec::new();
    let len: usize = buf.len();
    let mut i: usize = 0;
    while i < n
        invariant
            i <= n,
            len == buf@.len(),
            o + 4 * n <= len,
            g@.len() == i,
            forall|j: int| 0 <= j < i ==> u32_at(buf@, o + 4 * j) == #[trigger] g@[j],
        decreases n - i,
    {
        g.push(read_u32(buf, o + 4 * i));
        i += 1;
    }
    g
}

fn magic_ok(buf: &[u8]) -> (b: bool)
    requires
        buf@.len() >= 8,
    ensures
        b == forall|k: int| 0 <= k < 8 ==> #[trigger] buf@[k] == magic(k),
{
    let b: bool = buf[0] == 0x4d && buf[1] == 0x43 && buf[2] == 0x32 && buf[3] == 0x54 && buf[4]
        == 0x45 && buf[5] == 0x52 && buf[6] == 0x52 && buf[7] == 0;
    proof {
        if !b {
            if forall|k: int| 0 <= k < 8 ==> #[trigger] buf@[k] == magic(k) {
                assert(buf@[0] == magic(0) && buf@[1] == magic(1) && buf@[2] == magic(2) && buf@[3]
                    == magic(3) && buf@[4] == magic(4) && buf@[5] == magic(5) && buf@[6] == magic(6)
                    && buf@[7] == magic(7));
            }
        }
    }
    b
}

/// Reads a file for grids of `size` by `size`, `seed` and parameters;
/// `Ok(None)` when it is stale.
pub fn load(buf: &[u8], seed: u64, size: u32, fingerprint: u64) -> (r: Result<
    Option<Grids>,
    CacheError,
>)
    requires
        file_len(size * size) <= usize::MAX,
    ensures
        loads(buf@, seed, size * size, fingerprint, r),
{
    proof {
        let z = size as int;
        assert(0 <= z * z) by (nonlinear_arith);
    }
    let n: usize = size as usize * size as usize;
    let expected: usize = HEADER + n * 12 + 8;
    if buf.len() != expected {
        return Ok(None);
    }
    if !magic_ok(buf) {
        return Ok(None);
    }
    let body: usize = buf.len() - 8;
    if fnv1a(buf, body) != read_u64(buf, body) {
        return Err(CacheError::Checksum);
    }
    if read_u32(buf, 8) != VERSION || read_u64(buf, 12) != seed || read_u64(buf, 32)
        != fingerprint {
        return Ok(None);
    }
    let height: Vec<u32> = read_grid(buf, HEADER, n);
    let flow: Vec<u32> = read_grid(buf, HEADER + 4 * n, n);
    let sediment: Vec<u32> = read_grid(buf, HEADER + 8 * n, n);
    Ok(Some(Grids { height, flow, sediment }))
}

/// A saved terrain loads as itself: every value of the three grids.
pub proof fn saved_terrain_loads(s: Seq<u8>, t: CoarseBits, r: Result<Option<Grids>, CacheError>)
    requires
        is_file(s, t),
        loads(s, t.seed, t.size * t.size, t.fingerprint, r),
    ensures
        r matches Ok(Some(g)) && {
            let n = t.size * t.size;
            &&& g.height@.len() == n && g.flow@.len() == n && g.sediment@.len() == n
            &&& forall|i: int| 0 <= i < n ==> #[trigger] g.height@[i] == t.height@[i]
            &&& forall|i: int| 0 <= i < n ==> #[trigger] g.flow@[i] == t.flow@[i]
            &&& forall|i: int| 0 <= i < n ==> #[trigger] g.sediment@[i] == t.sediment@[i]
        },
{
    let n = t.size * t.size;
    let g = r->Ok_0->0;
    assert forall|i: int| 0 <= i < n implies #[trigger] g.height@[i] == t.height@[i] by {
        assert(u32_at(s, 40 + 4 * i) == t.height@[i]);
    }
    assert forall|i: int| 0 <= i < n implies #[trigger] g.flow@[i] == t.flow@[i] by {
        assert(u32_at(s, 40 + 4 * n + 4 * i) == t.flow@[i]);
    }
    assert forall|i: int| 0 <= i < n implies #[trigger] g.sediment@[i] == t.sediment@[i] by {
        assert(u32_at(s, 40 + 8 * n + 4 * i) == t.sediment@[i]);
    }
}

/// A saved terrain is stale, and no more than that, for another seed, other
/// parameters or another size.
pub proof fn other_worlds_are_stale(
    s: Seq<u8>,
    t: CoarseBits,
    seed: u64,
    size: u32,
    fingerprint: u64,
    r: Result<Option<Grids>, CacheError>,
)
    requires
        is_file(s, t),
        seed != t.seed || fingerprint != t.fingerprint || size != t.size,
        loads(s, seed, size * size, fingerprint, r),
    ensures
        r matches Ok(None),
{
    if size != t.size {
        let (a, b) = (size as int, t.size as int);
        assert(a * a != b * b) by (nonlinear_arith)
            requires
                a >= 0,
                b >= 0,
                a != b,
        ;
    }
}

/// A terrain file with one byte changed behind the magic never loads: it is
/// reported as corrupt, whatever world asks.
pub proof fn corruption_is_reported(
    s: Seq<u8>,
    c: Seq<u8>,
    t: CoarseBits,
    k: int,
    seed: u64,
    fingerprint: u64,
    r: Result<Option<Grids>, CacheError>,
)
    requires
        is_file(s, t),
        c.len() == s.len(),
        8 <= k < s.len(),
        c[k] != s[k],
        forall|i: int| 0 <= i < s.len() && i != k ==> #[trigger] c[i] == s[i],
        loads(c, seed, t.size * t.size, fingerprint, r),
    ensures
        r == Err::<Option<Grids>, CacheError>(CacheError::Checksum),
{
    let n = s.len() - 8;
    assert(has_shape(c, t.size * t.size)) by {
        assert forall|i: int| 0 <= i < 8 implies #[trigger] c[i] == magic(i) by {
            assert(c[i] == s[i]);
        }
    }
    if k < n {
        lemma_fnv_differs(s, c, k, n);
        assert forall|i: int| n <= i < s.len() implies #[trigger] c[i] == s[i] by {}
        lemma_u32_same(s, c, n);
        lemma_u32_same(s, c, n + 4);
    } else {
        lemma_fnv_same(s, c, n);
        lemma_u64_differs(s, c, n, k);
    }
}

proof fn lemma_u64_differs(s: Seq<u8>, c: Seq<u8>, o: int, k: int)
    requires
        0 <= o <= k < o + 8,
        o + 8 <= s.len(),
        c.len() == s.len(),
        c[k] != s[k],
        forall|i: int| 0 <= i < s.len() && i != k ==> #[trigger] c[i] == s[i],
    ensures
        u64_at(s, o) != u64_at(c, o),
{
    assert(forall|i: int| o <= i < o + 8 && i != k ==> c[i] == s[i]);
    assert(k == o || c[o] == s[o]);
    assert(k == o + 1 || c[o + 1] == s[o + 1]);
    assert(k == o + 2 || c[o + 2] == s[o + 2]);
    assert(k == o + 3 || c[o + 3] == s[o + 3]);
    assert(k == o + 4 || c[o + 4] == s[o + 4]);
    assert(k == o + 5 || c[o + 5] == s[o + 5]);
    assert(k == o + 6 || c[o + 6] == s[o + 6]);
    assert(k == o + 7 || c[o + 7] == s[o + 7]);
}

/// Multiplying by the FNV prime, modulo 2^64, loses nothing: it has an
/// inverse.
proof fn lemma_prime_injective(a: u64, b: u64)
    requires
        a.wrapping_mul(0x0100_0000_01b3) == b.wrapping_mul(0x0100_0000_01b3),
    ensures
        a == b,
{
    let m: int = 0x1_0000_0000_0000_0000;
    let p: int = 0x0100_0000_01b3;
    let q: int = 0xce96_5057_aff6_957b;
    let (x, y) = (a as int, b as int);
    assert((x * p) % m == (y * p) % m);
    let d = x - y;
    let u = x * p / m;
    let v = y * p / m;
    vstd::arithmetic::div_mod::lemma_fundamental_div_mod(x * p, m);
    vstd::arithmetic::div_mod::lemma_fundamental_div_mod(y * p, m);
    assert(x * p - y * p == d * p) by (nonlinear_arith)
        requires
            d == x - y,
    ;
    let w = u - v;
    assert(m * u - m * v == m * w) by (nonlinear_arith)
        requires
            w == u - v,
    ;
    assert(d * p == m * w);
    assert(p * q == 1 + 887285111055 * m);
    assert(d * (p * q) == (d * p) * q) by (nonlinear_arith);
    assert((m * w) * q == m * (w * q)) by (nonlinear_arith);
    assert(d * (1 + 887285111055 * m) == d + m * (d * 887285111055)) by (nonlinear_arith);
    let t = w * q - d * 887285111055;
    assert(m * (w * q) - m * (d * 887285111055) == m * t) by (nonlinear_arith)
        requires
            t == w * q - d * 887285111055,
    ;
    assert(d == m * t);
    assert(t == 0) by (nonlinear_arith)
        requires
            d == m * t,
            -m < d < m,
            m > 0,
    ;
}

/// Strings that differ in one byte have different sums from there on.
proof fn lemma_fnv_differs(s: Seq<u8>, c: Seq<u8>, k: int, n: int)
    requires
        0 <= k < n <= s.len(),
        c.len() == s.len(),
        c[k] != s[k],
        forall|i: int| 0 <= i < s.len() && i != k ==> #[trigger] c[i] == s[i],
    ensures
        fnv(s, n) != fnv(c, n),
    decreases n,
{
    let (a, b) = (fnv(s, n - 1), fnv(c, n - 1));
    let (x, y) = (s[n - 1] as u64, c[n - 1] as u64);
    if n - 1 == k {
        lemma_fnv_same(s, c, k);
        assert(x != y);
        assert(a == b && x != y ==> a ^ x != b ^ y) by (bit_vector);
    } else {
        lemma_fnv_differs(s, c, k, n - 1);
        assert(c[n - 1] == s[n - 1]);
        assert(a != b && x == y ==> a ^ x != b ^ y) by (bit_vector);
    }
    if fnv(s, n) == fnv(c, n) {
        lemma_prime_injective(a ^ x, b ^ y);
    }
}

/// A terrain's file begins with `MC2TERR` and a zero and the version, holds
/// its three grids after 40 bytes, and ends in the checksum of all before.
pub proof fn files_are_laid_out(s: Seq<u8>, t: CoarseBits)
    requires
        is_file(s, t),
    ensures
        s.len() == 48 + 12 * (t.size * t.size),
        s[0] == 'M' as u8 && s[1] == 'C' as u8 && s[2] == '2' as u8 && s[3] == 'T' as u8,
        s[4] == 'E' as u8 && s[5] == 'R' as u8 && s[6] == 'R' as u8 && s[7] == 0,
        s[8] == 2 && s[9] == 0 && s[10] == 0 && s[11] == 0,
        s[20] + 256 * s[21] + 65536 * s[22] + 16777216 * s[23] == t.size,
        forall|i: int|
            0 <= i < t.size * t.size ==> s[40 + 4 * i] == (#[trigger] t.height@[i]) % 256,
{
    assert(s[0] == magic(0) && s[1] == magic(1) && s[2] == magic(2) && s[3] == magic(3));
    assert(s[4] == magic(4) && s[5] == magic(5) && s[6] == magic(6) && s[7] == magic(7));
    assert(u32_at(s, 8) == 2);
    assert forall|i: int| 0 <= i < t.size * t.size implies s[40 + 4 * i] == (
    #[trigger] t.height@[i]) % 256 by {
        assert(u32_at(s, 40 + 4 * i) == t.height@[i]);
    }
}

} // verus!
