//! Bricks and their states as voxel-buffer words.

use crate::brick::palette::nibble;
use crate::brick::{Brick, BrickRaw};
use crate::gpu_layout::{NARROW_BRICK_WORDS, WIDE_BRICK_WORDS};
use crate::material::MaterialId;
use vstd::prelude::*;

verus! {

/// Byte `k` of a word, lowest first.
pub open spec fn byte_of(w: u32, k: int) -> int {
    if k == 0 {
        w as int % 256
    } else if k == 1 {
        w as int / 256 % 256
    } else if k == 2 {
        w as int / 65536 % 256
    } else {
        w as int / 16777216
    }
}

/// Four bits `j` of a word, lowest first.
pub open spec fn nibble_of(w: u32, j: int) -> int {
    if j % 2 == 0 {
        byte_of(w, j / 2) % 16
    } else {
        byte_of(w, j / 2) / 16
    }
}

/// Half `k` of a word, lower first.
pub open spec fn half_of(w: u32, k: int) -> int {
    if k == 0 {
        w as int % 65536
    } else {
        w as int / 65536
    }
}

/// Palette entry `p` of the brick at `base`.
pub open spec fn stored_entry(words: Seq<u32>, base: int, p: int) -> int {
    half_of(words[base + 17 + p / 2], p % 2)
}

/// Palette index of voxel `i` of the brick at `base`.
pub open spec fn stored_index(words: Seq<u32>, base: int, wide: bool, i: int) -> int {
    if wide {
        byte_of(words[base + 145 + i / 4], i % 4)
    } else {
        nibble_of(words[base + 25 + i / 8], i % 8)
    }
}

/// Material of voxel `i` of the brick at `base`, as a shader reads it.
pub open spec fn stored_voxel(words: Seq<u32>, base: int, wide: bool, i: int) -> int {
    stored_entry(words, base, stored_index(words, base, wide, i))
}

pub open spec fn words_of(b: Brick) -> int {
    if b.wide() {
        273
    } else {
        89
    }
}

/// Palette entries that are stored, those behind the last in use as air.
pub open spec fn entries_of(b: Brick) -> int {
    if b.wide() {
        256
    } else {
        16
    }
}

/// The words at `base` are brick `b`, with `header` in front.
pub open spec fn holds_brick(words: Seq<u32>, base: int, b: Brick, header: u32) -> bool {
    &&& 0 <= base && base + words_of(b) <= words.len()
    &&& words[base] == header
    &&& forall|s: int|
        0 <= s < 8 ==> words[base + 1 + 2 * s] as int + words[base + 2 + 2 * s] as int
            * 0x1_0000_0000 == #[trigger] b.masks()[s]
    &&& forall|p: int|
        0 <= p < b.palette().len() ==> stored_entry(words, base, p) == (#[trigger] b.palette()[p]).0
    &&& forall|p: int|
        b.palette().len() <= p < entries_of(b) ==> #[trigger] stored_entry(words, base, p) == 0
    &&& forall|i: int|
        0 <= i < 512 ==> stored_index(words, base, b.wide(), i) == #[trigger] b.slot(i)
}

/// A stored brick reads back as itself: every voxel of the words is the
/// brick's voxel.
pub proof fn stored_bricks_read_back(words: Seq<u32>, base: int, b: Brick, header: u32, i: int)
    requires
        b.wf(),
        holds_brick(words, base, b, header),
        0 <= i < 512,
    ensures
        stored_voxel(words, base, b.wide(), i) == b.voxels()[i].0,
{
    b.lemma_shape();
    let p = b.slot(i);
    assert(b.palette()[p] == b.voxels()[i]);
}

/// Further words change nothing of a stored brick.
pub proof fn stored_bricks_stay(
    words: Seq<u32>,
    more: Seq<u32>,
    base: int,
    b: Brick,
    header: u32,
)
    requires
        b.wf(),
        holds_brick(words, base, b, header),
        words.len() <= more.len(),
        forall|k: int| base <= k < base + words_of(b) ==> words[k] == more[k],
    ensures
        holds_brick(more, base, b, header),
{
    b.lemma_shape();
    assert forall|s: int| 0 <= s < 8 implies more[base + 1 + 2 * s] as int + more[base + 2 + 2
        * s] as int * 0x1_0000_0000 == #[trigger] b.masks()[s] by {
        assert(words[base + 1 + 2 * s] == more[base + 1 + 2 * s]);
    }
    assert forall|p: int| 0 <= p < b.palette().len() implies stored_entry(more, base, p) == (
    #[trigger] b.palette()[p]).0 by {
        assert(words[base + 17 + p / 2] == more[base + 17 + p / 2]);
    }
    assert forall|p: int| b.palette().len() <= p < entries_of(b) implies #[trigger] stored_entry(
        more,
        base,
        p,
    ) == 0 by {
        assert(stored_entry(words, base, p) == 0);
        assert(words[base + 17 + p / 2] == more[base + 17 + p / 2]);
    }
    assert forall|i: int| 0 <= i < 512 implies stored_index(more, base, b.wide(), i)
        == #[trigger] b.slot(i) by {
        assert(stored_index(words, base, b.wide(), i) == b.slot(i));
    }
}

fn join_bytes(b0: u8, b1: u8, b2: u8, b3: u8) -> (w: u32)
    ensures
        byte_of(w, 0) == b0,
        byte_of(w, 1) == b1,
        byte_of(w, 2) == b2,
        byte_of(w, 3) == b3,
{
    let w: u32 = b0 as u32 + b1 as u32 * 256 + b2 as u32 * 65536 + b3 as u32 * 16777216;
    proof {
        let n = w as int;
        assert(n / 256 == b1 + b2 * 256 + b3 * 65536);
        assert(n / 65536 == b2 + b3 * 256);
        assert(n / 16777216 == b3);
    }
    w
}

fn join_halves(a: u16, b: u16) -> (w: u32)
    ensures
        half_of(w, 0) == a,
        half_of(w, 1) == b,
{
    a as u32 + b as u32 * 65536
}

/// Encodes a brick into voxel-buffer words. `state_offset` is written to the
/// header; pass 0 when the brick has no state block.
pub fn encode_brick(b: &Brick, state_offset: u32, out: &mut Vec<u32>)
    requires
        b.wf(),
        old(out)@.len() + 273 <= usize::MAX,
    ensures
        final(out)@.len() == old(out)@.len() + words_of(*b),
        forall|k: int| 0 <= k < old(out)@.len() ==> #[trigger] final(out)@[k] == old(out)@[k],
        holds_brick(final(out)@, old(out)@.len() as int, *b, state_offset),
{
    let ghost base = out@.len() as int;
    proof {
        b.lemma_shape();
    }
    out.push(state_offset);
    let masks: &[u64; 8] = b.occupancy();
    let mut s: usize = 0;
    while s < 8
        invariant
            s <= 8,
            masks@ == b.masks(),
            masks@.len() == 8,
            base == old(out)@.len(),
            out@.len() == base + 1 + 2 * s,
            forall|k: int| 0 <= k < base ==> #[trigger] out@[k] == old(out)@[k],
            out@[base] == state_offset,
            forall|q: int|
                0 <= q < s ==> out@[base + 1 + 2 * q] as int + out@[base + 2 + 2 * q] as int
                    * 0x1_0000_0000 == #[trigger] b.masks()[q],
        decreases 8 - s,
    {
        let m: u64 = masks[s];
        out.push((m % 0x1_0000_0000) as u32);
        out.push((m / 0x1_0000_0000) as u32);
        s += 1;
    }
    let ghost head = out@;
    match b.raw() {
        BrickRaw::Narrow { palette, nibbles } => {
            push_entries(palette.as_slice(), 16, out);
            let ghost mid = out@;
            push_bytes(nibbles.as_slice(), out);
            proof {
                assert forall|p: int| 0 <= p < b.palette().len() implies stored_entry(out@, base, p)
                    == (#[trigger] b.palette()[p]).0 by {
                    assert(half_of(mid[base + 17 + p / 2], p % 2) == entry_at(palette@, p));
                }
                assert forall|p: int| b.palette().len() <= p < 16 implies #[trigger] stored_entry(
                    out@,
                    base,
                    p,
                ) == 0 by {
                    assert(half_of(mid[base + 17 + p / 2], p % 2) == entry_at(palette@, p));
                }
                assert forall|i: int| 0 <= i < 512 implies stored_index(out@, base, b.wide(), i)
                    == #[trigger] b.slot(i) by {
                    let k = i / 2;
                    assert(byte_of(out@[base + 25 + k / 4], k % 4) == nibbles@[k]);
                    assert(i / 8 == k / 4);
                    assert(i % 8 / 2 == k % 4);
                    assert(i % 8 % 2 == i % 2);
                    assert(nibble(nibbles@, i) == b.slot(i));
                }
            }
        },
        BrickRaw::Wide { palette, indices } => {
            push_entries(palette, 256, out);
            let ghost mid = out@;
            push_bytes(indices.as_slice(), out);
            proof {
                assert forall|p: int| 0 <= p < b.palette().len() implies stored_entry(out@, base, p)
                    == (#[trigger] b.palette()[p]).0 by {
                    assert(half_of(mid[base + 17 + p / 2], p % 2) == entry_at(palette@, p));
                }
                assert forall|p: int| b.palette().len() <= p < 256 implies #[trigger] stored_entry(
                    out@,
                    base,
                    p,
                ) == 0 by {
                    assert(half_of(mid[base + 17 + p / 2], p % 2) == entry_at(palette@, p));
                }
                assert forall|i: int| 0 <= i < 512 implies stored_index(out@, base, b.wide(), i)
                    == #[trigger] b.slot(i) by {
                    assert(byte_of(out@[base + 145 + i / 4], i % 4) == indices@[i]);
                    assert(indices@[i] == b.slot(i));
                }
            }
        },
    }
    proof {
        assert forall|q: int| 0 <= q < 8 implies out@[base + 1 + 2 * q] as int + out@[base + 2 + 2
            * q] as int * 0x1_0000_0000 == #[trigger] b.masks()[q] by {
            assert(head[base + 1 + 2 * q] == out@[base + 1 + 2 * q]);
            assert(head[base + 2 + 2 * q] == out@[base + 2 + 2 * q]);
        }
    }
}

/// Entry `p` of a palette padded with air.
spec fn entry_at(palette: Seq<MaterialId>, p: int) -> int {
    if p < palette.len() {
        palette[p].0 as int
    } else {
        0
    }
}

/// Appends `n` palette entries, two per word, padded with air.
fn push_entries(palette: &[MaterialId], n: usize, out: &mut Vec<u32>)
    requires
        n % 2 == 0,
        palette@.len() <= n <= 256,
        old(out)@.len() + 128 <= usize::MAX,
    ensures
        final(out)@.len() == old(out)@.len() + n / 2,
        forall|k: int| 0 <= k < old(out)@.len() ==> #[trigger] final(out)@[k] == old(out)@[k],
        forall|p: int|
            0 <= p < n ==> half_of(final(out)@[old(out)@.len() + p / 2], p % 2)
                == #[trigger] entry_at(palette@, p),
{
    let ghost base = out@.len() as int;
    let mut k: usize = 0;
    while k < n / 2
        invariant
            n % 2 == 0,
            palette@.len() <= n <= 256,
            k <= n / 2,
            base == old(out)@.len(),
            out@.len() == base + k,
            forall|q: int| 0 <= q < base ==> #[trigger] out@[q] == old(out)@[q],
            forall|p: int|
                0 <= p < 2 * k ==> half_of(out@[base + p / 2], p % 2) == #[trigger] entry_at(
                    palette@,
                    p,
                ),
        decreases n / 2 - k,
    {
        let a: u16 = if 2 * k < palette.len() {
            palette[2 * k].0
        } else {
            0
        };
        let b: u16 = if 2 * k + 1 < palette.len() {
            palette[2 * k + 1].0
        } else {
            0
        };
        let ghost before = out@;
        out.push(join_halves(a, b));
        k += 1;
        assert forall|p: int| 0 <= p < 2 * k implies half_of(out@[base + p / 2], p % 2)
            == #[trigger] entry_at(palette@, p) by {
            if p < 2 * k - 2 {
                assert(before[base + p / 2] == out@[base + p / 2]);
            }
        }
    }
}

/// Appends bytes, four per word, lowest first.
fn push_bytes(bytes: &[u8], out: &mut Vec<u32>)
    requires
        bytes@.len() % 4 == 0,
        bytes@.len() <= 512,
        old(out)@.len() + 128 <= usize::MAX,
    ensures
        final(out)@.len() == old(out)@.len() + bytes@.len() / 4,
        forall|k: int| 0 <= k < old(out)@.len() ==> #[trigger] final(out)@[k] == old(out)@[k],
        forall|i: int|
            0 <= i < bytes@.len() ==> byte_of(final(out)@[old(out)@.len() + i / 4], i % 4)
                == #[trigger] bytes@[i],
{
    let ghost base = out@.len() as int;
    let n: usize = bytes.len() / 4;
    let mut k: usize = 0;
    while k < n
        invariant
            n == bytes@.len() / 4,
            bytes@.len() % 4 == 0,
            bytes@.len() <= 512,
            k <= n,
            base == old(out)@.len(),
            out@.len() == base + k,
            forall|q: int| 0 <= q < base ==> #[trigger] out@[q] == old(out)@[q],
            forall|i: int|
                0 <= i < 4 * k ==> byte_of(out@[base + i / 4], i % 4) == #[trigger] bytes@[i],
        decreases n - k,
    {
        let ghost before = out@;
        out.push(join_bytes(bytes[4 * k], bytes[4 * k + 1], bytes[4 * k + 2], bytes[4 * k + 3]));
        k += 1;
        assert forall|i: int| 0 <= i < 4 * k implies byte_of(out@[base + i / 4], i % 4)
            == #[trigger] bytes@[i] by {
            if i < 4 * k - 4 {
                assert(before[base + i / 4] == out@[base + i / 4]);
            }
        }
    }
}

/// Encodes a brick's states, if it keeps any; reports whether it does.
pub fn encode_state(b: &Brick, out: &mut Vec<u32>) -> (r: bool)
    requires
        b.wf(),
        old(out)@.len() + 128 <= usize::MAX,
    ensures
        r == b.stateful(),
        !r ==> final(out)@ == old(out)@,
        r ==> {
            &&& final(out)@.len() == old(out)@.len() + 128
            &&& forall|k: int|
                0 <= k < old(out)@.len() ==> #[trigger] final(out)@[k] == old(out)@[k]
            &&& forall|i: int|
                0 <= i < 512 ==> byte_of(final(out)@[old(out)@.len() + i / 4], i % 4) == (
                #[trigger] b.states()[i]).0
        },
{
    proof {
        b.lemma_shape();
    }
    match b.raw_state() {
        None => false,
        Some(state) => {
            let ghost base = out@.len() as int;
            let mut k: usize = 0;
            while k < 128
                invariant
                    k <= 128,
                    state@.len() == 512,
                    base == old(out)@.len(),
                    out@.len() == base + k,
                    forall|q: int| 0 <= q < base ==> #[trigger] out@[q] == old(out)@[q],
                    forall|i: int|
                        0 <= i < 4 * k ==> byte_of(out@[base + i / 4], i % 4) == (
                        #[trigger] state@[i]).0,
                decreases 128 - k,
            {
                let ghost before = out@;
                out.push(
                    join_bytes(
                        state[4 * k].0,
                        state[4 * k + 1].0,
                        state[4 * k + 2].0,
                        state[4 * k + 3].0,
                    ),
                );
                k += 1;
                assert forall|i: int| 0 <= i < 4 * k implies byte_of(out@[base + i / 4], i % 4) == (
                #[trigger] state@[i]).0 by {
                    if i < 4 * k - 4 {
                        assert(before[base + i / 4] == out@[base + i / 4]);
                    }
                }
            }
            true
        },
    }
}

pub fn brick_words(b: &Brick) -> (n: usize)
    ensures
        n == words_of(*b),
{
    if b.is_wide() {
        WIDE_BRICK_WORDS
    } else {
        NARROW_BRICK_WORDS
    }
}

/// A brick's words are a header, two to each of eight masks, its palette two
/// entries to a word, and its indices: eight to a word, or four where there
/// are more than sixteen materials.
pub proof fn brick_words_add_up(b: Brick)
    ensures
        b.wide() ==> entries_of(b) == 256 && words_of(b) == 1 + 2 * 8 + entries_of(b) / 2 + 128,
        !b.wide() ==> entries_of(b) == 16 && words_of(b) == 1 + 2 * 8 + entries_of(b) / 2 + 64,
{
}

/// A word is its bytes, its halves and its half bytes, lowest first.
pub proof fn words_are_their_parts(w: u32)
    ensures
        w == byte_of(w, 0) + 256 * byte_of(w, 1) + 65536 * byte_of(w, 2) + 16777216 * byte_of(w, 3),
        w == half_of(w, 0) + 65536 * half_of(w, 1),
        forall|k: int|
            0 <= k < 4 ==> 0 <= #[trigger] byte_of(w, k) < 256 && byte_of(w, k) == nibble_of(
                w,
                2 * k,
            ) + 16 * nibble_of(w, 2 * k + 1),
{
}

} // verus!
