//! Sound files: interleaved stereo samples as a 16-bit WAV.

use vstd::prelude::*;

verus! {

/// Samples a second.
pub const RATE: u32 = 48000;

/// Byte `i` of `n`, lowest first.
pub open spec fn le_byte(n: int, i: int) -> u8 {
    if i == 0 {
        (n % 256) as u8
    } else if i == 1 {
        (n / 256 % 256) as u8
    } else if i == 2 {
        (n / 0x1_0000 % 256) as u8
    } else {
        (n / 0x100_0000 % 256) as u8
    }
}

pub open spec fn le4(n: int) -> Seq<u8> {
    seq![le_byte(n, 0), le_byte(n, 1), le_byte(n, 2), le_byte(n, 3)]
}

pub open spec fn le2(n: int) -> Seq<u8> {
    seq![le_byte(n, 0), le_byte(n, 1)]
}

/// A sample as a number of 16 bits, negative ones from the top.
pub open spec fn unsigned(x: i16) -> int {
    if x < 0 {
        x + 0x1_0000
    } else {
        x as int
    }
}

/// The header of a file that holds `data` bytes of samples.
pub open spec fn header(data: int) -> Seq<u8> {
    seq![0x52u8, 0x49, 0x46, 0x46] + le4(36 + data) + seq![
        0x57u8,
        0x41,
        0x56,
        0x45,
        0x66,
        0x6d,
        0x74,
        0x20,
    ] + le4(16) + le2(1) + le2(2) + le4(RATE as int) + le4(RATE * 4) + le2(4) + le2(16) + seq![
        0x64u8,
        0x61,
        0x74,
        0x61,
    ] + le4(data)
}

/// The first `n` samples as bytes.
pub open spec fn body(samples: Seq<i16>, n: int) -> Seq<u8>
    decreases n,
{
    if n <= 0 {
        Seq::empty()
    } else {
        body(samples, n - 1) + le2(unsigned(samples[n - 1]))
    }
}

fn put4(out: &mut Vec<u8>, n: u32)
    ensures
        final(out)@ == old(out)@ + le4(n as int),
{
    out.push((n % 256) as u8);
    out.push((n / 256 % 256) as u8);
    out.push((n / 0x1_0000 % 256) as u8);
    out.push((n / 0x100_0000 % 256) as u8);
    assert(out@ =~= old(out)@ + le4(n as int));
}

fn put2(out: &mut Vec<u8>, n: u16)
    ensures
        final(out)@ == old(out)@ + le2(n as int),
{
    out.push((n % 256) as u8);
    out.push((n / 256) as u8);
    assert(out@ =~= old(out)@ + le2(n as int));
}

fn put_tag(out: &mut Vec<u8>, a: u8, b: u8, c: u8, d: u8)
    ensures
        final(out)@ == old(out)@ + seq![a, b, c, d],
{
    out.push(a);
    out.push(b);
    out.push(c);
    out.push(d);
    assert(out@ =~= old(out)@ + seq![a, b, c, d]);
}

/// The file of interleaved stereo samples.
pub fn wav(samples: &Vec<i16>) -> (out: Vec<u8>)
    requires
        samples@.len() * 2 + 36 <= u32::MAX,
    ensures
        out@ == header(samples@.len() as int * 2) + body(samples@, samples@.len() as int),
{
    let data: u32 = (samples.len() * 2) as u32;
    let mut out: Vec<u8> = Vec::new();
    put_tag(&mut out, 0x52, 0x49, 0x46, 0x46);
    put4(&mut out, 36 + data);
    put_tag(&mut out, 0x57, 0x41, 0x56, 0x45);
    put_tag(&mut out, 0x66, 0x6d, 0x74, 0x20);
    put4(&mut out, 16);
    put2(&mut out, 1);
    put2(&mut out, 2);
    put4(&mut out, RATE);
    put4(&mut out, RATE * 4);
    put2(&mut out, 4);
    put2(&mut out, 16);
    put_tag(&mut out, 0x64, 0x61, 0x74, 0x61);
    put4(&mut out, data);
    assert(out@ =~= header(samples@.len() as int * 2) + body(samples@, 0));
    let mut n: usize = 0;
    while n < samples.len()
        invariant
            n <= samples@.len(),
            out@ == header(samples@.len() as int * 2) + body(samples@, n as int),
        decreases samples@.len() - n,
    {
        let x: i16 = samples[n];
        let u: u16 = if x < 0 {
            (x as i32 + 0x1_0000) as u16
        } else {
            x as u16
        };
        put2(&mut out, u);
        assert(out@ =~= header(samples@.len() as int * 2) + body(samples@, n + 1));
        n += 1;
    }
    out
}

proof fn lemma_body_len(samples: Seq<i16>, n: int)
    requires
        0 <= n,
    ensures
        body(samples, n).len() == 2 * n,
    decreases n,
{
    if n > 0 {
        lemma_body_len(samples, n - 1);
    }
}

/// A file is as long as its header says: eight bytes and what it counts.
pub proof fn files_are_as_long_as_they_say(samples: Seq<i16>)
    ensures
        (header(samples.len() as int * 2) + body(samples, samples.len() as int)).len() == 8 + (36
            + samples.len() * 2),
{
    lemma_body_len(samples, samples.len() as int);
}

/// Sample `i` stands after the header, two bytes each, lowest first.
pub proof fn samples_stand_in_order(samples: Seq<i16>, n: int, i: int)
    requires
        0 <= i < n <= samples.len(),
    ensures
        body(samples, n).len() == 2 * n,
        body(samples, n)[2 * i] == le_byte(unsigned(samples[i]), 0),
        body(samples, n)[2 * i + 1] == le_byte(unsigned(samples[i]), 1),
    decreases n,
{
    lemma_body_len(samples, n);
    lemma_body_len(samples, n - 1);
    if i < n - 1 {
        samples_stand_in_order(samples, n - 1, i);
    }
}

/// Four bytes, read lowest first.
pub open spec fn read4(s: Seq<u8>, o: int) -> int {
    s[o] + 256 * s[o + 1] + 65536 * s[o + 2] + 16777216 * s[o + 3]
}

proof fn lemma_le4(n: int)
    requires
        0 <= n <= 0xffff_ffff,
    ensures
        read4(le4(n), 0) == n,
{
}

/// Bytes `a`, then four that hold `n`, then `b`.
proof fn lemma_inside(a: Seq<u8>, n: int, b: Seq<u8>)
    requires
        0 <= n <= 0xffff_ffff,
    ensures
        read4(a + le4(n) + b, a.len() as int) == n,
{
    let s = a + le4(n) + b;
    lemma_le4(n);
    assert(s[a.len() as int] == le4(n)[0]);
    assert(s[a.len() as int + 1] == le4(n)[1]);
    assert(s[a.len() as int + 2] == le4(n)[2]);
    assert(s[a.len() as int + 3] == le4(n)[3]);
}

/// The header has its four tags in their places.
#[verifier::rlimit(30)]
pub proof fn headers_are_tagged(data: int)
    ensures
        ({
            let h = header(data);
            &&& h.len() == 44
            &&& h[0] == 'R' as u8 && h[1] == 'I' as u8 && h[2] == 'F' as u8 && h[3] == 'F' as u8
            &&& h[8] == 'W' as u8 && h[9] == 'A' as u8 && h[10] == 'V' as u8 && h[11] == 'E' as u8
            &&& h[12] == 'f' as u8 && h[13] == 'm' as u8 && h[14] == 't' as u8 && h[15] == ' ' as u8
            &&& h[36] == 'd' as u8 && h[37] == 'a' as u8 && h[38] == 't' as u8 && h[39] == 'a' as u8
        }),
{
}

/// The header says what a player needs: two channels of 16 bits 48000 times a
/// second, four bytes for each of those, and how many bytes follow.
#[verifier::rlimit(60)]
pub proof fn headers_say_what_follows(data: int)
    requires
        0 <= data <= 0xffff_ffff - 36,
    ensures
        ({
            let h = header(data);
            &&& read4(h, 4) == data + 36 && read4(h, 40) == data
            &&& read4(h, 24) == 48000 && read4(h, 28) == 192000
            &&& h[20] == 1 && h[21] == 0 && h[22] == 2 && h[23] == 0
            &&& h[32] == 4 && h[33] == 0 && h[34] == 16 && h[35] == 0
        }),
{
    let h = header(data);
    let none = Seq::<u8>::empty();
    assert(h.len() == 44);
    assert(h =~= h.take(4) + le4(36 + data) + h.skip(8));
    lemma_inside(h.take(4), 36 + data, h.skip(8));
    assert(h =~= h.take(24) + le4(48000) + h.skip(28));
    lemma_inside(h.take(24), 48000, h.skip(28));
    assert(h =~= h.take(28) + le4(192000) + h.skip(32));
    lemma_inside(h.take(28), 192000, h.skip(32));
    assert(h =~= h.take(40) + le4(data) + none);
    lemma_inside(h.take(40), data, none);
}

/// A sample is read back from its two bytes: the lowest first, and from 32768
/// on less 65536.
pub proof fn samples_read_back(samples: Seq<i16>, i: int)
    requires
        0 <= i < samples.len(),
    ensures
        ({
            let b = body(samples, samples.len() as int);
            let n = b[2 * i] + 256 * b[2 * i + 1];
            samples[i] == if n < 32768 {
                n
            } else {
                n - 65536
            }
        }),
{
    samples_stand_in_order(samples, samples.len() as int, i);
}

} // verus!
