//! Fixed-width integer byte codecs.
//!
//! Directory blobs, the image-layer container and the key encoding all use a
//! stable big-endian layout; relation and segment sizes are stored as
//! little-endian `u32` values.

use vstd::prelude::*;

verus! {

/// Big-endian bytes of a `u32`.
pub open spec fn u32_be(x: u32) -> Seq<u8> {
    seq![(x >> 24) as u8, (x >> 16) as u8, (x >> 8) as u8, x as u8]
}

/// Big-endian bytes of a `u64`.
pub open spec fn u64_be(x: u64) -> Seq<u8> {
    seq![
        (x >> 56) as u8,
        (x >> 48) as u8,
        (x >> 40) as u8,
        (x >> 32) as u8,
        (x >> 24) as u8,
        (x >> 16) as u8,
        (x >> 8) as u8,
        x as u8,
    ]
}

/// Little-endian bytes of a `u32`.
pub open spec fn u32_le(x: u32) -> Seq<u8> {
    seq![x as u8, (x >> 8) as u8, (x >> 16) as u8, (x >> 24) as u8]
}

/// Reassembling the four big-endian bytes of a `u32` yields the value back.
pub proof fn lemma_u32_be_decode(b0: u8, b1: u8, b2: u8, b3: u8)
    by (bit_vector)
    ensures
        ({
            let x = ((b0 as u32) << 24) | ((b1 as u32) << 16) | ((b2 as u32) << 8) | (b3 as u32);
            (x >> 24) as u8 == b0 && (x >> 16) as u8 == b1 && (x >> 8) as u8 == b2 && x as u8 == b3
        }),
{
}

/// A `u32` survives being split into big-endian bytes and reassembled.
pub proof fn lemma_u32_be_encode(x: u32)
    by (bit_vector)
    ensures
        x == (((x >> 24) as u8 as u32) << 24) | (((x >> 16) as u8 as u32) << 16) | (((x >> 8) as u8
            as u32) << 8) | (x as u8 as u32),
{
}

/// Reassembling the eight big-endian bytes of a `u64` yields the value back.
pub proof fn lemma_u64_be_decode(b0: u8, b1: u8, b2: u8, b3: u8, b4: u8, b5: u8, b6: u8, b7: u8)
    by (bit_vector)
    ensures
        ({
            let x = ((b0 as u64) << 56) | ((b1 as u64) << 48) | ((b2 as u64) << 40) | ((b3
                as u64) << 32) | ((b4 as u64) << 24) | ((b5 as u64) << 16) | ((b6 as u64) << 8) | (
            b7 as u64);
            (x >> 56) as u8 == b0 && (x >> 48) as u8 == b1 && (x >> 40) as u8 == b2 && (x >> 32)
                as u8 == b3 && (x >> 24) as u8 == b4 && (x >> 16) as u8 == b5 && (x >> 8) as u8
                == b6 && x as u8 == b7
        }),
{
}

/// A `u64` survives being split into big-endian bytes and reassembled.
pub proof fn lemma_u64_be_encode(x: u64)
    by (bit_vector)
    ensures
        x == (((x >> 56) as u8 as u64) << 56) | (((x >> 48) as u8 as u64) << 48) | (((x >> 40) as u8
            as u64) << 40) | (((x >> 32) as u8 as u64) << 32) | (((x >> 24) as u8 as u64) << 24) | (
        ((x >> 16) as u8 as u64) << 16) | (((x >> 8) as u8 as u64) << 8) | (x as u8 as u64),
{
}

/// Reassembling the four little-endian bytes of a `u32` yields the value back.
pub proof fn lemma_u32_le_decode(b0: u8, b1: u8, b2: u8, b3: u8)
    by (bit_vector)
    ensures
        ({
            let x = (b0 as u32) | ((b1 as u32) << 8) | ((b2 as u32) << 16) | ((b3 as u32) << 24);
            x as u8 == b0 && (x >> 8) as u8 == b1 && (x >> 16) as u8 == b2 && (x >> 24) as u8 == b3
        }),
{
}

/// A `u32` survives being split into little-endian bytes and reassembled.
pub proof fn lemma_u32_le_encode(x: u32)
    by (bit_vector)
    ensures
        x == (x as u8 as u32) | (((x >> 8) as u8 as u32) << 8) | (((x >> 16) as u8 as u32) << 16)
            | (((x >> 24) as u8 as u32) << 24),
{
}

/// The value of four big-endian bytes.
pub open spec fn u32_of_be(s: Seq<u8>) -> u32 {
    ((s[0] as u32) << 24) | ((s[1] as u32) << 16) | ((s[2] as u32) << 8) | (s[3] as u32)
}

/// Reading back the big-endian bytes of `x` yields `x`.
pub proof fn lemma_u32_of_be_of(x: u32)
    ensures
        u32_of_be(u32_be(x)) == x,
{
    lemma_u32_be_encode(x);
}

/// The value of four little-endian bytes.
pub open spec fn u32_of_le(s: Seq<u8>) -> u32 {
    (s[0] as u32) | ((s[1] as u32) << 8) | ((s[2] as u32) << 16) | ((s[3] as u32) << 24)
}

/// Reading back the little-endian bytes of `x` yields `x`.
pub proof fn lemma_u32_of_le_of(x: u32)
    ensures
        u32_of_le(u32_le(x)) == x,
{
    lemma_u32_le_encode(x);
}

/// Big-endian encodings of distinct `u32` values differ.
pub proof fn lemma_u32_be_injective(x: u32, y: u32)
    requires
        u32_be(x) == u32_be(y),
    ensures
        x == y,
{
    assert(u32_be(x)[0] == u32_be(y)[0]);
    assert(u32_be(x)[1] == u32_be(y)[1]);
    assert(u32_be(x)[2] == u32_be(y)[2]);
    assert(u32_be(x)[3] == u32_be(y)[3]);
    lemma_u32_be_encode(x);
    lemma_u32_be_encode(y);
}

/// Append the big-endian bytes of a `u32`.
pub fn push_u32_be(buf: &mut Vec<u8>, x: u32)
    ensures
        final(buf)@ == old(buf)@ + u32_be(x),
{
    buf.push((x >> 24) as u8);
    buf.push((x >> 16) as u8);
    buf.push((x >> 8) as u8);
    buf.push(x as u8);
    proof {
        assert(final(buf)@ =~= old(buf)@ + u32_be(x));
    }
}

/// Append the big-endian bytes of a `u64`.
pub fn push_u64_be(buf: &mut Vec<u8>, x: u64)
    ensures
        final(buf)@ == old(buf)@ + u64_be(x),
{
    buf.push((x >> 56) as u8);
    buf.push((x >> 48) as u8);
    buf.push((x >> 40) as u8);
    buf.push((x >> 32) as u8);
    buf.push((x >> 24) as u8);
    buf.push((x >> 16) as u8);
    buf.push((x >> 8) as u8);
    buf.push(x as u8);
    proof {
        assert(final(buf)@ =~= old(buf)@ + u64_be(x));
    }
}

/// Append the little-endian bytes of a `u32`.
pub fn push_u32_le(buf: &mut Vec<u8>, x: u32)
    ensures
        final(buf)@ == old(buf)@ + u32_le(x),
{
    buf.push(x as u8);
    buf.push((x >> 8) as u8);
    buf.push((x >> 16) as u8);
    buf.push((x >> 24) as u8);
    proof {
        assert(final(buf)@ =~= old(buf)@ + u32_le(x));
    }
}

/// Read a big-endian `u32` at `off`.
pub fn read_u32_be(buf: &Vec<u8>, off: usize) -> (x: u32)
    requires
        off + 4 <= buf@.len(),
    ensures
        u32_be(x) == buf@.subrange(off as int, off as int + 4),
{
    let _n = buf.len();
    let b0 = buf[off];
    let b1 = buf[off + 1];
    let b2 = buf[off + 2];
    let b3 = buf[off + 3];
    let x = ((b0 as u32) << 24) | ((b1 as u32) << 16) | ((b2 as u32) << 8) | (b3 as u32);
    proof {
        lemma_u32_be_decode(b0, b1, b2, b3);
        assert(u32_be(x) =~= buf@.subrange(off as int, off as int + 4));
    }
    x
}

/// Read a big-endian `u64` at `off`.
pub fn read_u64_be(buf: &Vec<u8>, off: usize) -> (x: u64)
    requires
        off + 8 <= buf@.len(),
    ensures
        u64_be(x) == buf@.subrange(off as int, off as int + 8),
{
    let _n = buf.len();
    let b0 = buf[off];
    let b1 = buf[off + 1];
    let b2 = buf[off + 2];
    let b3 = buf[off + 3];
    let b4 = buf[off + 4];
    let b5 = buf[off + 5];
    let b6 = buf[off + 6];
    let b7 = buf[off + 7];
    let x = ((b0 as u64) << 56) | ((b1 as u64) << 48) | ((b2 as u64) << 40) | ((b3 as u64) << 32)
        | ((b4 as u64) << 24) | ((b5 as u64) << 16) | ((b6 as u64) << 8) | (b7 as u64);
    proof {
        lemma_u64_be_decode(b0, b1, b2, b3, b4, b5, b6, b7);
        assert(u64_be(x) =~= buf@.subrange(off as int, off as int + 8));
    }
    x
}

/// Read a little-endian `u32` at `off`.
pub fn read_u32_le(buf: &Vec<u8>, off: usize) -> (x: u32)
    requires
        off + 4 <= buf@.len(),
    ensures
        u32_le(x) == buf@.subrange(off as int, off as int + 4),
{
    let _n = buf.len();
    let b0 = buf[off];
    let b1 = buf[off + 1];
    let b2 = buf[off + 2];
    let b3 = buf[off + 3];
    let x = (b0 as u32) | ((b1 as u32) << 8) | ((b2 as u32) << 16) | ((b3 as u32) << 24);
    proof {
        lemma_u32_le_decode(b0, b1, b2, b3);
        assert(u32_le(x) =~= buf@.subrange(off as int, off as int + 4));
    }
    x
}

/// Copy a byte vector.
pub fn clone_bytes(v: &Vec<u8>) -> (r: Vec<u8>)
    ensures
        r@ == v@,
{
    let mut r: Vec<u8> = Vec::new();
    let mut i: usize = 0;
    while i < v.len()
        invariant
            i <= v@.len(),
            r@ == v@.take(i as int),
        decreases v@.len() - i,
    {
        r.push(v[i]);
        i = i + 1;
        proof {
            assert(r@ =~= v@.take(i as int));
        }
    }
    proof {
        assert(r@ =~= v@);
    }
    r
}

/// Append the whole of `src` to `buf`.
pub fn push_bytes(buf: &mut Vec<u8>, src: &Vec<u8>)
    ensures
        final(buf)@ == old(buf)@ + src@,
{
    let mut i: usize = 0;
    while i < src.len()
        invariant
            i <= src@.len(),
            buf@ == old(buf)@ + src@.take(i as int),
        decreases src@.len() - i,
    {
        buf.push(src[i]);
        i = i + 1;
        proof {
            assert(buf@ =~= old(buf)@ + src@.take(i as int));
        }
    }
    proof {
        assert(buf@ =~= old(buf)@ + src@);
    }
}

/// Copy `n` bytes starting at `start`.
pub fn copy_range(src: &Vec<u8>, start: usize, n: usize) -> (r: Vec<u8>)
    requires
        start + n <= src@.len(),
    ensures
        r@ == src@.subrange(start as int, start as int + n),
{
    let slen = src.len();
    let mut r: Vec<u8> = Vec::new();
    let mut i: usize = 0;
    while i < n
        invariant
            start + n <= slen,
            slen == src@.len(),
            i <= n,
            r@ == src@.subrange(start as int, start as int + i),
        decreases n - i,
    {
        r.push(src[start + i]);
        i = i + 1;
        proof {
            assert(r@ =~= src@.subrange(start as int, start as int + i));
        }
    }
    r
}

} // verus!
