//! The compound key addressing every stored object.
//!
//! A key is a six-field tuple serialized big-endian so that lexicographic byte
//! order equals field-major order. Range queries are half-open
//! `[start, end)`.

use vstd::prelude::*;

use crate::codec::push_u32_be;
use crate::codec::read_u32_be;
use crate::codec::u32_be;

verus! {

/// A 144-bit composite key: the only identifier the storage layer sees.
///
/// `field1` is the tag partitioning the key space: `0x00` PostgreSQL relation
/// space, `0x01` SLRU, `0x02` two-phase state, `0x03` control file and
/// checkpoint.
#[derive(Clone, Copy, Debug, PartialEq, Eq, Structural, Hash)]
pub struct Key {
    pub field1: u8,
    pub field2: u32,
    pub field3: u32,
    pub field4: u32,
    pub field5: u8,
    pub field6: u32,
}

/// Strict field-major order on keys.
pub open spec fn key_lt(a: Key, b: Key) -> bool {
    if a.field1 != b.field1 {
        a.field1 < b.field1
    } else if a.field2 != b.field2 {
        a.field2 < b.field2
    } else if a.field3 != b.field3 {
        a.field3 < b.field3
    } else if a.field4 != b.field4 {
        a.field4 < b.field4
    } else if a.field5 != b.field5 {
        a.field5 < b.field5
    } else if a.field6 != b.field6 {
        a.field6 < b.field6
    } else {
        false
    }
}

/// Non-strict field-major order on keys.
pub open spec fn key_le(a: Key, b: Key) -> bool {
    key_lt(a, b) || a == b
}

/// The field-major order is transitive.
pub proof fn lemma_key_lt_transitive(a: Key, b: Key, c: Key)
    requires
        key_lt(a, b),
        key_lt(b, c),
    ensures
        key_lt(a, c),
{
}

/// Any two distinct keys are strictly ordered one way.
pub proof fn lemma_key_lt_total(a: Key, b: Key)
    ensures
        a == b || key_lt(a, b) || key_lt(b, a),
        !(key_lt(a, b) && key_lt(b, a)),
{
}

impl Key {
    /// Strict comparison under the field-major order.
    pub fn lt(&self, other: &Key) -> (r: bool)
        ensures
            r == key_lt(*self, *other),
    {
        if self.field1 != other.field1 {
            self.field1 < other.field1
        } else if self.field2 != other.field2 {
            self.field2 < other.field2
        } else if self.field3 != other.field3 {
            self.field3 < other.field3
        } else if self.field4 != other.field4 {
            self.field4 < other.field4
        } else if self.field5 != other.field5 {
            self.field5 < other.field5
        } else if self.field6 != other.field6 {
            self.field6 < other.field6
        } else {
            false
        }
    }

    /// Non-strict comparison under the field-major order.
    pub fn le(&self, other: &Key) -> (r: bool)
        ensures
            r == key_le(*self, *other),
    {
        !other.lt(self)
    }

    /// Field-by-field equality.
    pub fn eq(&self, other: &Key) -> (r: bool)
        ensures
            r == (*self == *other),
    {
        self.field1 == other.field1 && self.field2 == other.field2 && self.field3 == other.field3
            && self.field4 == other.field4 && self.field5 == other.field5 && self.field6
            == other.field6
    }
}

/// The 18 big-endian bytes of a key. Lexicographic order on these bytes
/// equals the field-major order on keys.
pub open spec fn key_bytes(k: Key) -> Seq<u8> {
    seq![k.field1] + u32_be(k.field2) + u32_be(k.field3) + u32_be(k.field4) + seq![k.field5]
        + u32_be(k.field6)
}

/// Append the 18-byte encoding of `k`.
pub fn push_key(buf: &mut Vec<u8>, k: Key)
    ensures
        final(buf)@ == old(buf)@ + key_bytes(k),
{
    buf.push(k.field1);
    push_u32_be(buf, k.field2);
    push_u32_be(buf, k.field3);
    push_u32_be(buf, k.field4);
    buf.push(k.field5);
    push_u32_be(buf, k.field6);
    proof {
        assert(buf@ =~= old(buf)@ + key_bytes(k));
    }
}

/// Read the 18-byte key encoding at `off`.
pub fn read_key(buf: &Vec<u8>, off: usize) -> (k: Key)
    requires
        off + 18 <= buf@.len(),
    ensures
        key_bytes(k) == buf@.subrange(off as int, off as int + 18),
{
    let _n = buf.len();
    let field1 = buf[off];
    let field2 = read_u32_be(buf, off + 1);
    let field3 = read_u32_be(buf, off + 5);
    let field4 = read_u32_be(buf, off + 9);
    let field5 = buf[off + 13];
    let field6 = read_u32_be(buf, off + 14);
    let k = Key { field1, field2, field3, field4, field5, field6 };
    proof {
        assert(key_bytes(k) =~= buf@.subrange(off as int, off as int + 18));
    }
    k
}

/// Strict lexicographic order on byte strings.
pub open spec fn bytes_lt(a: Seq<u8>, b: Seq<u8>) -> bool
    decreases a.len(),
{
    if a.len() == 0 {
        b.len() > 0
    } else if b.len() == 0 {
        false
    } else if a[0] != b[0] {
        a[0] < b[0]
    } else {
        bytes_lt(a.drop_first(), b.drop_first())
    }
}

/// One leading byte of a lexicographic comparison: it decides unless equal.
proof fn lemma_bytes_lt_byte(x: u8, y: u8, ta: Seq<u8>, tb: Seq<u8>)
    requires
        ta.len() == tb.len(),
    ensures
        bytes_lt(seq![x] + ta, seq![y] + tb) == if x != y {
            x < y
        } else {
            bytes_lt(ta, tb)
        },
{
    let a = seq![x] + ta;
    let b = seq![y] + tb;
    assert(a[0] == x);
    assert(b[0] == y);
    assert(a.drop_first() =~= ta);
    assert(b.drop_first() =~= tb);
}

/// Byte-wise lexicographic comparison of two big-endian `u32` values agrees
/// with their numeric order.
proof fn lemma_u32_be_byte_order(x: u32, y: u32)
    by (bit_vector)
    ensures
        (x < y) == ({
            if (x >> 24) as u8 != (y >> 24) as u8 {
                ((x >> 24) as u8) < ((y >> 24) as u8)
            } else if (x >> 16) as u8 != (y >> 16) as u8 {
                ((x >> 16) as u8) < ((y >> 16) as u8)
            } else if (x >> 8) as u8 != (y >> 8) as u8 {
                ((x >> 8) as u8) < ((y >> 8) as u8)
            } else {
                (x as u8) < (y as u8)
            }
        }),
        (x == y) == ((x >> 24) as u8 == (y >> 24) as u8 && (x >> 16) as u8 == (y >> 16) as u8 && (x
            >> 8) as u8 == (y >> 8) as u8 && x as u8 == y as u8),
{
}

/// Four leading big-endian bytes of a lexicographic comparison: the encoded
/// value decides unless equal.
proof fn lemma_bytes_lt_u32(x: u32, y: u32, ta: Seq<u8>, tb: Seq<u8>)
    requires
        ta.len() == tb.len(),
    ensures
        bytes_lt(u32_be(x) + ta, u32_be(y) + tb) == if x != y {
            x < y
        } else {
            bytes_lt(ta, tb)
        },
{
    assert(u32_be(x) + ta =~= seq![(x >> 24) as u8] + (seq![(x >> 16) as u8] + (seq![(x >> 8) as u8]
        + (seq![x as u8] + ta))));
    assert(u32_be(y) + tb =~= seq![(y >> 24) as u8] + (seq![(y >> 16) as u8] + (seq![(y >> 8) as u8]
        + (seq![y as u8] + tb))));
    lemma_bytes_lt_byte(
        (x >> 24) as u8,
        (y >> 24) as u8,
        seq![(x >> 16) as u8] + (seq![(x >> 8) as u8] + (seq![x as u8] + ta)),
        seq![(y >> 16) as u8] + (seq![(y >> 8) as u8] + (seq![y as u8] + tb)),
    );
    lemma_bytes_lt_byte(
        (x >> 16) as u8,
        (y >> 16) as u8,
        seq![(x >> 8) as u8] + (seq![x as u8] + ta),
        seq![(y >> 8) as u8] + (seq![y as u8] + tb),
    );
    lemma_bytes_lt_byte((x >> 8) as u8, (y >> 8) as u8, seq![x as u8] + ta, seq![y as u8] + tb);
    lemma_bytes_lt_byte(x as u8, y as u8, ta, tb);
    lemma_u32_be_byte_order(x, y);
}

/// Law (the encoding orders like the keys): lexicographic order on the
/// 18-byte encodings equals the field-major order on keys, so byte-sorted
/// storage sees keys in key order.
pub proof fn lemma_key_bytes_order(a: Key, b: Key)
    ensures
        bytes_lt(key_bytes(a), key_bytes(b)) == key_lt(a, b),
{
    let ta2 = u32_be(a.field3) + (u32_be(a.field4) + (seq![a.field5] + u32_be(a.field6)));
    let tb2 = u32_be(b.field3) + (u32_be(b.field4) + (seq![b.field5] + u32_be(b.field6)));
    let ta3 = u32_be(a.field4) + (seq![a.field5] + u32_be(a.field6));
    let tb3 = u32_be(b.field4) + (seq![b.field5] + u32_be(b.field6));
    let ta4 = seq![a.field5] + u32_be(a.field6);
    let tb4 = seq![b.field5] + u32_be(b.field6);
    assert(key_bytes(a) =~= seq![a.field1] + (u32_be(a.field2) + ta2));
    assert(key_bytes(b) =~= seq![b.field1] + (u32_be(b.field2) + tb2));
    lemma_bytes_lt_byte(a.field1, b.field1, u32_be(a.field2) + ta2, u32_be(b.field2) + tb2);
    lemma_bytes_lt_u32(a.field2, b.field2, ta2, tb2);
    lemma_bytes_lt_u32(a.field3, b.field3, ta3, tb3);
    lemma_bytes_lt_u32(a.field4, b.field4, ta4, tb4);
    lemma_bytes_lt_byte(a.field5, b.field5, u32_be(a.field6), u32_be(b.field6));
    lemma_bytes_lt_u32(a.field6, b.field6, Seq::<u8>::empty(), Seq::<u8>::empty());
    assert(u32_be(a.field6) + Seq::<u8>::empty() =~= u32_be(a.field6));
    assert(u32_be(b.field6) + Seq::<u8>::empty() =~= u32_be(b.field6));
}

/// A half-open key range `[start, end)`.
#[derive(Clone, Copy, Debug, PartialEq, Eq, Structural, Hash)]
pub struct KeyRange {
    pub start: Key,
    pub end: Key,
}

/// Membership in a half-open key range.
pub open spec fn range_contains(r: KeyRange, k: Key) -> bool {
    key_le(r.start, k) && key_lt(k, r.end)
}

impl KeyRange {
    /// Does `k` lie in `[self.start, self.end)`?
    pub fn contains(&self, k: &Key) -> (r: bool)
        ensures
            r == range_contains(*self, *k),
    {
        self.start.le(k) && k.lt(&self.end)
    }
}

} // verus!
