//! The immutable image layer: a chapter-structured, self-describing
//! container mapping every live key of one key range to its page image as of
//! one LSN.
//!
//! A layer file carries a magic word, a blob stream (the VALUES chapter), a
//! key-to-offset index (the INDEX chapter), a summary naming tenant,
//! timeline, key range and LSN (the SUMMARY chapter), and a trailer
//! describing the chapters. Its file name repeats the key range and LSN; the
//! name and the in-file summary must agree when a layer is loaded through
//! the configured tenant path.

use vstd::prelude::*;

use crate::codec::copy_range;
use crate::codec::lemma_u32_of_be_of;
use crate::codec::push_bytes;
use crate::codec::push_u32_be;
use crate::codec::push_u64_be;
use crate::codec::read_u32_be;
use crate::codec::read_u64_be;
use crate::codec::u32_be;
use crate::codec::u32_of_be;
use crate::codec::u64_be;
use crate::directory::lemma_u64_of_be_of;
use crate::directory::u64_of_be;
use crate::key::Key;
use crate::key::KeyRange;
use crate::key::key_bytes;
use crate::key::push_key;
use crate::key::range_contains;
use crate::key::read_key;
use crate::relish::ZTenantId;
use crate::relish::ZTimelineId;
use crate::repository::Lsn;
use crate::PageError;

verus! {

/// Magic word identifying an image layer file.
pub const IMAGE_FILE_MAGIC: u32 = 0x5A616E02;

/// Chapter id of the key-to-offset index.
pub const INDEX_CHAPTER: u64 = 1;

/// Chapter id of the blob stream.
pub const VALUES_CHAPTER: u64 = 2;

/// Chapter id of the summary.
pub const SUMMARY_CHAPTER: u64 = 3;

/// An LSN range, end-exclusive.
#[derive(Clone, Copy, Debug, PartialEq, Eq, Structural)]
pub struct LsnRange {
    pub start: Lsn,
    pub end: Lsn,
}

/// What an image layer is about: its tenant, its timeline, the key range it
/// covers, and the LSN its images are taken at.
#[derive(Clone, Copy, Debug, PartialEq, Eq, Structural)]
pub struct Summary {
    pub tenantid: ZTenantId,
    pub timelineid: ZTimelineId,
    pub key_range: KeyRange,
    pub lsn: Lsn,
}

/// A layer file's name: the key range and LSN it covers, hex-encoded.
#[derive(Clone, Copy, Debug, PartialEq, Eq, Structural)]
pub struct ImageFileName {
    pub key_range: KeyRange,
    pub lsn: Lsn,
}

/// The uppercase hex digit of a nibble.
pub open spec fn hex_digit(d: u8) -> u8 {
    if d < 10 {
        (0x30 + d) as u8
    } else {
        (0x37 + d) as u8
    }
}

/// The nibble of an uppercase hex digit.
pub open spec fn unhex_digit(c: u8) -> Option<u8> {
    if 0x30 <= c <= 0x39 {
        Some((c - 0x30) as u8)
    } else if 0x41 <= c <= 0x46 {
        Some((c - 0x37) as u8)
    } else {
        None
    }
}

/// Fixed-width uppercase hex, two digits per byte, no separators.
pub open spec fn hex_bytes(s: Seq<u8>) -> Seq<u8>
    decreases s.len(),
{
    if s.len() == 0 {
        Seq::empty()
    } else {
        seq![hex_digit(s[0] / 16), hex_digit(s[0] % 16)] + hex_bytes(s.drop_first())
    }
}

/// Decode fixed-width hex back into bytes.
pub open spec fn unhex_bytes(s: Seq<u8>) -> Option<Seq<u8>>
    decreases s.len(),
{
    if s.len() == 0 {
        Some(Seq::empty())
    } else if s.len() == 1 {
        None
    } else {
        match (unhex_digit(s[0]), unhex_digit(s[1])) {
            (Some(hi), Some(lo)) => match unhex_bytes(s.skip(2)) {
                Some(rest) => Some(seq![(hi * 16 + lo) as u8] + rest),
                None => None,
            },
            _ => None,
        }
    }
}

/// A nibble's hex digit decodes back to the nibble.
pub proof fn lemma_unhex_digit_of(d: u8)
    requires
        d < 16,
    ensures
        unhex_digit(hex_digit(d)) == Some(d),
{
}

/// Hex encoding is two digits per byte.
pub proof fn lemma_hex_bytes_len(s: Seq<u8>)
    ensures
        hex_bytes(s).len() == 2 * s.len(),
    decreases s.len(),
{
    if s.len() > 0 {
        lemma_hex_bytes_len(s.drop_first());
    }
}

/// Hex decoding inverts hex encoding.
pub proof fn lemma_unhex_of_hex(s: Seq<u8>)
    ensures
        unhex_bytes(hex_bytes(s)) == Some(s),
    decreases s.len(),
{
    lemma_hex_bytes_len(s);
    if s.len() == 0 {
    } else {
        let h = hex_bytes(s);
        lemma_hex_bytes_len(s.drop_first());
        assert(h[0] == hex_digit(s[0] / 16));
        assert(h[1] == hex_digit(s[0] % 16));
        lemma_unhex_digit_of(s[0] / 16);
        lemma_unhex_digit_of(s[0] % 16);
        assert((s[0] / 16) * 16 + s[0] % 16 == s[0]) by {
            assert(s[0] / 16 < 16);
        }
        assert(h.skip(2) =~= hex_bytes(s.drop_first()));
        lemma_unhex_of_hex(s.drop_first());
        assert(seq![s[0]] + s.drop_first() =~= s);
    }
}

/// Hex encoding one more byte appends its two digits.
pub proof fn lemma_hex_bytes_snoc(s: Seq<u8>, x: u8)
    ensures
        hex_bytes(s.push(x)) == hex_bytes(s) + seq![hex_digit(x / 16), hex_digit(x % 16)],
    decreases s.len(),
{
    if s.len() == 0 {
        assert(s.push(x)[0] == x);
        assert(s.push(x).drop_first() =~= Seq::<u8>::empty());
        assert(hex_bytes(Seq::<u8>::empty()) == Seq::<u8>::empty());
        assert(hex_bytes(s.push(x)) =~= hex_bytes(s) + seq![hex_digit(x / 16), hex_digit(x % 16)]);
    } else {
        assert(s.push(x)[0] == s[0]);
        assert(s.push(x).drop_first() =~= s.drop_first().push(x));
        lemma_hex_bytes_snoc(s.drop_first(), x);
        assert(hex_bytes(s.push(x)) =~= hex_bytes(s) + seq![hex_digit(x / 16), hex_digit(x % 16)]);
    }
}

/// Append the fixed-width hex encoding of `src`.
pub fn push_hex(buf: &mut Vec<u8>, src: &Vec<u8>)
    ensures
        final(buf)@ == old(buf)@ + hex_bytes(src@),
{
    let mut i: usize = 0;
    proof {
        assert(src@.take(0) =~= Seq::<u8>::empty());
        assert(buf@ =~= old(buf)@ + hex_bytes(src@.take(0)));
    }
    while i < src.len()
        invariant
            i <= src@.len(),
            buf@ == old(buf)@ + hex_bytes(src@.take(i as int)),
        decreases src@.len() - i,
    {
        let b = src[i];
        let hi = b / 16;
        let lo = b % 16;
        buf.push(if hi < 10 {
            0x30 + hi
        } else {
            0x37 + hi
        });
        buf.push(if lo < 10 {
            0x30 + lo
        } else {
            0x37 + lo
        });
        proof {
            lemma_hex_bytes_snoc(src@.take(i as int), src@[i as int]);
            assert(src@.take(i as int + 1) =~= src@.take(i as int).push(src@[i as int]));
            assert(buf@ =~= old(buf)@ + hex_bytes(src@.take(i as int + 1)));
        }
        i = i + 1;
    }
    proof {
        assert(src@.take(src@.len() as int) =~= src@);
    }
}

/// Decode `2 * n` fixed-width hex digits starting at `off`.
pub fn read_unhex(buf: &Vec<u8>, off: usize, n: usize) -> (r: Result<Vec<u8>, PageError>)
    requires
        off + 2 * n <= buf@.len(),
    ensures
        match r {
            Ok(v) => unhex_bytes(buf@.subrange(off as int, off as int + 2 * n)) == Some(v@),
            Err(e) => e == PageError::Corrupt && unhex_bytes(
                buf@.subrange(off as int, off as int + 2 * n),
            ) is None,
        },
{
    let ghost h = buf@.subrange(off as int, off as int + 2 * n);
    let blen = buf.len();
    let mut v: Vec<u8> = Vec::new();
    let mut i: usize = 0;
    proof {
        assert(h.skip(0) =~= h);
        assert(forall|rest: Seq<u8>| v@ + rest =~= rest);
    }
    while i < n
        invariant
            off + 2 * n <= blen,
            blen == buf@.len(),
            h == buf@.subrange(off as int, off as int + 2 * n),
            i <= n,
            v@.len() == i,
            unhex_bytes(h) == (match unhex_bytes(h.skip(2 * i as int)) {
                Some(rest) => Some(v@ + rest),
                None => None::<Seq<u8>>,
            }),
        decreases n - i,
    {
        let c0 = buf[off + 2 * i];
        let c1 = buf[off + 2 * i + 1];
        let hi = if 0x30 <= c0 && c0 <= 0x39 {
            c0 - 0x30
        } else if 0x41 <= c0 && c0 <= 0x46 {
            c0 - 0x37
        } else {
            proof {
                lemma_unhex_prefix_none(h, 2 * i as int);
            }
            return Err(PageError::Corrupt);
        };
        let lo = if 0x30 <= c1 && c1 <= 0x39 {
            c1 - 0x30
        } else if 0x41 <= c1 && c1 <= 0x46 {
            c1 - 0x37
        } else {
            proof {
                lemma_unhex_prefix_none(h, 2 * i as int);
            }
            return Err(PageError::Corrupt);
        };
        proof {
            let rest = h.skip(2 * i as int);
            assert(rest[0] == c0);
            assert(rest[1] == c1);
            assert(rest.skip(2) =~= h.skip(2 * (i as int + 1)));
        }
        v.push(hi * 16 + lo);
        proof {
            let rest = h.skip(2 * i as int);
            assert(unhex_bytes(rest) == (match unhex_bytes(h.skip(2 * (i as int + 1))) {
                Some(r2) => Some(seq![(hi * 16 + lo) as u8] + r2),
                None => None::<Seq<u8>>,
            }));
            assert(forall|r2: Seq<u8>|
                v@ + r2 =~= (v@.take(v@.len() - 1) + (seq![(hi * 16 + lo) as u8] + r2)));
        }
        i = i + 1;
    }
    proof {
        assert(h.skip(2 * n as int) =~= Seq::<u8>::empty());
        assert(v@ + Seq::<u8>::empty() =~= v@);
    }
    Ok(v)
}

/// A hex string with an undecodable digit pair decodes to nothing, wherever
/// the pair sits.
proof fn lemma_unhex_prefix_none(h: Seq<u8>, k: int)
    requires
        0 <= k,
        k % 2 == 0,
        k + 2 <= h.len(),
        h.len() % 2 == 0,
        unhex_digit(h[k]) is None || unhex_digit(h[k + 1]) is None,
    ensures
        unhex_bytes(h) is None,
    decreases k,
{
    if k == 0 {
    } else {
        assert(h.skip(2)[k - 2] == h[k]);
        assert(h.skip(2)[k - 1] == h[k + 1]);
        lemma_unhex_prefix_none(h.skip(2), k - 2);
    }
}

/// A key rebuilt from its 18 encoded bytes.
pub open spec fn key_of_bytes(s: Seq<u8>) -> Key {
    Key {
        field1: s[0],
        field2: u32_of_be(s.subrange(1, 5)),
        field3: u32_of_be(s.subrange(5, 9)),
        field4: u32_of_be(s.subrange(9, 13)),
        field5: s[13],
        field6: u32_of_be(s.subrange(14, 18)),
    }
}

/// Decoding a key's encoding yields the key.
pub proof fn lemma_key_of_bytes_of(k: Key)
    ensures
        key_of_bytes(key_bytes(k)) == k,
{
    let b = key_bytes(k);
    assert(b.subrange(1, 5) =~= u32_be(k.field2));
    assert(b.subrange(5, 9) =~= u32_be(k.field3));
    assert(b.subrange(9, 13) =~= u32_be(k.field4));
    assert(b.subrange(14, 18) =~= u32_be(k.field6));
    lemma_u32_of_be_of(k.field2);
    lemma_u32_of_be_of(k.field3);
    lemma_u32_of_be_of(k.field4);
    lemma_u32_of_be_of(k.field6);
}

/// The 91 name bytes of a layer file: start and end key as 36 hex digits
/// each, then the LSN as 16 hex digits.
pub open spec fn filename_bytes(f: ImageFileName) -> Seq<u8> {
    hex_bytes(key_bytes(f.key_range.start)) + seq![0x2du8] + hex_bytes(key_bytes(f.key_range.end))
        + seq![0x5fu8, 0x5fu8] + hex_bytes(u64_be(f.lsn.0))
}

/// Parse a layer file name.
pub open spec fn filename_parse(b: Seq<u8>) -> Option<ImageFileName> {
    if b.len() != 91 || b[36] != 0x2du8 || b[73] != 0x5fu8 || b[74] != 0x5fu8 {
        None
    } else {
        match (unhex_bytes(b.subrange(0, 36)), unhex_bytes(b.subrange(37, 73)), unhex_bytes(
            b.subrange(75, 91),
        )) {
            (Some(ks), Some(ke), Some(lb)) => Some(
                ImageFileName {
                    key_range: KeyRange { start: key_of_bytes(ks), end: key_of_bytes(ke) },
                    lsn: Lsn(u64_of_be(lb)),
                },
            ),
            _ => None,
        }
    }
}

/// Law: a layer file's name decodes back to the key range and LSN it was
/// built from, so the name and the summary can never drift apart for a file
/// the writer produced.
pub proof fn lemma_filename_round_trip(f: ImageFileName)
    ensures
        filename_parse(filename_bytes(f)) == Some(f),
{
    let b = filename_bytes(f);
    lemma_hex_bytes_len(key_bytes(f.key_range.start));
    lemma_hex_bytes_len(key_bytes(f.key_range.end));
    lemma_hex_bytes_len(u64_be(f.lsn.0));
    assert(b.len() == 91);
    assert(b[36] == 0x2du8);
    assert(b[73] == 0x5fu8);
    assert(b[74] == 0x5fu8);
    assert(b.subrange(0, 36) =~= hex_bytes(key_bytes(f.key_range.start)));
    assert(b.subrange(37, 73) =~= hex_bytes(key_bytes(f.key_range.end)));
    assert(b.subrange(75, 91) =~= hex_bytes(u64_be(f.lsn.0)));
    lemma_unhex_of_hex(key_bytes(f.key_range.start));
    lemma_unhex_of_hex(key_bytes(f.key_range.end));
    lemma_unhex_of_hex(u64_be(f.lsn.0));
    lemma_key_of_bytes_of(f.key_range.start);
    lemma_key_of_bytes_of(f.key_range.end);
    lemma_u64_of_be_of(f.lsn.0);
}

impl ImageFileName {
    /// The 91 name bytes of this layer file.
    pub fn to_bytes(&self) -> (r: Vec<u8>)
        ensures
            r@ == filename_bytes(*self),
    {
        let mut buf: Vec<u8> = Vec::new();
        let mut kb: Vec<u8> = Vec::new();
        push_key(&mut kb, self.key_range.start);
        push_hex(&mut buf, &kb);
        buf.push(0x2d);
        let mut kb2: Vec<u8> = Vec::new();
        push_key(&mut kb2, self.key_range.end);
        push_hex(&mut buf, &kb2);
        buf.push(0x5f);
        buf.push(0x5f);
        let mut lb: Vec<u8> = Vec::new();
        push_u64_be(&mut lb, self.lsn.0);
        push_hex(&mut buf, &lb);
        proof {
            assert(kb@ =~= key_bytes(self.key_range.start));
            assert(kb2@ =~= key_bytes(self.key_range.end));
            assert(lb@ =~= u64_be(self.lsn.0));
            assert(buf@ =~= filename_bytes(*self));
        }
        buf
    }

    /// Decode a layer file name; anything that is not 91 bytes of
    /// well-formed uppercase hex with the two separators is rejected.
    pub fn parse(name: &Vec<u8>) -> (r: Result<ImageFileName, PageError>)
        ensures
            match r {
                Ok(f) => filename_parse(name@) == Some(f),
                Err(e) => e == PageError::Corrupt && filename_parse(name@) is None,
            },
    {
        if name.len() != 91 {
            return Err(PageError::Corrupt);
        }
        if name[36] != 0x2d || name[73] != 0x5f || name[74] != 0x5f {
            return Err(PageError::Corrupt);
        }
        let ks = match read_unhex(name, 0, 18) {
            Ok(v) => v,
            Err(e) => {
                return Err(e);
            },
        };
        let ke = match read_unhex(name, 37, 18) {
            Ok(v) => v,
            Err(e) => {
                return Err(e);
            },
        };
        let lb = match read_unhex(name, 75, 8) {
            Ok(v) => v,
            Err(e) => {
                return Err(e);
            },
        };
        proof {
            assert(unhex_bytes(name@.subrange(0, 36)) == Some(ks@));
            assert(ks@.len() == 18) by {
                lemma_unhex_len(name@.subrange(0, 36), ks@);
            }
            assert(unhex_bytes(name@.subrange(37, 73)) == Some(ke@));
            assert(ke@.len() == 18) by {
                lemma_unhex_len(name@.subrange(37, 73), ke@);
            }
            assert(unhex_bytes(name@.subrange(75, 91)) == Some(lb@));
            assert(lb@.len() == 8) by {
                lemma_unhex_len(name@.subrange(75, 91), lb@);
            }
        }
        let start = read_key(&ks, 0);
        let end = read_key(&ke, 0);
        let lsn = read_u64_be(&lb, 0);
        proof {
            assert(ks@.subrange(0, 18) =~= ks@);
            assert(ke@.subrange(0, 18) =~= ke@);
            assert(lb@.subrange(0, 8) =~= lb@);
            lemma_key_of_bytes_of(start);
            lemma_key_of_bytes_of(end);
            lemma_u64_of_be_of(lsn);
        }
        Ok(ImageFileName { key_range: KeyRange { start, end }, lsn: Lsn(lsn) })
    }
}

/// A length-prefixed blob in the VALUES chapter.
pub open spec fn blob_bytes(img: Seq<u8>) -> Seq<u8> {
    u32_be(img.len() as u32) + img
}

/// The blob starting at `off` in the VALUES chapter, if its length prefix
/// and payload lie within the chapter.
pub open spec fn blob_at(values: Seq<u8>, off: int) -> Option<Seq<u8>> {
    if 0 <= off && off + 4 <= values.len() {
        let n = u32_of_be(values.subrange(off, off + 4)) as int;
        if off + 4 + n <= values.len() {
            Some(values.subrange(off + 4, off + 4 + n))
        } else {
            None
        }
    } else {
        None
    }
}

/// A freshly appended blob reads back as the image it was built from.
pub proof fn lemma_blob_at_append(values: Seq<u8>, img: Seq<u8>)
    requires
        img.len() <= u32::MAX,
    ensures
        blob_at(values + blob_bytes(img), values.len() as int) == Some(img),
{
    let all = values + blob_bytes(img);
    let off = values.len() as int;
    assert(all.subrange(off, off + 4) =~= u32_be(img.len() as u32));
    lemma_u32_of_be_of(img.len() as u32);
    assert(all.subrange(off + 4, off + 4 + img.len()) =~= img);
}

/// Appending to the VALUES chapter leaves every readable blob in place.
pub proof fn lemma_blob_at_extend(values: Seq<u8>, ext: Seq<u8>, off: int)
    requires
        blob_at(values, off) is Some,
    ensures
        blob_at(values + ext, off) == blob_at(values, off),
{
    let all = values + ext;
    assert(all.subrange(off, off + 4) =~= values.subrange(off, off + 4));
    let n = u32_of_be(values.subrange(off, off + 4)) as int;
    assert(all.subrange(off + 4, off + 4 + n) =~= values.subrange(off + 4, off + 4 + n));
}

/// One index entry on disk: the key's 18 bytes, then its blob offset.
pub open spec fn index_entry_bytes(e: (Key, u64)) -> Seq<u8> {
    key_bytes(e.0) + u64_be(e.1)
}

/// The index entries, one after the other.
pub open spec fn index_entries_ser(s: Seq<(Key, u64)>) -> Seq<u8>
    decreases s.len(),
{
    if s.len() == 0 {
        Seq::empty()
    } else {
        index_entry_bytes(s[0]) + index_entries_ser(s.drop_first())
    }
}

/// The INDEX chapter: entry count, then the entries.
pub open spec fn index_ser(s: Seq<(Key, u64)>) -> Seq<u8> {
    u64_be(s.len() as u64) + index_entries_ser(s)
}

/// Parse `n` consecutive index entries covering all of `b`.
pub open spec fn index_entries_parse(b: Seq<u8>, n: nat) -> Option<Seq<(Key, u64)>>
    decreases n,
{
    if n == 0 {
        if b.len() == 0 {
            Some(Seq::empty())
        } else {
            None
        }
    } else if b.len() < 26 {
        None
    } else {
        match index_entries_parse(b.skip(26), (n - 1) as nat) {
            Some(rest) => Some(
                seq![(key_of_bytes(b.take(18)), u64_of_be(b.subrange(18, 26)))] + rest,
            ),
            None => None,
        }
    }
}

/// Parse an INDEX chapter.
pub open spec fn index_parse(b: Seq<u8>) -> Option<Seq<(Key, u64)>> {
    if b.len() < 8 {
        None
    } else {
        index_entries_parse(b.skip(8), u64_of_be(b.take(8)) as nat)
    }
}

/// The entry section is 26 bytes per entry.
pub proof fn lemma_index_entries_len(s: Seq<(Key, u64)>)
    ensures
        index_entries_ser(s).len() == 26 * s.len(),
    decreases s.len(),
{
    if s.len() > 0 {
        lemma_index_entries_len(s.drop_first());
    }
}

/// Appending one index entry appends its 26 bytes.
pub proof fn lemma_index_entries_snoc(s: Seq<(Key, u64)>, e: (Key, u64))
    ensures
        index_entries_ser(s.push(e)) == index_entries_ser(s) + index_entry_bytes(e),
    decreases s.len(),
{
    if s.len() == 0 {
        assert(s.push(e)[0] == e);
        assert(s.push(e).drop_first() =~= Seq::<(Key, u64)>::empty());
        assert(index_entries_ser(Seq::<(Key, u64)>::empty()) == Seq::<u8>::empty());
        assert(index_entries_ser(s.push(e)) =~= index_entries_ser(s) + index_entry_bytes(e));
    } else {
        assert(s.push(e)[0] == s[0]);
        assert(s.push(e).drop_first() =~= s.drop_first().push(e));
        lemma_index_entries_snoc(s.drop_first(), e);
        assert(index_entries_ser(s.push(e)) =~= index_entries_ser(s) + index_entry_bytes(e));
    }
}

/// Parsing succeeds exactly when the byte count matches, and then recovers
/// each entry from its 26 bytes.
pub proof fn lemma_index_entries_parse_shape(b: Seq<u8>, n: nat)
    ensures
        index_entries_parse(b, n) is Some <==> b.len() == 26 * n,
        index_entries_parse(b, n) is Some ==> {
            let s = index_entries_parse(b, n)->Some_0;
            s.len() == n && forall|i: int|
                0 <= i < n ==> #[trigger] s[i] == (
                    key_of_bytes(b.subrange(26 * i, 26 * i + 18)),
                    u64_of_be(b.subrange(26 * i + 18, 26 * i + 26)),
                )
        },
    decreases n,
{
    if n > 0 && b.len() >= 26 {
        lemma_index_entries_parse_shape(b.skip(26), (n - 1) as nat);
        if index_entries_parse(b, n) is Some {
            let s = index_entries_parse(b, n)->Some_0;
            let rest = index_entries_parse(b.skip(26), (n - 1) as nat)->Some_0;
            assert(b.take(18) =~= b.subrange(0, 18));
            assert forall|i: int| 0 <= i < n implies #[trigger] s[i] == (
                key_of_bytes(b.subrange(26 * i, 26 * i + 18)),
                u64_of_be(b.subrange(26 * i + 18, 26 * i + 26)),
            ) by {
                if i > 0 {
                    assert(s[i] == rest[i - 1]);
                    assert(b.skip(26).subrange(26 * (i - 1), 26 * (i - 1) + 18) =~= b.subrange(
                        26 * i,
                        26 * i + 18,
                    ));
                    assert(b.skip(26).subrange(26 * (i - 1) + 18, 26 * (i - 1) + 26) =~= b.subrange(
                        26 * i + 18,
                        26 * i + 26,
                    ));
                }
            }
        }
    }
}

/// Parsing inverts serialization for the index.
pub proof fn lemma_index_parse_of_ser(s: Seq<(Key, u64)>)
    requires
        s.len() <= u64::MAX,
    ensures
        index_parse(index_ser(s)) == Some(s),
{
    let b = index_ser(s);
    lemma_index_entries_len(s);
    assert(b.take(8) =~= u64_be(s.len() as u64));
    assert(b.skip(8) =~= index_entries_ser(s));
    lemma_u64_of_be_of(s.len() as u64);
    lemma_index_entries_parse_of_ser(s);
}

/// Parsing inverts serialization for the entry section.
proof fn lemma_index_entries_parse_of_ser(s: Seq<(Key, u64)>)
    ensures
        index_entries_parse(index_entries_ser(s), s.len()) == Some(s),
    decreases s.len(),
{
    lemma_index_entries_len(s);
    if s.len() == 0 {
    } else {
        let b = index_entries_ser(s);
        lemma_index_entries_len(s.drop_first());
        assert(b.take(18) =~= key_bytes(s[0].0));
        assert(b.subrange(18, 26) =~= u64_be(s[0].1));
        assert(b.skip(26) =~= index_entries_ser(s.drop_first()));
        lemma_index_entries_parse_of_ser(s.drop_first());
        lemma_key_of_bytes_of(s[0].0);
        lemma_u64_of_be_of(s[0].1);
        assert(b.take(26).take(18) =~= b.take(18));
        assert(seq![(key_of_bytes(b.take(18)), u64_of_be(b.subrange(18, 26)))] + s.drop_first()
            =~= s);
    }
}

/// The SUMMARY chapter: tenant, timeline, key range and LSN, 76 bytes.
pub open spec fn summary_bytes(s: Summary) -> Seq<u8> {
    u64_be(s.tenantid.hi) + u64_be(s.tenantid.lo) + u64_be(s.timelineid.hi) + u64_be(
        s.timelineid.lo,
    ) + key_bytes(s.key_range.start) + key_bytes(s.key_range.end) + u64_be(s.lsn.0)
}

/// Parse a SUMMARY chapter.
pub open spec fn summary_parse(b: Seq<u8>) -> Option<Summary> {
    if b.len() != 76 {
        None
    } else {
        Some(
            Summary {
                tenantid: ZTenantId {
                    hi: u64_of_be(b.subrange(0, 8)),
                    lo: u64_of_be(b.subrange(8, 16)),
                },
                timelineid: ZTimelineId {
                    hi: u64_of_be(b.subrange(16, 24)),
                    lo: u64_of_be(b.subrange(24, 32)),
                },
                key_range: KeyRange {
                    start: key_of_bytes(b.subrange(32, 50)),
                    end: key_of_bytes(b.subrange(50, 68)),
                },
                lsn: Lsn(u64_of_be(b.subrange(68, 76))),
            },
        )
    }
}

/// Parsing inverts serialization for the summary.
pub proof fn lemma_summary_parse_of_ser(s: Summary)
    ensures
        summary_parse(summary_bytes(s)) == Some(s),
{
    let b = summary_bytes(s);
    assert(b.subrange(0, 8) =~= u64_be(s.tenantid.hi));
    assert(b.subrange(8, 16) =~= u64_be(s.tenantid.lo));
    assert(b.subrange(16, 24) =~= u64_be(s.timelineid.hi));
    assert(b.subrange(24, 32) =~= u64_be(s.timelineid.lo));
    assert(b.subrange(32, 50) =~= key_bytes(s.key_range.start));
    assert(b.subrange(50, 68) =~= key_bytes(s.key_range.end));
    assert(b.subrange(68, 76) =~= u64_be(s.lsn.0));
    lemma_u64_of_be_of(s.tenantid.hi);
    lemma_u64_of_be_of(s.tenantid.lo);
    lemma_u64_of_be_of(s.timelineid.hi);
    lemma_u64_of_be_of(s.timelineid.lo);
    lemma_key_of_bytes_of(s.key_range.start);
    lemma_key_of_bytes_of(s.key_range.end);
    lemma_u64_of_be_of(s.lsn.0);
}

/// The trailer: the chapter count, one `(id, offset, length)` row per
/// chapter, and finally the trailer's own offset.
pub open spec fn trailer_bytes(vlen: u64, ilen: u64) -> Seq<u8> {
    u64_be(3) + u64_be(VALUES_CHAPTER) + u64_be(4) + u64_be(vlen) + u64_be(INDEX_CHAPTER) + u64_be(
        (4 + vlen) as u64,
    ) + u64_be(ilen) + u64_be(SUMMARY_CHAPTER) + u64_be((4 + vlen + ilen) as u64) + u64_be(76)
        + u64_be((4 + vlen + ilen + 76) as u64)
}

/// A whole image layer file: magic, VALUES, INDEX, SUMMARY, trailer.
pub open spec fn image_file_bytes(values: Seq<u8>, index: Seq<(Key, u64)>, s: Summary) -> Seq<u8> {
    u32_be(IMAGE_FILE_MAGIC) + values + index_ser(index) + summary_bytes(s) + trailer_bytes(
        values.len() as u64,
        index_ser(index).len() as u64,
    )
}

/// Check the magic and the trailer of a layer file and name the chapter
/// positions: `(vlen, ioff, ilen, soff)`.
pub open spec fn file_layout(b: Seq<u8>) -> Option<(int, int, int, int)> {
    if b.len() < 176 {
        None
    } else {
        let toff = u64_of_be(b.subrange(b.len() - 8, b.len() as int)) as int;
        if !(b.subrange(0, 4) == u32_be(IMAGE_FILE_MAGIC) && toff + 88 == b.len() && toff >= 88
            && u64_of_be(b.subrange(toff, toff + 8)) == 3 && u64_of_be(
            b.subrange(toff + 8, toff + 16),
        ) == VALUES_CHAPTER && u64_of_be(b.subrange(toff + 16, toff + 24)) == 4 && u64_of_be(
            b.subrange(toff + 32, toff + 40),
        ) == INDEX_CHAPTER && u64_of_be(b.subrange(toff + 56, toff + 64)) == SUMMARY_CHAPTER
            && u64_of_be(b.subrange(toff + 72, toff + 80)) == 76) {
            None
        } else {
            let vlen = u64_of_be(b.subrange(toff + 24, toff + 32)) as int;
            let ioff = u64_of_be(b.subrange(toff + 40, toff + 48)) as int;
            let ilen = u64_of_be(b.subrange(toff + 48, toff + 56)) as int;
            let soff = u64_of_be(b.subrange(toff + 64, toff + 72)) as int;
            if !(ioff == 4 + vlen && soff == ioff + ilen && toff == soff + 76) {
                None
            } else {
                Some((vlen, ioff, ilen, soff))
            }
        }
    }
}

/// A well-laid-out file's chapters tile it exactly.
pub proof fn lemma_file_layout_bounds(b: Seq<u8>)
    requires
        file_layout(b) is Some,
    ensures
        ({
            let (vlen, ioff, ilen, soff) = file_layout(b)->Some_0;
            &&& 0 <= vlen
            &&& ioff == 4 + vlen
            &&& 0 <= ilen
            &&& soff == ioff + ilen
            &&& soff + 76 + 88 == b.len()
        }),
{
}

/// Parse a whole image layer file: check the magic, follow the trailer to
/// the three chapters, and decode them.
pub open spec fn image_file_parse(b: Seq<u8>) -> Option<(Seq<u8>, Seq<(Key, u64)>, Summary)> {
    match file_layout(b) {
        None => None,
        Some((vlen, ioff, ilen, soff)) => {
            match (index_parse(b.subrange(ioff, ioff + ilen)), summary_parse(
                b.subrange(soff, soff + 76),
            )) {
                (Some(index), Some(summary)) => Some((b.subrange(4, 4 + vlen), index, summary)),
                _ => None,
            }
        },
    }
}

/// Law: an image layer file parses back to exactly the blob stream, index
/// and summary it was assembled from.
#[verifier::rlimit(100)]
pub proof fn lemma_image_file_round_trip(values: Seq<u8>, index: Seq<(Key, u64)>, s: Summary)
    requires
        values.len() + 26 * index.len() <= 0x1000_0000_0000_0000,
    ensures
        image_file_parse(image_file_bytes(values, index, s)) == Some((values, index, s)),
{
    let b = image_file_bytes(values, index, s);
    let ib = index_ser(index);
    let sb = summary_bytes(s);
    lemma_index_entries_len(index);
    let vlen = values.len() as int;
    let ilen = ib.len() as int;
    let toff = 4 + vlen + ilen + 76;
    assert(b.len() == toff + 88);
    let tb = trailer_bytes(values.len() as u64, ib.len() as u64);
    assert(b.subrange(toff, b.len() as int) =~= tb);
    assert(tb.subrange(80, 88) =~= u64_be(toff as u64));
    assert(b.subrange(b.len() - 8, b.len() as int) =~= u64_be(toff as u64));
    lemma_u64_of_be_of(toff as u64);
    assert(b.subrange(0, 4) =~= u32_be(IMAGE_FILE_MAGIC));
    assert(b.subrange(toff, toff + 8) =~= u64_be(3));
    assert(b.subrange(toff + 8, toff + 16) =~= u64_be(VALUES_CHAPTER));
    assert(b.subrange(toff + 16, toff + 24) =~= u64_be(4));
    assert(b.subrange(toff + 24, toff + 32) =~= u64_be(vlen as u64));
    assert(b.subrange(toff + 32, toff + 40) =~= u64_be(INDEX_CHAPTER));
    assert(b.subrange(toff + 40, toff + 48) =~= u64_be((4 + vlen) as u64));
    assert(b.subrange(toff + 48, toff + 56) =~= u64_be(ilen as u64));
    assert(b.subrange(toff + 56, toff + 64) =~= u64_be(SUMMARY_CHAPTER));
    assert(b.subrange(toff + 64, toff + 72) =~= u64_be((4 + vlen + ilen) as u64));
    assert(b.subrange(toff + 72, toff + 80) =~= u64_be(76));
    lemma_u64_of_be_of(3);
    lemma_u64_of_be_of(VALUES_CHAPTER);
    lemma_u64_of_be_of(4);
    lemma_u64_of_be_of(vlen as u64);
    lemma_u64_of_be_of(INDEX_CHAPTER);
    lemma_u64_of_be_of((4 + vlen) as u64);
    lemma_u64_of_be_of(ilen as u64);
    lemma_u64_of_be_of(SUMMARY_CHAPTER);
    lemma_u64_of_be_of((4 + vlen + ilen) as u64);
    lemma_u64_of_be_of(76);
    assert(b.subrange(4, 4 + vlen) =~= values);
    assert(b.subrange(4 + vlen, 4 + vlen + ilen) =~= ib);
    assert(b.subrange(4 + vlen + ilen, toff) =~= sb);
    lemma_index_parse_of_ser(index);
    lemma_summary_parse_of_ser(s);
}

/// The outcome of asking one layer for a page: done, look in an older
/// layer starting from the floor it reports, or the key is not here at all.
#[derive(Clone, Copy, Debug, PartialEq, Eq, Structural)]
pub enum ValueReconstructResult {
    Complete,
    Continue,
    Missing,
}

/// The page-reconstruction state threaded through the layers: the key and
/// LSN asked for, and the newest base image found so far.
pub struct ValueReconstructState {
    pub key: Key,
    pub lsn: Lsn,
    pub img: Option<(Lsn, Vec<u8>)>,
}

/// The mathematical state of an image layer writer.
pub struct ImageLayerWriterV {
    pub tenantid: ZTenantId,
    pub timelineid: ZTimelineId,
    pub key_range: KeyRange,
    pub lsn: Lsn,
    pub values: Seq<u8>,
    pub index: Seq<(Key, u64)>,
    pub imgs: Map<Key, Seq<u8>>,
    pub finished: bool,
}

/// A writer's books are straight: keys unique, sizes within the format's
/// limits, and every index entry pointing at the blob of exactly the image
/// that was put for its key.
pub open spec fn image_writer_wf(w: ImageLayerWriterV) -> bool {
    &&& w.values.len() <= 0x1000_0000_0000
    &&& w.index.len() <= 0x1_0000_0000
    &&& forall|i: int, j: int| 0 <= i < j < w.index.len() ==> w.index[i].0 != w.index[j].0
    &&& forall|i: int|
        0 <= i < w.index.len() ==> w.imgs.contains_key(#[trigger] w.index[i].0) && blob_at(
            w.values,
            w.index[i].1 as int,
        ) == Some(w.imgs[w.index[i].0])
}

/// The summary a writer's layer will carry.
pub open spec fn writer_summary(w: ImageLayerWriterV) -> Summary {
    Summary { tenantid: w.tenantid, timelineid: w.timelineid, key_range: w.key_range, lsn: w.lsn }
}

/// A builder for one new image layer: feed it every live key of its range
/// with `put_image`, then `finish` it into the immutable file bytes.
pub struct ImageLayerWriter {
    tenantid: ZTenantId,
    timelineid: ZTimelineId,
    key_range: KeyRange,
    lsn: Lsn,
    values: Vec<u8>,
    index: Vec<(Key, u64)>,
    imgs: Ghost<Map<Key, Seq<u8>>>,
    finished: bool,
}

impl View for ImageLayerWriter {
    type V = ImageLayerWriterV;

    closed spec fn view(&self) -> ImageLayerWriterV {
        ImageLayerWriterV {
            tenantid: self.tenantid,
            timelineid: self.timelineid,
            key_range: self.key_range,
            lsn: self.lsn,
            values: self.values@,
            index: self.index@,
            imgs: self.imgs@,
            finished: self.finished,
        }
    }
}

/// The first index entry for `key`, if any.
pub open spec fn index_find(index: Seq<(Key, u64)>, key: Key) -> Option<u64>
    decreases index.len(),
{
    if index.len() == 0 {
        None
    } else if index[0].0 == key {
        Some(index[0].1)
    } else {
        index_find(index.drop_first(), key)
    }
}

/// With unique keys, the lookup finds exactly the entry that is there.
pub proof fn lemma_index_find_unique(index: Seq<(Key, u64)>, key: Key, i: int)
    requires
        forall|a: int, b: int| 0 <= a < b < index.len() ==> index[a].0 != index[b].0,
        0 <= i < index.len(),
        index[i].0 == key,
    ensures
        index_find(index, key) == Some(index[i].1),
    decreases i,
{
    if i == 0 {
    } else {
        assert(index[0].0 != key);
        let d = index.drop_first();
        assert(d[i - 1].0 == key);
        assert(forall|a: int, b: int| 0 <= a < b < d.len() ==> d[a].0 != d[b].0) by {
            assert(forall|a: int| 0 <= a < d.len() ==> d[a] == index[a + 1]);
        }
        lemma_index_find_unique(d, key, i - 1);
    }
}

impl ImageLayerWriter {
    /// Start a new layer for one tenant, timeline, key range and LSN.
    pub fn new(timelineid: ZTimelineId, tenantid: ZTenantId, key_range: &KeyRange, lsn: Lsn) -> (r:
        ImageLayerWriter)
        ensures
            image_writer_wf(r@),
            r@.tenantid == tenantid,
            r@.timelineid == timelineid,
            r@.key_range == *key_range,
            r@.lsn == lsn,
            r@.values == Seq::<u8>::empty(),
            r@.index == Seq::<(Key, u64)>::empty(),
            r@.imgs == Map::<Key, Seq<u8>>::empty(),
            !r@.finished,
    {
        let w = ImageLayerWriter {
            tenantid,
            timelineid,
            key_range: *key_range,
            lsn,
            values: Vec::new(),
            index: Vec::new(),
            imgs: Ghost(Map::empty()),
            finished: false,
        };
        proof {
            assert(w@.values =~= Seq::<u8>::empty());
            assert(w@.index =~= Seq::<(Key, u64)>::empty());
        }
        w
    }

    /// How many bytes of blob stream have been written.
    pub fn values_len(&self) -> (r: usize)
        ensures
            r == self@.values.len(),
    {
        self.values.len()
    }

    /// How many keys have been written.
    pub fn index_len(&self) -> (r: usize)
        ensures
            r == self@.index.len(),
    {
        self.index.len()
    }

    /// Has this key been written already?
    pub fn contains_key(&self, key: Key) -> (r: bool)
        ensures
            r == exists|i: int| 0 <= i < self@.index.len() && (#[trigger] self@.index[i]).0 == key,
    {
        let mut i: usize = 0;
        while i < self.index.len()
            invariant
                i <= self@.index.len(),
                forall|j: int| 0 <= j < i ==> (#[trigger] self@.index[j]).0 != key,
            decreases self@.index.len() - i,
        {
            if self.index[i].0.eq(&key) {
                return true;
            }
            i = i + 1;
        }
        false
    }

    /// Append one key's image as a length-prefixed blob and remember its
    /// offset. The key must lie in the layer's range and must not repeat;
    /// the size bounds are the format's machine limits.
    pub fn put_image(&mut self, key: Key, img: &Vec<u8>) -> (r: Result<(), PageError>)
        requires
            image_writer_wf(old(self)@),
            !old(self)@.finished,
            range_contains(old(self)@.key_range, key),
            forall|i: int|
                0 <= i < old(self)@.index.len() ==> (#[trigger] old(self)@.index[i]).0 != key,
            img@.len() <= u32::MAX,
            old(self)@.values.len() + 4 + img@.len() <= 0x1000_0000_0000,
            old(self)@.index.len() < 0x1_0000_0000,
        ensures
            r is Ok,
            image_writer_wf(final(self)@),
            final(self)@.values == old(self)@.values + blob_bytes(img@),
            final(self)@.index == old(self)@.index.push((key, old(self)@.values.len() as u64)),
            final(self)@.imgs == old(self)@.imgs.insert(key, img@),
            final(self)@.tenantid == old(self)@.tenantid,
            final(self)@.timelineid == old(self)@.timelineid,
            final(self)@.key_range == old(self)@.key_range,
            final(self)@.lsn == old(self)@.lsn,
            final(self)@.finished == old(self)@.finished,
    {
        let ghost vals0 = self@.values;
        let ghost idx0 = self@.index;
        let off = self.values.len();
        push_u32_be(&mut self.values, img.len() as u32);
        push_bytes(&mut self.values, img);
        self.index.push((key, off as u64));
        proof {
            self.imgs@ = self.imgs@.insert(key, img@);
        }
        proof {
            assert(self@.values =~= vals0 + blob_bytes(img@));
            lemma_blob_at_append(vals0, img@);
            assert forall|i: int|
                0 <= i < self@.index.len() implies self@.imgs.contains_key(
                #[trigger] self@.index[i].0,
            ) && blob_at(self@.values, self@.index[i].1 as int) == Some(
                self@.imgs[self@.index[i].0],
            ) by {
                if i < idx0.len() {
                    assert(self@.index[i] == idx0[i]);
                    assert(blob_at(vals0, idx0[i].1 as int) is Some);
                    lemma_blob_at_extend(vals0, blob_bytes(img@), idx0[i].1 as int);
                    assert(idx0[i].0 != key);
                } else {
                    assert(self@.index[i] == (key, off as u64));
                }
            }
        }
        Ok(())
    }

    /// Close the layer: assemble the magic word, the blob stream, the index,
    /// the summary and the trailer into the immutable file bytes, and hand
    /// back an unloaded strict handle for them.
    #[verifier::rlimit(60)]
    pub fn finish(&mut self) -> (r: Result<(Vec<u8>, ImageLayer), PageError>)
        requires
            image_writer_wf(old(self)@),
            !old(self)@.finished,
        ensures
            ({
                let s = writer_summary(old(self)@);
                match r {
                    Ok((bytes, layer)) => {
                        &&& bytes@ == image_file_bytes(old(self)@.values, old(self)@.index, s)
                        &&& layer@.tenantid == s.tenantid
                        &&& layer@.timelineid == s.timelineid
                        &&& layer@.key_range == s.key_range
                        &&& layer@.lsn == s.lsn
                        &&& layer@.strict
                        &&& !layer@.loaded
                        &&& final(self)@ == (ImageLayerWriterV { finished: true, ..old(self)@ })
                    },
                    Err(_) => false,
                }
            }),
    {
        let ghost vals = self@.values;
        let ghost idx = self@.index;
        let mut buf: Vec<u8> = Vec::new();
        push_u32_be(&mut buf, IMAGE_FILE_MAGIC);
        push_bytes(&mut buf, &self.values);
        let vlen = self.values.len();
        let nidx = self.index.len();
        push_u64_be(&mut buf, nidx as u64);
        let mut i: usize = 0;
        while i < nidx
            invariant
                nidx == idx.len(),
                idx == self@.index,
                vals == self@.values,
                vlen == vals.len(),
                i <= nidx,
                buf@ == u32_be(IMAGE_FILE_MAGIC) + vals + u64_be(nidx as u64) + index_entries_ser(
                    idx.take(i as int),
                ),
            decreases nidx - i,
        {
            let e = self.index[i];
            push_key(&mut buf, e.0);
            push_u64_be(&mut buf, e.1);
            proof {
                lemma_index_entries_snoc(idx.take(i as int), idx[i as int]);
                assert(idx.take(i as int + 1) =~= idx.take(i as int).push(idx[i as int]));
                assert(buf@ =~= u32_be(IMAGE_FILE_MAGIC) + vals + u64_be(nidx as u64)
                    + index_entries_ser(idx.take(i as int + 1)));
            }
            i = i + 1;
        }
        proof {
            assert(idx.take(nidx as int) =~= idx);
            lemma_index_entries_len(idx);
        }
        let ilen64: u64 = 8 + 26 * (nidx as u64);
        push_u64_be(&mut buf, self.tenantid.hi);
        push_u64_be(&mut buf, self.tenantid.lo);
        push_u64_be(&mut buf, self.timelineid.hi);
        push_u64_be(&mut buf, self.timelineid.lo);
        push_key(&mut buf, self.key_range.start);
        push_key(&mut buf, self.key_range.end);
        push_u64_be(&mut buf, self.lsn.0);
        push_u64_be(&mut buf, 3);
        push_u64_be(&mut buf, VALUES_CHAPTER);
        push_u64_be(&mut buf, 4);
        push_u64_be(&mut buf, vlen as u64);
        push_u64_be(&mut buf, INDEX_CHAPTER);
        push_u64_be(&mut buf, 4 + vlen as u64);
        push_u64_be(&mut buf, ilen64);
        push_u64_be(&mut buf, SUMMARY_CHAPTER);
        push_u64_be(&mut buf, 4 + vlen as u64 + ilen64);
        push_u64_be(&mut buf, 76);
        push_u64_be(&mut buf, 4 + vlen as u64 + ilen64 + 76);
        self.finished = true;
        let layer = ImageLayer {
            tenantid: self.tenantid,
            timelineid: self.timelineid,
            key_range: self.key_range,
            lsn: self.lsn,
            strict: true,
            inner: ImageLayerInner { loaded: false, values: Vec::new(), index: Vec::new() },
        };
        proof {
            let s = writer_summary(old(self)@);
            assert(buf@ =~= image_file_bytes(vals, idx, s));
        }
        Ok((buf, layer))
    }
}

/// The mathematical state of an image layer handle.
pub struct ImageLayerV {
    pub tenantid: ZTenantId,
    pub timelineid: ZTimelineId,
    pub key_range: KeyRange,
    pub lsn: Lsn,
    pub strict: bool,
    pub loaded: bool,
    pub values: Seq<u8>,
    pub index: Seq<(Key, u64)>,
}

/// The lazily loaded part of an image layer handle: nothing until `load`,
/// then the blob stream and the key-to-offset index.
#[derive(Debug)]
pub struct ImageLayerInner {
    loaded: bool,
    values: Vec<u8>,
    index: Vec<(Key, u64)>,
}

/// The in-memory handle for one on-disk image layer. It always knows what
/// the layer is about; the index and blob stream are loaded on demand and
/// can be dropped again.
#[derive(Debug)]
pub struct ImageLayer {
    pub tenantid: ZTenantId,
    pub timelineid: ZTimelineId,
    pub key_range: KeyRange,
    pub lsn: Lsn,
    strict: bool,
    inner: ImageLayerInner,
}

impl View for ImageLayer {
    type V = ImageLayerV;

    closed spec fn view(&self) -> ImageLayerV {
        ImageLayerV {
            tenantid: self.tenantid,
            timelineid: self.timelineid,
            key_range: self.key_range,
            lsn: self.lsn,
            strict: self.strict,
            loaded: self.inner.loaded,
            values: self.inner.values@,
            index: self.inner.index@,
        }
    }
}

/// The summary a handle expects to find in its file.
pub open spec fn layer_summary(v: ImageLayerV) -> Summary {
    Summary { tenantid: v.tenantid, timelineid: v.timelineid, key_range: v.key_range, lsn: v.lsn }
}

impl ImageLayer {
    /// A strict, unloaded handle for an existing layer file found under the
    /// configured tenant path: tenant and timeline come from the directory,
    /// key range and LSN from the file name. On load, the in-file summary
    /// must agree.
    pub fn new(timelineid: ZTimelineId, tenantid: ZTenantId, filename: &ImageFileName) -> (r:
        ImageLayer)
        ensures
            r@.tenantid == tenantid,
            r@.timelineid == timelineid,
            r@.key_range == filename.key_range,
            r@.lsn == filename.lsn,
            r@.strict,
            !r@.loaded,
    {
        ImageLayer {
            tenantid,
            timelineid,
            key_range: filename.key_range,
            lsn: filename.lsn,
            strict: true,
            inner: ImageLayerInner { loaded: false, values: Vec::new(), index: Vec::new() },
        }
    }

    /// A permissive, unloaded handle built from a bare file, for inspecting
    /// layers outside any tenant directory: everything comes from the
    /// in-file summary. The flag reports whether the given name disagrees
    /// with the summary — a warning, not an error, on this path.
    pub fn new_for_path(name: &ImageFileName, bytes: &Vec<u8>) -> (r: Result<
        (ImageLayer, bool),
        PageError,
    >)
        ensures
            match r {
                Ok((layer, warn)) => image_file_parse(bytes@) matches Some((v, idx, s)) && {
                    &&& layer@.tenantid == s.tenantid
                    &&& layer@.timelineid == s.timelineid
                    &&& layer@.key_range == s.key_range
                    &&& layer@.lsn == s.lsn
                    &&& !layer@.strict
                    &&& !layer@.loaded
                    &&& warn == (*name != ImageFileName { key_range: s.key_range, lsn: s.lsn })
                },
                Err(e) => e == PageError::Corrupt && image_file_parse(bytes@) is None,
            },
    {
        let summary = match read_file_summary(bytes) {
            Ok(s) => s,
            Err(e) => {
                return Err(e);
            },
        };
        let expected = ImageFileName { key_range: summary.key_range, lsn: summary.lsn };
        let warn = !(expected.key_range.start.eq(&name.key_range.start)
            && expected.key_range.end.eq(&name.key_range.end) && expected.lsn.0 == name.lsn.0);
        let layer = ImageLayer {
            tenantid: summary.tenantid,
            timelineid: summary.timelineid,
            key_range: summary.key_range,
            lsn: summary.lsn,
            strict: false,
            inner: ImageLayerInner { loaded: false, values: Vec::new(), index: Vec::new() },
        };
        Ok((layer, warn))
    }

    /// The name this layer's file carries.
    pub fn layer_name(&self) -> (r: ImageFileName)
        ensures
            r == (ImageFileName { key_range: self@.key_range, lsn: self@.lsn }),
    {
        ImageFileName { key_range: self.key_range, lsn: self.lsn }
    }

    /// The name bytes of this layer's file.
    pub fn filename(&self) -> (r: Vec<u8>)
        ensures
            r@ == filename_bytes(ImageFileName { key_range: self@.key_range, lsn: self@.lsn }),
    {
        self.layer_name().to_bytes()
    }

    /// The summary this layer expects in its file.
    pub fn summary(&self) -> (r: Summary)
        ensures
            r == layer_summary(self@),
    {
        Summary {
            tenantid: self.tenantid,
            timelineid: self.timelineid,
            key_range: self.key_range,
            lsn: self.lsn,
        }
    }

    /// The tenant this layer belongs to.
    pub fn get_tenant_id(&self) -> (r: ZTenantId)
        ensures
            r == self@.tenantid,
    {
        self.tenantid
    }

    /// The timeline this layer belongs to.
    pub fn get_timeline_id(&self) -> (r: ZTimelineId)
        ensures
            r == self@.timelineid,
    {
        self.timelineid
    }

    /// The key range this layer covers.
    pub fn get_key_range(&self) -> (r: KeyRange)
        ensures
            r == self@.key_range,
    {
        self.key_range
    }

    /// The LSN range this layer covers: an image layer pins a single point.
    /// The LSN below the maximum is a machine limit of the exclusive end.
    pub fn get_lsn_range(&self) -> (r: LsnRange)
        requires
            self@.lsn.0 < u64::MAX,
        ensures
            r.start == self@.lsn,
            r.end.0 == self@.lsn.0 + 1,
    {
        LsnRange { start: self.lsn, end: Lsn(self.lsn.0 + 1) }
    }

    /// An image layer holds base images, not deltas.
    pub fn is_incremental(&self) -> (r: bool)
        ensures
            !r,
    {
        false
    }

    /// An image layer lives on disk, not in memory.
    pub fn is_in_memory(&self) -> (r: bool)
        ensures
            !r,
    {
        false
    }

    /// Is the index in memory?
    pub fn is_loaded(&self) -> (r: bool)
        ensures
            r == self@.loaded,
    {
        self.inner.loaded
    }

    /// Bring the file's index and blob stream into memory. Loading is
    /// idempotent. Through the strict path the in-file summary must equal
    /// the handle's own; a mismatch is fatal.
    pub fn load(&mut self, bytes: &Vec<u8>) -> (r: Result<(), PageError>)
        ensures
            match r {
                Ok(()) => {
                    &&& final(self)@.tenantid == old(self)@.tenantid
                    &&& final(self)@.timelineid == old(self)@.timelineid
                    &&& final(self)@.key_range == old(self)@.key_range
                    &&& final(self)@.lsn == old(self)@.lsn
                    &&& final(self)@.strict == old(self)@.strict
                    &&& final(self)@.loaded
                    &&& (old(self)@.loaded ==> *final(self) == *old(self))
                    &&& (!old(self)@.loaded ==> (image_file_parse(bytes@) matches Some(
                        (v, idx, s),
                    ) && final(self)@.values == v && final(self)@.index == idx && (
                    old(self)@.strict ==> s == layer_summary(old(self)@))))
                },
                Err(e) => {
                    &&& e == PageError::Corrupt
                    &&& *final(self) == *old(self)
                    &&& !old(self)@.loaded
                    &&& (match image_file_parse(bytes@) {
                        Some((v, idx, s)) => old(self)@.strict && s != layer_summary(old(self)@),
                        None => true,
                    })
                },
            },
    {
        if self.inner.loaded {
            return Ok(());
        }
        let (values, index, summary) = match read_file(bytes) {
            Ok(t) => t,
            Err(e) => {
                return Err(e);
            },
        };
        if self.strict {
            let own = self.summary();
            let same = summary.tenantid.hi == own.tenantid.hi && summary.tenantid.lo
                == own.tenantid.lo && summary.timelineid.hi == own.timelineid.hi
                && summary.timelineid.lo == own.timelineid.lo && summary.key_range.start.eq(
                &own.key_range.start,
            ) && summary.key_range.end.eq(&own.key_range.end) && summary.lsn.0 == own.lsn.0;
            if !same {
                return Err(PageError::Corrupt);
            }
        }
        self.inner.values = values;
        self.inner.index = index;
        self.inner.loaded = true;
        Ok(())
    }

    /// Drop the in-memory index and blob stream; the handle stays usable and
    /// can be loaded again.
    pub fn unload(&mut self) -> (r: Result<(), PageError>)
        ensures
            r is Ok,
            final(self)@.tenantid == old(self)@.tenantid,
            final(self)@.timelineid == old(self)@.timelineid,
            final(self)@.key_range == old(self)@.key_range,
            final(self)@.lsn == old(self)@.lsn,
            final(self)@.strict == old(self)@.strict,
            !final(self)@.loaded,
    {
        self.inner.values = Vec::new();
        self.inner.index = Vec::new();
        self.inner.loaded = false;
        Ok(())
    }

    /// Look up the page for `state.key` in this layer. A cached image at or
    /// past this layer's LSN short-circuits; a key in the index hands back
    /// its blob as a terminal base image; an absent key sends the caller to
    /// older layers.
    pub fn get_value_reconstruct_data(&self, lsn_floor: Lsn, state: &mut ValueReconstructState)
        -> (r: Result<ValueReconstructResult, PageError>)
        requires
            self@.loaded,
            lsn_floor.0 <= self@.lsn.0,
            range_contains(self@.key_range, old(state).key),
            old(state).lsn.0 >= self@.lsn.0,
        ensures
            final(state).key == old(state).key,
            ({
                let cached = old(state).img matches Some(p) && self@.lsn.0 <= p.0.0;
                match r {
                    Ok(res) => {
                        if cached {
                            &&& res == ValueReconstructResult::Complete
                            &&& final(state).img == old(state).img
                            &&& old(state).img matches Some(p) && final(state).lsn == p.0
                        } else {
                            match index_find(self@.index, old(state).key) {
                                Some(off) => {
                                    &&& res == ValueReconstructResult::Complete
                                    &&& blob_at(self@.values, off as int) matches Some(b) && (
                                    final(state).img matches Some(p) && p.0 == self@.lsn && p.1@
                                        == b)
                                    &&& final(state).lsn == self@.lsn
                                },
                                None => {
                                    &&& res == ValueReconstructResult::Missing
                                    &&& final(state).img == old(state).img
                                    &&& final(state).lsn == self@.lsn
                                },
                            }
                        }
                    },
                    Err(e) => {
                        &&& e == PageError::Corrupt
                        &&& !cached
                        &&& index_find(self@.index, old(state).key) matches Some(off) && blob_at(
                            self@.values,
                            off as int,
                        ) is None
                        &&& *final(state) == *old(state)
                    },
                }
            }),
    {
        let cached_lsn: Option<Lsn> = match &state.img {
            Some(p) => Some(p.0),
            None => None,
        };
        if let Some(clsn) = cached_lsn {
            if self.lsn.0 <= clsn.0 {
                state.lsn = clsn;
                return Ok(ValueReconstructResult::Complete);
            }
        }
        let key = state.key;
        let ghost idx = self@.index;
        let n = self.inner.index.len();
        let mut i: usize = 0;
        proof {
            assert(idx.skip(0) =~= idx);
        }
        while i < n
            invariant
                n == idx.len(),
                idx == self@.index,
                i <= n,
                *state == *old(state),
                key == old(state).key,
                !(old(state).img matches Some(p) && self@.lsn.0 <= p.0.0),
                index_find(idx, key) == index_find(idx.skip(i as int), key),
            decreases n - i,
        {
            proof {
                assert(idx.skip(i as int)[0] == idx[i as int]);
                assert(idx.skip(i as int).drop_first() =~= idx.skip(i as int + 1));
            }
            let e = self.inner.index[i];
            if e.0.eq(&key) {
                proof {
                    assert(index_find(idx, key) == Some(idx[i as int].1));
                }
                let off64 = e.1;
                let len64 = self.inner.values.len() as u64;
                if off64 >= len64 || len64 - off64 < 4 {
                    return Err(PageError::Corrupt);
                }
                let off = off64 as usize;
                let blen = read_u32_be(&self.inner.values, off);
                proof {
                    lemma_u32_of_be_of(blen);
                }
                if (blen as u64) > len64 - off64 - 4 {
                    return Err(PageError::Corrupt);
                }
                let img = copy_range(&self.inner.values, off + 4, blen as usize);
                state.img = Some((self.lsn, img));
                state.lsn = self.lsn;
                return Ok(ValueReconstructResult::Complete);
            }
            i = i + 1;
        }
        proof {
            assert(idx.skip(n as int) =~= Seq::<(Key, u64)>::empty());
        }
        state.lsn = self.lsn;
        Ok(ValueReconstructResult::Missing)
    }

    /// Add to `keys` every indexed key that lies in `key_range` and is not
    /// already there.
    pub fn collect_keys(&self, key_range: &KeyRange, keys: &mut Vec<Key>) -> (r: Result<
        (),
        PageError,
    >)
        requires
            self@.loaded,
        ensures
            r is Ok,
            forall|k: Key| old(keys)@.contains(k) ==> final(keys)@.contains(k),
            forall|i: int|
                0 <= i < self@.index.len() && range_contains(
                    *key_range,
                    (#[trigger] self@.index[i]).0,
                ) ==> final(keys)@.contains(self@.index[i].0),
            forall|k: Key| #[trigger]
                final(keys)@.contains(k) ==> old(keys)@.contains(k) || (range_contains(
                    *key_range,
                    k,
                ) && exists|i: int| 0 <= i < self@.index.len() && (#[trigger] self@.index[i]).0 == k),
    {
        let n = self.inner.index.len();
        let mut i: usize = 0;
        while i < n
            invariant
                n == self@.index.len(),
                i <= n,
                forall|k: Key| old(keys)@.contains(k) ==> keys@.contains(k),
                forall|j: int|
                    0 <= j < i && range_contains(*key_range, (#[trigger] self@.index[j]).0)
                        ==> keys@.contains(self@.index[j].0),
                forall|k: Key| #[trigger]
                    keys@.contains(k) ==> old(keys)@.contains(k) || (range_contains(*key_range, k)
                        && exists|j: int|
                        0 <= j < i && (#[trigger] self@.index[j]).0 == k),
            decreases n - i,
        {
            let ghost prev = keys@;
            let e = self.inner.index[i];
            if key_range.contains(&e.0) {
                if !vec_contains_key(keys, &e.0) {
                    keys.push(e.0);
                    proof {
                        assert(keys@.last() == e.0);
                        assert forall|k: Key| prev.contains(k) implies keys@.contains(k) by {
                            let m = choose|m: int| 0 <= m < prev.len() && prev[m] == k;
                            assert(keys@[m] == k);
                        }
                        assert forall|k: Key| #[trigger]
                            keys@.contains(k) implies prev.contains(k) || k == e.0 by {
                            let m = choose|m: int| 0 <= m < keys@.len() && keys@[m] == k;
                            if m < prev.len() {
                                assert(prev[m] == k);
                            }
                        }
                        assert(self@.index[i as int].0 == e.0);
                    }
                }
            }
            i = i + 1;
        }
        Ok(())
    }

    /// The index as stored: each key with its blob offset. The writer
    /// assigns offsets in insertion order, so for files it produced this is
    /// offset order.
    pub fn dump(&self) -> (r: Vec<(Key, u64)>)
        requires
            self@.loaded,
        ensures
            r@ == self@.index,
    {
        let mut r: Vec<(Key, u64)> = Vec::new();
        let mut i: usize = 0;
        let n = self.inner.index.len();
        while i < n
            invariant
                n == self@.index.len(),
                i <= n,
                r@ == self@.index.take(i as int),
            decreases n - i,
        {
            r.push(self.inner.index[i]);
            proof {
                assert(r@ =~= self@.index.take(i as int + 1));
            }
            i = i + 1;
        }
        proof {
            assert(self@.index.take(n as int) =~= self@.index);
        }
        r
    }
}

/// Is `key` in the vector?
fn vec_contains_key(keys: &Vec<Key>, key: &Key) -> (r: bool)
    ensures
        r == keys@.contains(*key),
{
    let mut i: usize = 0;
    while i < keys.len()
        invariant
            i <= keys@.len(),
            forall|j: int| 0 <= j < i ==> keys@[j] != *key,
        decreases keys@.len() - i,
    {
        if keys[i].eq(key) {
            return true;
        }
        i = i + 1;
    }
    false
}

/// Check a layer file's magic and trailer and name the chapter positions.
fn read_file_layout(bytes: &Vec<u8>) -> (r: Result<(usize, usize, usize, usize), PageError>)
    ensures
        match r {
            Ok((vlen, ioff, ilen, soff)) => file_layout(bytes@) == Some(
                (vlen as int, ioff as int, ilen as int, soff as int),
            ),
            Err(e) => e == PageError::Corrupt && file_layout(bytes@) is None,
        },
{
    let len = bytes.len();
    if len < 176 {
        return Err(PageError::Corrupt);
    }
    let toff64 = read_u64_be(bytes, len - 8);
    proof {
        lemma_u64_of_be_of(toff64);
        assert(bytes@.subrange(len - 8, len as int) =~= bytes@.subrange(
            bytes@.len() - 8,
            bytes@.len() as int,
        ));
    }
    let magic = read_u32_be(bytes, 0);
    if magic != IMAGE_FILE_MAGIC {
        proof {
            if bytes@.subrange(0, 4) == u32_be(IMAGE_FILE_MAGIC) {
                crate::codec::lemma_u32_be_injective(magic, IMAGE_FILE_MAGIC);
            }
        }
        return Err(PageError::Corrupt);
    }
    let len64 = len as u64;
    if toff64 != len64 - 88 || toff64 < 88 {
        return Err(PageError::Corrupt);
    }
    let toff = toff64 as usize;
    let count = read_u64_be(bytes, toff);
    let id1 = read_u64_be(bytes, toff + 8);
    let voff64 = read_u64_be(bytes, toff + 16);
    let vlen64 = read_u64_be(bytes, toff + 24);
    let id2 = read_u64_be(bytes, toff + 32);
    let ioff64 = read_u64_be(bytes, toff + 40);
    let ilen64 = read_u64_be(bytes, toff + 48);
    let id3 = read_u64_be(bytes, toff + 56);
    let soff64 = read_u64_be(bytes, toff + 64);
    let slen64 = read_u64_be(bytes, toff + 72);
    proof {
        lemma_u64_of_be_of(count);
        lemma_u64_of_be_of(id1);
        lemma_u64_of_be_of(voff64);
        lemma_u64_of_be_of(vlen64);
        lemma_u64_of_be_of(id2);
        lemma_u64_of_be_of(ioff64);
        lemma_u64_of_be_of(ilen64);
        lemma_u64_of_be_of(id3);
        lemma_u64_of_be_of(soff64);
        lemma_u64_of_be_of(slen64);
    }
    if count != 3 || id1 != VALUES_CHAPTER || voff64 != 4 || id2 != INDEX_CHAPTER || id3
        != SUMMARY_CHAPTER || slen64 != 76 {
        return Err(PageError::Corrupt);
    }
    if soff64 != toff64 - 76 {
        return Err(PageError::Corrupt);
    }
    if ilen64 > soff64 || ioff64 != soff64 - ilen64 {
        return Err(PageError::Corrupt);
    }
    if ioff64 < 4 || vlen64 != ioff64 - 4 {
        return Err(PageError::Corrupt);
    }
    Ok((vlen64 as usize, ioff64 as usize, ilen64 as usize, soff64 as usize))
}

/// Decode an INDEX chapter.
fn read_index(bytes: &Vec<u8>, ioff: usize, ilen: usize) -> (r: Result<
    Vec<(Key, u64)>,
    PageError,
>)
    requires
        ioff + ilen <= bytes@.len(),
    ensures
        match r {
            Ok(idx) => index_parse(bytes@.subrange(ioff as int, ioff as int + ilen)) == Some(idx@),
            Err(e) => e == PageError::Corrupt && index_parse(
                bytes@.subrange(ioff as int, ioff as int + ilen),
            ) is None,
        },
{
    let ghost chapter = bytes@.subrange(ioff as int, ioff as int + ilen);
    let blen = bytes.len();
    if ilen < 8 {
        return Err(PageError::Corrupt);
    }
    let n64 = read_u64_be(bytes, ioff);
    proof {
        lemma_u64_of_be_of(n64);
        assert(chapter.take(8) =~= bytes@.subrange(ioff as int, ioff as int + 8));
        assert(u64_of_be(chapter.take(8)) == n64);
        lemma_index_entries_parse_shape(chapter.skip(8), n64 as nat);
    }
    let body = ilen - 8;
    if n64 > (body / 26) as u64 {
        return Err(PageError::Corrupt);
    }
    let n = n64 as usize;
    if body != 26 * n {
        return Err(PageError::Corrupt);
    }
    let mut idx: Vec<(Key, u64)> = Vec::new();
    let mut i: usize = 0;
    while i < n
        invariant
            ioff + ilen <= blen,
            blen == bytes@.len(),
            ilen == 8 + 26 * n,
            chapter == bytes@.subrange(ioff as int, ioff as int + ilen),
            index_parse(chapter) == index_entries_parse(chapter.skip(8), n as nat),
            i <= n,
            idx@.len() == i,
            forall|j: int|
                0 <= j < i ==> #[trigger] idx@[j] == (
                    key_of_bytes(chapter.skip(8).subrange(26 * j, 26 * j + 18)),
                    u64_of_be(chapter.skip(8).subrange(26 * j + 18, 26 * j + 26)),
                ),
        decreases n - i,
    {
        let k = read_key(bytes, ioff + 8 + 26 * i);
        let off = read_u64_be(bytes, ioff + 8 + 26 * i + 18);
        proof {
            lemma_key_of_bytes_of(k);
            lemma_u64_of_be_of(off);
            assert(chapter.skip(8).subrange(26 * i as int, 26 * i as int + 18) =~= bytes@.subrange(
                ioff + 8 + 26 * i as int,
                ioff + 8 + 26 * i as int + 18,
            ));
            assert(chapter.skip(8).subrange(26 * i as int + 18, 26 * i as int + 26)
                =~= bytes@.subrange(
                ioff + 8 + 26 * i as int + 18,
                ioff + 8 + 26 * i as int + 26,
            ));
        }
        idx.push((k, off));
        i = i + 1;
    }
    proof {
        lemma_index_entries_parse_shape(chapter.skip(8), n as nat);
        let parsed = index_entries_parse(chapter.skip(8), n as nat)->Some_0;
        assert(idx@ =~= parsed);
    }
    Ok(idx)
}

/// Decode a SUMMARY chapter.
fn read_summary_at(bytes: &Vec<u8>, soff: usize) -> (s: Summary)
    requires
        soff + 76 <= bytes@.len(),
    ensures
        summary_parse(bytes@.subrange(soff as int, soff as int + 76)) == Some(s),
{
    let ch = copy_range(bytes, soff, 76);
    let t_hi = read_u64_be(&ch, 0);
    let t_lo = read_u64_be(&ch, 8);
    let l_hi = read_u64_be(&ch, 16);
    let l_lo = read_u64_be(&ch, 24);
    let start = read_key(&ch, 32);
    let end = read_key(&ch, 50);
    let lsn = read_u64_be(&ch, 68);
    proof {
        lemma_u64_of_be_of(t_hi);
        lemma_u64_of_be_of(t_lo);
        lemma_u64_of_be_of(l_hi);
        lemma_u64_of_be_of(l_lo);
        lemma_key_of_bytes_of(start);
        lemma_key_of_bytes_of(end);
        lemma_u64_of_be_of(lsn);
    }
    Summary {
        tenantid: ZTenantId { hi: t_hi, lo: t_lo },
        timelineid: ZTimelineId { hi: l_hi, lo: l_lo },
        key_range: KeyRange { start, end },
        lsn: Lsn(lsn),
    }
}

/// Decode a whole layer file into its blob stream, index and summary.
fn read_file(bytes: &Vec<u8>) -> (r: Result<(Vec<u8>, Vec<(Key, u64)>, Summary), PageError>)
    ensures
        match r {
            Ok((v, idx, s)) => image_file_parse(bytes@) == Some((v@, idx@, s)),
            Err(e) => e == PageError::Corrupt && image_file_parse(bytes@) is None,
        },
{
    let (vlen, ioff, ilen, soff) = match read_file_layout(bytes) {
        Ok(t) => t,
        Err(e) => {
            return Err(e);
        },
    };
    proof {
        lemma_file_layout_bounds(bytes@);
    }
    let values = copy_range(bytes, 4, vlen);
    let index = match read_index(bytes, ioff, ilen) {
        Ok(idx) => idx,
        Err(e) => {
            return Err(e);
        },
    };
    let summary = read_summary_at(bytes, soff);
    Ok((values, index, summary))
}

/// Decode only the summary of a layer file, checking the whole layout.
fn read_file_summary(bytes: &Vec<u8>) -> (r: Result<Summary, PageError>)
    ensures
        match r {
            Ok(s) => image_file_parse(bytes@) matches Some((v, idx, s2)) && s2 == s,
            Err(e) => e == PageError::Corrupt && image_file_parse(bytes@) is None,
        },
{
    match read_file(bytes) {
        Ok((_, _, s)) => Ok(s),
        Err(e) => Err(e),
    }
}

/// Law (a layer hands back exactly what was put into it): the bytes a
/// finished writer produces parse back to its blob stream, index and
/// summary; every index entry's offset reads back the image that was put for
/// its key; and the index lookup lands on that entry. Together with the
/// reader's contract, a loaded layer serves, for every written key, exactly
/// the written bytes.
pub proof fn lemma_image_layer_round_trip(w: ImageLayerWriterV)
    requires
        image_writer_wf(w),
    ensures
        image_file_parse(image_file_bytes(w.values, w.index, writer_summary(w))) == Some(
            (w.values, w.index, writer_summary(w)),
        ),
        forall|i: int|
            0 <= i < w.index.len() ==> blob_at(w.values, (#[trigger] w.index[i]).1 as int) == Some(
                w.imgs[w.index[i].0],
            ),
        forall|i: int|
            0 <= i < w.index.len() ==> index_find(w.index, (#[trigger] w.index[i]).0) == Some(
                w.index[i].1,
            ),
{
    lemma_image_file_round_trip(w.values, w.index, writer_summary(w));
    assert forall|i: int|
        0 <= i < w.index.len() implies index_find(w.index, (#[trigger] w.index[i]).0) == Some(
        w.index[i].1,
    ) by {
        lemma_index_find_unique(w.index, w.index[i].0, i);
    }
}

/// Decoded hex is half as long as its digits.
proof fn lemma_unhex_len(h: Seq<u8>, v: Seq<u8>)
    requires
        unhex_bytes(h) == Some(v),
    ensures
        2 * v.len() == h.len(),
    decreases h.len(),
{
    if h.len() >= 2 {
        let rest = unhex_bytes(h.skip(2))->Some_0;
        lemma_unhex_len(h.skip(2), rest);
    }
}

} // verus!
