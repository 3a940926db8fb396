//! Directory blobs.
//!
//! Each directory is a set stored as a single self-describing blob at a
//! well-known key: the databases that exist, the relations under one
//! database, the SLRU segments of one kind, and the prepared-transaction
//! xids. The blob is a length-prefixed array of 64-bit entries in a stable
//! big-endian layout; entries are kept strictly sorted so the encoding is
//! canonical.

use vstd::prelude::*;

use crate::codec::lemma_u64_be_encode;
use crate::codec::push_u64_be;
use crate::codec::read_u64_be;
use crate::codec::u64_be;
use crate::codec::u32_le;
use crate::codec::push_u32_le;
use crate::codec::read_u32_le;
use crate::PageError;

verus! {

/// Strictly ascending, hence duplicate-free.
pub open spec fn sorted_strict(s: Seq<u64>) -> bool {
    forall|i: int, j: int| 0 <= i < j < s.len() ==> s[i] < s[j]
}

/// The value of eight big-endian bytes.
pub open spec fn u64_of_be(s: Seq<u8>) -> u64 {
    ((s[0] as u64) << 56) | ((s[1] as u64) << 48) | ((s[2] as u64) << 40) | ((s[3] as u64) << 32)
        | ((s[4] as u64) << 24) | ((s[5] as u64) << 16) | ((s[6] as u64) << 8) | (s[7] as u64)
}

/// Reading back the big-endian bytes of `x` yields `x`.
pub proof fn lemma_u64_of_be_of(x: u64)
    ensures
        u64_of_be(u64_be(x)) == x,
{
    lemma_u64_be_encode(x);
}

/// The entries of a directory, one after the other, big-endian.
pub open spec fn ser_entries(s: Seq<u64>) -> Seq<u8>
    decreases s.len(),
{
    if s.len() == 0 {
        Seq::empty()
    } else {
        u64_be(s[0]) + ser_entries(s.drop_first())
    }
}

/// The blob encoding of a directory: entry count, then the entries.
pub open spec fn dirset_ser(s: Seq<u64>) -> Seq<u8> {
    u64_be(s.len() as u64) + ser_entries(s)
}

/// Parse `n` consecutive big-endian entries covering all of `b`.
pub open spec fn parse_entries(b: Seq<u8>, n: nat) -> Option<Seq<u64>>
    decreases n,
{
    if n == 0 {
        if b.len() == 0 {
            Some(Seq::empty())
        } else {
            None
        }
    } else if b.len() < 8 {
        None
    } else {
        match parse_entries(b.skip(8), (n - 1) as nat) {
            Some(rest) => Some(seq![u64_of_be(b.take(8))] + rest),
            None => None,
        }
    }
}

/// Parse a directory blob back into its entries.
pub open spec fn dirset_parse(b: Seq<u8>) -> Option<Seq<u64>> {
    if b.len() < 8 {
        None
    } else {
        parse_entries(b.skip(8), u64_of_be(b.take(8)) as nat)
    }
}

/// The entry section is eight bytes per entry.
pub proof fn lemma_ser_entries_len(s: Seq<u64>)
    ensures
        ser_entries(s).len() == 8 * s.len(),
    decreases s.len(),
{
    if s.len() > 0 {
        lemma_ser_entries_len(s.drop_first());
    }
}

/// Appending one entry appends its eight bytes.
pub proof fn lemma_ser_entries_snoc(s: Seq<u64>, x: u64)
    ensures
        ser_entries(s.push(x)) == ser_entries(s) + u64_be(x),
    decreases s.len(),
{
    if s.len() == 0 {
        assert(s.push(x)[0] == x);
        assert(s.push(x).drop_first() =~= Seq::<u64>::empty());
        assert(ser_entries(Seq::<u64>::empty()) == Seq::<u8>::empty());
        assert(ser_entries(s.push(x)) =~= ser_entries(s) + u64_be(x));
    } else {
        assert(s.push(x)[0] == s[0]);
        assert(s.push(x).drop_first() =~= s.drop_first().push(x));
        lemma_ser_entries_snoc(s.drop_first(), x);
        assert(ser_entries(s.push(x)) =~= ser_entries(s) + u64_be(x));
    }
}

/// Parsing succeeds exactly when the byte count matches, and then recovers
/// each entry from its eight bytes.
pub proof fn lemma_parse_entries_shape(b: Seq<u8>, n: nat)
    ensures
        parse_entries(b, n) is Some <==> b.len() == 8 * n,
        parse_entries(b, n) is Some ==> {
            let s = parse_entries(b, n)->Some_0;
            s.len() == n && forall|i: int|
                0 <= i < n ==> s[i] == u64_of_be(b.subrange(8 * i, 8 * i + 8))
        },
    decreases n,
{
    if n > 0 && b.len() >= 8 {
        lemma_parse_entries_shape(b.skip(8), (n - 1) as nat);
        if parse_entries(b, n) is Some {
            let rest = parse_entries(b.skip(8), (n - 1) as nat)->Some_0;
            let s = parse_entries(b, n)->Some_0;
            assert(b.take(8) =~= b.subrange(0, 8));
            assert forall|i: int| 0 <= i < n implies s[i] == u64_of_be(
                b.subrange(8 * i, 8 * i + 8),
            ) by {
                if i > 0 {
                    assert(rest[i - 1] == u64_of_be(b.skip(8).subrange(8 * (i - 1), 8 * (i - 1) + 8)));
                    assert(b.skip(8).subrange(8 * (i - 1), 8 * (i - 1) + 8) =~= b.subrange(
                        8 * i,
                        8 * i + 8,
                    ));
                }
            }
        }
    }
}

/// Parsing inverts serialization for the entry section.
pub proof fn lemma_parse_entries_of_ser(s: Seq<u64>)
    ensures
        parse_entries(ser_entries(s), s.len()) == Some(s),
    decreases s.len(),
{
    lemma_ser_entries_len(s);
    if s.len() == 0 {
    } else {
        let b = ser_entries(s);
        lemma_ser_entries_len(s.drop_first());
        assert(b.take(8) =~= u64_be(s[0]));
        assert(b.skip(8) =~= ser_entries(s.drop_first()));
        lemma_parse_entries_of_ser(s.drop_first());
        lemma_u64_of_be_of(s[0]);
        assert(seq![u64_of_be(b.take(8))] + s.drop_first() =~= s);
    }
}

/// A directory blob decodes back to the entries it was built from.
pub proof fn lemma_dirset_round_trip(s: Seq<u64>)
    requires
        s.len() <= u64::MAX,
    ensures
        dirset_parse(dirset_ser(s)) == Some(s),
{
    let b = dirset_ser(s);
    lemma_ser_entries_len(s);
    assert(b.take(8) =~= u64_be(s.len() as u64));
    assert(b.skip(8) =~= ser_entries(s));
    lemma_u64_of_be_of(s.len() as u64);
    lemma_parse_entries_of_ser(s);
}

/// Insert into a strictly sorted sequence, keeping it sorted; already-present
/// entries leave the sequence unchanged.
pub open spec fn insert_sorted(s: Seq<u64>, x: u64) -> Seq<u64>
    decreases s.len(),
{
    if s.len() == 0 {
        seq![x]
    } else if x < s[0] {
        seq![x] + s
    } else if x == s[0] {
        s
    } else {
        seq![s[0]] + insert_sorted(s.drop_first(), x)
    }
}

/// Remove from a strictly sorted sequence; absent entries leave it unchanged.
pub open spec fn remove_sorted(s: Seq<u64>, x: u64) -> Seq<u64>
    decreases s.len(),
{
    if s.len() == 0 {
        s
    } else if x == s[0] {
        s.drop_first()
    } else {
        seq![s[0]] + remove_sorted(s.drop_first(), x)
    }
}

/// What insertion does: sortedness kept, membership grown by exactly `x`.
pub proof fn lemma_insert_sorted_props(s: Seq<u64>, x: u64)
    requires
        sorted_strict(s),
    ensures
        sorted_strict(insert_sorted(s, x)),
        forall|y: u64| insert_sorted(s, x).contains(y) <==> (s.contains(y) || y == x),
        s.contains(x) ==> insert_sorted(s, x) == s,
        !s.contains(x) ==> insert_sorted(s, x).len() == s.len() + 1,
    decreases s.len(),
{
    if s.len() == 0 {
        assert forall|y: u64| insert_sorted(s, x).contains(y) implies (s.contains(y) || y == x) by {}
        assert(insert_sorted(s, x).contains(x)) by {
            assert(insert_sorted(s, x)[0] == x);
        }
    } else if x < s[0] {
        let t = seq![x] + s;
        assert forall|y: u64| t.contains(y) implies (s.contains(y) || y == x) by {
            let i = choose|i: int| 0 <= i < t.len() && t[i] == y;
            if i > 0 {
                assert(s[i - 1] == y);
            }
        }
        assert forall|y: u64| (s.contains(y) || y == x) implies t.contains(y) by {
            if y == x {
                assert(t[0] == x);
            } else {
                let i = choose|i: int| 0 <= i < s.len() && s[i] == y;
                assert(t[i + 1] == y);
            }
        }
        assert(!s.contains(x)) by {
            if s.contains(x) {
                let i = choose|i: int| 0 <= i < s.len() && s[i] == x;
                assert(s[0] <= s[i]);
            }
        }
    } else if x == s[0] {
        assert(s.contains(x)) by {
            assert(s[0] == x);
        }
    } else {
        let d = s.drop_first();
        assert(sorted_strict(d));
        lemma_insert_sorted_props(d, x);
        let t = seq![s[0]] + insert_sorted(d, x);
        assert(insert_sorted(s, x) == t);
        assert forall|i: int, j: int| 0 <= i < j < t.len() implies t[i] < t[j] by {
            if i == 0 {
                let u = insert_sorted(d, x);
                assert(u.contains(u[j - 1]));
                if u[j - 1] == x {
                } else {
                    assert(d.contains(u[j - 1]));
                    let m = choose|m: int| 0 <= m < d.len() && d[m] == u[j - 1];
                    assert(s[m + 1] == d[m]);
                }
            }
        }
        assert forall|y: u64| t.contains(y) implies (s.contains(y) || y == x) by {
            let i = choose|i: int| 0 <= i < t.len() && t[i] == y;
            if i == 0 {
                assert(s[0] == y);
            } else {
                assert(insert_sorted(d, x).contains(y)) by {
                    assert(insert_sorted(d, x)[i - 1] == y);
                }
                if y != x {
                    assert(d.contains(y));
                    let m = choose|m: int| 0 <= m < d.len() && d[m] == y;
                    assert(s[m + 1] == y);
                }
            }
        }
        assert forall|y: u64| (s.contains(y) || y == x) implies t.contains(y) by {
            if y == x {
                assert(insert_sorted(d, x).contains(x));
                let m = choose|m: int| 0 <= m < insert_sorted(d, x).len() && insert_sorted(d, x)[m]
                    == x;
                assert(t[m + 1] == x);
            } else {
                let i = choose|i: int| 0 <= i < s.len() && s[i] == y;
                if i == 0 {
                    assert(t[0] == y);
                } else {
                    assert(d.contains(y)) by {
                        assert(d[i - 1] == y);
                    }
                    assert(insert_sorted(d, x).contains(y));
                    let m = choose|m: int| 0 <= m < insert_sorted(d, x).len() && insert_sorted(
                        d,
                        x,
                    )[m] == y;
                    assert(t[m + 1] == y);
                }
            }
        }
        if s.contains(x) {
            assert(d.contains(x)) by {
                let i = choose|i: int| 0 <= i < s.len() && s[i] == x;
                assert(i > 0);
                assert(d[i - 1] == x);
            }
            assert(insert_sorted(s, x) =~= s);
        } else {
            assert(!d.contains(x)) by {
                if d.contains(x) {
                    let m = choose|m: int| 0 <= m < d.len() && d[m] == x;
                    assert(s[m + 1] == x);
                }
            }
        }
    }
}

/// What removal does: sortedness kept, membership shrunk by exactly `x`.
pub proof fn lemma_remove_sorted_props(s: Seq<u64>, x: u64)
    requires
        sorted_strict(s),
    ensures
        sorted_strict(remove_sorted(s, x)),
        forall|y: u64| remove_sorted(s, x).contains(y) <==> (s.contains(y) && y != x),
        !s.contains(x) ==> remove_sorted(s, x) == s,
        s.contains(x) ==> remove_sorted(s, x).len() + 1 == s.len(),
    decreases s.len(),
{
    if s.len() == 0 {
    } else if x == s[0] {
        let d = s.drop_first();
        assert(s.contains(x)) by {
            assert(s[0] == x);
        }
        assert forall|y: u64| d.contains(y) implies (s.contains(y) && y != x) by {
            let i = choose|i: int| 0 <= i < d.len() && d[i] == y;
            assert(s[i + 1] == y);
            assert(s[0] < s[i + 1]);
        }
        assert forall|y: u64| (s.contains(y) && y != x) implies d.contains(y) by {
            let i = choose|i: int| 0 <= i < s.len() && s[i] == y;
            assert(i > 0);
            assert(d[i - 1] == y);
        }
    } else {
        let d = s.drop_first();
        assert(sorted_strict(d));
        lemma_remove_sorted_props(d, x);
        let t = seq![s[0]] + remove_sorted(d, x);
        assert(remove_sorted(s, x) == t);
        assert forall|i: int, j: int| 0 <= i < j < t.len() implies t[i] < t[j] by {
            if i == 0 {
                let u = remove_sorted(d, x);
                assert(u.contains(u[j - 1]));
                assert(d.contains(u[j - 1]));
                let m = choose|m: int| 0 <= m < d.len() && d[m] == u[j - 1];
                assert(s[m + 1] == d[m]);
            }
        }
        assert forall|y: u64| t.contains(y) implies (s.contains(y) && y != x) by {
            let i = choose|i: int| 0 <= i < t.len() && t[i] == y;
            if i == 0 {
                assert(s[0] == y);
            } else {
                assert(remove_sorted(d, x).contains(y)) by {
                    assert(remove_sorted(d, x)[i - 1] == y);
                }
                assert(d.contains(y));
                let m = choose|m: int| 0 <= m < d.len() && d[m] == y;
                assert(s[m + 1] == y);
            }
        }
        assert forall|y: u64| (s.contains(y) && y != x) implies t.contains(y) by {
            let i = choose|i: int| 0 <= i < s.len() && s[i] == y;
            if i == 0 {
                assert(t[0] == y);
            } else {
                assert(d.contains(y)) by {
                    assert(d[i - 1] == y);
                }
                assert(remove_sorted(d, x).contains(y));
                let m = choose|m: int| 0 <= m < remove_sorted(d, x).len() && remove_sorted(d, x)[m]
                    == y;
                assert(t[m + 1] == y);
            }
        }
        if s.contains(x) {
            assert(d.contains(x)) by {
                let i = choose|i: int| 0 <= i < s.len() && s[i] == x;
                assert(i > 0);
                assert(d[i - 1] == x);
            }
        } else {
            assert(!d.contains(x)) by {
                if d.contains(x) {
                    let m = choose|m: int| 0 <= m < d.len() && d[m] == x;
                    assert(s[m + 1] == x);
                }
            }
            assert(remove_sorted(s, x) =~= s);
        }
    }
}

/// A strictly sorted set of 64-bit entries: the common shape of every
/// directory.
#[derive(Debug)]
pub struct DirSet {
    entries: Vec<u64>,
}

impl View for DirSet {
    type V = Seq<u64>;

    closed spec fn view(&self) -> Seq<u64> {
        self.entries@
    }
}

impl DirSet {
    /// The entries are strictly ascending.
    pub open spec fn wf(self) -> bool {
        sorted_strict(self@)
    }

    /// The empty set.
    pub fn new() -> (r: DirSet)
        ensures
            r@ == Seq::<u64>::empty(),
            r.wf(),
    {
        DirSet { entries: Vec::new() }
    }

    /// Number of entries.
    pub fn len(&self) -> (r: usize)
        ensures
            r == self@.len(),
    {
        self.entries.len()
    }

    /// The entry at position `i` in ascending order.
    pub fn index(&self, i: usize) -> (r: u64)
        requires
            i < self@.len(),
        ensures
            r == self@[i as int],
    {
        self.entries[i]
    }

    /// Membership test.
    pub fn contains(&self, x: u64) -> (r: bool)
        ensures
            r == self@.contains(x),
    {
        let mut i: usize = 0;
        while i < self.entries.len()
            invariant
                i <= self@.len(),
                forall|j: int| 0 <= j < i ==> self@[j] != x,
            decreases self@.len() - i,
        {
            if self.entries[i] == x {
                return true;
            }
            i = i + 1;
        }
        false
    }

    /// Insert `x`; reports whether it was new.
    pub fn insert(&mut self, x: u64) -> (added: bool)
        requires
            old(self).wf(),
        ensures
            final(self).wf(),
            final(self)@ == insert_sorted(old(self)@, x),
            added == !old(self)@.contains(x),
    {
        let ghost s = self@;
        let mut i: usize = 0;
        while i < self.entries.len() && self.entries[i] < x
            invariant
                self@ == s,
                i <= s.len(),
                forall|j: int| 0 <= j < i ==> s[j] < x,
            decreases s.len() - i,
        {
            i = i + 1;
        }
        if i < self.entries.len() && self.entries[i] == x {
            proof {
                lemma_insert_sorted_present(s, x, i as int);
                assert(s.contains(x)) by {
                    assert(s[i as int] == x);
                }
            }
            false
        } else {
            proof {
                lemma_insert_sorted_at(s, x, i as int);
                lemma_insert_sorted_props(s, x);
                assert(!s.contains(x)) by {
                    if s.contains(x) {
                        let m = choose|m: int| 0 <= m < s.len() && s[m] == x;
                        assert(m >= i);
                        assert(i < s.len() ==> x < s[i as int]);
                        assert(i < s.len() ==> s[i as int] <= s[m]);
                    }
                }
            }
            self.entries.insert(i, x);
            proof {
                assert(self@ =~= s.take(i as int) + seq![x] + s.skip(i as int));
            }
            true
        }
    }

    /// Remove `x`; reports whether it was present.
    pub fn remove(&mut self, x: u64) -> (removed: bool)
        requires
            old(self).wf(),
        ensures
            final(self).wf(),
            final(self)@ == remove_sorted(old(self)@, x),
            removed == old(self)@.contains(x),
    {
        let ghost s = self@;
        let mut i: usize = 0;
        while i < self.entries.len() && self.entries[i] < x
            invariant
                self@ == s,
                i <= s.len(),
                forall|j: int| 0 <= j < i ==> s[j] < x,
            decreases s.len() - i,
        {
            i = i + 1;
        }
        if i < self.entries.len() && self.entries[i] == x {
            proof {
                lemma_remove_sorted_at(s, x, i as int);
                lemma_remove_sorted_props(s, x);
                assert(s.contains(x)) by {
                    assert(s[i as int] == x);
                }
            }
            self.entries.remove(i);
            proof {
                assert(self@ =~= s.take(i as int) + s.skip(i as int + 1));
            }
            true
        } else {
            proof {
                assert(!s.contains(x)) by {
                    if s.contains(x) {
                        let m = choose|m: int| 0 <= m < s.len() && s[m] == x;
                        assert(m >= i);
                        assert(i < s.len() ==> x < s[i as int]);
                        assert(i < s.len() ==> s[i as int] <= s[m]);
                    }
                }
                lemma_remove_sorted_props(s, x);
            }
            false
        }
    }

    /// Are all entries at most `bound`?
    pub fn all_at_most(&self, bound: u64) -> (r: bool)
        ensures
            r == entries_bounded(self@, bound),
    {
        let mut i: usize = 0;
        while i < self.entries.len()
            invariant
                i <= self@.len(),
                forall|j: int| 0 <= j < i ==> self@[j] <= bound,
            decreases self@.len() - i,
        {
            if self.entries[i] > bound {
                return false;
            }
            i = i + 1;
        }
        true
    }

    /// The canonical blob encoding.
    pub fn ser(&self) -> (r: Vec<u8>)
        ensures
            r@ == dirset_ser(self@),
    {
        let n = self.entries.len();
        let mut buf: Vec<u8> = Vec::new();
        push_u64_be(&mut buf, n as u64);
        let mut i: usize = 0;
        while i < n
            invariant
                n == self@.len(),
                i <= n,
                buf@ == u64_be(n as u64) + ser_entries(self@.take(i as int)),
            decreases n - i,
        {
            push_u64_be(&mut buf, self.entries[i]);
            proof {
                lemma_ser_entries_snoc(self@.take(i as int), self@[i as int]);
                assert(self@.take(i as int + 1) =~= self@.take(i as int).push(self@[i as int]));
                assert(buf@ =~= u64_be(n as u64) + ser_entries(self@.take(i as int + 1)));
            }
            i = i + 1;
        }
        proof {
            assert(self@.take(n as int) =~= self@);
        }
        buf
    }

    /// Decode a blob. Succeeds exactly on the canonical encodings: the byte
    /// count must match the entry count and the entries must be strictly
    /// ascending.
    pub fn des(bytes: &Vec<u8>) -> (r: Result<DirSet, PageError>)
        ensures
            match r {
                Ok(d) => d.wf() && dirset_parse(bytes@) == Some(d@),
                Err(e) => e == PageError::Corrupt && (dirset_parse(bytes@) is None
                    || !sorted_strict(dirset_parse(bytes@)->Some_0)),
            },
    {
        let len = bytes.len();
        if len < 8 {
            return Err(PageError::Corrupt);
        }
        let n64 = read_u64_be(bytes, 0);
        proof {
            assert(bytes@.take(8) =~= bytes@.subrange(0, 8));
            lemma_u64_of_be_of(n64);
            assert(u64_of_be(bytes@.take(8)) == n64);
        }
        let body_len = len - 8;
        proof {
            lemma_parse_entries_shape(bytes@.skip(8), n64 as nat);
        }
        if n64 > (body_len / 8) as u64 {
            return Err(PageError::Corrupt);
        }
        let n = n64 as usize;
        if body_len != 8 * n {
            return Err(PageError::Corrupt);
        }
        let mut entries: Vec<u64> = Vec::new();
        let mut i: usize = 0;
        while i < n
            invariant
                bytes@.len() == 8 + 8 * n,
                8 + 8 * (n as int) <= usize::MAX,
                dirset_parse(bytes@) == parse_entries(bytes@.skip(8), n as nat),
                i <= n,
                entries@.len() == i,
                forall|j: int|
                    0 <= j < i ==> entries@[j] == u64_of_be(
                        bytes@.skip(8).subrange(8 * j, 8 * j + 8),
                    ),
                forall|j1: int, j2: int| 0 <= j1 < j2 < i ==> entries@[j1] < entries@[j2],
            decreases n - i,
        {
            let x = read_u64_be(bytes, 8 + 8 * i);
            proof {
                lemma_parse_entries_shape(bytes@.skip(8), n as nat);
                lemma_u64_of_be_of(x);
                assert(bytes@.skip(8).subrange(8 * i as int, 8 * i as int + 8) =~= bytes@.subrange(
                    8 + 8 * i as int,
                    8 + 8 * i as int + 8,
                ));
            }
            if i > 0 && entries[i - 1] >= x {
                proof {
                    let parsed = dirset_parse(bytes@)->Some_0;
                    assert(parsed[i as int - 1] == entries@[i as int - 1]);
                    assert(parsed[i as int] == x);
                }
                return Err(PageError::Corrupt);
            }
            entries.push(x);
            i = i + 1;
        }
        proof {
            let parsed = dirset_parse(bytes@)->Some_0;
            assert(entries@ =~= parsed);
        }
        Ok(DirSet { entries })
    }
}

/// Every entry is at most `bound`.
pub open spec fn entries_bounded(s: Seq<u64>, bound: u64) -> bool {
    forall|i: int| 0 <= i < s.len() ==> s[i] <= bound
}

/// Insertion keeps an entry bound that both the sequence and the new entry
/// respect.
pub proof fn lemma_insert_sorted_bounded(s: Seq<u64>, x: u64, bound: u64)
    requires
        sorted_strict(s),
        entries_bounded(s, bound),
        x <= bound,
    ensures
        entries_bounded(insert_sorted(s, x), bound),
    decreases s.len(),
{
    let t = insert_sorted(s, x);
    if s.len() == 0 {
        assert(t[0] == x);
    } else if x < s[0] {
        assert forall|i: int| 0 <= i < t.len() implies t[i] <= bound by {
            if i > 0 {
                assert(t[i] == s[i - 1]);
            }
        }
    } else if x == s[0] {
    } else {
        let d = s.drop_first();
        assert(sorted_strict(d));
        assert(entries_bounded(d, bound)) by {
            assert forall|i: int| 0 <= i < d.len() implies d[i] <= bound by {
                assert(d[i] == s[i + 1]);
            }
        }
        lemma_insert_sorted_bounded(d, x, bound);
        assert forall|i: int| 0 <= i < t.len() implies t[i] <= bound by {
            if i > 0 {
                assert(t[i] == insert_sorted(d, x)[i - 1]);
            }
        }
    }
}

/// Removal keeps any entry bound.
pub proof fn lemma_remove_sorted_bounded(s: Seq<u64>, x: u64, bound: u64)
    requires
        sorted_strict(s),
        entries_bounded(s, bound),
    ensures
        entries_bounded(remove_sorted(s, x), bound),
    decreases s.len(),
{
    let t = remove_sorted(s, x);
    if s.len() == 0 {
    } else if x == s[0] {
        assert forall|i: int| 0 <= i < t.len() implies t[i] <= bound by {
            assert(t[i] == s[i + 1]);
        }
    } else {
        let d = s.drop_first();
        assert(sorted_strict(d));
        assert(entries_bounded(d, bound)) by {
            assert forall|i: int| 0 <= i < d.len() implies d[i] <= bound by {
                assert(d[i] == s[i + 1]);
            }
        }
        lemma_remove_sorted_bounded(d, x, bound);
        assert forall|i: int| 0 <= i < t.len() implies t[i] <= bound by {
            if i > 0 {
                assert(t[i] == remove_sorted(d, x)[i - 1]);
            }
        }
    }
}

/// A database directory entry packs `(spcnode, dbnode)`.
pub open spec fn db_entry(spcnode: u32, dbnode: u32) -> u64 {
    ((spcnode as u64) << 32) | (dbnode as u64)
}

/// A relation directory entry packs `(relnode, forknum)`.
pub open spec fn rel_entry(relnode: u32, forknum: u8) -> u64 {
    ((relnode as u64) << 8) | (forknum as u64)
}

/// The two halves of a database entry come back out unchanged.
pub proof fn lemma_db_entry_decode(spcnode: u32, dbnode: u32)
    by (bit_vector)
    ensures
        (db_entry(spcnode, dbnode) >> 32) as u32 == spcnode,
        db_entry(spcnode, dbnode) as u32 == dbnode,
{
}

/// The two halves of a relation entry come back out unchanged.
pub proof fn lemma_rel_entry_decode(relnode: u32, forknum: u8)
    by (bit_vector)
    ensures
        (rel_entry(relnode, forknum) >> 8) as u32 == relnode,
        rel_entry(relnode, forknum) as u8 == forknum,
{
}

/// Set of `(spcnode, dbnode)` pairs: the databases that exist.
#[derive(Debug)]
pub struct DbDirectory {
    dbs: DirSet,
}

impl View for DbDirectory {
    type V = Seq<u64>;

    closed spec fn view(&self) -> Seq<u64> {
        self.dbs@
    }
}

impl DbDirectory {
    /// Entries are strictly sorted.
    pub open spec fn wf(self) -> bool {
        sorted_strict(self@)
    }

    /// The empty directory.
    pub fn empty() -> (r: DbDirectory)
        ensures
            r@ == Seq::<u64>::empty(),
            r.wf(),
    {
        DbDirectory { dbs: DirSet::new() }
    }

    /// Is `(spcnode, dbnode)` present?
    pub fn contains(&self, spcnode: u32, dbnode: u32) -> (r: bool)
        ensures
            r == self@.contains(db_entry(spcnode, dbnode)),
    {
        let e = ((spcnode as u64) << 32) | (dbnode as u64);
        self.dbs.contains(e)
    }

    /// Record that `(spcnode, dbnode)` exists; reports whether it was new.
    pub fn insert(&mut self, spcnode: u32, dbnode: u32) -> (added: bool)
        requires
            old(self).wf(),
        ensures
            final(self).wf(),
            final(self)@ == insert_sorted(old(self)@, db_entry(spcnode, dbnode)),
            added == !old(self)@.contains(db_entry(spcnode, dbnode)),
    {
        let e = ((spcnode as u64) << 32) | (dbnode as u64);
        self.dbs.insert(e)
    }

    /// Forget `(spcnode, dbnode)`; reports whether it was present.
    pub fn remove(&mut self, spcnode: u32, dbnode: u32) -> (removed: bool)
        requires
            old(self).wf(),
        ensures
            final(self).wf(),
            final(self)@ == remove_sorted(old(self)@, db_entry(spcnode, dbnode)),
            removed == old(self)@.contains(db_entry(spcnode, dbnode)),
    {
        let e = ((spcnode as u64) << 32) | (dbnode as u64);
        self.dbs.remove(e)
    }

    /// All `(spcnode, dbnode)` pairs, in entry order.
    pub fn dbs(&self) -> (r: Vec<(u32, u32)>)
        ensures
            r@.len() == self@.len(),
            forall|i: int|
                0 <= i < r@.len() ==> self@[i] == db_entry(#[trigger] r@[i].0, r@[i].1),
    {
        let n = self.dbs.len();
        let mut r: Vec<(u32, u32)> = Vec::new();
        let mut i: usize = 0;
        while i < n
            invariant
                n == self@.len(),
                i <= n,
                r@.len() == i,
                forall|j: int| 0 <= j < i ==> self@[j] == db_entry(#[trigger] r@[j].0, r@[j].1),
            decreases n - i,
        {
            let e = self.dbs.index(i);
            let spcnode = (e >> 32) as u32;
            let dbnode = e as u32;
            proof {
                lemma_db_entry_join(e);
            }
            r.push((spcnode, dbnode));
            i = i + 1;
        }
        r
    }

    /// The canonical blob encoding.
    pub fn ser(&self) -> (r: Vec<u8>)
        ensures
            r@ == dirset_ser(self@),
    {
        self.dbs.ser()
    }

    /// Decode a blob.
    pub fn des(bytes: &Vec<u8>) -> (r: Result<DbDirectory, PageError>)
        ensures
            match r {
                Ok(d) => d.wf() && dirset_parse(bytes@) == Some(d@),
                Err(e) => e == PageError::Corrupt && (dirset_parse(bytes@) is None
                    || !sorted_strict(dirset_parse(bytes@)->Some_0)),
            },
    {
        match DirSet::des(bytes) {
            Ok(dbs) => Ok(DbDirectory { dbs }),
            Err(e) => Err(e),
        }
    }
}

/// Set of `(relnode, forknum)` pairs: the relations that exist under one
/// database.
#[derive(Debug)]
pub struct RelDirectory {
    rels: DirSet,
}

impl View for RelDirectory {
    type V = Seq<u64>;

    closed spec fn view(&self) -> Seq<u64> {
        self.rels@
    }
}

impl RelDirectory {
    /// Entries are strictly sorted and small enough to pack a `(u32, u8)`
    /// pair.
    pub open spec fn wf(self) -> bool {
        sorted_strict(self@) && entries_bounded(self@, 0xff_ffff_ffffu64)
    }

    /// The empty directory.
    pub fn empty() -> (r: RelDirectory)
        ensures
            r@ == Seq::<u64>::empty(),
            r.wf(),
    {
        RelDirectory { rels: DirSet::new() }
    }

    /// Is `(relnode, forknum)` present?
    pub fn contains(&self, relnode: u32, forknum: u8) -> (r: bool)
        ensures
            r == self@.contains(rel_entry(relnode, forknum)),
    {
        let e = ((relnode as u64) << 8) | (forknum as u64);
        self.rels.contains(e)
    }

    /// Record that `(relnode, forknum)` exists; reports whether it was new.
    pub fn insert(&mut self, relnode: u32, forknum: u8) -> (added: bool)
        requires
            old(self).wf(),
        ensures
            final(self).wf(),
            final(self)@ == insert_sorted(old(self)@, rel_entry(relnode, forknum)),
            added == !old(self)@.contains(rel_entry(relnode, forknum)),
    {
        let e = ((relnode as u64) << 8) | (forknum as u64);
        proof {
            lemma_rel_entry_bound(relnode, forknum);
            lemma_insert_sorted_bounded(self@, e, 0xff_ffff_ffffu64);
        }
        self.rels.insert(e)
    }

    /// Forget `(relnode, forknum)`; reports whether it was present.
    pub fn remove(&mut self, relnode: u32, forknum: u8) -> (removed: bool)
        requires
            old(self).wf(),
        ensures
            final(self).wf(),
            final(self)@ == remove_sorted(old(self)@, rel_entry(relnode, forknum)),
            removed == old(self)@.contains(rel_entry(relnode, forknum)),
    {
        let e = ((relnode as u64) << 8) | (forknum as u64);
        proof {
            lemma_remove_sorted_bounded(self@, e, 0xff_ffff_ffffu64);
        }
        self.rels.remove(e)
    }

    /// All `(relnode, forknum)` pairs, in entry order.
    pub fn rels(&self) -> (r: Vec<(u32, u8)>)
        requires
            self.wf(),
        ensures
            r@.len() == self@.len(),
            forall|i: int|
                0 <= i < r@.len() ==> self@[i] == rel_entry(#[trigger] r@[i].0, r@[i].1),
    {
        let n = self.rels.len();
        let mut r: Vec<(u32, u8)> = Vec::new();
        let mut i: usize = 0;
        while i < n
            invariant
                n == self@.len(),
                entries_bounded(self@, 0xff_ffff_ffffu64),
                i <= n,
                r@.len() == i,
                forall|j: int| 0 <= j < i ==> self@[j] == rel_entry(#[trigger] r@[j].0, r@[j].1),
            decreases n - i,
        {
            let e = self.rels.index(i);
            let relnode = (e >> 8) as u32;
            let forknum = e as u8;
            proof {
                lemma_rel_entry_join(e);
            }
            r.push((relnode, forknum));
            i = i + 1;
        }
        r
    }

    /// The canonical blob encoding.
    pub fn ser(&self) -> (r: Vec<u8>)
        ensures
            r@ == dirset_ser(self@),
    {
        self.rels.ser()
    }

    /// Decode a blob; entries too large to pack a `(u32, u8)` pair are
    /// corrupt.
    pub fn des(bytes: &Vec<u8>) -> (r: Result<RelDirectory, PageError>)
        ensures
            match r {
                Ok(d) => d.wf() && dirset_parse(bytes@) == Some(d@),
                Err(e) => e == PageError::Corrupt && (dirset_parse(bytes@) is None
                    || !sorted_strict(dirset_parse(bytes@)->Some_0) || !entries_bounded(
                    dirset_parse(bytes@)->Some_0,
                    0xff_ffff_ffffu64,
                )),
            },
    {
        match DirSet::des(bytes) {
            Ok(rels) => {
                if rels.all_at_most(0xff_ffff_ffffu64) {
                    Ok(RelDirectory { rels })
                } else {
                    Err(PageError::Corrupt)
                }
            },
            Err(e) => Err(e),
        }
    }
}

/// Set of segment numbers: the SLRU segments of one kind that exist.
#[derive(Debug)]
pub struct SlruSegmentDirectory {
    segments: DirSet,
}

impl View for SlruSegmentDirectory {
    type V = Seq<u64>;

    closed spec fn view(&self) -> Seq<u64> {
        self.segments@
    }
}

impl SlruSegmentDirectory {
    /// Entries are strictly sorted and fit a `u32` segment number.
    pub open spec fn wf(self) -> bool {
        sorted_strict(self@) && entries_bounded(self@, u32::MAX as u64)
    }

    /// The empty directory.
    pub fn empty() -> (r: SlruSegmentDirectory)
        ensures
            r@ == Seq::<u64>::empty(),
            r.wf(),
    {
        SlruSegmentDirectory { segments: DirSet::new() }
    }

    /// Is `segno` present?
    pub fn contains(&self, segno: u32) -> (r: bool)
        ensures
            r == self@.contains(segno as u64),
    {
        self.segments.contains(segno as u64)
    }

    /// Record that `segno` exists; reports whether it was new.
    pub fn insert(&mut self, segno: u32) -> (added: bool)
        requires
            old(self).wf(),
        ensures
            final(self).wf(),
            final(self)@ == insert_sorted(old(self)@, segno as u64),
            added == !old(self)@.contains(segno as u64),
    {
        proof {
            lemma_insert_sorted_bounded(self@, segno as u64, u32::MAX as u64);
        }
        self.segments.insert(segno as u64)
    }

    /// Forget `segno`; reports whether it was present.
    pub fn remove(&mut self, segno: u32) -> (removed: bool)
        requires
            old(self).wf(),
        ensures
            final(self).wf(),
            final(self)@ == remove_sorted(old(self)@, segno as u64),
            removed == old(self)@.contains(segno as u64),
    {
        proof {
            lemma_remove_sorted_bounded(self@, segno as u64, u32::MAX as u64);
        }
        self.segments.remove(segno as u64)
    }

    /// All segment numbers, in ascending order.
    pub fn segments(&self) -> (r: Vec<u32>)
        requires
            self.wf(),
        ensures
            r@.len() == self@.len(),
            forall|i: int| 0 <= i < r@.len() ==> self@[i] == #[trigger] r@[i] as u64,
    {
        let n = self.segments.len();
        let mut r: Vec<u32> = Vec::new();
        let mut i: usize = 0;
        while i < n
            invariant
                n == self@.len(),
                entries_bounded(self@, u32::MAX as u64),
                i <= n,
                r@.len() == i,
                forall|j: int| 0 <= j < i ==> self@[j] == #[trigger] r@[j] as u64,
            decreases n - i,
        {
            let e = self.segments.index(i);
            r.push(e as u32);
            i = i + 1;
        }
        r
    }

    /// The canonical blob encoding.
    pub fn ser(&self) -> (r: Vec<u8>)
        ensures
            r@ == dirset_ser(self@),
    {
        self.segments.ser()
    }

    /// Decode a blob; entries too large for a `u32` segment number are
    /// corrupt.
    pub fn des(bytes: &Vec<u8>) -> (r: Result<SlruSegmentDirectory, PageError>)
        ensures
            match r {
                Ok(d) => d.wf() && dirset_parse(bytes@) == Some(d@),
                Err(e) => e == PageError::Corrupt && (dirset_parse(bytes@) is None
                    || !sorted_strict(dirset_parse(bytes@)->Some_0) || !entries_bounded(
                    dirset_parse(bytes@)->Some_0,
                    u32::MAX as u64,
                )),
            },
    {
        match DirSet::des(bytes) {
            Ok(segments) => {
                if segments.all_at_most(0xffff_ffffu64) {
                    Ok(SlruSegmentDirectory { segments })
                } else {
                    Err(PageError::Corrupt)
                }
            },
            Err(e) => Err(e),
        }
    }
}

/// Set of prepared-transaction xids.
#[derive(Debug)]
pub struct TwoPhaseDirectory {
    xids: DirSet,
}

impl View for TwoPhaseDirectory {
    type V = Seq<u64>;

    closed spec fn view(&self) -> Seq<u64> {
        self.xids@
    }
}

impl TwoPhaseDirectory {
    /// Entries are strictly sorted and fit a `u32` xid.
    pub open spec fn wf(self) -> bool {
        sorted_strict(self@) && entries_bounded(self@, u32::MAX as u64)
    }

    /// The empty directory.
    pub fn empty() -> (r: TwoPhaseDirectory)
        ensures
            r@ == Seq::<u64>::empty(),
            r.wf(),
    {
        TwoPhaseDirectory { xids: DirSet::new() }
    }

    /// Is `xid` present?
    pub fn contains(&self, xid: u32) -> (r: bool)
        ensures
            r == self@.contains(xid as u64),
    {
        self.xids.contains(xid as u64)
    }

    /// Record that `xid` has a prepared transaction; reports whether it was
    /// new.
    pub fn insert(&mut self, xid: u32) -> (added: bool)
        requires
            old(self).wf(),
        ensures
            final(self).wf(),
            final(self)@ == insert_sorted(old(self)@, xid as u64),
            added == !old(self)@.contains(xid as u64),
    {
        proof {
            lemma_insert_sorted_bounded(self@, xid as u64, u32::MAX as u64);
        }
        self.xids.insert(xid as u64)
    }

    /// Forget `xid`; reports whether it was present.
    pub fn remove(&mut self, xid: u32) -> (removed: bool)
        requires
            old(self).wf(),
        ensures
            final(self).wf(),
            final(self)@ == remove_sorted(old(self)@, xid as u64),
            removed == old(self)@.contains(xid as u64),
    {
        proof {
            lemma_remove_sorted_bounded(self@, xid as u64, u32::MAX as u64);
        }
        self.xids.remove(xid as u64)
    }

    /// All xids, in ascending order.
    pub fn xids(&self) -> (r: Vec<u32>)
        requires
            self.wf(),
        ensures
            r@.len() == self@.len(),
            forall|i: int| 0 <= i < r@.len() ==> self@[i] == #[trigger] r@[i] as u64,
    {
        let n = self.xids.len();
        let mut r: Vec<u32> = Vec::new();
        let mut i: usize = 0;
        while i < n
            invariant
                n == self@.len(),
                entries_bounded(self@, u32::MAX as u64),
                i <= n,
                r@.len() == i,
                forall|j: int| 0 <= j < i ==> self@[j] == #[trigger] r@[j] as u64,
            decreases n - i,
        {
            let e = self.xids.index(i);
            r.push(e as u32);
            i = i + 1;
        }
        r
    }

    /// The canonical blob encoding.
    pub fn ser(&self) -> (r: Vec<u8>)
        ensures
            r@ == dirset_ser(self@),
    {
        self.xids.ser()
    }

    /// Decode a blob; entries too large for a `u32` xid are corrupt.
    pub fn des(bytes: &Vec<u8>) -> (r: Result<TwoPhaseDirectory, PageError>)
        ensures
            match r {
                Ok(d) => d.wf() && dirset_parse(bytes@) == Some(d@),
                Err(e) => e == PageError::Corrupt && (dirset_parse(bytes@) is None
                    || !sorted_strict(dirset_parse(bytes@)->Some_0) || !entries_bounded(
                    dirset_parse(bytes@)->Some_0,
                    u32::MAX as u64,
                )),
            },
    {
        match DirSet::des(bytes) {
            Ok(xids) => {
                if xids.all_at_most(0xffff_ffffu64) {
                    Ok(TwoPhaseDirectory { xids })
                } else {
                    Err(PageError::Corrupt)
                }
            },
            Err(e) => Err(e),
        }
    }
}

/// The size marker stored beside each live relation: a block count,
/// little-endian on disk.
#[derive(Clone, Copy, Debug, PartialEq, Eq, Structural)]
pub struct RelSizeEntry {
    pub nblocks: u32,
}

impl RelSizeEntry {
    /// The four little-endian bytes of the block count.
    pub fn ser(&self) -> (r: Vec<u8>)
        ensures
            r@ == u32_le(self.nblocks),
    {
        let mut buf: Vec<u8> = Vec::new();
        push_u32_le(&mut buf, self.nblocks);
        proof {
            assert(buf@ =~= u32_le(self.nblocks));
        }
        buf
    }

    /// Decode a size marker; anything but exactly four bytes is corrupt.
    pub fn des(bytes: &Vec<u8>) -> (r: Result<RelSizeEntry, PageError>)
        ensures
            match r {
                Ok(e) => bytes@ == u32_le(e.nblocks),
                Err(e) => e == PageError::Corrupt && bytes@.len() != 4,
            },
    {
        if bytes.len() != 4 {
            return Err(PageError::Corrupt);
        }
        let nblocks = read_u32_le(bytes, 0);
        proof {
            assert(bytes@.subrange(0, 4) =~= bytes@);
        }
        Ok(RelSizeEntry { nblocks })
    }
}

/// Law: decoding the blob a database directory serializes to yields the same
/// entries.
pub proof fn lemma_db_directory_round_trip(d: DbDirectory)
    requires
        d.wf(),
        d@.len() <= u64::MAX,
    ensures
        dirset_parse(dirset_ser(d@)) == Some(d@),
{
    lemma_dirset_round_trip(d@);
}

/// Law: decoding the blob a relation directory serializes to yields the same
/// entries.
pub proof fn lemma_rel_directory_round_trip(d: RelDirectory)
    requires
        d.wf(),
        d@.len() <= u64::MAX,
    ensures
        dirset_parse(dirset_ser(d@)) == Some(d@),
{
    lemma_dirset_round_trip(d@);
}

/// Law: decoding the blob an SLRU segment directory serializes to yields the
/// same entries.
pub proof fn lemma_slru_directory_round_trip(d: SlruSegmentDirectory)
    requires
        d.wf(),
        d@.len() <= u64::MAX,
    ensures
        dirset_parse(dirset_ser(d@)) == Some(d@),
{
    lemma_dirset_round_trip(d@);
}

/// Law: decoding the blob a two-phase directory serializes to yields the same
/// entries.
pub proof fn lemma_twophase_directory_round_trip(d: TwoPhaseDirectory)
    requires
        d.wf(),
        d@.len() <= u64::MAX,
    ensures
        dirset_parse(dirset_ser(d@)) == Some(d@),
{
    lemma_dirset_round_trip(d@);
}

/// A database entry is rebuilt from its two decoded halves.
proof fn lemma_db_entry_join(e: u64)
    by (bit_vector)
    ensures
        e == db_entry((e >> 32) as u32, e as u32),
{
}

/// A relation entry fits in 40 bits.
proof fn lemma_rel_entry_bound(relnode: u32, forknum: u8)
    by (bit_vector)
    ensures
        rel_entry(relnode, forknum) <= 0xff_ffff_ffffu64,
{
}

/// A relation entry below `2^40` is rebuilt from its two decoded halves.
proof fn lemma_rel_entry_join(e: u64)
    by (bit_vector)
    requires
        e <= 0xff_ffff_ffffu64,
    ensures
        e == rel_entry((e >> 8) as u32, e as u8),
{
}

/// Inserting `x` at the first position whose entry exceeds it splices it in.
proof fn lemma_insert_sorted_at(s: Seq<u64>, x: u64, i: int)
    requires
        sorted_strict(s),
        0 <= i <= s.len(),
        forall|j: int| 0 <= j < i ==> s[j] < x,
        i < s.len() ==> x < s[i],
    ensures
        insert_sorted(s, x) == s.take(i) + seq![x] + s.skip(i),
    decreases i,
{
    if i == 0 {
        if s.len() == 0 {
            assert(insert_sorted(s, x) =~= s.take(0) + seq![x] + s.skip(0));
        } else {
            assert(x < s[0]);
            assert(insert_sorted(s, x) =~= s.take(0) + seq![x] + s.skip(0));
        }
    } else {
        let d = s.drop_first();
        assert(sorted_strict(d));
        lemma_insert_sorted_at(d, x, i - 1);
        assert(insert_sorted(s, x) == seq![s[0]] + insert_sorted(d, x));
        assert(seq![s[0]] + (d.take(i - 1) + seq![x] + d.skip(i - 1)) =~= s.take(i) + seq![x]
            + s.skip(i));
    }
}

/// Inserting an entry already at position `i` changes nothing.
proof fn lemma_insert_sorted_present(s: Seq<u64>, x: u64, i: int)
    requires
        sorted_strict(s),
        0 <= i < s.len(),
        forall|j: int| 0 <= j < i ==> s[j] < x,
        s[i] == x,
    ensures
        insert_sorted(s, x) == s,
    decreases i,
{
    if i == 0 {
        assert(insert_sorted(s, x) == s);
    } else {
        let d = s.drop_first();
        assert(sorted_strict(d));
        lemma_insert_sorted_present(d, x, i - 1);
        assert(insert_sorted(s, x) == seq![s[0]] + insert_sorted(d, x));
        assert(seq![s[0]] + d =~= s);
    }
}

/// Removing the entry found at position `i` splices it out.
proof fn lemma_remove_sorted_at(s: Seq<u64>, x: u64, i: int)
    requires
        sorted_strict(s),
        0 <= i < s.len(),
        forall|j: int| 0 <= j < i ==> s[j] < x,
        s[i] == x,
    ensures
        remove_sorted(s, x) == s.take(i) + s.skip(i + 1),
    decreases i,
{
    if i == 0 {
        assert(remove_sorted(s, x) =~= s.take(0) + s.skip(1));
    } else {
        let d = s.drop_first();
        assert(sorted_strict(d));
        lemma_remove_sorted_at(d, x, i - 1);
        assert(remove_sorted(s, x) == seq![s[0]] + remove_sorted(d, x));
        assert(seq![s[0]] + (d.take(i - 1) + d.skip(i)) =~= s.take(i) + s.skip(i + 1));
    }
}

} // verus!
