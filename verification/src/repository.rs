//! The lower-level timeline: an append-only stream of keyed, LSN-stamped
//! values with range deletes, answering point-in-time reads.
//!
//! A reader at LSN `l` sees, for each key, the latest operation stamped at or
//! below `l`: the value of the latest put, or nothing if a range delete
//! covers the key more recently.

use vstd::prelude::*;

use crate::codec::clone_bytes;
use crate::key::Key;
use crate::key::KeyRange;
use crate::key::range_contains;
use crate::PageError;

verus! {

/// A log sequence number: a 64-bit position in the WAL stream, the engine's
/// notion of time.
#[derive(Clone, Copy, Debug, PartialEq, Eq, Structural, Hash)]
pub struct Lsn(pub u64);

/// The last ingested record's LSN together with the one before it.
#[derive(Clone, Copy, Debug, PartialEq, Eq, Structural)]
pub struct RecordLsn {
    pub last: Lsn,
    pub prev: Lsn,
}

/// An opaque WAL record payload, applied to a base image by the external
/// redo machinery.
pub struct WalRecord {
    pub payload: Vec<u8>,
}

impl View for WalRecord {
    type V = Seq<u8>;

    open spec fn view(&self) -> Seq<u8> {
        self.payload@
    }
}

/// A stored value: a full page (or metadata blob) image, or a WAL record to
/// be applied to an earlier image.
pub enum Value {
    Image(Vec<u8>),
    WalRecord(WalRecord),
}

/// The mathematical shape of a stored value.
pub enum ValueV {
    Image(Seq<u8>),
    WalRecord(Seq<u8>),
}

impl View for Value {
    type V = ValueV;

    open spec fn view(&self) -> ValueV {
        match self {
            Value::Image(b) => ValueV::Image(b@),
            Value::WalRecord(r) => ValueV::WalRecord(r@),
        }
    }
}

/// Copy a value.
pub fn clone_value(v: &Value) -> (r: Value)
    ensures
        r@ == v@,
{
    match v {
        Value::Image(b) => Value::Image(clone_bytes(b)),
        Value::WalRecord(w) => Value::WalRecord(WalRecord { payload: clone_bytes(&w.payload) }),
    }
}

/// One committed operation on the timeline.
pub enum LogRecord {
    Put { key: Key, lsn: Lsn, value: Value },
    Delete { range: KeyRange, lsn: Lsn },
}

/// The mathematical shape of one committed operation.
pub enum LogRecordV {
    Put { key: Key, lsn: u64, value: ValueV },
    Delete { range: KeyRange, lsn: u64 },
}

impl View for LogRecord {
    type V = LogRecordV;

    open spec fn view(&self) -> LogRecordV {
        match self {
            LogRecord::Put { key, lsn, value } => LogRecordV::Put {
                key: *key,
                lsn: lsn.0,
                value: value@,
            },
            LogRecord::Delete { range, lsn } => LogRecordV::Delete { range: *range, lsn: lsn.0 },
        }
    }
}

/// The LSN an operation was committed at.
pub open spec fn rec_lsn(r: LogRecordV) -> u64 {
    match r {
        LogRecordV::Put { lsn, .. } => lsn,
        LogRecordV::Delete { lsn, .. } => lsn,
    }
}

/// What a reader at `lsn` sees for `key`: the latest operation stamped at or
/// below `lsn` decides.
pub open spec fn lookup(recs: Seq<LogRecordV>, key: Key, lsn: u64) -> Option<ValueV>
    decreases recs.len(),
{
    if recs.len() == 0 {
        None
    } else {
        match recs.last() {
            LogRecordV::Put { key: k, lsn: l, value } => {
                if l <= lsn && k == key {
                    Some(value)
                } else {
                    lookup(recs.drop_last(), key, lsn)
                }
            },
            LogRecordV::Delete { range, lsn: l } => {
                if l <= lsn && range_contains(range, key) {
                    None
                } else {
                    lookup(recs.drop_last(), key, lsn)
                }
            },
        }
    }
}

/// The mathematical state of a timeline.
pub struct TimelineV {
    pub records: Seq<LogRecordV>,
    pub last_record_lsn: u64,
    pub prev_record_lsn: u64,
    pub disk_consistent_lsn: u64,
    pub latest_gc_cutoff_lsn: u64,
}

/// An append-only logical stream of `(key, lsn, value)` with range deletes.
pub struct Timeline {
    records: Vec<LogRecord>,
    last_record_lsn: Lsn,
    prev_record_lsn: Lsn,
    disk_consistent_lsn: Lsn,
    latest_gc_cutoff_lsn: Lsn,
}

impl View for Timeline {
    type V = TimelineV;

    closed spec fn view(&self) -> TimelineV {
        TimelineV {
            records: self.records@.map_values(|r: LogRecord| r@),
            last_record_lsn: self.last_record_lsn.0,
            prev_record_lsn: self.prev_record_lsn.0,
            disk_consistent_lsn: self.disk_consistent_lsn.0,
            latest_gc_cutoff_lsn: self.latest_gc_cutoff_lsn.0,
        }
    }
}

/// Appending a put to the record stream.
pub open spec fn put_spec(t: TimelineV, key: Key, lsn: u64, value: ValueV) -> TimelineV {
    TimelineV { records: t.records.push(LogRecordV::Put { key, lsn, value }), ..t }
}

/// Appending a range delete to the record stream.
pub open spec fn delete_spec(t: TimelineV, range: KeyRange, lsn: u64) -> TimelineV {
    TimelineV { records: t.records.push(LogRecordV::Delete { range, lsn }), ..t }
}

/// Advancing the last-record position.
pub open spec fn advance_spec(t: TimelineV, lsn: u64) -> TimelineV {
    TimelineV { last_record_lsn: lsn, prev_record_lsn: t.last_record_lsn, ..t }
}

impl Timeline {
    /// An empty timeline whose history starts at `start_lsn`.
    pub fn new(start_lsn: Lsn) -> (r: Timeline)
        ensures
            r@.records == Seq::<LogRecordV>::empty(),
            r@.last_record_lsn == start_lsn.0,
            r@.prev_record_lsn == 0,
            r@.disk_consistent_lsn == start_lsn.0,
            r@.latest_gc_cutoff_lsn == 0,
    {
        let t = Timeline {
            records: Vec::new(),
            last_record_lsn: start_lsn,
            prev_record_lsn: Lsn(0),
            disk_consistent_lsn: start_lsn,
            latest_gc_cutoff_lsn: Lsn(0),
        };
        proof {
            assert(t@.records =~= Seq::<LogRecordV>::empty());
        }
        t
    }

    /// The stored value visible at `(key, lsn)`, raw: a WAL record is handed
    /// back as such.
    pub fn get_value(&self, key: Key, lsn: Lsn) -> (r: Result<Value, PageError>)
        ensures
            match r {
                Ok(v) => lookup(self@.records, key, lsn.0) == Some(v@),
                Err(e) => e == PageError::KeyNotFound && lookup(self@.records, key, lsn.0) is None,
            },
    {
        let ghost rv = self@.records;
        let n = self.records.len();
        let mut i: usize = n;
        proof {
            assert(rv.take(n as int) =~= rv);
        }
        while i > 0
            invariant
                rv == self@.records,
                n == rv.len(),
                i <= n,
                lookup(rv, key, lsn.0) == lookup(rv.take(i as int), key, lsn.0),
            decreases i,
        {
            proof {
                assert(rv.take(i as int).last() == rv[i as int - 1]);
                assert(rv.take(i as int).drop_last() =~= rv.take(i as int - 1));
            }
            match &self.records[i - 1] {
                LogRecord::Put { key: k, lsn: l, value } => {
                    if l.0 <= lsn.0 && k.eq(&key) {
                        let v = clone_value(value);
                        return Ok(v);
                    }
                },
                LogRecord::Delete { range, lsn: l } => {
                    if l.0 <= lsn.0 && range.contains(&key) {
                        return Err(PageError::KeyNotFound);
                    }
                },
            }
            i = i - 1;
        }
        proof {
            assert(rv.take(0) =~= Seq::<LogRecordV>::empty());
        }
        Err(PageError::KeyNotFound)
    }

    /// The materialized bytes at `(key, lsn)`. A WAL record on top cannot be
    /// materialized here: that takes the external redo machinery.
    pub fn get(&self, key: Key, lsn: Lsn) -> (r: Result<Vec<u8>, PageError>)
        ensures
            match r {
                Ok(b) => lookup(self@.records, key, lsn.0) == Some(ValueV::Image(b@)),
                Err(e) => match lookup(self@.records, key, lsn.0) {
                    Some(v) => e == PageError::WalRedoNeeded && v is WalRecord,
                    None => e == PageError::KeyNotFound,
                },
            },
    {
        match self.get_value(key, lsn) {
            Ok(Value::Image(b)) => Ok(b),
            Ok(Value::WalRecord(_)) => Err(PageError::WalRedoNeeded),
            Err(e) => Err(e),
        }
    }

    /// Record `value` for `key` at `lsn`.
    pub fn put(&mut self, key: Key, lsn: Lsn, value: Value)
        ensures
            final(self)@ == put_spec(old(self)@, key, lsn.0, value@),
    {
        self.records.push(LogRecord::Put { key, lsn, value });
        proof {
            assert(self@.records =~= old(self)@.records.push(
                LogRecordV::Put { key, lsn: lsn.0, value: value@ },
            ));
        }
    }

    /// Record a delete of every key in `range` at `lsn`.
    pub fn delete(&mut self, range: KeyRange, lsn: Lsn)
        ensures
            final(self)@ == delete_spec(old(self)@, range, lsn.0),
    {
        self.records.push(LogRecord::Delete { range, lsn });
        proof {
            assert(self@.records =~= old(self)@.records.push(
                LogRecordV::Delete { range, lsn: lsn.0 },
            ));
        }
    }

    /// Move the last-record position forward to `lsn`, remembering the
    /// previous position.
    pub fn advance_last_record_lsn(&mut self, lsn: Lsn)
        requires
            lsn.0 >= old(self)@.last_record_lsn,
        ensures
            final(self)@ == advance_spec(old(self)@, lsn.0),
    {
        self.prev_record_lsn = self.last_record_lsn;
        self.last_record_lsn = lsn;
    }

    /// Both the last and the previous record LSN, read together.
    pub fn get_last_record_rlsn(&self) -> (r: RecordLsn)
        ensures
            r.last.0 == self@.last_record_lsn,
            r.prev.0 == self@.prev_record_lsn,
    {
        RecordLsn { last: self.last_record_lsn, prev: self.prev_record_lsn }
    }

    /// The LSN of the last ingested record.
    pub fn get_last_record_lsn(&self) -> (r: Lsn)
        ensures
            r.0 == self@.last_record_lsn,
    {
        self.last_record_lsn
    }

    /// The LSN of the record before the last one.
    pub fn get_prev_record_lsn(&self) -> (r: Lsn)
        ensures
            r.0 == self@.prev_record_lsn,
    {
        self.prev_record_lsn
    }

    /// The LSN up to which everything has reached disk.
    pub fn get_disk_consistent_lsn(&self) -> (r: Lsn)
        ensures
            r.0 == self@.disk_consistent_lsn,
    {
        self.disk_consistent_lsn
    }

    /// Is it valid to request reads at `lsn`? Reads below the
    /// garbage-collection cutoff may already lack their history.
    pub fn check_lsn_is_in_scope(&self, lsn: Lsn) -> (r: Result<(), PageError>)
        ensures
            r is Ok <==> lsn.0 >= self@.latest_gc_cutoff_lsn,
            r is Err ==> r->Err_0 == PageError::LsnOutOfScope,
    {
        if lsn.0 >= self.latest_gc_cutoff_lsn.0 {
            Ok(())
        } else {
            Err(PageError::LsnOutOfScope)
        }
    }
}

/// Law: advancing the last-record position beyond the current one strictly
/// increases it, and the superseded position is kept as the previous one.
pub proof fn lemma_advance_strictly_monotonic(t: TimelineV, lsn: u64)
    requires
        lsn > t.last_record_lsn,
    ensures
        advance_spec(t, lsn).last_record_lsn > t.last_record_lsn,
        advance_spec(t, lsn).prev_record_lsn == t.last_record_lsn,
{
}

/// What a transaction's own operations, taken alone, say about `key`:
/// nothing, or a pinned outcome (a value, or deletion).
pub open spec fn tx_lookup(tx: Seq<LogRecordV>, key: Key) -> Option<Option<ValueV>>
    decreases tx.len(),
{
    if tx.len() == 0 {
        None
    } else {
        match tx.last() {
            LogRecordV::Put { key: k, value, .. } => {
                if k == key {
                    Some(Some(value))
                } else {
                    tx_lookup(tx.drop_last(), key)
                }
            },
            LogRecordV::Delete { range, .. } => {
                if range_contains(range, key) {
                    Some(None)
                } else {
                    tx_lookup(tx.drop_last(), key)
                }
            },
        }
    }
}

/// Law (ingestion is atomic, hidden half): a reader below a transaction's
/// LSN observes none of its operations.
pub proof fn lemma_txn_invisible_below(recs: Seq<LogRecordV>, tx: Seq<LogRecordV>, key: Key, lsn: u64)
    requires
        forall|i: int| 0 <= i < tx.len() ==> rec_lsn(#[trigger] tx[i]) > lsn,
    ensures
        lookup(recs + tx, key, lsn) == lookup(recs, key, lsn),
    decreases tx.len(),
{
    if tx.len() == 0 {
        assert(recs + tx =~= recs);
    } else {
        let all = recs + tx;
        assert(all.last() == tx[tx.len() - 1]);
        assert(all.drop_last() =~= recs + tx.drop_last());
        assert(forall|i: int|
            0 <= i < tx.drop_last().len() ==> rec_lsn(#[trigger] tx.drop_last()[i]) > lsn);
        lemma_txn_invisible_below(recs, tx.drop_last(), key, lsn);
    }
}

/// Law (ingestion is atomic, visible half): a reader at or above a
/// transaction's LSN observes exactly what the transaction pinned for each
/// key, and falls back to older history for untouched keys.
pub proof fn lemma_txn_visible_at(recs: Seq<LogRecordV>, tx: Seq<LogRecordV>, key: Key, lsn: u64)
    requires
        forall|i: int| 0 <= i < tx.len() ==> rec_lsn(#[trigger] tx[i]) <= lsn,
    ensures
        lookup(recs + tx, key, lsn) == match tx_lookup(tx, key) {
            Some(res) => res,
            None => lookup(recs, key, lsn),
        },
    decreases tx.len(),
{
    if tx.len() == 0 {
        assert(recs + tx =~= recs);
    } else {
        let all = recs + tx;
        assert(all.last() == tx[tx.len() - 1]);
        assert(rec_lsn(tx[tx.len() - 1]) <= lsn);
        assert(all.drop_last() =~= recs + tx.drop_last());
        assert(forall|i: int|
            0 <= i < tx.drop_last().len() ==> rec_lsn(#[trigger] tx.drop_last()[i]) <= lsn);
        lemma_txn_visible_at(recs, tx.drop_last(), key, lsn);
    }
}

} // verus!
