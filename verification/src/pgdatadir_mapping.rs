//! Storing PostgreSQL relations and other files in the key-value timeline:
//! type-safe getters in PostgreSQL vocabulary, and the transaction buffer
//! that batches one WAL record's mutations and commits them atomically at one
//! LSN.

use vstd::prelude::*;

use crate::codec::clone_bytes;
use crate::codec::lemma_u32_of_le_of;
use crate::codec::push_u32_le;
use crate::codec::read_u32_le;
use crate::codec::u32_le;
use crate::codec::u32_of_le;
use crate::directory::DbDirectory;
use crate::directory::RelDirectory;
use crate::directory::SlruSegmentDirectory;
use crate::directory::TwoPhaseDirectory;
use crate::directory::db_entry;
use crate::directory::dirset_parse;
use crate::directory::dirset_ser;
use crate::directory::entries_bounded;
use crate::directory::insert_sorted;
use crate::directory::rel_entry;
use crate::directory::remove_sorted;
use crate::directory::sorted_strict;
use crate::key::Key;
use crate::key::KeyRange;
use crate::key::range_contains;
use crate::keyspace::checkpoint_key;
use crate::keyspace::checkpoint_key_spec;
use crate::keyspace::controlfile_key;
use crate::keyspace::controlfile_key_spec;
use crate::keyspace::dbdir_key;
use crate::keyspace::dbdir_key_range;
use crate::keyspace::dbdir_key_range_spec;
use crate::keyspace::dbdir_key_spec;
use crate::keyspace::rel_block_key_spec;
use crate::keyspace::rel_block_to_key;
use crate::keyspace::rel_dir_key_spec;
use crate::keyspace::rel_dir_to_key;
use crate::keyspace::rel_key_range;
use crate::keyspace::rel_key_range_spec;
use crate::keyspace::rel_size_key_spec;
use crate::keyspace::rel_size_to_key;
use crate::keyspace::relmap_file_key;
use crate::keyspace::relmap_file_key_spec;
use crate::keyspace::slru_block_key_spec;
use crate::keyspace::slru_block_to_key;
use crate::keyspace::slru_dir_key_spec;
use crate::keyspace::slru_dir_to_key;
use crate::keyspace::slru_segment_key_range;
use crate::keyspace::slru_segment_key_range_spec;
use crate::keyspace::slru_segment_size_key_spec;
use crate::keyspace::slru_segment_size_to_key;
use crate::keyspace::twophase_file_key;
use crate::keyspace::twophase_file_key_spec;
use crate::keyspace::twophase_key_range;
use crate::keyspace::twophase_key_range_spec;
use crate::keyspace::twophasedir_key;
use crate::keyspace::twophasedir_key_spec;
use crate::relish::BlockNumber;
use crate::relish::FSM_FORKNUM;
use crate::relish::Oid;
use crate::relish::RelTag;
use crate::relish::SlruKind;
use crate::relish::TransactionId;
use crate::relish::VISIBILITYMAP_FORKNUM;
use crate::repository::LogRecordV;
use crate::repository::Lsn;
use crate::repository::RecordLsn;
use crate::repository::Timeline;
use crate::repository::TimelineV;
use crate::repository::Value;
use crate::repository::ValueV;
use crate::repository::WalRecord;
use crate::repository::lemma_txn_visible_at;
use crate::repository::lookup;
use crate::repository::rec_lsn;
use crate::repository::tx_lookup;
use crate::directory::lemma_dirset_round_trip;
use crate::PageError;

verus! {

/// Size of a PostgreSQL page.
pub const PAGE_SZ: usize = 8192;

/// Relation directory entries pack a `(u32, u8)` pair.
pub const REL_ENTRY_MAX: u64 = 0xff_ffff_ffff;

/// Segment and xid directory entries fit a `u32`.
pub const U32_ENTRY_MAX: u64 = 0xffff_ffff;

/// Database directory entries use the whole 64 bits.
pub const DB_ENTRY_MAX: u64 = 0xffff_ffff_ffff_ffff;

/// An all-zeros page.
pub open spec fn zero_page_spec() -> Seq<u8> {
    Seq::new(PAGE_SZ as nat, |i: int| 0u8)
}

/// An all-zeros page.
pub fn zero_page() -> (r: Vec<u8>)
    ensures
        r@ == zero_page_spec(),
{
    let mut v: Vec<u8> = Vec::new();
    let mut i: usize = 0;
    while i < PAGE_SZ
        invariant
            i <= PAGE_SZ,
            v@.len() == i,
            forall|j: int| 0 <= j < i ==> v@[j] == 0u8,
        decreases PAGE_SZ - i,
    {
        v.push(0u8);
        i = i + 1;
    }
    proof {
        assert(v@ =~= zero_page_spec());
    }
    v
}

/// Reading a directory blob from the timeline: the image at `key` decoded as
/// a sorted entry set with entries at most `bound`.
pub open spec fn dir_read_spec(t: TimelineV, key: Key, lsn: u64, bound: u64) -> Result<
    Seq<u64>,
    PageError,
> {
    match lookup(t.records, key, lsn) {
        None => Err(PageError::KeyNotFound),
        Some(ValueV::WalRecord(_)) => Err(PageError::WalRedoNeeded),
        Some(ValueV::Image(b)) => match dirset_parse(b) {
            None => Err(PageError::Corrupt),
            Some(s) => if sorted_strict(s) && entries_bounded(s, bound) {
                Ok(s)
            } else {
                Err(PageError::Corrupt)
            },
        },
    }
}

/// Reading a size marker from the timeline: the image at `key` decoded as a
/// little-endian `u32`.
pub open spec fn size_read_spec(t: TimelineV, key: Key, lsn: u64) -> Result<u32, PageError> {
    match lookup(t.records, key, lsn) {
        None => Err(PageError::KeyNotFound),
        Some(ValueV::WalRecord(_)) => Err(PageError::WalRedoNeeded),
        Some(ValueV::Image(b)) => if b.len() == 4 {
            Ok(u32_of_le(b))
        } else {
            Err(PageError::Corrupt)
        },
    }
}

/// Reading plain image bytes from the timeline.
pub open spec fn image_read_spec(t: TimelineV, key: Key, lsn: u64) -> Result<Seq<u8>, PageError> {
    match lookup(t.records, key, lsn) {
        None => Err(PageError::KeyNotFound),
        Some(ValueV::WalRecord(_)) => Err(PageError::WalRedoNeeded),
        Some(ValueV::Image(b)) => Ok(b),
    }
}

/// Does the relation exist: is its entry in its database's relation
/// directory?
pub open spec fn rel_exists_spec(t: TimelineV, tag: RelTag, lsn: u64) -> Result<bool, PageError> {
    match dir_read_spec(t, rel_dir_key_spec(tag.spcnode, tag.dbnode), lsn, REL_ENTRY_MAX) {
        Ok(s) => Ok(s.contains(rel_entry(tag.relnode, tag.forknum))),
        Err(e) => Err(e),
    }
}

/// The relation's block count. A missing free-space-map or visibility-map
/// fork reports size 0, tolerating PostgreSQL's habit of asking for the size
/// of a fork it never extended.
pub open spec fn rel_size_spec(t: TimelineV, tag: RelTag, lsn: u64) -> Result<u32, PageError> {
    if tag.forknum == FSM_FORKNUM || tag.forknum == VISIBILITYMAP_FORKNUM {
        match rel_exists_spec(t, tag, lsn) {
            Err(e) => Err(e),
            Ok(false) => Ok(0),
            Ok(true) => size_read_spec(t, rel_size_key_spec(tag), lsn),
        }
    } else {
        size_read_spec(t, rel_size_key_spec(tag), lsn)
    }
}

/// One page of a relation as of `lsn`. A block at or past the relation's
/// size is an all-zeros page; a block below it is whatever image the
/// timeline holds.
pub open spec fn rel_page_spec(t: TimelineV, tag: RelTag, blknum: u32, lsn: u64) -> Result<
    Seq<u8>,
    PageError,
> {
    match rel_size_spec(t, tag, lsn) {
        Err(e) => Err(e),
        Ok(nblocks) => if blknum >= nblocks {
            Ok(zero_page_spec())
        } else {
            image_read_spec(t, rel_block_key_spec(tag, blknum), lsn)
        },
    }
}

/// The facade over one timeline, speaking PostgreSQL vocabulary.
pub struct DatadirTimeline {
    pub tline: Timeline,
}

impl DatadirTimeline {
    /// Wrap a timeline.
    pub fn new(tline: Timeline) -> (r: DatadirTimeline)
        ensures
            r.tline == tline,
    {
        DatadirTimeline { tline }
    }

    /// Look up the given page version; reads beyond the end of the relation
    /// yield an all-zeros page.
    pub fn get_rel_page_at_lsn(&self, tag: RelTag, blknum: BlockNumber, lsn: Lsn) -> (r: Result<
        Vec<u8>,
        PageError,
    >)
        ensures
            ({
                let s = rel_page_spec(self.tline@, tag, blknum, lsn.0);
                match r {
                    Ok(page) => s == Ok::<Seq<u8>, PageError>(page@),
                    Err(e) => s == Err::<Seq<u8>, PageError>(e),
                }
            }),
    {
        let nblocks = match self.get_rel_size(tag, lsn) {
            Ok(n) => n,
            Err(e) => {
                return Err(e);
            },
        };
        if blknum >= nblocks {
            return Ok(zero_page());
        }
        let key = rel_block_to_key(tag, blknum);
        self.tline.get(key, lsn)
    }

    /// Look up the given SLRU page version.
    pub fn get_slru_page_at_lsn(&self, kind: SlruKind, segno: u32, blknum: BlockNumber, lsn: Lsn)
        -> (r: Result<Vec<u8>, PageError>)
        ensures
            ({
                let s = image_read_spec(self.tline@, slru_block_key_spec(kind, segno, blknum), lsn.0);
                match r {
                    Ok(page) => s == Ok::<Seq<u8>, PageError>(page@),
                    Err(e) => s == Err::<Seq<u8>, PageError>(e),
                }
            }),
    {
        let key = slru_block_to_key(kind, segno, blknum);
        self.tline.get(key, lsn)
    }

    /// Get the size of a relation fork in blocks.
    pub fn get_rel_size(&self, tag: RelTag, lsn: Lsn) -> (r: Result<BlockNumber, PageError>)
        ensures
            r == rel_size_spec(self.tline@, tag, lsn.0),
    {
        if tag.forknum == FSM_FORKNUM || tag.forknum == VISIBILITYMAP_FORKNUM {
            match self.get_rel_exists(tag, lsn) {
                Err(e) => {
                    return Err(e);
                },
                Ok(false) => {
                    return Ok(0);
                },
                Ok(true) => {},
            }
        }
        let key = rel_size_to_key(tag);
        self.read_size(key, lsn)
    }

    /// Get the size of an SLRU segment in blocks.
    pub fn get_slru_segment_size(&self, kind: SlruKind, segno: u32, lsn: Lsn) -> (r: Result<
        BlockNumber,
        PageError,
    >)
        ensures
            r == size_read_spec(self.tline@, slru_segment_size_key_spec(kind, segno), lsn.0),
    {
        let key = slru_segment_size_to_key(kind, segno);
        self.read_size(key, lsn)
    }

    /// Does the SLRU segment exist?
    pub fn get_slru_segment_exists(&self, kind: SlruKind, segno: u32, lsn: Lsn) -> (r: Result<
        bool,
        PageError,
    >)
        ensures
            r == (match dir_read_spec(self.tline@, slru_dir_key_spec(kind), lsn.0, U32_ENTRY_MAX) {
                Ok(s) => Ok::<bool, PageError>(s.contains(segno as u64)),
                Err(e) => Err::<bool, PageError>(e),
            }),
    {
        let key = slru_dir_to_key(kind);
        let buf = match self.tline.get(key, lsn) {
            Ok(b) => b,
            Err(e) => {
                return Err(e);
            },
        };
        let dir = match SlruSegmentDirectory::des(&buf) {
            Ok(d) => d,
            Err(e) => {
                return Err(e);
            },
        };
        Ok(dir.contains(segno))
    }

    /// Does the relation exist?
    pub fn get_rel_exists(&self, tag: RelTag, lsn: Lsn) -> (r: Result<bool, PageError>)
        ensures
            r == rel_exists_spec(self.tline@, tag, lsn.0),
    {
        let key = rel_dir_to_key(tag.spcnode, tag.dbnode);
        let buf = match self.tline.get(key, lsn) {
            Ok(b) => b,
            Err(e) => {
                return Err(e);
            },
        };
        let dir = match RelDirectory::des(&buf) {
            Ok(d) => d,
            Err(e) => {
                return Err(e);
            },
        };
        Ok(dir.contains(tag.relnode, tag.forknum))
    }

    /// All relations in the given tablespace and database, in entry order.
    pub fn list_rels(&self, spcnode: u32, dbnode: u32, lsn: Lsn) -> (r: Result<
        Vec<RelTag>,
        PageError,
    >)
        ensures
            ({
                let read = dir_read_spec(
                    self.tline@,
                    rel_dir_key_spec(spcnode, dbnode),
                    lsn.0,
                    REL_ENTRY_MAX,
                );
                match r {
                    Ok(rels) => read matches Ok(s) && rels@.len() == s.len() && forall|i: int|
                        0 <= i < s.len() ==> {
                            let t = #[trigger] rels@[i];
                            t.spcnode == spcnode && t.dbnode == dbnode && s[i] == rel_entry(
                                t.relnode,
                                t.forknum,
                            )
                        },
                    Err(e) => read == Err::<Seq<u64>, PageError>(e),
                }
            }),
    {
        let key = rel_dir_to_key(spcnode, dbnode);
        let buf = match self.tline.get(key, lsn) {
            Ok(b) => b,
            Err(e) => {
                return Err(e);
            },
        };
        let dir = match RelDirectory::des(&buf) {
            Ok(d) => d,
            Err(e) => {
                return Err(e);
            },
        };
        let pairs = dir.rels();
        let mut rels: Vec<RelTag> = Vec::new();
        let mut i: usize = 0;
        while i < pairs.len()
            invariant
                i <= pairs@.len(),
                rels@.len() == i,
                forall|j: int|
                    0 <= j < i ==> {
                        let t = #[trigger] rels@[j];
                        t.spcnode == spcnode && t.dbnode == dbnode && t.relnode == pairs@[j].0
                            && t.forknum == pairs@[j].1
                    },
            decreases pairs@.len() - i,
        {
            let p = pairs[i];
            rels.push(RelTag { spcnode, dbnode, relnode: p.0, forknum: p.1 });
            i = i + 1;
        }
        Ok(rels)
    }

    /// All SLRU segments of one kind, in ascending order.
    pub fn list_slru_segments(&self, kind: SlruKind, lsn: Lsn) -> (r: Result<Vec<u32>, PageError>)
        ensures
            ({
                let read = dir_read_spec(self.tline@, slru_dir_key_spec(kind), lsn.0, U32_ENTRY_MAX);
                match r {
                    Ok(segs) => read matches Ok(s) && segs@.len() == s.len() && forall|i: int|
                        0 <= i < s.len() ==> s[i] == #[trigger] segs@[i] as u64,
                    Err(e) => read == Err::<Seq<u64>, PageError>(e),
                }
            }),
    {
        let key = slru_dir_to_key(kind);
        let buf = match self.tline.get(key, lsn) {
            Ok(b) => b,
            Err(e) => {
                return Err(e);
            },
        };
        let dir = match SlruSegmentDirectory::des(&buf) {
            Ok(d) => d,
            Err(e) => {
                return Err(e);
            },
        };
        Ok(dir.segments())
    }

    /// The relation-mapper file of one database.
    pub fn get_relmap_file(&self, spcnode: Oid, dbnode: Oid, lsn: Lsn) -> (r: Result<
        Vec<u8>,
        PageError,
    >)
        ensures
            ({
                let s = image_read_spec(self.tline@, relmap_file_key_spec(spcnode, dbnode), lsn.0);
                match r {
                    Ok(b) => s == Ok::<Seq<u8>, PageError>(b@),
                    Err(e) => s == Err::<Seq<u8>, PageError>(e),
                }
            }),
    {
        let key = relmap_file_key(spcnode, dbnode);
        self.tline.get(key, lsn)
    }

    /// All `(spcnode, dbnode)` pairs with databases, in entry order.
    pub fn list_relmap_files(&self, lsn: Lsn) -> (r: Result<Vec<(Oid, Oid)>, PageError>)
        ensures
            ({
                let read = dir_read_spec(self.tline@, dbdir_key_spec(), lsn.0, DB_ENTRY_MAX);
                match r {
                    Ok(dbs) => read matches Ok(s) && dbs@.len() == s.len() && forall|i: int|
                        0 <= i < s.len() ==> s[i] == db_entry(#[trigger] dbs@[i].0, dbs@[i].1),
                    Err(e) => read == Err::<Seq<u64>, PageError>(e),
                }
            }),
    {
        let buf = match self.tline.get(dbdir_key(), lsn) {
            Ok(b) => b,
            Err(e) => {
                return Err(e);
            },
        };
        let dir = match DbDirectory::des(&buf) {
            Ok(d) => d,
            Err(e) => {
                return Err(e);
            },
        };
        Ok(dir.dbs())
    }

    /// The state file of one prepared transaction.
    pub fn get_twophase_file(&self, xid: TransactionId, lsn: Lsn) -> (r: Result<Vec<u8>, PageError>)
        ensures
            ({
                let s = image_read_spec(self.tline@, twophase_file_key_spec(xid), lsn.0);
                match r {
                    Ok(b) => s == Ok::<Seq<u8>, PageError>(b@),
                    Err(e) => s == Err::<Seq<u8>, PageError>(e),
                }
            }),
    {
        let key = twophase_file_key(xid);
        self.tline.get(key, lsn)
    }

    /// All prepared-transaction xids, in ascending order.
    pub fn list_twophase_files(&self, lsn: Lsn) -> (r: Result<Vec<u32>, PageError>)
        ensures
            ({
                let read = dir_read_spec(self.tline@, twophasedir_key_spec(), lsn.0, U32_ENTRY_MAX);
                match r {
                    Ok(xids) => read matches Ok(s) && xids@.len() == s.len() && forall|i: int|
                        0 <= i < s.len() ==> s[i] == #[trigger] xids@[i] as u64,
                    Err(e) => read == Err::<Seq<u64>, PageError>(e),
                }
            }),
    {
        let buf = match self.tline.get(twophasedir_key(), lsn) {
            Ok(b) => b,
            Err(e) => {
                return Err(e);
            },
        };
        let dir = match TwoPhaseDirectory::des(&buf) {
            Ok(d) => d,
            Err(e) => {
                return Err(e);
            },
        };
        Ok(dir.xids())
    }

    /// The control file.
    pub fn get_control_file(&self, lsn: Lsn) -> (r: Result<Vec<u8>, PageError>)
        ensures
            ({
                let s = image_read_spec(self.tline@, controlfile_key_spec(), lsn.0);
                match r {
                    Ok(b) => s == Ok::<Seq<u8>, PageError>(b@),
                    Err(e) => s == Err::<Seq<u8>, PageError>(e),
                }
            }),
    {
        self.tline.get(controlfile_key(), lsn)
    }

    /// The checkpoint blob.
    pub fn get_checkpoint(&self, lsn: Lsn) -> (r: Result<Vec<u8>, PageError>)
        ensures
            ({
                let s = image_read_spec(self.tline@, checkpoint_key_spec(), lsn.0);
                match r {
                    Ok(b) => s == Ok::<Seq<u8>, PageError>(b@),
                    Err(e) => s == Err::<Seq<u8>, PageError>(e),
                }
            }),
    {
        self.tline.get(checkpoint_key(), lsn)
    }

    /// Both the last and the previous record LSN, read together.
    pub fn get_last_record_rlsn(&self) -> (r: RecordLsn)
        ensures
            r.last.0 == self.tline@.last_record_lsn,
            r.prev.0 == self.tline@.prev_record_lsn,
    {
        self.tline.get_last_record_rlsn()
    }

    /// The LSN of the last ingested record.
    pub fn get_last_record_lsn(&self) -> (r: Lsn)
        ensures
            r.0 == self.tline@.last_record_lsn,
    {
        self.tline.get_last_record_lsn()
    }

    /// The LSN of the record before the last one.
    pub fn get_prev_record_lsn(&self) -> (r: Lsn)
        ensures
            r.0 == self.tline@.prev_record_lsn,
    {
        self.tline.get_prev_record_lsn()
    }

    /// The LSN up to which everything has reached disk.
    pub fn get_disk_consistent_lsn(&self) -> (r: Lsn)
        ensures
            r.0 == self.tline@.disk_consistent_lsn,
    {
        self.tline.get_disk_consistent_lsn()
    }

    /// Open a transaction buffer targeting `lsn`. Mutations made through it
    /// are invisible to the getters until `finish` commits them.
    pub fn begin_record(&self, lsn: Lsn) -> (w: DatadirTimelineWriter)
        ensures
            w@.lsn == lsn.0,
            w@.puts == Seq::<(Key, ValueV)>::empty(),
            w@.dels == Seq::<KeyRange>::empty(),
    {
        let w = DatadirTimelineWriter {
            lsn,
            pending_updates: Vec::new(),
            pending_deletions: Vec::new(),
        };
        proof {
            assert(w@.puts =~= Seq::<(Key, ValueV)>::empty());
            assert(w@.dels =~= Seq::<KeyRange>::empty());
        }
        w
    }

    /// Is it valid to request reads at `lsn`?
    pub fn check_lsn_is_in_scope(&self, lsn: Lsn) -> (r: Result<(), PageError>)
        ensures
            r is Ok <==> lsn.0 >= self.tline@.latest_gc_cutoff_lsn,
            r is Err ==> r->Err_0 == PageError::LsnOutOfScope,
    {
        self.tline.check_lsn_is_in_scope(lsn)
    }

    /// The incrementally counted logical size. The incremental accounting is
    /// not kept yet; it always reports zero.
    pub fn get_current_logical_size(&self) -> (r: usize)
        ensures
            r == 0,
    {
        0
    }

    /// The logical size counted on demand. The on-demand accounting is not
    /// kept yet; it always reports zero.
    pub fn get_current_logical_size_non_incremental(&self, _lsn: Lsn) -> (r: Result<
        usize,
        PageError,
    >)
        ensures
            r == Ok::<usize, PageError>(0),
    {
        Ok(0)
    }

    /// Read and decode a little-endian size marker.
    fn read_size(&self, key: Key, lsn: Lsn) -> (r: Result<u32, PageError>)
        ensures
            r == size_read_spec(self.tline@, key, lsn.0),
    {
        let buf = match self.tline.get(key, lsn) {
            Ok(b) => b,
            Err(e) => {
                return Err(e);
            },
        };
        if buf.len() != 4 {
            return Err(PageError::Corrupt);
        }
        let n = read_u32_le(&buf, 0);
        proof {
            assert(buf@.subrange(0, 4) =~= buf@);
            lemma_u32_of_le_of(n);
        }
        Ok(n)
    }
}

/// The mathematical state of a transaction buffer: the target LSN, the
/// buffered puts in order, and the buffered range deletes in order.
pub struct WriterV {
    pub lsn: u64,
    pub puts: Seq<(Key, ValueV)>,
    pub dels: Seq<KeyRange>,
}

/// The latest buffered put for `key`, if any: the last write wins within a
/// transaction.
pub open spec fn puts_find(puts: Seq<(Key, ValueV)>, key: Key) -> Option<ValueV>
    decreases puts.len(),
{
    if puts.len() == 0 {
        None
    } else if puts.last().0 == key {
        Some(puts.last().1)
    } else {
        puts_find(puts.drop_last(), key)
    }
}

/// The operations a commit appends to the timeline: the puts in buffer
/// order, then the range deletes, all stamped with the buffer's LSN.
pub open spec fn writer_tx(w: WriterV) -> Seq<LogRecordV> {
    put_recs_of(w.puts, w.lsn) + del_recs_of(w.dels, w.lsn)
}

/// The buffered puts as timeline operations, stamped with `lsn`.
pub open spec fn put_recs_of(puts: Seq<(Key, ValueV)>, lsn: u64) -> Seq<LogRecordV> {
    puts.map_values(|p: (Key, ValueV)| LogRecordV::Put { key: p.0, lsn: lsn, value: p.1 })
}

/// The buffered range deletes as timeline operations, stamped with `lsn`.
pub open spec fn del_recs_of(dels: Seq<KeyRange>, lsn: u64) -> Seq<LogRecordV> {
    dels.map_values(|d: KeyRange| LogRecordV::Delete { range: d, lsn: lsn })
}

/// Does any of the buffered range deletes cover `key`?
pub open spec fn dels_cover(dels: Seq<KeyRange>, key: Key) -> bool {
    exists|i: int| 0 <= i < dels.len() && range_contains(#[trigger] dels[i], key)
}

/// Committing a transaction buffer: its operations appended, the last-record
/// position advanced to its LSN.
pub open spec fn commit_spec(t: TimelineV, w: WriterV) -> TimelineV {
    TimelineV {
        records: t.records + writer_tx(w),
        last_record_lsn: w.lsn,
        prev_record_lsn: t.last_record_lsn,
        ..t
    }
}

/// A read through the transaction buffer: a buffered image wins over the
/// timeline, a buffered WAL record cannot be read back, everything else
/// falls through to the timeline at its last-record LSN.
pub open spec fn writer_get_spec(w: WriterV, t: TimelineV, key: Key) -> Result<Seq<u8>, PageError> {
    match puts_find(w.puts, key) {
        Some(ValueV::Image(b)) => Ok(b),
        Some(ValueV::WalRecord(_)) => Err(PageError::PendingWalRecord),
        None => image_read_spec(t, key, t.last_record_lsn),
    }
}

/// A directory read through the transaction buffer.
pub open spec fn writer_dir_read_spec(w: WriterV, t: TimelineV, key: Key, bound: u64) -> Result<
    Seq<u64>,
    PageError,
> {
    match writer_get_spec(w, t, key) {
        Err(e) => Err(e),
        Ok(b) => match dirset_parse(b) {
            None => Err(PageError::Corrupt),
            Some(s) => if sorted_strict(s) && entries_bounded(s, bound) {
                Ok(s)
            } else {
                Err(PageError::Corrupt)
            },
        },
    }
}

/// A transaction buffer: mutations batched at one LSN, committed atomically
/// by `finish`.
pub struct DatadirTimelineWriter {
    lsn: Lsn,
    pending_updates: Vec<(Key, Value)>,
    pending_deletions: Vec<KeyRange>,
}

impl View for DatadirTimelineWriter {
    type V = WriterV;

    closed spec fn view(&self) -> WriterV {
        WriterV {
            lsn: self.lsn.0,
            puts: self.pending_updates@.map_values(|p: (Key, Value)| (p.0, p.1@)),
            dels: self.pending_deletions@,
        }
    }
}

impl DatadirTimelineWriter {
    /// Buffer a put.
    fn put(&mut self, key: Key, val: Value)
        ensures
            final(self)@.puts == old(self)@.puts.push((key, val@)),
            final(self)@.dels == old(self)@.dels,
            final(self)@.lsn == old(self)@.lsn,
    {
        self.pending_updates.push((key, val));
        proof {
            assert(self@.puts =~= old(self)@.puts.push((key, val@)));
        }
    }

    /// Buffer a range delete.
    fn delete(&mut self, key_range: KeyRange)
        ensures
            final(self)@.dels == old(self)@.dels.push(key_range),
            final(self)@.puts == old(self)@.puts,
            final(self)@.lsn == old(self)@.lsn,
    {
        self.pending_deletions.push(key_range);
        proof {
            assert(self@.puts =~= old(self)@.puts);
        }
    }

    /// Read through the buffer. A value this transaction deleted but did not
    /// rewrite is still served from the timeline: deletion only stops
    /// storage from leaking.
    fn get(&self, tline: &DatadirTimeline, key: Key) -> (r: Result<Vec<u8>, PageError>)
        ensures
            ({
                let s = writer_get_spec(self@, tline.tline@, key);
                match r {
                    Ok(b) => s == Ok::<Seq<u8>, PageError>(b@),
                    Err(e) => s == Err::<Seq<u8>, PageError>(e),
                }
            }),
    {
        let ghost puts = self@.puts;
        let n = self.pending_updates.len();
        let mut i: usize = n;
        proof {
            assert(puts.take(n as int) =~= puts);
        }
        while i > 0
            invariant
                puts == self@.puts,
                n == puts.len(),
                i <= n,
                puts_find(puts, key) == puts_find(puts.take(i as int), key),
            decreases i,
        {
            proof {
                assert(puts.take(i as int).last() == puts[i as int - 1]);
                assert(puts.take(i as int).drop_last() =~= puts.take(i as int - 1));
            }
            let p = &self.pending_updates[i - 1];
            if p.0.eq(&key) {
                match &p.1 {
                    Value::Image(b) => {
                        return Ok(clone_bytes(b));
                    },
                    Value::WalRecord(_) => {
                        return Err(PageError::PendingWalRecord);
                    },
                }
            }
            i = i - 1;
        }
        proof {
            assert(puts.take(0) =~= Seq::<(Key, ValueV)>::empty());
        }
        let last_lsn = tline.tline.get_last_record_lsn();
        tline.tline.get(key, last_lsn)
    }

    /// Write the empty database, two-phase and SLRU directories: the state
    /// of a freshly initialized timeline.
    pub fn init_empty(&mut self) -> (r: Result<(), PageError>)
        ensures
            r is Ok,
            final(self)@.puts == old(self)@.puts.push(
                (dbdir_key_spec(), ValueV::Image(dirset_ser(Seq::<u64>::empty()))),
            ).push((twophasedir_key_spec(), ValueV::Image(dirset_ser(Seq::<u64>::empty())))).push(
                (slru_dir_key_spec(SlruKind::Clog), ValueV::Image(dirset_ser(Seq::<u64>::empty()))),
            ).push(
                (
                    slru_dir_key_spec(SlruKind::MultiXactMembers),
                    ValueV::Image(dirset_ser(Seq::<u64>::empty())),
                ),
            ).push(
                (
                    slru_dir_key_spec(SlruKind::MultiXactOffsets),
                    ValueV::Image(dirset_ser(Seq::<u64>::empty())),
                ),
            ),
            final(self)@.dels == old(self)@.dels,
            final(self)@.lsn == old(self)@.lsn,
    {
        let dbdir = DbDirectory::empty();
        self.put(dbdir_key(), Value::Image(dbdir.ser()));
        let twophase = TwoPhaseDirectory::empty();
        self.put(twophasedir_key(), Value::Image(twophase.ser()));
        let slru = SlruSegmentDirectory::empty();
        self.put(slru_dir_to_key(SlruKind::Clog), Value::Image(slru.ser()));
        self.put(slru_dir_to_key(SlruKind::MultiXactMembers), Value::Image(slru.ser()));
        self.put(slru_dir_to_key(SlruKind::MultiXactOffsets), Value::Image(slru.ser()));
        Ok(())
    }

    /// Buffer a WAL record for one relation block. This does not extend the
    /// relation: the caller keeps the size marker in step with the blocks it
    /// writes.
    pub fn put_rel_wal_record(&mut self, rel: RelTag, blknum: BlockNumber, rec: WalRecord) -> (r:
        Result<(), PageError>)
        ensures
            r is Ok,
            final(self)@.puts == old(self)@.puts.push(
                (rel_block_key_spec(rel, blknum), ValueV::WalRecord(rec@)),
            ),
            final(self)@.dels == old(self)@.dels,
            final(self)@.lsn == old(self)@.lsn,
    {
        self.put(rel_block_to_key(rel, blknum), Value::WalRecord(rec));
        Ok(())
    }

    /// Buffer a WAL record for one SLRU block.
    pub fn put_slru_wal_record(
        &mut self,
        kind: SlruKind,
        segno: u32,
        blknum: BlockNumber,
        rec: WalRecord,
    ) -> (r: Result<(), PageError>)
        ensures
            r is Ok,
            final(self)@.puts == old(self)@.puts.push(
                (slru_block_key_spec(kind, segno, blknum), ValueV::WalRecord(rec@)),
            ),
            final(self)@.dels == old(self)@.dels,
            final(self)@.lsn == old(self)@.lsn,
    {
        self.put(slru_block_to_key(kind, segno, blknum), Value::WalRecord(rec));
        Ok(())
    }

    /// Buffer a ready-made image of one relation page.
    pub fn put_rel_page_image(&mut self, rel: RelTag, blknum: BlockNumber, img: Vec<u8>) -> (r:
        Result<(), PageError>)
        ensures
            r is Ok,
            final(self)@.puts == old(self)@.puts.push(
                (rel_block_key_spec(rel, blknum), ValueV::Image(img@)),
            ),
            final(self)@.dels == old(self)@.dels,
            final(self)@.lsn == old(self)@.lsn,
    {
        self.put(rel_block_to_key(rel, blknum), Value::Image(img));
        Ok(())
    }

    /// Buffer a ready-made image of one SLRU page.
    pub fn put_slru_page_image(&mut self, kind: SlruKind, segno: u32, blknum: BlockNumber, img: Vec<u8>)
        -> (r: Result<(), PageError>)
        ensures
            r is Ok,
            final(self)@.puts == old(self)@.puts.push(
                (slru_block_key_spec(kind, segno, blknum), ValueV::Image(img@)),
            ),
            final(self)@.dels == old(self)@.dels,
            final(self)@.lsn == old(self)@.lsn,
    {
        self.put(slru_block_to_key(kind, segno, blknum), Value::Image(img));
        Ok(())
    }

    /// Store one database's relation-mapper file, recording the database in
    /// the database directory if it is new there.
    pub fn put_relmap_file(&mut self, tline: &DatadirTimeline, spcnode: Oid, dbnode: Oid, img: Vec<
        u8,
    >) -> (r: Result<(), PageError>)
        ensures
            ({
                let read = writer_dir_read_spec(old(self)@, tline.tline@, dbdir_key_spec(), DB_ENTRY_MAX);
                let e = db_entry(spcnode, dbnode);
                match r {
                    Ok(()) => read matches Ok(s0) && {
                        let dir_puts = if s0.contains(e) {
                            old(self)@.puts
                        } else {
                            old(self)@.puts.push(
                                (dbdir_key_spec(), ValueV::Image(dirset_ser(insert_sorted(s0, e)))),
                            )
                        };
                        &&& final(self)@.puts == dir_puts.push(
                            (relmap_file_key_spec(spcnode, dbnode), ValueV::Image(img@)),
                        )
                        &&& final(self)@.dels == old(self)@.dels
                        &&& final(self)@.lsn == old(self)@.lsn
                    },
                    Err(err) => read == Err::<Seq<u64>, PageError>(err) && *final(self) == *old(self),
                }
            }),
    {
        let buf = match self.get(tline, dbdir_key()) {
            Ok(b) => b,
            Err(e) => {
                return Err(e);
            },
        };
        let mut dir = match DbDirectory::des(&buf) {
            Ok(d) => d,
            Err(e) => {
                return Err(e);
            },
        };
        if dir.insert(spcnode, dbnode) {
            self.put(dbdir_key(), Value::Image(dir.ser()));
        }
        self.put(relmap_file_key(spcnode, dbnode), Value::Image(img));
        Ok(())
    }

    /// Store one prepared transaction's state file, recording its xid in the
    /// two-phase directory; a second file for the same xid is an error.
    pub fn put_twophase_file(&mut self, tline: &DatadirTimeline, xid: TransactionId, img: Vec<u8>)
        -> (r: Result<(), PageError>)
        ensures
            ({
                let read = writer_dir_read_spec(
                    old(self)@,
                    tline.tline@,
                    twophasedir_key_spec(),
                    U32_ENTRY_MAX,
                );
                match r {
                    Ok(()) => read matches Ok(s0) && !s0.contains(xid as u64) && {
                        &&& final(self)@.puts == old(self)@.puts.push(
                            (
                                twophasedir_key_spec(),
                                ValueV::Image(dirset_ser(insert_sorted(s0, xid as u64))),
                            ),
                        ).push((twophase_file_key_spec(xid), ValueV::Image(img@)))
                        &&& final(self)@.dels == old(self)@.dels
                        &&& final(self)@.lsn == old(self)@.lsn
                    },
                    Err(err) => *final(self) == *old(self) && (read == Err::<Seq<u64>, PageError>(err)
                        || (read matches Ok(s0) && s0.contains(xid as u64) && err
                        == PageError::AlreadyExists)),
                }
            }),
    {
        let buf = match self.get(tline, twophasedir_key()) {
            Ok(b) => b,
            Err(e) => {
                return Err(e);
            },
        };
        let mut dir = match TwoPhaseDirectory::des(&buf) {
            Ok(d) => d,
            Err(e) => {
                return Err(e);
            },
        };
        if !dir.insert(xid) {
            return Err(PageError::AlreadyExists);
        }
        self.put(twophasedir_key(), Value::Image(dir.ser()));
        self.put(twophase_file_key(xid), Value::Image(img));
        Ok(())
    }

    /// Buffer a new control file image.
    pub fn put_control_file(&mut self, img: Vec<u8>) -> (r: Result<(), PageError>)
        ensures
            r is Ok,
            final(self)@.puts == old(self)@.puts.push(
                (controlfile_key_spec(), ValueV::Image(img@)),
            ),
            final(self)@.dels == old(self)@.dels,
            final(self)@.lsn == old(self)@.lsn,
    {
        self.put(controlfile_key(), Value::Image(img));
        Ok(())
    }

    /// Buffer a new checkpoint image.
    pub fn put_checkpoint(&mut self, img: Vec<u8>) -> (r: Result<(), PageError>)
        ensures
            r is Ok,
            final(self)@.puts == old(self)@.puts.push((checkpoint_key_spec(), ValueV::Image(img@))),
            final(self)@.dels == old(self)@.dels,
            final(self)@.lsn == old(self)@.lsn,
    {
        self.put(checkpoint_key(), Value::Image(img));
        Ok(())
    }

    /// Create one database's empty relation directory.
    pub fn put_dbdir_creation(&mut self, spcnode: Oid, dbnode: Oid) -> (r: Result<(), PageError>)
        ensures
            r is Ok,
            final(self)@.puts == old(self)@.puts.push(
                (
                    rel_dir_key_spec(spcnode, dbnode),
                    ValueV::Image(dirset_ser(Seq::<u64>::empty())),
                ),
            ),
            final(self)@.dels == old(self)@.dels,
            final(self)@.lsn == old(self)@.lsn,
    {
        let dir_key = rel_dir_to_key(spcnode, dbnode);
        let dir = RelDirectory::empty();
        self.put(dir_key, Value::Image(dir.ser()));
        Ok(())
    }

    /// Drop one database: take it out of the database directory (a missing
    /// entry is tolerated) and delete every key under it.
    pub fn drop_dbdir(&mut self, tline: &DatadirTimeline, spcnode: Oid, dbnode: Oid) -> (r: Result<
        (),
        PageError,
    >)
        ensures
            ({
                let read = writer_dir_read_spec(old(self)@, tline.tline@, dbdir_key_spec(), DB_ENTRY_MAX);
                let e = db_entry(spcnode, dbnode);
                match r {
                    Ok(()) => read matches Ok(s0) && {
                        &&& final(self)@.puts == if s0.contains(e) {
                            old(self)@.puts.push(
                                (dbdir_key_spec(), ValueV::Image(dirset_ser(remove_sorted(s0, e)))),
                            )
                        } else {
                            old(self)@.puts
                        }
                        &&& final(self)@.dels == old(self)@.dels.push(
                            dbdir_key_range_spec(spcnode, dbnode),
                        )
                        &&& final(self)@.lsn == old(self)@.lsn
                    },
                    Err(err) => read == Err::<Seq<u64>, PageError>(err) && *final(self) == *old(self),
                }
            }),
    {
        let buf = match self.get(tline, dbdir_key()) {
            Ok(b) => b,
            Err(e) => {
                return Err(e);
            },
        };
        let mut dir = match DbDirectory::des(&buf) {
            Ok(d) => d,
            Err(e) => {
                return Err(e);
            },
        };
        if dir.remove(spcnode, dbnode) {
            self.put(dbdir_key(), Value::Image(dir.ser()));
        }
        self.delete(dbdir_key_range(spcnode, dbnode));
        Ok(())
    }

    /// Create a relation: record it in its database's relation directory and
    /// store its size marker. A relation already in the directory is an
    /// error.
    pub fn put_rel_creation(&mut self, tline: &DatadirTimeline, rel: RelTag, nblocks: BlockNumber)
        -> (r: Result<(), PageError>)
        ensures
            ({
                let read = writer_dir_read_spec(
                    old(self)@,
                    tline.tline@,
                    rel_dir_key_spec(rel.spcnode, rel.dbnode),
                    REL_ENTRY_MAX,
                );
                let e = rel_entry(rel.relnode, rel.forknum);
                match r {
                    Ok(()) => read matches Ok(s0) && !s0.contains(e) && {
                        &&& final(self)@.puts == old(self)@.puts.push(
                            (
                                rel_dir_key_spec(rel.spcnode, rel.dbnode),
                                ValueV::Image(dirset_ser(insert_sorted(s0, e))),
                            ),
                        ).push((rel_size_key_spec(rel), ValueV::Image(u32_le(nblocks))))
                        &&& final(self)@.dels == old(self)@.dels
                        &&& final(self)@.lsn == old(self)@.lsn
                    },
                    Err(err) => *final(self) == *old(self) && (read == Err::<Seq<u64>, PageError>(err)
                        || (read matches Ok(s0) && s0.contains(e) && err
                        == PageError::AlreadyExists)),
                }
            }),
    {
        let dir_key = rel_dir_to_key(rel.spcnode, rel.dbnode);
        let buf = match self.get(tline, dir_key) {
            Ok(b) => b,
            Err(e) => {
                return Err(e);
            },
        };
        let mut dir = match RelDirectory::des(&buf) {
            Ok(d) => d,
            Err(e) => {
                return Err(e);
            },
        };
        if !dir.insert(rel.relnode, rel.forknum) {
            return Err(PageError::AlreadyExists);
        }
        self.put(dir_key, Value::Image(dir.ser()));
        self.put_size_marker(rel_size_to_key(rel), nblocks);
        Ok(())
    }

    /// Truncate a relation: store its new, smaller size marker.
    pub fn put_rel_truncation(&mut self, rel: RelTag, nblocks: BlockNumber) -> (r: Result<
        (),
        PageError,
    >)
        ensures
            r is Ok,
            final(self)@.puts == old(self)@.puts.push(
                (rel_size_key_spec(rel), ValueV::Image(u32_le(nblocks))),
            ),
            final(self)@.dels == old(self)@.dels,
            final(self)@.lsn == old(self)@.lsn,
    {
        self.put_size_marker(rel_size_to_key(rel), nblocks);
        Ok(())
    }

    /// Create an SLRU segment: record it in its kind's directory and store
    /// its size marker. A segment already in the directory is an error.
    pub fn put_slru_segment_creation(
        &mut self,
        tline: &DatadirTimeline,
        kind: SlruKind,
        segno: u32,
        nblocks: BlockNumber,
    ) -> (r: Result<(), PageError>)
        ensures
            ({
                let read = writer_dir_read_spec(
                    old(self)@,
                    tline.tline@,
                    slru_dir_key_spec(kind),
                    U32_ENTRY_MAX,
                );
                match r {
                    Ok(()) => read matches Ok(s0) && !s0.contains(segno as u64) && {
                        &&& final(self)@.puts == old(self)@.puts.push(
                            (
                                slru_dir_key_spec(kind),
                                ValueV::Image(dirset_ser(insert_sorted(s0, segno as u64))),
                            ),
                        ).push(
                            (
                                slru_segment_size_key_spec(kind, segno),
                                ValueV::Image(u32_le(nblocks)),
                            ),
                        )
                        &&& final(self)@.dels == old(self)@.dels
                        &&& final(self)@.lsn == old(self)@.lsn
                    },
                    Err(err) => *final(self) == *old(self) && (read == Err::<Seq<u64>, PageError>(err)
                        || (read matches Ok(s0) && s0.contains(segno as u64) && err
                        == PageError::AlreadyExists)),
                }
            }),
    {
        let dir_key = slru_dir_to_key(kind);
        let buf = match self.get(tline, dir_key) {
            Ok(b) => b,
            Err(e) => {
                return Err(e);
            },
        };
        let mut dir = match SlruSegmentDirectory::des(&buf) {
            Ok(d) => d,
            Err(e) => {
                return Err(e);
            },
        };
        if !dir.insert(segno) {
            return Err(PageError::AlreadyExists);
        }
        self.put(dir_key, Value::Image(dir.ser()));
        self.put_size_marker(slru_segment_size_to_key(kind, segno), nblocks);
        Ok(())
    }

    /// Extend an SLRU segment: store its new size marker.
    pub fn put_slru_extend(&mut self, kind: SlruKind, segno: u32, nblocks: BlockNumber) -> (r:
        Result<(), PageError>)
        ensures
            r is Ok,
            final(self)@.puts == old(self)@.puts.push(
                (slru_segment_size_key_spec(kind, segno), ValueV::Image(u32_le(nblocks))),
            ),
            final(self)@.dels == old(self)@.dels,
            final(self)@.lsn == old(self)@.lsn,
    {
        self.put_size_marker(slru_segment_size_to_key(kind, segno), nblocks);
        Ok(())
    }

    /// Extend a relation: store its new size marker.
    pub fn put_rel_extend(&mut self, rel: RelTag, nblocks: BlockNumber) -> (r: Result<
        (),
        PageError,
    >)
        ensures
            r is Ok,
            final(self)@.puts == old(self)@.puts.push(
                (rel_size_key_spec(rel), ValueV::Image(u32_le(nblocks))),
            ),
            final(self)@.dels == old(self)@.dels,
            final(self)@.lsn == old(self)@.lsn,
    {
        self.put_size_marker(rel_size_to_key(rel), nblocks);
        Ok(())
    }

    /// Drop a relation: take it out of its database's relation directory (a
    /// missing entry is tolerated) and delete its size marker and every
    /// block. The fork number below `0xff` is a machine limit of the deleted
    /// range's upper bound.
    pub fn put_rel_drop(&mut self, tline: &DatadirTimeline, rel: RelTag) -> (r: Result<
        (),
        PageError,
    >)
        requires
            rel.forknum < 0xff,
        ensures
            ({
                let read = writer_dir_read_spec(
                    old(self)@,
                    tline.tline@,
                    rel_dir_key_spec(rel.spcnode, rel.dbnode),
                    REL_ENTRY_MAX,
                );
                let e = rel_entry(rel.relnode, rel.forknum);
                match r {
                    Ok(()) => read matches Ok(s0) && {
                        &&& final(self)@.puts == if s0.contains(e) {
                            old(self)@.puts.push(
                                (
                                    rel_dir_key_spec(rel.spcnode, rel.dbnode),
                                    ValueV::Image(dirset_ser(remove_sorted(s0, e))),
                                ),
                            )
                        } else {
                            old(self)@.puts
                        }
                        &&& final(self)@.dels == old(self)@.dels.push(rel_key_range_spec(rel))
                        &&& final(self)@.lsn == old(self)@.lsn
                    },
                    Err(err) => read == Err::<Seq<u64>, PageError>(err) && *final(self) == *old(self),
                }
            }),
    {
        let dir_key = rel_dir_to_key(rel.spcnode, rel.dbnode);
        let buf = match self.get(tline, dir_key) {
            Ok(b) => b,
            Err(e) => {
                return Err(e);
            },
        };
        let mut dir = match RelDirectory::des(&buf) {
            Ok(d) => d,
            Err(e) => {
                return Err(e);
            },
        };
        if dir.remove(rel.relnode, rel.forknum) {
            self.put(dir_key, Value::Image(dir.ser()));
        }
        self.delete(rel_key_range(rel));
        Ok(())
    }

    /// Dropping a relation-mapper file is deliberately a no-op for now: the
    /// file is range-deleted with its database directory.
    pub fn drop_relmap_file(&mut self, _spcnode: Oid, _dbnode: Oid) -> (r: Result<(), PageError>)
        ensures
            r is Ok,
            *final(self) == *old(self),
    {
        Ok(())
    }

    /// Drop an SLRU segment: take it out of its kind's directory (a missing
    /// entry is tolerated; the directory is rewritten either way) and delete
    /// its size marker and every block.
    pub fn drop_slru_segment(&mut self, tline: &DatadirTimeline, kind: SlruKind, segno: u32) -> (r:
        Result<(), PageError>)
        ensures
            ({
                let read = writer_dir_read_spec(
                    old(self)@,
                    tline.tline@,
                    slru_dir_key_spec(kind),
                    U32_ENTRY_MAX,
                );
                match r {
                    Ok(()) => read matches Ok(s0) && {
                        &&& final(self)@.puts == old(self)@.puts.push(
                            (
                                slru_dir_key_spec(kind),
                                ValueV::Image(dirset_ser(remove_sorted(s0, segno as u64))),
                            ),
                        )
                        &&& final(self)@.dels == old(self)@.dels.push(
                            slru_segment_key_range_spec(kind, segno),
                        )
                        &&& final(self)@.lsn == old(self)@.lsn
                    },
                    Err(err) => read == Err::<Seq<u64>, PageError>(err) && *final(self) == *old(self),
                }
            }),
    {
        let dir_key = slru_dir_to_key(kind);
        let buf = match self.get(tline, dir_key) {
            Ok(b) => b,
            Err(e) => {
                return Err(e);
            },
        };
        let mut dir = match SlruSegmentDirectory::des(&buf) {
            Ok(d) => d,
            Err(e) => {
                return Err(e);
            },
        };
        dir.remove(segno);
        self.put(dir_key, Value::Image(dir.ser()));
        self.delete(slru_segment_key_range(kind, segno));
        Ok(())
    }

    /// Drop a prepared transaction's state file: take its xid out of the
    /// two-phase directory (a missing entry is tolerated; the directory is
    /// rewritten either way) and delete the file.
    pub fn drop_twophase_file(&mut self, tline: &DatadirTimeline, xid: TransactionId) -> (r: Result<
        (),
        PageError,
    >)
        ensures
            ({
                let read = writer_dir_read_spec(
                    old(self)@,
                    tline.tline@,
                    twophasedir_key_spec(),
                    U32_ENTRY_MAX,
                );
                match r {
                    Ok(()) => read matches Ok(s0) && {
                        &&& final(self)@.puts == old(self)@.puts.push(
                            (
                                twophasedir_key_spec(),
                                ValueV::Image(dirset_ser(remove_sorted(s0, xid as u64))),
                            ),
                        )
                        &&& final(self)@.dels == old(self)@.dels.push(twophase_key_range_spec(xid))
                        &&& final(self)@.lsn == old(self)@.lsn
                    },
                    Err(err) => read == Err::<Seq<u64>, PageError>(err) && *final(self) == *old(self),
                }
            }),
    {
        let buf = match self.get(tline, twophasedir_key()) {
            Ok(b) => b,
            Err(e) => {
                return Err(e);
            },
        };
        let mut dir = match TwoPhaseDirectory::des(&buf) {
            Ok(d) => d,
            Err(e) => {
                return Err(e);
            },
        };
        dir.remove(xid);
        self.put(twophasedir_key(), Value::Image(dir.ser()));
        self.delete(twophase_key_range(xid));
        Ok(())
    }

    /// Buffer a little-endian size marker.
    fn put_size_marker(&mut self, key: Key, nblocks: u32)
        ensures
            final(self)@.puts == old(self)@.puts.push((key, ValueV::Image(u32_le(nblocks)))),
            final(self)@.dels == old(self)@.dels,
            final(self)@.lsn == old(self)@.lsn,
    {
        let mut buf: Vec<u8> = Vec::new();
        push_u32_le(&mut buf, nblocks);
        proof {
            assert(buf@ =~= u32_le(nblocks));
        }
        self.put(key, Value::Image(buf));
    }

    /// Commit: hand every buffered put, then every buffered delete, to the
    /// timeline at this buffer's LSN, and advance the last-record position.
    /// Readers see all of it or none of it.
    #[verifier::loop_isolation(false)]
    pub fn finish(self, tline: &mut DatadirTimeline) -> (r: Result<(), PageError>)
        requires
            self@.lsn >= old(tline).tline@.last_record_lsn,
        ensures
            r is Ok,
            final(tline).tline@ == commit_spec(old(tline).tline@, self@),
    {
        let ghost w = self@;
        let ghost t0 = tline.tline@;
        let ghost put_recs = put_recs_of(w.puts, w.lsn);
        let ghost del_recs = del_recs_of(w.dels, w.lsn);
        let DatadirTimelineWriter { lsn, mut pending_updates, pending_deletions } = self;
        let total: usize = pending_updates.len();
        let mut done: usize = 0;
        while pending_updates.len() > 0
            invariant
                lsn.0 == w.lsn,
                done + pending_updates@.len() == total,
                total == w.puts.len(),
                forall|j: int|
                    0 <= j < pending_updates@.len() ==> (#[trigger] pending_updates@[j].0, pending_updates@[j].1@)
                        == w.puts[done + j],
                tline.tline@.records == t0.records + put_recs.take(done as int),
                tline.tline@.last_record_lsn == t0.last_record_lsn,
                tline.tline@.prev_record_lsn == t0.prev_record_lsn,
                tline.tline@.disk_consistent_lsn == t0.disk_consistent_lsn,
                tline.tline@.latest_gc_cutoff_lsn == t0.latest_gc_cutoff_lsn,
            decreases pending_updates@.len(),
        {
            let ghost before = pending_updates@;
            let p = pending_updates.remove(0);
            proof {
                assert((before[0].0, before[0].1@) == w.puts[done as int]);
                assert(put_recs[done as int] == LogRecordV::Put {
                    key: w.puts[done as int].0,
                    lsn: w.lsn,
                    value: w.puts[done as int].1,
                });
            }
            tline.tline.put(p.0, lsn, p.1);
            proof {
                assert(put_recs.take(done as int + 1) =~= put_recs.take(done as int).push(
                    put_recs[done as int],
                ));
                assert(tline.tline@.records =~= t0.records + put_recs.take(done as int + 1));
                assert forall|j: int|
                    0 <= j < pending_updates@.len() implies (
                #[trigger] pending_updates@[j].0,
                pending_updates@[j].1@,
                ) == w.puts[done + 1 + j] by {
                    assert(pending_updates@[j] == before[j + 1]);
                    assert((before[j + 1].0, before[j + 1].1@) == w.puts[done + (j + 1)]);
                }
            }
            done = done + 1;
        }
        proof {
            assert(put_recs.take(total as int) =~= put_recs);
        }
        let mut i: usize = 0;
        let ndel = pending_deletions.len();
        while i < ndel
            invariant
                lsn.0 == w.lsn,
                i <= ndel,
                ndel == w.dels.len(),
                pending_deletions@ == w.dels,
                tline.tline@.records == t0.records + put_recs + del_recs.take(i as int),
                tline.tline@.last_record_lsn == t0.last_record_lsn,
                tline.tline@.prev_record_lsn == t0.prev_record_lsn,
                tline.tline@.disk_consistent_lsn == t0.disk_consistent_lsn,
                tline.tline@.latest_gc_cutoff_lsn == t0.latest_gc_cutoff_lsn,
            decreases ndel - i,
        {
            let d = pending_deletions[i];
            proof {
                assert(del_recs[i as int] == LogRecordV::Delete {
                    range: w.dels[i as int],
                    lsn: w.lsn,
                });
            }
            tline.tline.delete(d, lsn);
            proof {
                assert(del_recs.take(i as int + 1) =~= del_recs.take(i as int).push(
                    del_recs[i as int],
                ));
                assert(tline.tline@.records =~= t0.records + put_recs + del_recs.take(i as int + 1));
            }
            i = i + 1;
        }
        proof {
            assert(del_recs.take(ndel as int) =~= del_recs);
        }
        tline.tline.advance_last_record_lsn(lsn);
        proof {
            assert(t0.records + put_recs + del_recs =~= t0.records + (put_recs + del_recs));
            assert(tline.tline@ == commit_spec(t0, w));
        }
        Ok(())
    }
}

/// The six directory images a fresh test timeline starts with: the empty
/// database, two-phase and SLRU directories, and an empty relation directory
/// for the test database.
pub open spec fn test_timeline_puts() -> Seq<(Key, ValueV)> {
    seq![
        (dbdir_key_spec(), ValueV::Image(dirset_ser(Seq::<u64>::empty()))),
        (twophasedir_key_spec(), ValueV::Image(dirset_ser(Seq::<u64>::empty()))),
        (slru_dir_key_spec(SlruKind::Clog), ValueV::Image(dirset_ser(Seq::<u64>::empty()))),
        (
            slru_dir_key_spec(SlruKind::MultiXactMembers),
            ValueV::Image(dirset_ser(Seq::<u64>::empty())),
        ),
        (
            slru_dir_key_spec(SlruKind::MultiXactOffsets),
            ValueV::Image(dirset_ser(Seq::<u64>::empty())),
        ),
        (rel_dir_key_spec(0, 111), ValueV::Image(dirset_ser(Seq::<u64>::empty()))),
    ]
}

/// A timeline initialized for tests: empty directories committed at LSN 8,
/// with an empty relation directory for database 111 in tablespace 0.
pub fn create_test_timeline() -> (r: Result<DatadirTimeline, PageError>)
    ensures
        ({
            match r {
                Ok(t) => {
                    &&& t.tline@.last_record_lsn == 8
                    &&& t.tline@.records == put_recs_of(test_timeline_puts(), 8)
                },
                Err(_) => false,
            }
        }),
{
    let tline = Timeline::new(Lsn(8));
    let mut t = DatadirTimeline::new(tline);
    let mut writer = t.begin_record(Lsn(8));
    let r1 = writer.init_empty();
    let r2 = writer.put_dbdir_creation(0, 111);
    let r3 = writer.finish(&mut t);
    proof {
        assert(writer_tx(
            WriterV {
                lsn: 8,
                puts: Seq::<(Key, ValueV)>::empty().push(
                    (dbdir_key_spec(), ValueV::Image(dirset_ser(Seq::<u64>::empty()))),
                ).push((twophasedir_key_spec(), ValueV::Image(dirset_ser(Seq::<u64>::empty())))).push(
                    (
                        slru_dir_key_spec(SlruKind::Clog),
                        ValueV::Image(dirset_ser(Seq::<u64>::empty())),
                    ),
                ).push(
                    (
                        slru_dir_key_spec(SlruKind::MultiXactMembers),
                        ValueV::Image(dirset_ser(Seq::<u64>::empty())),
                    ),
                ).push(
                    (
                        slru_dir_key_spec(SlruKind::MultiXactOffsets),
                        ValueV::Image(dirset_ser(Seq::<u64>::empty())),
                    ),
                ).push((rel_dir_key_spec(0, 111), ValueV::Image(dirset_ser(Seq::<u64>::empty())))),
                dels: Seq::<KeyRange>::empty(),
            },
        ) =~= put_recs_of(test_timeline_puts(), 8)) by {
            assert(Seq::<(Key, ValueV)>::empty().push(
                (dbdir_key_spec(), ValueV::Image(dirset_ser(Seq::<u64>::empty()))),
            ).push((twophasedir_key_spec(), ValueV::Image(dirset_ser(Seq::<u64>::empty())))).push(
                (slru_dir_key_spec(SlruKind::Clog), ValueV::Image(dirset_ser(Seq::<u64>::empty()))),
            ).push(
                (
                    slru_dir_key_spec(SlruKind::MultiXactMembers),
                    ValueV::Image(dirset_ser(Seq::<u64>::empty())),
                ),
            ).push(
                (
                    slru_dir_key_spec(SlruKind::MultiXactOffsets),
                    ValueV::Image(dirset_ser(Seq::<u64>::empty())),
                ),
            ).push((rel_dir_key_spec(0, 111), ValueV::Image(dirset_ser(Seq::<u64>::empty()))))
                =~= test_timeline_puts());
        }
        assert(Seq::<LogRecordV>::empty() + put_recs_of(test_timeline_puts(), 8) =~= put_recs_of(
            test_timeline_puts(),
            8,
        ));
    }
    match (r1, r2, r3) {
        (Ok(()), Ok(()), Ok(())) => Ok(t),
        _ => Err(PageError::Corrupt),
    }
}

/// Every operation a transaction buffer commits is stamped with its LSN.
pub proof fn lemma_writer_tx_lsn(w: WriterV)
    ensures
        forall|i: int| 0 <= i < writer_tx(w).len() ==> rec_lsn(#[trigger] writer_tx(w)[i]) == w.lsn,
{
    let tx = writer_tx(w);
    assert forall|i: int| 0 <= i < tx.len() implies rec_lsn(#[trigger] tx[i]) == w.lsn by {
        if i < w.puts.len() {
            assert(tx[i] == put_recs_of(w.puts, w.lsn)[i]);
        } else {
            assert(tx[i] == del_recs_of(w.dels, w.lsn)[i - w.puts.len()]);
        }
    }
}

/// The puts of a transaction, alone, pin a key exactly when the buffer holds
/// a put for it, to its latest buffered value.
proof fn lemma_tx_lookup_puts(puts: Seq<(Key, ValueV)>, lsn: u64, key: Key)
    ensures
        tx_lookup(put_recs_of(puts, lsn), key) == match puts_find(puts, key) {
            Some(v) => Some(Some(v)),
            None => None::<Option<ValueV>>,
        },
    decreases puts.len(),
{
    let recs = put_recs_of(puts, lsn);
    if puts.len() == 0 {
        assert(recs =~= Seq::<LogRecordV>::empty());
    } else {
        assert(recs.last() == LogRecordV::Put {
            key: puts.last().0,
            lsn: lsn,
            value: puts.last().1,
        });
        if puts.last().0 == key {
        } else {
            assert(recs.drop_last() =~= put_recs_of(puts.drop_last(), lsn));
            lemma_tx_lookup_puts(puts.drop_last(), lsn, key);
        }
    }
}

/// Law (what one transaction says about a key): a buffered range delete
/// covering the key pins deletion; otherwise its latest buffered put pins
/// that value; otherwise the transaction says nothing about the key.
pub proof fn lemma_writer_tx_lookup(w: WriterV, key: Key)
    ensures
        tx_lookup(writer_tx(w), key) == if dels_cover(w.dels, key) {
            Some(None::<ValueV>)
        } else {
            match puts_find(w.puts, key) {
                Some(v) => Some(Some(v)),
                None => None::<Option<ValueV>>,
            }
        },
{
    lemma_tx_lookup_dels(w.puts, w.dels, w.lsn, key);
    lemma_tx_lookup_puts(w.puts, w.lsn, key);
}

/// Walking the deletes of a transaction from the end: any covering delete
/// pins deletion, else the puts decide.
proof fn lemma_tx_lookup_dels(puts: Seq<(Key, ValueV)>, dels: Seq<KeyRange>, lsn: u64, key: Key)
    ensures
        tx_lookup(put_recs_of(puts, lsn) + del_recs_of(dels, lsn), key) == if dels_cover(
            dels,
            key,
        ) {
            Some(None::<ValueV>)
        } else {
            tx_lookup(put_recs_of(puts, lsn), key)
        },
    decreases dels.len(),
{
    let p = put_recs_of(puts, lsn);
    let d = del_recs_of(dels, lsn);
    if dels.len() == 0 {
        assert(p + d =~= p);
        assert(!dels_cover(dels, key));
    } else {
        let all = p + d;
        assert(all.last() == d[dels.len() - 1]);
        assert(d[dels.len() - 1] == LogRecordV::Delete { range: dels.last(), lsn: lsn });
        if range_contains(dels.last(), key) {
            assert(dels_cover(dels, key)) by {
                assert(range_contains(dels[dels.len() - 1], key));
            }
        } else {
            assert(all.drop_last() =~= p + del_recs_of(dels.drop_last(), lsn));
            lemma_tx_lookup_dels(puts, dels.drop_last(), lsn, key);
            assert(dels_cover(dels, key) == dels_cover(dels.drop_last(), key)) by {
                if dels_cover(dels, key) {
                    let i = choose|i: int|
                        0 <= i < dels.len() && range_contains(#[trigger] dels[i], key);
                    assert(i < dels.len() - 1);
                    assert(range_contains(dels.drop_last()[i], key));
                }
                if dels_cover(dels.drop_last(), key) {
                    let i = choose|i: int|
                        0 <= i < dels.drop_last().len() && range_contains(
                            #[trigger] dels.drop_last()[i],
                            key,
                        );
                    assert(range_contains(dels[i], key));
                }
            }
        }
    }
}

/// The latest buffered put after one more put: the new one for its own key,
/// the old answer for every other key. This is how `put_rel_drop`'s
/// postcondition meets the requirement of the drop law below.
pub proof fn lemma_puts_find_push(puts: Seq<(Key, ValueV)>, key: Key, v: ValueV, key2: Key)
    ensures
        puts_find(puts.push((key, v)), key) == Some(v),
        key2 != key ==> puts_find(puts.push((key, v)), key2) == puts_find(puts, key2),
{
    assert(puts.push((key, v)).last() == (key, v));
    assert(puts.push((key, v)).drop_last() =~= puts);
}

/// Law (ingestion is atomic at the transaction's LSN): a reader below the
/// buffer's LSN observes none of its operations; a reader at or above it
/// observes, for every key the transaction touched, exactly the outcome the
/// transaction pinned, and untouched keys keep their history.
pub proof fn lemma_commit_atomic(t0: TimelineV, w: WriterV, key: Key, lsn2: u64)
    ensures
        lsn2 < w.lsn ==> lookup(commit_spec(t0, w).records, key, lsn2) == lookup(
            t0.records,
            key,
            lsn2,
        ),
        lsn2 >= w.lsn ==> lookup(commit_spec(t0, w).records, key, lsn2) == (match tx_lookup(
            writer_tx(w),
            key,
        ) {
            Some(res) => res,
            None => lookup(t0.records, key, lsn2),
        }),
{
    lemma_writer_tx_lsn(w);
    if lsn2 < w.lsn {
        crate::repository::lemma_txn_invisible_below(t0.records, writer_tx(w), key, lsn2);
    } else {
        lemma_txn_visible_at(t0.records, writer_tx(w), key, lsn2);
    }
}

/// Law (a drop hides the relation from every later read): once a
/// transaction's latest buffered write of a relation directory is an image
/// whose entries do not include `rel` — as `put_rel_drop` leaves it — then
/// after commit, no read at or past the commit LSN reports the
/// relation as existing, and no directory listing includes it.
pub proof fn lemma_drop_hides_future(t0: TimelineV, w: WriterV, rel: RelTag, lsn2: u64, s1: Seq<u64>)
    requires
        lsn2 >= w.lsn,
        s1.len() <= u64::MAX,
        sorted_strict(s1),
        !s1.contains(rel_entry(rel.relnode, rel.forknum)),
        puts_find(w.puts, rel_dir_key_spec(rel.spcnode, rel.dbnode)) == Some(
            ValueV::Image(dirset_ser(s1)),
        ),
    ensures
        rel_exists_spec(commit_spec(t0, w), rel, lsn2) != Ok::<bool, PageError>(true),
        dir_read_spec(
            commit_spec(t0, w),
            rel_dir_key_spec(rel.spcnode, rel.dbnode),
            lsn2,
            REL_ENTRY_MAX,
        ) matches Ok(s) ==> !s.contains(rel_entry(rel.relnode, rel.forknum)),
{
    let dk = rel_dir_key_spec(rel.spcnode, rel.dbnode);
    let tx = writer_tx(w);
    let t1 = commit_spec(t0, w);
    lemma_writer_tx_lsn(w);
    lemma_txn_visible_at(t0.records, tx, dk, lsn2);
    lemma_writer_tx_lookup(w, dk);
    if dels_cover(w.dels, dk) {
        assert(lookup(t1.records, dk, lsn2) is None);
    } else {
        assert(lookup(t1.records, dk, lsn2) == Some(ValueV::Image(dirset_ser(s1))));
        lemma_dirset_round_trip(s1);
    }
}

} // verus!
