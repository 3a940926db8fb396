//! Packing PostgreSQL-level names into keys and back, and the ranges used
//! for bulk deletes.
//!
//! The tag byte partitions the space: relation data, SLRU segments,
//! two-phase state, and the control file and checkpoint singletons.

use vstd::prelude::*;

use crate::key::Key;
use crate::key::KeyRange;
use crate::key::key_lt;
use crate::key::range_contains;
use crate::relish::BlockNumber;
use crate::relish::Oid;
use crate::relish::RelTag;
use crate::relish::RelishTag;
use crate::relish::SlruKind;
use crate::relish::TransactionId;
use crate::PageError;

verus! {

/// The key of the database directory blob.
pub open spec fn dbdir_key_spec() -> Key {
    Key { field1: 0x00, field2: 0, field3: 0, field4: 0, field5: 0, field6: 0 }
}

/// The key of the two-phase directory blob.
pub open spec fn twophasedir_key_spec() -> Key {
    Key { field1: 0x02, field2: 0, field3: 0, field4: 0, field5: 0, field6: 0 }
}

/// The key of the control file.
pub open spec fn controlfile_key_spec() -> Key {
    Key { field1: 0x03, field2: 0, field3: 0, field4: 0, field5: 0, field6: 0 }
}

/// The key of the checkpoint blob.
pub open spec fn checkpoint_key_spec() -> Key {
    Key { field1: 0x03, field2: 0, field3: 0, field4: 0, field5: 0, field6: 1 }
}

/// The key of the database directory blob.
pub fn dbdir_key() -> (r: Key)
    ensures
        r == dbdir_key_spec(),
{
    Key { field1: 0x00, field2: 0, field3: 0, field4: 0, field5: 0, field6: 0 }
}

/// The key of the two-phase directory blob.
pub fn twophasedir_key() -> (r: Key)
    ensures
        r == twophasedir_key_spec(),
{
    Key { field1: 0x02, field2: 0, field3: 0, field4: 0, field5: 0, field6: 0 }
}

/// The key of the control file.
pub fn controlfile_key() -> (r: Key)
    ensures
        r == controlfile_key_spec(),
{
    Key { field1: 0x03, field2: 0, field3: 0, field4: 0, field5: 0, field6: 0 }
}

/// The key of the checkpoint blob.
pub fn checkpoint_key() -> (r: Key)
    ensures
        r == checkpoint_key_spec(),
{
    Key { field1: 0x03, field2: 0, field3: 0, field4: 0, field5: 0, field6: 1 }
}

/// The numeric code of an SLRU kind in key field 2.
pub open spec fn slru_kind_num(kind: SlruKind) -> u32 {
    match kind {
        SlruKind::Clog => 0x00,
        SlruKind::MultiXactMembers => 0x01,
        SlruKind::MultiXactOffsets => 0x02,
    }
}

/// The key of one block of a relation fork.
pub open spec fn rel_block_key_spec(rel: RelTag, blknum: u32) -> Key {
    Key {
        field1: 0x00,
        field2: rel.spcnode,
        field3: rel.dbnode,
        field4: rel.relnode,
        field5: rel.forknum,
        field6: blknum,
    }
}

/// The key of the relation directory blob of one database.
pub open spec fn rel_dir_key_spec(spcnode: u32, dbnode: u32) -> Key {
    Key { field1: 0x00, field2: spcnode, field3: dbnode, field4: 0, field5: 0, field6: 1 }
}

/// The key of a relation fork's size marker. All block keys of the fork sort
/// before it.
pub open spec fn rel_size_key_spec(rel: RelTag) -> Key {
    Key {
        field1: 0x00,
        field2: rel.spcnode,
        field3: rel.dbnode,
        field4: rel.relnode,
        field5: rel.forknum,
        field6: 0xffffffff,
    }
}

/// The key of the segment directory blob of one SLRU kind.
pub open spec fn slru_dir_key_spec(kind: SlruKind) -> Key {
    Key { field1: 0x01, field2: slru_kind_num(kind), field3: 0, field4: 0, field5: 0, field6: 0 }
}

/// The key of one block of an SLRU segment.
pub open spec fn slru_block_key_spec(kind: SlruKind, segno: u32, blknum: u32) -> Key {
    Key {
        field1: 0x01,
        field2: slru_kind_num(kind),
        field3: 1,
        field4: segno,
        field5: 0,
        field6: blknum,
    }
}

/// The key of an SLRU segment's size marker.
pub open spec fn slru_segment_size_key_spec(kind: SlruKind, segno: u32) -> Key {
    Key {
        field1: 0x01,
        field2: slru_kind_num(kind),
        field3: 1,
        field4: segno,
        field5: 0,
        field6: 0xffffffff,
    }
}

/// The key of the relation-mapper file of one database.
pub open spec fn relmap_file_key_spec(spcnode: u32, dbnode: u32) -> Key {
    Key { field1: 0x00, field2: spcnode, field3: dbnode, field4: 0, field5: 0, field6: 0 }
}

/// The key of one prepared transaction's state file.
pub open spec fn twophase_file_key_spec(xid: u32) -> Key {
    Key { field1: 0x02, field2: 0, field3: 0, field4: 0, field5: 0, field6: xid }
}

/// The range holding every block and the size marker of one relation fork.
pub open spec fn rel_key_range_spec(rel: RelTag) -> KeyRange {
    KeyRange {
        start: Key {
            field1: 0x00,
            field2: rel.spcnode,
            field3: rel.dbnode,
            field4: rel.relnode,
            field5: rel.forknum,
            field6: 0,
        },
        end: Key {
            field1: 0x00,
            field2: rel.spcnode,
            field3: rel.dbnode,
            field4: rel.relnode,
            field5: (rel.forknum + 1) as u8,
            field6: 0,
        },
    }
}

/// The range holding every block and the size marker of one SLRU segment.
pub open spec fn slru_segment_key_range_spec(kind: SlruKind, segno: u32) -> KeyRange {
    KeyRange {
        start: Key {
            field1: 0x01,
            field2: slru_kind_num(kind),
            field3: 1,
            field4: segno,
            field5: 0,
            field6: 0,
        },
        end: Key {
            field1: 0x01,
            field2: slru_kind_num(kind),
            field3: 1,
            field4: segno,
            field5: 1,
            field6: 0,
        },
    }
}

/// The range holding one prepared transaction's state file. The upper bound
/// bumps the next field on xid overflow so it is always strictly above the
/// lower bound.
pub open spec fn twophase_key_range_spec(xid: u32) -> KeyRange {
    KeyRange {
        start: Key { field1: 0x02, field2: 0, field3: 0, field4: 0, field5: 0, field6: xid },
        end: Key {
            field1: 0x02,
            field2: 0,
            field3: 0,
            field4: 0,
            field5: if xid == 0xffffffffu32 {
                1
            } else {
                0
            },
            field6: if xid == 0xffffffffu32 {
                0
            } else {
                (xid + 1) as u32
            },
        },
    }
}

/// The range holding everything under one database: its relation-mapper
/// file, its relation directory, and every relation's blocks and sizes.
pub open spec fn dbdir_key_range_spec(spcnode: u32, dbnode: u32) -> KeyRange {
    KeyRange {
        start: Key { field1: 0x00, field2: spcnode, field3: dbnode, field4: 0, field5: 0, field6: 0 },
        end: Key {
            field1: 0x00,
            field2: spcnode,
            field3: dbnode,
            field4: 0xffffffff,
            field5: 0xff,
            field6: 0xffffffff,
        },
    }
}

/// The key of one block of a relation fork.
pub fn rel_block_to_key(rel: RelTag, blknum: BlockNumber) -> (r: Key)
    ensures
        r == rel_block_key_spec(rel, blknum),
{
    Key {
        field1: 0x00,
        field2: rel.spcnode,
        field3: rel.dbnode,
        field4: rel.relnode,
        field5: rel.forknum,
        field6: blknum,
    }
}

/// The key of the relation directory blob of one database.
pub fn rel_dir_to_key(spcnode: Oid, dbnode: Oid) -> (r: Key)
    ensures
        r == rel_dir_key_spec(spcnode, dbnode),
{
    Key { field1: 0x00, field2: spcnode, field3: dbnode, field4: 0, field5: 0, field6: 1 }
}

/// The key of a relation fork's size marker.
pub fn rel_size_to_key(rel: RelTag) -> (r: Key)
    ensures
        r == rel_size_key_spec(rel),
{
    Key {
        field1: 0x00,
        field2: rel.spcnode,
        field3: rel.dbnode,
        field4: rel.relnode,
        field5: rel.forknum,
        field6: 0xffffffff,
    }
}

/// The numeric code of an SLRU kind.
pub fn slru_kind_to_num(kind: SlruKind) -> (r: u32)
    ensures
        r == slru_kind_num(kind),
{
    match kind {
        SlruKind::Clog => 0x00,
        SlruKind::MultiXactMembers => 0x01,
        SlruKind::MultiXactOffsets => 0x02,
    }
}

/// The key of the segment directory blob of one SLRU kind.
pub fn slru_dir_to_key(kind: SlruKind) -> (r: Key)
    ensures
        r == slru_dir_key_spec(kind),
{
    Key {
        field1: 0x01,
        field2: slru_kind_to_num(kind),
        field3: 0,
        field4: 0,
        field5: 0,
        field6: 0,
    }
}

/// The key of one block of an SLRU segment.
pub fn slru_block_to_key(kind: SlruKind, segno: u32, blknum: BlockNumber) -> (r: Key)
    ensures
        r == slru_block_key_spec(kind, segno, blknum),
{
    Key {
        field1: 0x01,
        field2: slru_kind_to_num(kind),
        field3: 1,
        field4: segno,
        field5: 0,
        field6: blknum,
    }
}

/// The key of an SLRU segment's size marker.
pub fn slru_segment_size_to_key(kind: SlruKind, segno: u32) -> (r: Key)
    ensures
        r == slru_segment_size_key_spec(kind, segno),
{
    Key {
        field1: 0x01,
        field2: slru_kind_to_num(kind),
        field3: 1,
        field4: segno,
        field5: 0,
        field6: 0xffffffff,
    }
}

/// The range holding every block and the size marker of one relation fork.
/// The fork number below `0xff` is a machine limit of the range's upper
/// bound; PostgreSQL forks stop at 3.
pub fn rel_key_range(rel: RelTag) -> (r: KeyRange)
    requires
        rel.forknum < 0xff,
    ensures
        r == rel_key_range_spec(rel),
        key_lt(r.start, r.end),
        forall|blknum: u32| range_contains(r, rel_block_key_spec(rel, blknum)),
        range_contains(r, rel_size_key_spec(rel)),
{
    KeyRange {
        start: Key {
            field1: 0x00,
            field2: rel.spcnode,
            field3: rel.dbnode,
            field4: rel.relnode,
            field5: rel.forknum,
            field6: 0,
        },
        end: Key {
            field1: 0x00,
            field2: rel.spcnode,
            field3: rel.dbnode,
            field4: rel.relnode,
            field5: rel.forknum + 1,
            field6: 0,
        },
    }
}

/// The range holding every block and the size marker of one SLRU segment.
pub fn slru_segment_key_range(kind: SlruKind, segno: u32) -> (r: KeyRange)
    ensures
        r == slru_segment_key_range_spec(kind, segno),
        key_lt(r.start, r.end),
        forall|blknum: u32| range_contains(r, slru_block_key_spec(kind, segno, blknum)),
        range_contains(r, slru_segment_size_key_spec(kind, segno)),
{
    let field2 = slru_kind_to_num(kind);
    KeyRange {
        start: Key { field1: 0x01, field2, field3: 1, field4: segno, field5: 0, field6: 0 },
        end: Key { field1: 0x01, field2, field3: 1, field4: segno, field5: 1, field6: 0 },
    }
}

/// The key of the relation-mapper file of one database.
pub fn relmap_file_key(spcnode: Oid, dbnode: Oid) -> (r: Key)
    ensures
        r == relmap_file_key_spec(spcnode, dbnode),
{
    Key { field1: 0x00, field2: spcnode, field3: dbnode, field4: 0, field5: 0, field6: 0 }
}

/// The key of one prepared transaction's state file.
pub fn twophase_file_key(xid: TransactionId) -> (r: Key)
    ensures
        r == twophase_file_key_spec(xid),
{
    Key { field1: 0x02, field2: 0, field3: 0, field4: 0, field5: 0, field6: xid }
}

/// The range holding one prepared transaction's state file. The upper bound
/// is strictly above the lower bound for every xid, the largest included.
pub fn twophase_key_range(xid: TransactionId) -> (r: KeyRange)
    ensures
        r == twophase_key_range_spec(xid),
        key_lt(r.start, r.end),
        range_contains(r, twophase_file_key_spec(xid)),
{
    let overflowed = xid == 0xffffffff;
    let next_xid: u32 = if overflowed {
        0
    } else {
        xid + 1
    };
    KeyRange {
        start: Key { field1: 0x02, field2: 0, field3: 0, field4: 0, field5: 0, field6: xid },
        end: Key {
            field1: 0x02,
            field2: 0,
            field3: 0,
            field4: 0,
            field5: if overflowed {
                1
            } else {
                0
            },
            field6: next_xid,
        },
    }
}

/// The range holding everything under one database.
pub fn dbdir_key_range(spcnode: Oid, dbnode: Oid) -> (r: KeyRange)
    ensures
        r == dbdir_key_range_spec(spcnode, dbnode),
        key_lt(r.start, r.end),
        range_contains(r, relmap_file_key_spec(spcnode, dbnode)),
        range_contains(r, rel_dir_key_spec(spcnode, dbnode)),
{
    KeyRange {
        start: Key { field1: 0x00, field2: spcnode, field3: dbnode, field4: 0, field5: 0, field6: 0 },
        end: Key {
            field1: 0x00,
            field2: spcnode,
            field3: dbnode,
            field4: 0xffffffff,
            field5: 0xff,
            field6: 0xffffffff,
        },
    }
}

/// Decode a relation block key. Only tag byte `0x00` names relation blocks.
pub fn key_to_rel_block(key: Key) -> (r: Result<(RelTag, BlockNumber), PageError>)
    ensures
        key.field1 == 0x00 ==> r == Ok::<(RelTag, BlockNumber), PageError>(
            (
                RelTag {
                    spcnode: key.field2,
                    dbnode: key.field3,
                    relnode: key.field4,
                    forknum: key.field5,
                },
                key.field6,
            ),
        ),
        key.field1 != 0x00 ==> r == Err::<(RelTag, BlockNumber), PageError>(PageError::InvalidKey),
{
    if key.field1 == 0x00 {
        Ok(
            (
                RelTag {
                    spcnode: key.field2,
                    dbnode: key.field3,
                    relnode: key.field4,
                    forknum: key.field5,
                },
                key.field6,
            ),
        )
    } else {
        Err(PageError::InvalidKey)
    }
}

/// Decode an SLRU block key. Only tag byte `0x01` with a known kind code
/// names SLRU blocks.
pub fn key_to_slru_block(key: Key) -> (r: Result<(SlruKind, u32, BlockNumber), PageError>)
    ensures
        key.field1 == 0x01 && key.field2 <= 0x02 ==> (r matches Ok((kind, segno, blknum))
            && slru_kind_num(kind) == key.field2 && segno == key.field4 && blknum == key.field6),
        !(key.field1 == 0x01 && key.field2 <= 0x02) ==> r == Err::<
            (SlruKind, u32, BlockNumber),
            PageError,
        >(PageError::InvalidKey),
{
    if key.field1 == 0x01 {
        let kind = if key.field2 == 0x00 {
            SlruKind::Clog
        } else if key.field2 == 0x01 {
            SlruKind::MultiXactMembers
        } else if key.field2 == 0x02 {
            SlruKind::MultiXactOffsets
        } else {
            return Err(PageError::InvalidKey);
        };
        Ok((kind, key.field4, key.field6))
    } else {
        Err(PageError::InvalidKey)
    }
}

/// Decode any blocky key: a relation block or an SLRU block.
pub fn key_to_relish_block(key: Key) -> (r: Result<(RelishTag, BlockNumber), PageError>)
    ensures
        key.field1 == 0x00 ==> r == Ok::<(RelishTag, BlockNumber), PageError>(
            (
                RelishTag::Relation(
                    RelTag {
                        spcnode: key.field2,
                        dbnode: key.field3,
                        relnode: key.field4,
                        forknum: key.field5,
                    },
                ),
                key.field6,
            ),
        ),
        key.field1 == 0x01 && key.field2 <= 0x02 ==> (r matches Ok((tag, blknum)) && (tag matches
            RelishTag::Slru { slru, segno } && slru_kind_num(slru) == key.field2 && segno
            == key.field4) && blknum == key.field6),
        !(key.field1 == 0x00 || (key.field1 == 0x01 && key.field2 <= 0x02)) ==> r == Err::<
            (RelishTag, BlockNumber),
            PageError,
        >(PageError::InvalidKey),
{
    if key.field1 == 0x00 {
        Ok(
            (
                RelishTag::Relation(
                    RelTag {
                        spcnode: key.field2,
                        dbnode: key.field3,
                        relnode: key.field4,
                        forknum: key.field5,
                    },
                ),
                key.field6,
            ),
        )
    } else if key.field1 == 0x01 {
        let slru = if key.field2 == 0x00 {
            SlruKind::Clog
        } else if key.field2 == 0x01 {
            SlruKind::MultiXactMembers
        } else if key.field2 == 0x02 {
            SlruKind::MultiXactOffsets
        } else {
            return Err(PageError::InvalidKey);
        };
        Ok((RelishTag::Slru { slru, segno: key.field4 }, key.field6))
    } else {
        Err(PageError::InvalidKey)
    }
}

} // verus!
