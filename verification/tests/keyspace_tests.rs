use pageserver::key::Key;
use pageserver::key::KeyRange;
use pageserver::keyspace::dbdir_key_range;
use pageserver::keyspace::key_to_rel_block;
use pageserver::keyspace::key_to_relish_block;
use pageserver::keyspace::key_to_slru_block;
use pageserver::keyspace::rel_block_to_key;
use pageserver::keyspace::rel_dir_to_key;
use pageserver::keyspace::rel_key_range;
use pageserver::keyspace::rel_size_to_key;
use pageserver::keyspace::relmap_file_key;
use pageserver::keyspace::slru_block_to_key;
use pageserver::keyspace::slru_dir_to_key;
use pageserver::keyspace::slru_segment_key_range;
use pageserver::keyspace::slru_segment_size_to_key;
use pageserver::keyspace::twophase_file_key;
use pageserver::keyspace::twophase_key_range;
use pageserver::relish::RelTag;
use pageserver::relish::RelishTag;
use pageserver::relish::SlruKind;
use pageserver::PageError;

fn key(f1: u8, f2: u32, f3: u32, f4: u32, f5: u8, f6: u32) -> Key {
    Key { field1: f1, field2: f2, field3: f3, field4: f4, field5: f5, field6: f6 }
}

const REL: RelTag = RelTag { spcnode: 1, dbnode: 111, relnode: 1000, forknum: 0 };

#[test]
fn rel_block_key_layout() {
    assert_eq!(rel_block_to_key(REL, 7), key(0x00, 1, 111, 1000, 0, 7));
}

#[test]
fn rel_size_key_sorts_after_every_block_key() {
    let size_key = rel_size_to_key(REL);
    assert_eq!(size_key, key(0x00, 1, 111, 1000, 0, 0xffffffff));
    let blk = rel_block_to_key(REL, 0xfffffffe);
    assert!(blk.lt(&size_key));
}

#[test]
fn rel_dir_key_layout() {
    assert_eq!(rel_dir_to_key(1, 111), key(0x00, 1, 111, 0, 0, 1));
}

#[test]
fn relmap_file_key_layout() {
    assert_eq!(relmap_file_key(1, 111), key(0x00, 1, 111, 0, 0, 0));
}

#[test]
fn slru_dir_keys_by_kind() {
    assert_eq!(slru_dir_to_key(SlruKind::Clog), key(0x01, 0, 0, 0, 0, 0));
    assert_eq!(slru_dir_to_key(SlruKind::MultiXactMembers), key(0x01, 1, 0, 0, 0, 0));
    assert_eq!(slru_dir_to_key(SlruKind::MultiXactOffsets), key(0x01, 2, 0, 0, 0, 0));
}

#[test]
fn slru_block_and_size_keys() {
    assert_eq!(slru_block_to_key(SlruKind::Clog, 5, 9), key(0x01, 0, 1, 5, 0, 9));
    assert_eq!(slru_segment_size_to_key(SlruKind::Clog, 5), key(0x01, 0, 1, 5, 0, 0xffffffff));
}

#[test]
fn rel_key_range_covers_blocks_and_size() {
    let r = rel_key_range(REL);
    assert!(r.contains(&rel_block_to_key(REL, 0)));
    assert!(r.contains(&rel_block_to_key(REL, 123456)));
    assert!(r.contains(&rel_size_to_key(REL)));
    let other_fork = RelTag { forknum: 1, ..REL };
    assert!(!r.contains(&rel_block_to_key(other_fork, 0)));
}

#[test]
fn slru_segment_key_range_covers_blocks_and_size() {
    let r = slru_segment_key_range(SlruKind::MultiXactMembers, 3);
    assert!(r.contains(&slru_block_to_key(SlruKind::MultiXactMembers, 3, 0)));
    assert!(r.contains(&slru_block_to_key(SlruKind::MultiXactMembers, 3, 0xfffffffe)));
    assert!(r.contains(&slru_segment_size_to_key(SlruKind::MultiXactMembers, 3)));
    assert!(!r.contains(&slru_block_to_key(SlruKind::MultiXactMembers, 4, 0)));
    assert!(!r.contains(&slru_dir_to_key(SlruKind::MultiXactMembers)));
}

#[test]
fn twophase_key_range_ordinary() {
    let r = twophase_key_range(41);
    assert_eq!(r.start, key(0x02, 0, 0, 0, 0, 41));
    assert_eq!(r.end, key(0x02, 0, 0, 0, 0, 42));
    assert!(r.contains(&twophase_file_key(41)));
    assert!(!r.contains(&twophase_file_key(42)));
}

#[test]
fn twophase_xid_overflow_range() {
    let r = twophase_key_range(0xffffffff);
    assert!(r.start.lt(&r.end));
    assert_eq!(r.end, key(0x02, 0, 0, 0, 1, 0));
    assert!(r.contains(&twophase_file_key(0xffffffff)));
}

#[test]
fn dbdir_key_range_covers_database() {
    let r = dbdir_key_range(1, 111);
    assert!(r.contains(&relmap_file_key(1, 111)));
    assert!(r.contains(&rel_dir_to_key(1, 111)));
    assert!(r.contains(&rel_block_to_key(REL, 99)));
    assert!(!r.contains(&relmap_file_key(1, 112)));
}

#[test]
fn key_to_rel_block_round_trip() {
    let k = rel_block_to_key(REL, 33);
    assert_eq!(key_to_rel_block(k), Ok((REL, 33)));
}

#[test]
fn key_to_rel_block_rejects_other_tags() {
    assert_eq!(key_to_rel_block(key(0x02, 0, 0, 0, 0, 1)), Err(PageError::InvalidKey));
}

#[test]
fn key_to_slru_block_round_trip() {
    let k = slru_block_to_key(SlruKind::MultiXactOffsets, 17, 4);
    assert_eq!(key_to_slru_block(k), Ok((SlruKind::MultiXactOffsets, 17, 4)));
}

#[test]
fn key_to_slru_block_rejects_unknown_kind() {
    assert_eq!(key_to_slru_block(key(0x01, 3, 1, 0, 0, 0)), Err(PageError::InvalidKey));
    assert_eq!(key_to_slru_block(key(0x00, 0, 0, 0, 0, 0)), Err(PageError::InvalidKey));
}

#[test]
fn key_to_relish_block_both_kinds() {
    let rk = rel_block_to_key(REL, 2);
    assert_eq!(key_to_relish_block(rk), Ok((RelishTag::Relation(REL), 2)));
    let sk = slru_block_to_key(SlruKind::Clog, 9, 1);
    assert_eq!(
        key_to_relish_block(sk),
        Ok((RelishTag::Slru { slru: SlruKind::Clog, segno: 9 }, 1))
    );
    assert_eq!(key_to_relish_block(key(0x03, 0, 0, 0, 0, 0)), Err(PageError::InvalidKey));
}

#[test]
fn key_order_is_field_major() {
    let a = key(0, 1, 0, 0, 0, 0xffffffff);
    let b = key(0, 2, 0, 0, 0, 0);
    assert!(a.lt(&b));
    assert!(!b.lt(&a));
    assert!(a.le(&a));
    let r = KeyRange { start: a, end: b };
    assert!(r.contains(&a));
    assert!(!r.contains(&b));
}
