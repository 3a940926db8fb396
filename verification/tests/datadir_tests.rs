use pageserver::pgdatadir_mapping::create_test_timeline;
use pageserver::pgdatadir_mapping::zero_page;
use pageserver::pgdatadir_mapping::DatadirTimeline;
use pageserver::relish::RelTag;
use pageserver::relish::SlruKind;
use pageserver::relish::FSM_FORKNUM;
use pageserver::relish::VISIBILITYMAP_FORKNUM;
use pageserver::repository::Lsn;
use pageserver::repository::Timeline;
use pageserver::repository::Value;
use pageserver::repository::WalRecord;
use pageserver::PageError;

const TESTREL: RelTag = RelTag { spcnode: 0, dbnode: 111, relnode: 1000, forknum: 0 };

fn page(tag: u8) -> Vec<u8> {
    let mut p = vec![0u8; 8192];
    p[0] = tag;
    p
}

/// Init empty at LSN 8, create the relation at 16, extend it to two blocks
/// with two images at 24, then read everything back at 24.
fn build_two_block_rel() -> DatadirTimeline {
    let mut t = create_test_timeline().unwrap();

    let mut w = t.begin_record(Lsn(16));
    w.put_rel_creation(&t, TESTREL, 0).unwrap();
    w.finish(&mut t).unwrap();

    let mut w = t.begin_record(Lsn(24));
    w.put_rel_extend(TESTREL, 2).unwrap();
    w.put_rel_page_image(TESTREL, 0, page(1)).unwrap();
    w.put_rel_page_image(TESTREL, 1, page(2)).unwrap();
    w.finish(&mut t).unwrap();
    t
}

#[test]
fn create_extend_read() {
    let t = build_two_block_rel();
    assert_eq!(t.get_rel_size(TESTREL, Lsn(24)).unwrap(), 2);
    assert_eq!(t.get_rel_page_at_lsn(TESTREL, 0, Lsn(24)).unwrap(), page(1));
    assert_eq!(t.get_rel_page_at_lsn(TESTREL, 1, Lsn(24)).unwrap(), page(2));
    assert_eq!(t.get_rel_page_at_lsn(TESTREL, 5, Lsn(24)).unwrap(), zero_page());
}

#[test]
fn drop_hides_future() {
    let mut t = build_two_block_rel();
    let mut w = t.begin_record(Lsn(32));
    w.put_rel_drop(&t, TESTREL).unwrap();
    w.finish(&mut t).unwrap();

    assert_eq!(t.get_rel_exists(TESTREL, Lsn(24)).unwrap(), true);
    assert_eq!(t.get_rel_exists(TESTREL, Lsn(32)).unwrap(), false);
    assert!(!t.list_rels(0, 111, Lsn(32)).unwrap().contains(&TESTREL));
    assert!(t.list_rels(0, 111, Lsn(24)).unwrap().contains(&TESTREL));
    // history before the drop stays readable
    assert_eq!(t.get_rel_page_at_lsn(TESTREL, 0, Lsn(24)).unwrap(), page(1));
    // the blocks and the size marker are gone at and after the drop
    assert_eq!(t.get_rel_size(TESTREL, Lsn(32)).unwrap_err(), PageError::KeyNotFound);
}

#[test]
fn fsm_fork_tolerance() {
    let t = build_two_block_rel();
    let fsm = RelTag { forknum: FSM_FORKNUM, ..TESTREL };
    let vm = RelTag { forknum: VISIBILITYMAP_FORKNUM, ..TESTREL };
    assert_eq!(t.get_rel_size(fsm, Lsn(24)).unwrap(), 0);
    assert_eq!(t.get_rel_size(vm, Lsn(24)).unwrap(), 0);
    // the main fork is never excused: before creation it is simply missing
    let other = RelTag { relnode: 2000, ..TESTREL };
    assert_eq!(t.get_rel_size(other, Lsn(24)).unwrap_err(), PageError::KeyNotFound);
}

#[test]
fn ingestion_is_atomic_at_txn_lsn() {
    let mut t = create_test_timeline().unwrap();
    let mut w = t.begin_record(Lsn(16));
    w.put_rel_creation(&t, TESTREL, 1).unwrap();
    w.put_rel_page_image(TESTREL, 0, page(9)).unwrap();
    // nothing is visible before finish
    assert_eq!(t.get_rel_exists(TESTREL, Lsn(16)).unwrap(), false);
    w.finish(&mut t).unwrap();
    // below the transaction's LSN: none of its writes
    assert_eq!(t.get_rel_exists(TESTREL, Lsn(15)).unwrap(), false);
    assert_eq!(t.get_rel_size(TESTREL, Lsn(15)).unwrap_err(), PageError::KeyNotFound);
    // at the transaction's LSN: all of them
    assert_eq!(t.get_rel_exists(TESTREL, Lsn(16)).unwrap(), true);
    assert_eq!(t.get_rel_size(TESTREL, Lsn(16)).unwrap(), 1);
    assert_eq!(t.get_rel_page_at_lsn(TESTREL, 0, Lsn(16)).unwrap(), page(9));
}

#[test]
fn advance_last_record_lsn_is_monotonic() {
    let mut t = create_test_timeline().unwrap();
    assert_eq!(t.get_last_record_lsn(), Lsn(8));
    let w = t.begin_record(Lsn(16));
    w.finish(&mut t).unwrap();
    assert_eq!(t.get_last_record_lsn(), Lsn(16));
    assert_eq!(t.get_prev_record_lsn(), Lsn(8));
    let rlsn = t.get_last_record_rlsn();
    assert_eq!(rlsn.last, Lsn(16));
    assert_eq!(rlsn.prev, Lsn(8));
    let w = t.begin_record(Lsn(32));
    w.finish(&mut t).unwrap();
    assert_eq!(t.get_last_record_lsn(), Lsn(32));
    assert_eq!(t.get_prev_record_lsn(), Lsn(16));
}

#[test]
fn last_write_wins_within_transaction() {
    let mut t = create_test_timeline().unwrap();
    let mut w = t.begin_record(Lsn(16));
    w.put_rel_creation(&t, TESTREL, 1).unwrap();
    w.put_rel_page_image(TESTREL, 0, page(1)).unwrap();
    w.put_rel_page_image(TESTREL, 0, page(2)).unwrap();
    w.finish(&mut t).unwrap();
    assert_eq!(t.get_rel_page_at_lsn(TESTREL, 0, Lsn(16)).unwrap(), page(2));
}

#[test]
fn rel_creation_twice_fails() {
    let mut t = create_test_timeline().unwrap();
    let mut w = t.begin_record(Lsn(16));
    w.put_rel_creation(&t, TESTREL, 0).unwrap();
    w.finish(&mut t).unwrap();
    let mut w = t.begin_record(Lsn(24));
    assert_eq!(w.put_rel_creation(&t, TESTREL, 0).unwrap_err(), PageError::AlreadyExists);
}

#[test]
fn wal_record_needs_redo_machinery() {
    let mut t = build_two_block_rel();
    let mut w = t.begin_record(Lsn(32));
    w.put_rel_wal_record(TESTREL, 0, WalRecord { payload: vec![1, 2, 3] }).unwrap();
    w.finish(&mut t).unwrap();
    assert_eq!(
        t.get_rel_page_at_lsn(TESTREL, 0, Lsn(32)).unwrap_err(),
        PageError::WalRedoNeeded
    );
    // the older image is still served below the record's LSN
    assert_eq!(t.get_rel_page_at_lsn(TESTREL, 0, Lsn(24)).unwrap(), page(1));
}

#[test]
fn slru_segment_lifecycle() {
    let mut t = create_test_timeline().unwrap();
    let mut w = t.begin_record(Lsn(16));
    w.put_slru_segment_creation(&t, SlruKind::Clog, 3, 1).unwrap();
    w.put_slru_page_image(SlruKind::Clog, 3, 0, page(7)).unwrap();
    w.finish(&mut t).unwrap();
    assert_eq!(t.get_slru_segment_exists(SlruKind::Clog, 3, Lsn(16)).unwrap(), true);
    assert_eq!(t.get_slru_segment_size(SlruKind::Clog, 3, Lsn(16)).unwrap(), 1);
    assert_eq!(t.get_slru_page_at_lsn(SlruKind::Clog, 3, 0, Lsn(16)).unwrap(), page(7));
    assert_eq!(t.list_slru_segments(SlruKind::Clog, Lsn(16)).unwrap(), vec![3]);
    assert_eq!(
        w_err(&mut t, SlruKind::Clog, 3),
        PageError::AlreadyExists
    );

    let mut w = t.begin_record(Lsn(32));
    w.put_slru_extend(SlruKind::Clog, 3, 2).unwrap();
    w.finish(&mut t).unwrap();
    assert_eq!(t.get_slru_segment_size(SlruKind::Clog, 3, Lsn(32)).unwrap(), 2);

    let mut w = t.begin_record(Lsn(40));
    w.drop_slru_segment(&t, SlruKind::Clog, 3).unwrap();
    w.finish(&mut t).unwrap();
    assert_eq!(t.get_slru_segment_exists(SlruKind::Clog, 3, Lsn(40)).unwrap(), false);
    assert_eq!(
        t.get_slru_page_at_lsn(SlruKind::Clog, 3, 0, Lsn(40)).unwrap_err(),
        PageError::KeyNotFound
    );
}

fn w_err(t: &mut DatadirTimeline, kind: SlruKind, segno: u32) -> PageError {
    let mut w = t.begin_record(Lsn(24));
    w.put_slru_segment_creation(t, kind, segno, 0).unwrap_err()
}

#[test]
fn twophase_file_lifecycle() {
    let mut t = create_test_timeline().unwrap();
    let mut w = t.begin_record(Lsn(16));
    w.put_twophase_file(&t, 0xffffffff, vec![1, 2, 3]).unwrap();
    w.finish(&mut t).unwrap();
    assert_eq!(t.get_twophase_file(0xffffffff, Lsn(16)).unwrap(), vec![1, 2, 3]);
    assert_eq!(t.list_twophase_files(Lsn(16)).unwrap(), vec![0xffffffff]);

    let mut w = t.begin_record(Lsn(24));
    assert_eq!(
        w.put_twophase_file(&t, 0xffffffff, vec![9]).unwrap_err(),
        PageError::AlreadyExists
    );
    w.drop_twophase_file(&t, 0xffffffff).unwrap();
    w.finish(&mut t).unwrap();
    assert_eq!(t.list_twophase_files(Lsn(24)).unwrap(), vec![]);
    assert_eq!(
        t.get_twophase_file(0xffffffff, Lsn(24)).unwrap_err(),
        PageError::KeyNotFound
    );
}

#[test]
fn relmap_and_dbdir_lifecycle() {
    let mut t = create_test_timeline().unwrap();
    let mut w = t.begin_record(Lsn(16));
    w.put_relmap_file(&t, 0, 111, vec![5, 5, 5]).unwrap();
    w.put_relmap_file(&t, 1, 7, vec![6]).unwrap();
    w.finish(&mut t).unwrap();
    assert_eq!(t.get_relmap_file(0, 111, Lsn(16)).unwrap(), vec![5, 5, 5]);
    assert_eq!(t.list_relmap_files(Lsn(16)).unwrap(), vec![(0, 111), (1, 7)]);

    let mut w = t.begin_record(Lsn(24));
    w.drop_dbdir(&t, 0, 111).unwrap();
    w.finish(&mut t).unwrap();
    assert_eq!(t.list_relmap_files(Lsn(24)).unwrap(), vec![(1, 7)]);
    assert_eq!(t.get_relmap_file(0, 111, Lsn(24)).unwrap_err(), PageError::KeyNotFound);
    // dropping the dbdir wipes the relation directory under it too
    assert_eq!(t.list_rels(0, 111, Lsn(24)).unwrap_err(), PageError::KeyNotFound);
}

#[test]
fn control_file_and_checkpoint() {
    let mut t = create_test_timeline().unwrap();
    let mut w = t.begin_record(Lsn(16));
    w.put_control_file(vec![0xc0]).unwrap();
    w.put_checkpoint(vec![0xc1]).unwrap();
    w.finish(&mut t).unwrap();
    assert_eq!(t.get_control_file(Lsn(16)).unwrap(), vec![0xc0]);
    assert_eq!(t.get_checkpoint(Lsn(16)).unwrap(), vec![0xc1]);
}

#[test]
fn truncation_shrinks_reads() {
    let mut t = build_two_block_rel();
    let mut w = t.begin_record(Lsn(32));
    w.put_rel_truncation(TESTREL, 1).unwrap();
    w.finish(&mut t).unwrap();
    assert_eq!(t.get_rel_size(TESTREL, Lsn(32)).unwrap(), 1);
    assert_eq!(t.get_rel_page_at_lsn(TESTREL, 1, Lsn(32)).unwrap(), zero_page());
    assert_eq!(t.get_rel_size(TESTREL, Lsn(24)).unwrap(), 2);
}

#[test]
fn drop_relmap_file_is_a_no_op() {
    let mut t = create_test_timeline().unwrap();
    let mut w = t.begin_record(Lsn(16));
    w.put_relmap_file(&t, 0, 111, vec![5]).unwrap();
    w.drop_relmap_file(0, 111).unwrap();
    w.finish(&mut t).unwrap();
    assert_eq!(t.get_relmap_file(0, 111, Lsn(16)).unwrap(), vec![5]);
}

#[test]
fn lsn_scope_and_logical_size() {
    let t = create_test_timeline().unwrap();
    assert!(t.check_lsn_is_in_scope(Lsn(8)).is_ok());
    assert_eq!(t.get_current_logical_size(), 0);
    assert_eq!(t.get_current_logical_size_non_incremental(Lsn(8)).unwrap(), 0);
    assert_eq!(t.get_disk_consistent_lsn(), Lsn(8));
}

#[test]
fn timeline_get_below_first_write_is_missing() {
    let t = Timeline::new(Lsn(8));
    let k = pageserver::keyspace::rel_block_to_key(TESTREL, 0);
    assert_eq!(t.get(k, Lsn(100)).unwrap_err(), PageError::KeyNotFound);
    let mut t = t;
    t.put(k, Lsn(16), Value::Image(vec![1]));
    t.advance_last_record_lsn(Lsn(16));
    assert_eq!(t.get(k, Lsn(15)).unwrap_err(), PageError::KeyNotFound);
    assert_eq!(t.get(k, Lsn(16)).unwrap(), vec![1]);
}
