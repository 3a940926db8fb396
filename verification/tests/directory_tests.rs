use pageserver::directory::DbDirectory;
use pageserver::directory::RelDirectory;
use pageserver::directory::RelSizeEntry;
use pageserver::directory::SlruSegmentDirectory;
use pageserver::directory::TwoPhaseDirectory;
use pageserver::PageError;

#[test]
fn db_directory_round_trip() {
    let mut dir = DbDirectory::empty();
    assert!(dir.insert(0, 111));
    assert!(dir.insert(1, 5));
    assert!(!dir.insert(0, 111));
    let blob = dir.ser();
    let back = DbDirectory::des(&blob).unwrap();
    assert_eq!(back.ser(), blob);
    assert!(back.contains(0, 111));
    assert!(back.contains(1, 5));
    assert!(!back.contains(1, 111));
    assert_eq!(back.dbs(), vec![(0, 111), (1, 5)]);
}

#[test]
fn rel_directory_round_trip() {
    let mut dir = RelDirectory::empty();
    assert!(dir.insert(1000, 0));
    assert!(dir.insert(1000, 1));
    assert!(dir.insert(999, 0));
    let blob = dir.ser();
    let back = RelDirectory::des(&blob).unwrap();
    assert_eq!(back.ser(), blob);
    assert!(back.contains(1000, 0));
    assert!(back.contains(1000, 1));
    assert!(!back.contains(1000, 2));
    assert_eq!(back.rels(), vec![(999, 0), (1000, 0), (1000, 1)]);
}

#[test]
fn slru_directory_round_trip() {
    let mut dir = SlruSegmentDirectory::empty();
    assert!(dir.insert(7));
    assert!(dir.insert(3));
    assert!(!dir.insert(7));
    let blob = dir.ser();
    let back = SlruSegmentDirectory::des(&blob).unwrap();
    assert_eq!(back.ser(), blob);
    assert_eq!(back.segments(), vec![3, 7]);
}

#[test]
fn twophase_directory_round_trip() {
    let mut dir = TwoPhaseDirectory::empty();
    assert!(dir.insert(0xffffffff));
    assert!(dir.insert(1));
    let blob = dir.ser();
    let back = TwoPhaseDirectory::des(&blob).unwrap();
    assert_eq!(back.ser(), blob);
    assert!(back.contains(1));
    assert!(back.contains(0xffffffff));
    assert_eq!(back.xids(), vec![1, 0xffffffff]);
}

#[test]
fn directory_remove() {
    let mut dir = RelDirectory::empty();
    assert!(dir.insert(1000, 0));
    assert!(dir.remove(1000, 0));
    assert!(!dir.remove(1000, 0));
    assert!(!dir.contains(1000, 0));
    assert_eq!(dir.rels(), vec![]);
}

#[test]
fn empty_directory_blob_is_count_zero() {
    let dir = DbDirectory::empty();
    assert_eq!(dir.ser(), vec![0u8; 8]);
}

#[test]
fn directory_des_rejects_garbage() {
    assert_eq!(DbDirectory::des(&vec![1, 2, 3]).unwrap_err(), PageError::Corrupt);
    // count says one entry, but no entry bytes follow
    let mut blob = vec![0u8; 8];
    blob[7] = 1;
    assert_eq!(DbDirectory::des(&blob).unwrap_err(), PageError::Corrupt);
    // unsorted entries are not canonical
    let mut unsorted = vec![0u8; 8];
    unsorted[7] = 2;
    unsorted.extend_from_slice(&[0, 0, 0, 0, 0, 0, 0, 9]);
    unsorted.extend_from_slice(&[0, 0, 0, 0, 0, 0, 0, 4]);
    assert_eq!(DbDirectory::des(&unsorted).unwrap_err(), PageError::Corrupt);
}

#[test]
fn rel_size_entry_round_trip() {
    let e = RelSizeEntry { nblocks: 0x01020304 };
    let blob = e.ser();
    assert_eq!(blob, vec![0x04, 0x03, 0x02, 0x01]);
    assert_eq!(RelSizeEntry::des(&blob).unwrap(), e);
    assert_eq!(RelSizeEntry::des(&vec![1, 2, 3]).unwrap_err(), PageError::Corrupt);
}
