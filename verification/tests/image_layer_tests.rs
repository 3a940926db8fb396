use pageserver::image_layer::ImageFileName;
use pageserver::image_layer::ImageLayer;
use pageserver::image_layer::ImageLayerWriter;
use pageserver::image_layer::ValueReconstructResult;
use pageserver::image_layer::ValueReconstructState;
use pageserver::key::Key;
use pageserver::key::KeyRange;
use pageserver::relish::ZTenantId;
use pageserver::relish::ZTimelineId;
use pageserver::repository::Lsn;
use pageserver::PageError;

const TENANT: ZTenantId = ZTenantId { hi: 0x1111, lo: 0x2222 };
const TIMELINE: ZTimelineId = ZTimelineId { hi: 0x3333, lo: 0x4444 };

fn blk_key(blknum: u32) -> Key {
    Key { field1: 0, field2: 0, field3: 111, field4: 1000, field5: 0, field6: blknum }
}

fn test_range() -> KeyRange {
    KeyRange { start: blk_key(0), end: blk_key(0xffffffff) }
}

fn payload(i: u32) -> Vec<u8> {
    let mut p = vec![0u8; 8192];
    p[0] = (i % 251) as u8;
    p[1] = (i / 251 % 251) as u8;
    p[8191] = 0x5a;
    p
}

fn build_layer_bytes(lsn: Lsn) -> (Vec<u8>, ImageLayer) {
    let range = test_range();
    let mut w = ImageLayerWriter::new(TIMELINE, TENANT, &range, lsn);
    let mut i: u32 = 0;
    while i < 1000 {
        w.put_image(blk_key(i), &payload(i)).unwrap();
        i += 1;
    }
    let (bytes, layer) = w.finish().unwrap();
    (bytes, layer)
}

#[test]
fn image_layer_round_trip() {
    let lsn = Lsn(0x40);
    let (bytes, _) = build_layer_bytes(lsn);

    // reopen from the path: name from the writer's parameters
    let name = ImageFileName { key_range: test_range(), lsn };
    let mut layer = ImageLayer::new(TIMELINE, TENANT, &name);
    assert!(!layer.is_loaded());
    layer.load(&bytes).unwrap();
    assert!(layer.is_loaded());

    // collect_keys over the whole range yields exactly the inserted keys
    let mut keys: Vec<Key> = Vec::new();
    layer.collect_keys(&test_range(), &mut keys).unwrap();
    assert_eq!(keys.len(), 1000);
    let mut i: u32 = 0;
    while i < 1000 {
        assert!(keys.contains(&blk_key(i)));
        i += 1;
    }

    // every key reads back its exact payload
    let mut i: u32 = 0;
    while i < 1000 {
        let mut state = ValueReconstructState { key: blk_key(i), lsn: Lsn(0x50), img: None };
        let res = layer.get_value_reconstruct_data(Lsn(0x40), &mut state).unwrap();
        assert_eq!(res, ValueReconstructResult::Complete);
        assert_eq!(state.lsn, lsn);
        let (img_lsn, img) = state.img.unwrap();
        assert_eq!(img_lsn, lsn);
        assert_eq!(img, payload(i));
        i += 1;
    }

    // a key that was never written is missing
    let mut state = ValueReconstructState { key: blk_key(5000), lsn: Lsn(0x50), img: None };
    let res = layer.get_value_reconstruct_data(Lsn(0x40), &mut state).unwrap();
    assert_eq!(res, ValueReconstructResult::Missing);
    assert_eq!(state.lsn, lsn);
}

#[test]
fn cached_image_short_circuits() {
    let lsn = Lsn(0x40);
    let (bytes, _) = build_layer_bytes(lsn);
    let name = ImageFileName { key_range: test_range(), lsn };
    let mut layer = ImageLayer::new(TIMELINE, TENANT, &name);
    layer.load(&bytes).unwrap();
    let cached = vec![7u8; 4];
    let mut state = ValueReconstructState {
        key: blk_key(1),
        lsn: Lsn(0x80),
        img: Some((Lsn(0x60), cached.clone())),
    };
    let res = layer.get_value_reconstruct_data(Lsn(0x40), &mut state).unwrap();
    assert_eq!(res, ValueReconstructResult::Complete);
    assert_eq!(state.lsn, Lsn(0x60));
    assert_eq!(state.img.unwrap().1, cached);
}

#[test]
fn corrupted_filename_is_fatal_on_the_tenant_path() {
    let lsn = Lsn(0x40);
    let (bytes, _) = build_layer_bytes(lsn);

    // a handle built from a renamed file disagrees with the in-file summary
    let wrong_name = ImageFileName { key_range: test_range(), lsn: Lsn(0x99) };
    let mut layer = ImageLayer::new(TIMELINE, TENANT, &wrong_name);
    assert_eq!(layer.load(&bytes).unwrap_err(), PageError::Corrupt);
    assert!(!layer.is_loaded());

    // the bare-path debug loader succeeds and only warns
    let (mut layer, warned) = ImageLayer::new_for_path(&wrong_name, &bytes).unwrap();
    assert!(warned);
    layer.load(&bytes).unwrap();
    let mut state = ValueReconstructState { key: blk_key(3), lsn: Lsn(0x50), img: None };
    let res = layer.get_value_reconstruct_data(Lsn(0x40), &mut state).unwrap();
    assert_eq!(res, ValueReconstructResult::Complete);
    assert_eq!(state.img.unwrap().1, payload(3));

    // with the true name, the bare path does not warn
    let right_name = ImageFileName { key_range: test_range(), lsn };
    let (_, warned) = ImageLayer::new_for_path(&right_name, &bytes).unwrap();
    assert!(!warned);
}

#[test]
fn filename_round_trip() {
    let name = ImageFileName { key_range: test_range(), lsn: Lsn(0x346bc568) };
    let text = name.to_bytes();
    assert_eq!(text.len(), 91);
    assert_eq!(ImageFileName::parse(&text).unwrap(), name);
    let shown = String::from_utf8(text).unwrap();
    assert_eq!(
        shown,
        "00000000000000006F000003E80000000000-00000000000000006F000003E800FFFFFFFF__00000000346BC568"
    );
}

#[test]
fn filename_parse_rejects_malformed_names() {
    assert_eq!(ImageFileName::parse(&vec![0x41; 13]).unwrap_err(), PageError::Corrupt);
    let name = ImageFileName { key_range: test_range(), lsn: Lsn(7) };
    let mut text = name.to_bytes();
    text[0] = b'g';
    assert_eq!(ImageFileName::parse(&text).unwrap_err(), PageError::Corrupt);
}

#[test]
fn summary_and_metadata_accessors() {
    let lsn = Lsn(0x40);
    let (bytes, layer) = build_layer_bytes(lsn);
    assert_eq!(layer.get_tenant_id(), TENANT);
    assert_eq!(layer.get_timeline_id(), TIMELINE);
    assert_eq!(layer.get_key_range(), test_range());
    let lr = layer.get_lsn_range();
    assert_eq!(lr.start, lsn);
    assert_eq!(lr.end, Lsn(0x41));
    assert!(!layer.is_incremental());
    assert!(!layer.is_in_memory());
    let s = layer.summary();
    assert_eq!(s.tenantid, TENANT);
    assert_eq!(s.timelineid, TIMELINE);
    assert_eq!(s.key_range, test_range());
    assert_eq!(s.lsn, lsn);

    // load, inspect the index in stored (offset) order, unload again
    let mut layer = layer;
    layer.load(&bytes).unwrap();
    let dumped = layer.dump();
    assert_eq!(dumped.len(), 1000);
    assert_eq!(dumped[0].0, blk_key(0));
    assert_eq!(dumped[0].1, 0);
    assert!(dumped[1].1 > dumped[0].1);
    layer.unload().unwrap();
    assert!(!layer.is_loaded());
    // loading again works: the handle stays usable
    layer.load(&bytes).unwrap();
    assert!(layer.is_loaded());
}

#[test]
fn load_rejects_garbage_bytes() {
    let name = ImageFileName { key_range: test_range(), lsn: Lsn(1) };
    let mut layer = ImageLayer::new(TIMELINE, TENANT, &name);
    assert_eq!(layer.load(&vec![0u8; 50]).unwrap_err(), PageError::Corrupt);
    let mut junk = vec![0u8; 300];
    junk[0] = 0x5a;
    assert_eq!(layer.load(&junk).unwrap_err(), PageError::Corrupt);
    assert_eq!(ImageLayer::new_for_path(&name, &junk).unwrap_err(), PageError::Corrupt);
}

#[test]
fn file_magic_and_trailer_layout() {
    let lsn = Lsn(2);
    let range = KeyRange { start: blk_key(0), end: blk_key(16) };
    let mut w = ImageLayerWriter::new(TIMELINE, TENANT, &range, lsn);
    assert_eq!(w.values_len(), 0);
    assert_eq!(w.index_len(), 0);
    w.put_image(blk_key(1), &vec![0xab, 0xcd]).unwrap();
    assert!(w.contains_key(blk_key(1)));
    assert!(!w.contains_key(blk_key(2)));
    assert_eq!(w.values_len(), 6);
    assert_eq!(w.index_len(), 1);
    let (bytes, _) = w.finish().unwrap();
    // magic, big-endian
    assert_eq!(&bytes[0..4], &[0x5a, 0x61, 0x6e, 0x02]);
    // one blob: length prefix then payload
    assert_eq!(&bytes[4..10], &[0, 0, 0, 2, 0xab, 0xcd]);
    // the trailer ends with its own offset
    let len = bytes.len();
    let toff = u64::from_be_bytes(bytes[len - 8..].try_into().unwrap()) as usize;
    assert_eq!(toff + 88, len);
    // chapter count three
    assert_eq!(&bytes[toff..toff + 8], &[0, 0, 0, 0, 0, 0, 0, 3]);
}
