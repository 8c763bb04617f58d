use orka::persist::{
    decode_record, default_log_path, encode_record, join_path, maybe_compress, maybe_decompress, now_ts, ts_of,
    LastApplied, LogStore, Store, StoreError,
};

fn record(uid: [u8; 16], i: i64) -> LastApplied {
    LastApplied { uid, rv: format!("rv-{}", i), ts: i, yaml_zstd: maybe_compress(&format!("k: v{}\n", i), &vec![]) }
}

#[test]
fn put_get_logstore() {
    let mut s = LogStore::open(Vec::new()).unwrap();
    let uid = [9u8; 16];
    for i in 0..5 {
        let la = LastApplied {
            uid,
            rv: format!("rv-{}", i),
            ts: i as i64,
            yaml_zstd: maybe_compress(&format!("k: v{}\n", i), &vec![]),
        };
        let _ = s.put_last(la);
    }
    let rows = s.get_last(uid, Some(3)).unwrap();
    assert_eq!(rows.len(), 3);
    assert_eq!(rows[0].rv, "rv-4");
    assert_eq!(rows[1].rv, "rv-3");
    assert_eq!(rows[2].rv, "rv-2");
}

#[test]
fn a_log_is_read_again() {
    let mut s = LogStore::open(Vec::new()).unwrap();
    for i in 0..4 {
        s.put_last(record([1; 16], i));
        s.put_last(record([2; 16], 10 + i));
    }
    let again = LogStore::open(s.bytes.clone()).unwrap();
    let rows = again.get_last([2; 16], None).unwrap();
    let names: Vec<&str> = rows.iter().map(|r| r.rv.as_str()).collect();
    assert_eq!(names, vec!["rv-13", "rv-12", "rv-11"]);
    assert!(again.get_last([3; 16], None).unwrap().is_empty());
}

#[test]
fn a_record_is_read_back() {
    let bytes = encode_record(&record([7; 16], -5));
    let r = decode_record(&bytes, 0, &[7; 16]).unwrap();
    assert_eq!(r.ts, -5);
    assert_eq!(r.rv, "rv--5");
    assert_eq!(maybe_decompress(&r.yaml_zstd), "k: v-5\n");
    assert!(decode_record(&bytes[..bytes.len() - 1], 0, &[7; 16]).is_none());
}

#[test]
fn a_log_that_is_cut_short_is_an_error() {
    let bytes = encode_record(&record([7; 16], 1));
    assert!(matches!(LogStore::open(bytes[..20].to_vec()), Err(StoreError::CutShort)));
    assert!(LogStore::open(bytes[..5].to_vec()).is_ok());
}

#[test]
fn texts_are_packed_and_unpacked() {
    let text = "a: b\n".repeat(2000);
    let on = vec![("ORKA_ZSTD_LEVEL".to_string(), "3".to_string())];
    let packed = maybe_compress(&text, &on);
    assert_eq!(maybe_decompress(&packed), text);
    assert_eq!(maybe_decompress(b"plain"), "plain");
}

#[test]
fn times_of_the_clock() {
    assert_eq!(ts_of(Some(12)), 12);
    assert_eq!(ts_of(None), 0);
    assert!(now_ts() > 1_600_000_000);
}

#[test]
fn paths_of_the_log() {
    assert_eq!(join_path("/a", "b"), "/a/b");
    assert_eq!(join_path("/a/", "b"), "/a/b");
    let p = default_log_path(&vec![("HOME".to_string(), "/home/u".to_string())]);
    assert_eq!(p, "/home/u/.orka/lastapplied.log");
    let p = default_log_path(&vec![("ORKA_DB_PATH".to_string(), "/x".to_string())]);
    assert_eq!(p, "/x");
    assert_eq!(default_log_path(&vec![]), "lastapplied.log");
}
