use nx_layout_toolbox::restbl::{crc32, read_restbl, write_restbl, CrcEntry, NameEntry, Restbl, RestblError, SetOutcome};

fn sample() -> Restbl {
    Restbl {
        version: 1,
        string_block_size: 160,
        crc_entries: vec![
            CrcEntry { hash: 0x10, size: 100 },
            CrcEntry { hash: 0x20, size: 200 },
            CrcEntry { hash: 0x30, size: 300 },
        ],
        name_entries: vec![
            NameEntry { name: "Actor/A.bgyml".into(), size: 10 },
            NameEntry { name: "Actor/B.bgyml".into(), size: 20 },
        ],
    }
}

#[test]
fn crc32_check_value() {
    assert_eq!(crc32(b"123456789"), 0xCBF4_3926);
    assert_eq!(crc32(b""), 0);
}

#[test]
fn round_trip_is_byte_identical() {
    let r = sample();
    let bytes = write_restbl(&r).unwrap();
    assert_eq!(bytes.len(), 22 + 24 + 328);
    let back = read_restbl(&bytes).unwrap();
    assert_eq!(back, r);
    assert_eq!(write_restbl(&back).unwrap(), bytes);
}

#[test]
fn get_set_insert_by_hash() {
    let mut r = sample();
    assert_eq!(r.get_by_hash(0x20), Some(200));
    assert_eq!(r.get_by_hash(0x25), None);
    assert!(r.set_by_hash(0x20, 999));
    assert_eq!(r.get_by_hash(0x20), Some(999));
    assert!(!r.set_by_hash(0x25, 1));
    r.insert_by_hash(0x25, 250);
    assert_eq!(r.get_by_hash(0x25), Some(250));
    assert!(r.crc_entries.windows(2).all(|w| w[0].hash < w[1].hash));
}

#[test]
fn get_set_by_name() {
    let mut r = sample();
    assert_eq!(r.get_by_name("Actor/B.bgyml"), Some(20));
    assert_eq!(r.get_by_name("Actor/Z.bgyml"), None);
    assert!(r.set_by_name("Actor/A.bgyml", 11));
    assert_eq!(r.get_by_name("Actor/A.bgyml"), Some(11));
}

#[test]
fn set_by_path_outcomes() {
    let mut r = sample();
    let path = "Pack/Actor/Test.pack.zs";
    let h = crc32(path.as_bytes());
    assert_eq!(r.set_by_path(path, 4096, false), SetOutcome::NotFound);
    assert_eq!(r.set_by_path(path, 4096, true), SetOutcome::Inserted);
    assert_eq!(r.get_by_hash(h), Some(4096));
    assert_eq!(r.get_by_path(path), Some(4096));
    assert_eq!(r.set_by_path(path, 8192, false), SetOutcome::UpdatedCrc);
    assert_eq!(r.get_by_path(path), Some(8192));
    assert_eq!(r.set_by_path("Actor/A.bgyml", 12, false), SetOutcome::UpdatedName);
    assert_eq!(r.get_by_name("Actor/A.bgyml"), Some(12));
}

#[test]
fn restbl_rejects_bad_input() {
    assert!(matches!(read_restbl(&[0u8; 4]), Err(RestblError::TooSmall(4))));
    let mut bad = vec![0u8; 22];
    bad[0..6].copy_from_slice(b"NOPEZZ");
    assert!(matches!(read_restbl(&bad), Err(RestblError::BadMagic(_))));
}

#[test]
fn set_only_changes_target_entry() {
    let mut r = sample();
    let before = r.clone();
    assert!(r.set_by_hash(0x20, 999));
    assert_eq!(r.crc_entries.len(), before.crc_entries.len());
    for (after, orig) in r.crc_entries.iter().zip(&before.crc_entries) {
        assert_eq!(after.hash, orig.hash, "hash/order must stay stable");
        if after.hash == 0x20 {
            assert_eq!((orig.size, after.size), (200, 999), "target updated");
        } else {
            assert_eq!(after.size, orig.size, "unrelated entry 0x{:x} changed", after.hash);
        }
    }
    assert_eq!(r.name_entries, before.name_entries, "name table untouched");
    let snapshot = r.clone();
    assert!(!r.set_by_hash(0x9999, 1));
    assert_eq!(r, snapshot, "a missed set must be a no-op");
}

#[test]
fn insert_by_name_keeps_names_sorted() {
    let mut r = sample();
    r.insert_by_name("Actor/0.bgyml", 7);
    r.insert_by_name("Actor/A.bgyml", 15);
    let names: Vec<&str> = r.name_entries.iter().map(|n| n.name.as_str()).collect();
    assert_eq!(names, vec!["Actor/0.bgyml", "Actor/A.bgyml", "Actor/B.bgyml"]);
    assert_eq!(r.get_by_name("Actor/A.bgyml"), Some(15));
    assert_eq!(r.get_by_name("Actor/0.bgyml"), Some(7));
}

#[test]
fn restbl_rejects_truncated_tables_and_long_names() {
    let r = sample();
    let bytes = write_restbl(&r).unwrap();
    assert!(matches!(read_restbl(&bytes[..bytes.len() - 1]), Err(RestblError::Truncated { .. })));
    let mut bad_block = bytes.clone();
    bad_block[10..14].copy_from_slice(&0u32.to_le_bytes());
    assert!(matches!(read_restbl(&bad_block), Err(RestblError::BadStringBlockSize(0))));
    let mut long = sample();
    long.string_block_size = 4;
    assert!(matches!(write_restbl(&long), Err(RestblError::NameTooLong { .. })));
}
