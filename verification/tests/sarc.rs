use nx_layout_toolbox::sarc::read::{parse_sarc, read_arc};
use nx_layout_toolbox::sarc::write::{file_alignment, sarc_hash, write_sarc};
use nx_layout_toolbox::sarc::{ArcEntry, SarcError, MIN_ALIGNMENT};

fn entry(name: Option<&str>, data: &[u8]) -> ArcEntry {
    ArcEntry { name: name.map(str::to_owned), data: data.to_vec() }
}

/// A buffer that looks like a `nn::util::BinaryFileHeader` resource with the
/// given alignment exponent (BOM at 0x0C, exponent at 0x0E).
fn nn_resource(magic: &[u8; 4], exponent: u8) -> Vec<u8> {
    let mut v = vec![0u8; 0x40];
    v[0..4].copy_from_slice(magic);
    v[0x0C] = 0xFF;
    v[0x0D] = 0xFE;
    v[0x0E] = exponent;
    v
}

fn assert_round_trips(entries: &[ArcEntry], big_endian: bool) {
    let packed = write_sarc(entries, big_endian).expect("write");
    let arc = read_arc(&packed).expect("read");
    assert_eq!(arc.big_endian, big_endian);
    assert_eq!(arc.files.len(), entries.len(), "entry count");
    for src in entries {
        match &src.name {
            Some(name) => {
                let got = arc
                    .files
                    .iter()
                    .find(|f| f.name.as_deref() == Some(name.as_str()))
                    .unwrap_or_else(|| panic!("missing {name}"));
                assert_eq!(got.data, src.data, "data for {name}");
            }
            None => assert!(
                arc.files.iter().any(|f| f.name.is_none() && f.data == src.data),
                "hash-only entry not preserved"
            ),
        }
    }
    let data_offset = u32::from_le_bytes([packed[0x0C], packed[0x0D], packed[0x0E], packed[0x0F]]) as usize;
    if big_endian {
        return;
    }
    let node_count = u16::from_le_bytes([packed[0x1A], packed[0x1B]]) as usize;
    for i in 0..node_count {
        let node = 0x20 + i * 0x10;
        let start = u32::from_le_bytes([packed[node + 8], packed[node + 9], packed[node + 10], packed[node + 11]]) as usize;
        let abs = data_offset + start;
        let end = u32::from_le_bytes([packed[node + 12], packed[node + 13], packed[node + 14], packed[node + 15]]) as usize;
        let needed = file_alignment(&packed[abs..data_offset + end]) as usize;
        assert_eq!(abs % needed, 0, "node {i} at 0x{abs:x} not aligned to 0x{needed:x}");
    }
}

#[test]
fn writer_reader_round_trip_named_and_hash_only() {
    let mut bntx = b"BNTX".to_vec();
    bntx.extend_from_slice(&[0u8; 0x40]);
    let entries = vec![
        entry(Some("a/first.bin"), b"hello world"),
        entry(Some("b/second.txt"), &[0xAB; 37]),
        entry(None, b"\x01\x02\x03\x04unnamed payload"),
        entry(Some("timg/__Combined.bntx"), &bntx),
    ];
    let packed = write_sarc(&entries, false).expect("write");
    let arc = parse_sarc(&packed).expect("parse");
    assert!(!arc.big_endian);
    assert_eq!(arc.files.len(), entries.len(), "entry count preserved");
    for src in &entries {
        match &src.name {
            Some(name) => {
                let got = arc
                    .files
                    .iter()
                    .find(|f| f.name.as_deref() == Some(name.as_str()))
                    .unwrap_or_else(|| panic!("missing {name}"));
                assert_eq!(got.data, src.data, "data for {name}");
            }
            None => {
                assert!(
                    arc.files.iter().any(|f| f.name.is_none() && f.data == src.data),
                    "hash-only entry not preserved"
                );
            }
        }
    }
}

#[test]
fn sarc_round_trip_big_endian() {
    let entries = vec![entry(Some("x"), b"wii-u-style"), entry(Some("y"), b"BE")];
    let packed = write_sarc(&entries, true).expect("write BE");
    assert_eq!((packed[0x06], packed[0x07]), (0xFE, 0xFF));
    let arc = parse_sarc(&packed).expect("parse BE");
    assert!(arc.big_endian);
    assert_eq!(arc.files.len(), 2);
}

#[test]
fn rejects_garbage() {
    assert!(parse_sarc(b"not a sarc at all").is_err());
    assert!(parse_sarc(&[]).is_err());
    assert!(parse_sarc(b"SARC\x14\x00\xFF\xFE").is_err());
}

#[test]
fn parses_a_hand_written_archive() {
    let entries = vec![entry(Some("dir/a.bin"), b"alpha"), entry(Some("dir/sub/b.bin"), b"beta-beta")];
    let packed = write_sarc(&entries, false).unwrap();
    let arc = parse_sarc(&packed).unwrap();
    assert!(!arc.big_endian);
    assert_eq!(arc.files.len(), 2);
    assert_eq!(arc.position("dir/a.bin").map(|i| &arc.files[i].data[..]), Some(&b"alpha"[..]));
}

#[test]
fn read_rejects_too_small() {
    assert!(matches!(parse_sarc(&[]), Err(SarcError::TooSmall(0))));
    assert!(matches!(parse_sarc(b"SAR"), Err(SarcError::TooSmall(3))));
}

#[test]
fn read_rejects_bad_magic() {
    let buf = [0u8; 0x40];
    assert!(matches!(parse_sarc(&buf), Err(SarcError::BadMagic(_))));
}

#[test]
fn read_rejects_bad_bom() {
    let mut buf = vec![0u8; 0x40];
    buf[0..4].copy_from_slice(b"SARC");
    buf[0x06] = 0x12;
    buf[0x07] = 0x34;
    assert!(matches!(parse_sarc(&buf), Err(SarcError::BadBom([0x12, 0x34]))));
}

#[test]
fn rejects_missing_sfat() {
    let mut buf = vec![0u8; 0x40];
    buf[0..4].copy_from_slice(b"SARC");
    buf[0x06] = 0xFF;
    buf[0x07] = 0xFE;
    assert!(matches!(parse_sarc(&buf), Err(SarcError::MissingSection("SFAT"))));
}

#[test]
fn rejects_node_count_past_end() {
    let entries = vec![entry(Some("a"), b"x")];
    let mut packed = write_sarc(&entries, false).unwrap();
    packed[0x1A] = 0x0F;
    packed[0x1B] = 0x27;
    assert!(parse_sarc(&packed).is_err());
}

#[test]
fn rejects_node_data_out_of_bounds() {
    let entries = vec![entry(Some("a"), b"hello")];
    let mut packed = write_sarc(&entries, false).unwrap();
    packed[0x2C] = 0xFF;
    packed[0x2D] = 0xFF;
    packed[0x2E] = 0xFF;
    packed[0x2F] = 0x7F;
    assert!(matches!(parse_sarc(&packed), Err(SarcError::NodeOutOfBounds { .. })));
}

#[test]
fn alignment_derivation() {
    assert_eq!(file_alignment(b"abc"), MIN_ALIGNMENT);
    assert_eq!(file_alignment(b"FLYT\x00\x00\x00\x00"), MIN_ALIGNMENT);
    assert_eq!(file_alignment(&nn_resource(b"BNTX", 12)), 0x1000);
    assert_eq!(file_alignment(&nn_resource(b"BNSH", 12)), 0x1000);
    assert_eq!(file_alignment(b"SARC____________________________________"), 0x2000);
    assert_eq!(file_alignment(b"Yaz0____________________________________"), 0x80);
    assert_eq!(file_alignment(&nn_resource(b"ANY?", 13)), 0x2000);
    assert_eq!(file_alignment(&nn_resource(b"ANY?", 31)), MIN_ALIGNMENT);
}

#[test]
fn round_trip_named_hash_only_and_alignment() {
    let entries = vec![
        entry(Some("a/first.bin"), b"hello world"),
        entry(Some("b/second.txt"), &[0xAB; 37]),
        entry(None, b"\x01\x02\x03\x04unnamed payload"),
        entry(Some("timg/__Combined.bntx"), &nn_resource(b"BNTX", 12)),
        entry(Some("blyt/x.bflan"), &nn_resource(b"FLAN", 0)),
    ];
    assert_round_trips(&entries, false);
}

#[test]
fn write_round_trip_big_endian() {
    let entries = vec![entry(Some("x"), b"wii-u"), entry(Some("y/z"), b"BE!")];
    let packed = write_sarc(&entries, true).unwrap();
    assert_eq!((packed[0x06], packed[0x07]), (0xFE, 0xFF));
    assert_round_trips(&entries, true);
}

#[test]
fn empty_and_single() {
    assert_round_trips(&[], false);
    assert_round_trips(&[entry(Some("solo"), b"only one")], false);
    assert_round_trips(&[entry(None, b"only-hash-only")], false);
}

#[test]
fn many_hash_only_preserve_order_and_data() {
    let entries: Vec<ArcEntry> = (0..16).map(|i| entry(None, format!("hash-only-#{i}").as_bytes())).collect();
    let packed = write_sarc(&entries, false).unwrap();
    let arc = read_arc(&packed).unwrap();
    let got: Vec<&[u8]> = arc.files.iter().map(|f| f.data.as_slice()).collect();
    let want: Vec<&[u8]> = entries.iter().map(|e| e.data.as_slice()).collect();
    assert_eq!(got, want, "hash-only entries must keep input order");
}

#[test]
fn large_archive() {
    let entries: Vec<ArcEntry> =
        (0..2000u32).map(|i| entry(Some(&format!("dir{}/file{i}.bin", i % 8)), &i.to_le_bytes())).collect();
    assert_round_trips(&entries, false);
}

#[test]
fn property_round_trip_pseudo_random() {
    let mut state = 0x1234_5678u32;
    let mut next = || {
        state = state.wrapping_mul(1_103_515_245).wrapping_add(12_345);
        state >> 8
    };
    for round in 0..40 {
        let count = (next() % 30) as usize;
        let mut entries = Vec::with_capacity(count);
        for i in 0..count {
            let len = (next() % 200) as usize;
            let byte = (next() & 0xFF) as u8;
            let data = vec![byte; len];
            if next() % 7 == 0 {
                entries.push(entry(None, &data));
            } else {
                let name = format!("r{round}/d{}/f{i}.bin", next() % 5);
                entries.push(entry(Some(&name), &data));
            }
        }
        assert_round_trips(&entries, false);
    }
}

#[test]
fn sarc_hash_matches_multiply_add() {
    // h = h * 0x65 + byte, wrapping: "ab" = 0x61 * 0x65 + 0x62.
    assert_eq!(sarc_hash(""), 0);
    assert_eq!(sarc_hash("a"), 0x61);
    assert_eq!(sarc_hash("ab"), 0x61 * 0x65 + 0x62);
}

#[test]
fn written_archive_reads_back_in_hash_order() {
    // The write->read law on concrete values: names sorted by hash, data kept.
    let entries = vec![entry(Some("zz"), b"two"), entry(Some("a"), b"one")];
    let packed = write_sarc(&entries, false).unwrap();
    let arc = parse_sarc(&packed).unwrap();
    assert_eq!(arc.files.len(), 2);
    assert_eq!(arc.files[0].name.as_deref(), Some("a"));
    assert_eq!(arc.files[0].data, b"one");
    assert_eq!(arc.files[1].name.as_deref(), Some("zz"));
    assert_eq!(arc.files[1].data, b"two");
}
