use nx_layout_toolbox::nso::{read_nso, NsoError, NSO_HEADER_LEN, NSO_MAGIC};

/// A 0x100-byte NSO0 header followed by the three segments' payloads back
/// to back, with the given flags.
fn build_nso(flags: u32, segs: [(&[u8], u32); 3]) -> Vec<u8> {
    let mut b = vec![0u8; NSO_HEADER_LEN];
    b[0..4].copy_from_slice(&NSO_MAGIC);
    b[0x0C..0x10].copy_from_slice(&flags.to_le_bytes());
    let mut off = NSO_HEADER_LEN as u32;
    let hoffs = [0x10usize, 0x20, 0x30];
    let coffs = [0x60usize, 0x64, 0x68];
    let mut payloads = Vec::new();
    for (i, (payload, decompressed_size)) in segs.iter().enumerate() {
        b[hoffs[i]..hoffs[i] + 4].copy_from_slice(&off.to_le_bytes());
        b[hoffs[i] + 4..hoffs[i] + 8].copy_from_slice(&0u32.to_le_bytes());
        b[hoffs[i] + 8..hoffs[i] + 12].copy_from_slice(&decompressed_size.to_le_bytes());
        b[coffs[i]..coffs[i] + 4].copy_from_slice(&(payload.len() as u32).to_le_bytes());
        off += payload.len() as u32;
        payloads.extend_from_slice(payload);
    }
    b.extend_from_slice(&payloads);
    b
}

#[test]
fn parses_uncompressed_segments() {
    let text = b"TEXT-segment".as_slice();
    let rodata = b"RODATA".as_slice();
    let data = b"DATA!".as_slice();
    let nso = build_nso(0, [(text, text.len() as u32), (rodata, rodata.len() as u32), (data, data.len() as u32)]);
    let f = read_nso(&nso).expect("parse");
    assert_eq!(f.flags, 0);
    assert_eq!(f.text_bytes, text);
    assert_eq!(f.rodata_bytes, rodata);
    assert_eq!(f.data_bytes, data);
    assert_eq!(f.segment_bytes("rodata"), Some(rodata));
    assert_eq!(f.segment_bytes("nope"), None);
}

#[test]
fn inflates_lz4_compressed_segment() {
    let original: Vec<u8> = b"MeshCodecMeshCodecMeshCodec_dictionary_payload_payload_payload"
        .iter()
        .cycle()
        .take(4096)
        .copied()
        .collect();
    let comp = lz4_flex::block::compress(&original);
    assert!(comp.len() < original.len(), "expected LZ4 to shrink it");
    let empty = b"".as_slice();
    let nso = build_nso(0b010, [(empty, 0), (comp.as_slice(), original.len() as u32), (empty, 0)]);
    let f = read_nso(&nso).expect("parse");
    assert_eq!(f.rodata_bytes, original, "LZ4 segment did not round-trip");
    assert!(f.rodata.is_compressed);
    assert!(!f.text.is_compressed);
}

#[test]
fn nso_rejects_bad_input() {
    assert!(matches!(read_nso(&[0u8; 8]), Err(NsoError::TooSmall(8))));
    let mut bad = vec![0u8; NSO_HEADER_LEN];
    bad[0..4].copy_from_slice(b"FAIL");
    assert!(matches!(read_nso(&bad), Err(NsoError::BadMagic(_))));
    let mut overrun = vec![0u8; NSO_HEADER_LEN];
    overrun[0..4].copy_from_slice(&NSO_MAGIC);
    overrun[0x10..0x14].copy_from_slice(&(NSO_HEADER_LEN as u32).to_le_bytes());
    overrun[0x60..0x64].copy_from_slice(&0x10000u32.to_le_bytes());
    assert!(matches!(read_nso(&overrun), Err(NsoError::SegmentOutOfRange { .. })));
}

#[test]
fn lz4_errors_and_size_mismatch() {
    // A compressed segment whose declared size disagrees with what it inflates to.
    let original = vec![7u8; 300];
    let comp = lz4_flex::block::compress(&original);
    let empty = b"".as_slice();
    let nso = build_nso(0b001, [(comp.as_slice(), 200), (empty, 0), (empty, 0)]);
    assert!(matches!(read_nso(&nso), Err(NsoError::Lz4 { .. }) | Err(NsoError::SizeMismatch { .. })));
    // Garbage that is not an LZ4 block.
    let junk = [0xFFu8; 8];
    let nso = build_nso(0b001, [(&junk, 64), (empty, 0), (empty, 0)]);
    assert!(read_nso(&nso).is_err());
}
