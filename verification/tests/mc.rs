use nx_layout_toolbox::mc::codec::{check_first_frame, compress_stream, decompress_first_frame};
use nx_layout_toolbox::mc::mesh::{has_mesh_flag, read_mesh_section, FMSH_HEADER_LEN};
use nx_layout_toolbox::mc::{read_mc, size_descriptor, write_mc, McError, MC_HEADER_LEN, MC_MAGIC};

/// A synthetic `.mc`: a real magicless-zstd BFRES frame with the has-mesh
/// flag set, 4-align padding, and a hand-built FMSH section.
fn synthetic_mc(sub_a: u32, sub_b: u32, buf_a: u32, buf_b: u32, compressed_size: u32) -> Vec<u8> {
    let mut bfres = vec![0u8; 0x100];
    bfres[0..4].copy_from_slice(b"FRES");
    bfres[0xEE] = 0x08;
    let frame = compress_stream(&bfres, 3).unwrap();

    let mut inner = frame.clone();
    while inner.len() % 4 != 0 {
        inner.push(0);
    }
    let mut fmsh = Vec::new();
    fmsh.extend_from_slice(b"FMSH");
    fmsh.extend_from_slice(&1u32.to_le_bytes());
    fmsh.extend_from_slice(&0x1234u32.to_le_bytes());
    fmsh.extend_from_slice(&compressed_size.to_le_bytes());
    fmsh.extend_from_slice(&buf_a.to_le_bytes());
    fmsh.extend_from_slice(&buf_b.to_le_bytes());
    fmsh.push(8);
    fmsh.push(8);
    let u16h: u16 = (33 << 2) | 2;
    fmsh.extend_from_slice(&u16h.to_le_bytes());
    fmsh.extend_from_slice(&sub_a.to_le_bytes()[..3]);
    fmsh.extend_from_slice(&sub_b.to_le_bytes()[..3]);
    assert_eq!(fmsh.len(), FMSH_HEADER_LEN);
    inner.extend_from_slice(&fmsh);
    inner.extend(std::iter::repeat_n(0u8, compressed_size as usize));

    let mut mc = Vec::new();
    mc.extend_from_slice(&MC_MAGIC);
    mc.push(1);
    mc.push(1);
    mc.extend_from_slice(&0u16.to_le_bytes());
    mc.extend_from_slice(&size_descriptor(0x40000, 12).to_le_bytes());
    mc.extend_from_slice(&inner);
    mc
}

fn minimal_mc(size_descriptor: u32) -> Vec<u8> {
    let mut b = vec![0u8; MC_HEADER_LEN];
    b[0..4].copy_from_slice(&MC_MAGIC);
    b[4] = 1;
    b[5] = 1;
    b[8..12].copy_from_slice(&size_descriptor.to_le_bytes());
    b.extend_from_slice(&[0u8; 64]);
    b
}

#[test]
fn parses_synthetic_fmsh_framing() {
    let bytes = synthetic_mc(32833, 5094, 16664, 93600, 32833 + 5094);
    let mc = read_mc(&bytes).unwrap();
    let sec = read_mesh_section(&mc).unwrap().expect("mesh section");
    assert_eq!(sec.version, 1);
    assert_eq!(sec.compressed_size, 32833 + 5094);
    assert_eq!(sec.buf_a_size, 16664);
    assert_eq!(sec.buf_b_size, 93600);
    assert_eq!(sec.first_chunk.kind, 2);
    assert_eq!(sec.first_chunk.val, 33);
    assert_eq!(sec.first_chunk.sub_a_size, 32833);
    assert_eq!(sec.first_chunk.sub_b_size, 5094);
    assert_eq!(sec.decoded_geometry_size(), 16664 + 93600);
    assert!(sec.has_mesh_flag);
}

#[test]
fn no_fmsh_returns_none() {
    let mut bfres = vec![0u8; 0x100];
    bfres[0..4].copy_from_slice(b"FRES");
    let frame = compress_stream(&bfres, 3).unwrap();
    let mut mc = Vec::new();
    mc.extend_from_slice(&MC_MAGIC);
    mc.push(1);
    mc.push(1);
    mc.extend_from_slice(&0u16.to_le_bytes());
    mc.extend_from_slice(&size_descriptor(0x2000, 12).to_le_bytes());
    mc.extend_from_slice(&frame);
    let mc = read_mc(&mc).unwrap();
    assert!(read_mesh_section(&mc).unwrap().is_none());
}

#[test]
fn rejects_inconsistent_substream_sizes() {
    let bytes = synthetic_mc(100, 100, 16, 16, 150);
    let mc = read_mc(&bytes).unwrap();
    assert!(matches!(read_mesh_section(&mc), Err(McError::MeshFraming(_))));
}

#[test]
fn parses_header_and_size_descriptor() {
    let bytes = minimal_mc(0x11c);
    let mc = read_mc(&bytes).expect("parse");
    assert_eq!(mc.header.version, 1);
    assert_eq!(mc.header.flags, 1);
    assert_eq!(mc.header.alignment_shift(), 0xC);
    assert_eq!(mc.decompressed_size(), 0x8000);
    assert_eq!(mc.compressed_stream().len(), 64);
    assert_eq!(write_mc(&mc), bytes);
}

#[test]
fn read_rejects_bad_input() {
    assert!(matches!(read_mc(&[0u8; 4]), Err(McError::TooSmall(4))));
    let mut bad = vec![0u8; MC_HEADER_LEN + 8];
    bad[0..4].copy_from_slice(b"NOPE");
    assert!(matches!(read_mc(&bad), Err(McError::BadMagic(_))));
    let mut badflags = minimal_mc(0x11c);
    badflags[5] = 2;
    assert!(matches!(read_mc(&badflags), Err(McError::BadFlags(2))));
    let mut badres = minimal_mc(0x11c);
    badres[6] = 1;
    assert!(matches!(read_mc(&badres), Err(McError::BadReserved(_))));
    let mut zero = minimal_mc(0);
    zero[8..12].copy_from_slice(&0u32.to_le_bytes());
    assert!(matches!(read_mc(&zero), Err(McError::BadSize { .. })));
}

#[test]
fn size_descriptor_rounds_up_to_units() {
    // (d >> 5) << (d & 0xf): 0x40000 at shift 12 is 0x40 units.
    assert_eq!(size_descriptor(0x40000, 12), (0x40 << 5) | 12);
    assert_eq!(size_descriptor(0x8000, 12), 0x10c);
    // A partial unit rounds up.
    assert_eq!(size_descriptor(0x8001, 12), (9 << 5) | 12);
}

#[test]
fn zstd_frame_round_trips_and_caps() {
    let data: Vec<u8> = (0..5000u32).map(|i| (i % 251) as u8).collect();
    let stream = compress_stream(&data, 3).unwrap();
    let (out, used) = decompress_first_frame(&stream, 1 << 20).unwrap();
    assert_eq!(out, data);
    assert_eq!(used, stream.len());
    // A cap below the decoded size is a decompression error.
    assert!(matches!(decompress_first_frame(&stream, 100), Err(McError::Decompress(_))));
    assert!(matches!(check_first_frame(vec![0u8; 10], 4, 5), Err(McError::Decompress(_))));
    assert!(matches!(check_first_frame(vec![0u8; 10], 4, 10), Ok(_)));
}

#[test]
fn mesh_flag_reads_byte_0xee() {
    let mut b = vec![0u8; 0x100];
    assert!(!has_mesh_flag(&b));
    b[0xEE] = 0x08;
    assert!(has_mesh_flag(&b));
    assert!(!has_mesh_flag(&b[..0x20]));
}
