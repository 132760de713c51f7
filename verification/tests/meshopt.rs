use nx_layout_toolbox::meshopt::{
    decode_index_buffer, decode_index_buffer_split, decode_index_buffer_split_aux_table,
    decode_index_buffer_split_used, decode_index_sequence, decode_vertex_buffer, encode_index_buffer,
    encode_index_sequence, encode_vertex_buffer, read_indices, MeshoptError,
};

fn lcg(seed: &mut u32) -> u32 {
    *seed = seed.wrapping_mul(1664525).wrapping_add(1013904223);
    *seed
}

const CODE_AUX_TABLE: [u8; 16] = [0x00, 0x76, 0x87, 0x56, 0x67, 0x78, 0xa9, 0x86, 0x65, 0x89, 0x68, 0x98, 0x01, 0x69, 0, 0];

#[test]
fn vertex_exact_format_vector_single() {
    let v = vec![0x11u8, 0x22, 0x33, 0x44];
    let enc = encode_vertex_buffer(&v, 1, 4).unwrap();
    let mut expect = vec![0xa0u8, 0, 0, 0, 0];
    expect.extend(std::iter::repeat_n(0u8, 28));
    expect.extend_from_slice(&[0x11, 0x22, 0x33, 0x44]);
    assert_eq!(enc, expect, "vertex stream must match the meshopt 0.15 layout");
    assert_eq!(decode_vertex_buffer(1, 4, &enc).unwrap(), v);
}

#[test]
fn index_exact_format_vector_single_triangle() {
    let enc = encode_index_buffer(&[0, 1, 2], 3, 0).unwrap();
    let mut expect = vec![0xe0u8, 0xf0];
    expect.extend_from_slice(&CODE_AUX_TABLE);
    assert_eq!(enc, expect, "index stream must match the meshopt 0.15 layout");
    let dec = decode_index_buffer(3, 4, &enc).unwrap();
    assert_eq!(read_indices(&dec, 3, 4).unwrap(), vec![0, 1, 2]);
}

#[test]
fn sequence_exact_format_vector() {
    let enc = encode_index_sequence(&[0, 1, 2], 3, 0).unwrap();
    assert_eq!(enc, vec![0xd0u8, 0x00, 0x04, 0x04, 0, 0, 0, 0]);
    let dec = decode_index_sequence(3, 4, &enc).unwrap();
    assert_eq!(read_indices(&dec, 3, 4).unwrap(), vec![0, 1, 2]);
}

#[test]
fn vertex_roundtrip_random_multiblock() {
    for &vsize in &[4usize, 8, 12, 16, 24, 28, 32, 64] {
        for &vcount in &[0usize, 1, 15, 16, 17, 255, 256, 257, 1000] {
            let mut seed = 0x1234_5678u32 ^ (vsize as u32 * 131 + vcount as u32);
            let data: Vec<u8> = (0..vcount * vsize).map(|_| (lcg(&mut seed) >> 24) as u8).collect();
            let enc = encode_vertex_buffer(&data, vcount, vsize).unwrap();
            let dec = decode_vertex_buffer(vcount, vsize, &enc).unwrap();
            assert_eq!(dec, data, "vsize={vsize} vcount={vcount}");
        }
    }
}

#[test]
fn vertex_roundtrip_structured() {
    let vsize = 16usize;
    let vcount = 500usize;
    let mut data = vec![0u8; vcount * vsize];
    for (i, b) in data.iter_mut().enumerate() {
        *b = ((i / vsize) as u8).wrapping_mul(3).wrapping_add((i % vsize) as u8);
    }
    let enc = encode_vertex_buffer(&data, vcount, vsize).unwrap();
    assert_eq!(decode_vertex_buffer(vcount, vsize, &enc).unwrap(), data);
}

fn grid_indices(cells: u32) -> Vec<u32> {
    let mut idx = Vec::new();
    let w = cells + 1;
    for y in 0..cells {
        for x in 0..cells {
            let i0 = y * w + x;
            let i1 = i0 + 1;
            let i2 = i0 + w;
            let i3 = i2 + 1;
            idx.extend_from_slice(&[i0, i2, i1, i1, i2, i3]);
        }
    }
    idx
}

#[test]
fn index_roundtrip_grid_and_random_both_versions() {
    for version in 0u8..=1 {
        let grid = grid_indices(20);
        let n = grid.len();
        let enc = encode_index_buffer(&grid, n, version).unwrap();
        for &isz in &[2usize, 4] {
            let dec = decode_index_buffer(n, isz, &enc).unwrap();
            assert_eq!(read_indices(&dec, n, isz).unwrap(), grid, "grid v{version} isz{isz}");
        }
        let mut seed = 0x0000_ABCDu32 ^ version as u32;
        let rnd: Vec<u32> = (0..3 * 200).map(|_| lcg(&mut seed) % 5000).collect();
        let m = rnd.len();
        let enc = encode_index_buffer(&rnd, m, version).unwrap();
        let dec = decode_index_buffer(m, 4, &enc).unwrap();
        assert_eq!(read_indices(&dec, m, 4).unwrap(), rnd, "random v{version}");
    }
}

#[test]
fn sequence_roundtrip_random_both_versions() {
    for version in 0u8..=1 {
        let mut seed = 0x0000_0055u32 ^ version as u32;
        let seq: Vec<u32> = (0..500).map(|_| lcg(&mut seed) % 100_000).collect();
        let n = seq.len();
        let enc = encode_index_sequence(&seq, n, version).unwrap();
        let dec = decode_index_sequence(n, 4, &enc).unwrap();
        assert_eq!(read_indices(&dec, n, 4).unwrap(), seq, "seq v{version}");
    }
}

#[test]
fn rejects_bad_headers_and_args() {
    assert!(matches!(decode_vertex_buffer(1, 4, &[0u8; 40]), Err(MeshoptError::BadHeader { .. })));
    assert!(matches!(decode_vertex_buffer(1, 3, &[0xa0u8; 40]), Err(MeshoptError::Invalid(_))));
    assert!(matches!(decode_vertex_buffer(1, 4, &[0xa0u8, 0, 0]), Err(MeshoptError::Truncated { .. })));
    assert!(matches!(decode_index_buffer(3, 4, &[0u8; 30]), Err(MeshoptError::BadHeader { .. })));
    assert!(matches!(decode_index_buffer(4, 4, &[0xe0u8; 30]), Err(MeshoptError::Invalid(_))));
    assert!(matches!(decode_index_sequence(3, 4, &[0u8; 30]), Err(MeshoptError::BadHeader { .. })));
    assert!(matches!(read_indices(&[0u8; 3], 2, 4), Err(MeshoptError::Truncated { .. })));
}

fn invalid_message<T>(r: Result<T, MeshoptError>) -> String {
    match r {
        Err(MeshoptError::Invalid(m)) => m,
        _ => panic!("expected an invalid-argument error"),
    }
}

#[test]
fn argument_errors_name_the_argument() {
    assert_eq!(invalid_message(read_indices(&[0u8; 8], 1, 3)), "index_size 3 must be 2 or 4");
    assert_eq!(invalid_message(encode_index_buffer(&[0, 1, 2], 3, 2)), "index version 2 > 1");
    assert_eq!(invalid_message(encode_index_sequence(&[0], 1, 5)), "sequence version 5 > 1");
    assert_eq!(invalid_message(encode_vertex_buffer(&[0u8; 8], 1, 6)), "vertex_size 6 must be a non-zero multiple of 4, <= 256");
    assert_eq!(invalid_message(decode_vertex_buffer(0, 1028, &[0xa0u8; 40])), "vertex_size 1028 must be a non-zero multiple of 4, <= 256");
    assert_eq!(invalid_message(decode_index_buffer(10, 4, &[0xe0u8; 30])), "index_count 10 must be a multiple of 3");
    assert!(matches!(
        encode_index_buffer(&[0, 1], 3, 0),
        Err(MeshoptError::Truncated { what: "index source", have: 2, need: 3 })
    ));
    assert_eq!(invalid_message(decode_index_buffer_split(3, 4, &[0xf0], &[], 7)), "index version 7 > 1");
}

#[test]
fn split_decode_matches_whole_buffer_and_reports_use() {
    let grid = grid_indices(6);
    let n = grid.len();
    let enc = encode_index_buffer(&grid, n, 0).unwrap();
    let code = &enc[1..1 + n / 3];
    let data = &enc[1 + n / 3..enc.len() - 16];
    let (out, cu, du) = decode_index_buffer_split_used(n, 4, code, data, 0).unwrap();
    assert_eq!(read_indices(&out, n, 4).unwrap(), grid);
    assert_eq!(cu, n / 3);
    assert_eq!(du, data.len());
    assert_eq!(decode_index_buffer_split(n, 2, code, data, 0).unwrap(), decode_index_buffer(n, 2, &enc).unwrap());
    // A code stream that stops early is reported at its end.
    assert!(matches!(
        decode_index_buffer_split(n, 4, &code[..2], data, 0),
        Err(MeshoptError::Truncated { what: "index code stream", have: 2, need: 3 })
    ));
}

#[test]
fn index_buffer_reports_extra_data() {
    let mut enc = encode_index_buffer(&[0, 1, 2], 3, 0).unwrap();
    enc.insert(2, 0x55);
    assert!(matches!(decode_index_buffer(3, 4, &enc), Err(MeshoptError::ExtraBytes { what: "index buffer", leftover: 1 })));
}

#[test]
fn aux_table_records_largest_vertex_distances() {
    // One fresh triangle (0, 1, 2): entry 2 holds distances 2 and 1 at bits 22 and 43.
    let (aux, cu, du) = decode_index_buffer_split_aux_table(3, &[0xf0], &[], 4).unwrap();
    assert_eq!((cu, du), (1, 0));
    assert_eq!(aux, vec![0, 0, (2u64 << 22) | (1u64 << 43), 0]);
    assert_eq!(invalid_message(decode_index_buffer_split_aux_table(3, &[0xf0], &[], 2)), "aux index 2 outside table length 2");
    assert_eq!(invalid_message(decode_index_buffer_split_aux_table(4, &[0xf0], &[], 4)), "index_count 4 must be a multiple of 3");
}

#[test]
fn vertex_buffer_reports_wrong_tail() {
    let v = vec![1u8, 2, 3, 4];
    let mut enc = encode_vertex_buffer(&v, 1, 4).unwrap();
    enc.push(0);
    assert!(matches!(decode_vertex_buffer(1, 4, &enc), Err(MeshoptError::ExtraBytes { what: "vertex buffer", .. })));
}

#[test]
fn sequence_with_large_jumps_switches_baseline() {
    let ix = vec![5u32, 1000, 6, 1001, 7];
    let enc = encode_index_sequence(&ix, ix.len(), 1).unwrap();
    assert_eq!(enc[0], 0xd1);
    let dec = decode_index_sequence(ix.len(), 2, &enc).unwrap();
    assert_eq!(read_indices(&dec, ix.len(), 2).unwrap(), ix);
}

#[test]
fn index_round_trip_rotates_triangle_onto_next_fresh_vertex() {
    // The second vertex is the next fresh one (0), so the triangle comes
    // back started there, with its winding kept.
    let ix = vec![1u32, 0, 2];
    let enc = encode_index_buffer(&ix, 3, 0).unwrap();
    let dec = decode_index_buffer(3, 4, &enc).unwrap();
    assert_eq!(read_indices(&dec, 3, 4).unwrap(), vec![0, 2, 1]);
}

#[test]
fn index_round_trip_version_one_restart() {
    // A second (0, 1, 2) restarts the fresh numbering at version 1.
    let ix = vec![0u32, 1, 2, 0, 1, 2, 3, 4, 5, 5, 4, 6];
    let enc = encode_index_buffer(&ix, ix.len(), 1).unwrap();
    let dec = decode_index_buffer(ix.len(), 4, &enc).unwrap();
    let out = read_indices(&dec, ix.len(), 4).unwrap();
    for t in 0..ix.len() / 3 {
        let want = [ix[3 * t], ix[3 * t + 1], ix[3 * t + 2]];
        let got = [out[3 * t], out[3 * t + 1], out[3 * t + 2]];
        let rotations = [
            [want[0], want[1], want[2]],
            [want[1], want[2], want[0]],
            [want[2], want[0], want[1]],
        ];
        assert!(rotations.contains(&got), "triangle {t}: {got:?} vs {want:?}");
    }
}

#[test]
fn vertex_round_trip_law_small_sizes() {
    for &vs in &[4usize, 8, 12, 16, 32, 64] {
        let count = 37usize;
        let data: Vec<u8> = (0..count * vs).map(|i| ((i * 7 + i / 5) % 251) as u8).collect();
        let enc = encode_vertex_buffer(&data, count, vs).unwrap();
        assert_eq!(enc[0], 0xa0);
        assert_eq!(decode_vertex_buffer(count, vs, &enc).unwrap(), data);
    }
}
