use nx_layout_toolbox::mc::geometry::delta::{
    transform_tail_u16x2_delta_into, transform_tail_u16x2_direct_delta_into, transform_tail_u32x2_delta_into,
    transform_tail_delta1_direct_into, transform_tail_delta2_direct_into, transform_tail_delta3_direct_into,
    transform_tail_delta4_direct_into,
};
use nx_layout_toolbox::mc::geometry::tails::{
    transform_tail_copy1_into, transform_tail_copy2_into, transform_tail_copy4_into, TransformTailCopy1Spec,
    TransformTailCopy2Spec, TransformTailCopy4Spec, TransformTailCopyError, TransformTailDelta1DirectSpec,
    TransformTailDelta2DirectSpec, TransformTailDelta3DirectSpec, TransformTailDelta4DirectSpec,
    TransformTailDeltaError, TransformTailDeltaUsage, TransformTailRecord, TransformTailU16x2DeltaSpec,
    TransformTailU16x2DirectDeltaSpec, TransformTailU32x2DeltaSpec,
};
use nx_layout_toolbox::mc::geometry::transport::{
    decode_raw_window, parse_sub_block_header, parse_super_block_trailer, read_leb_lsb, ForwardReader,
};

fn rec(literal_count: u16, copy_count: u16, back_distance: usize) -> TransformTailRecord {
    TransformTailRecord { literal_count, copy_count, back_distance }
}

#[test]
fn copy1_interleaves_literals_and_copies() {
    // Stride 2: literals land at 0, 2; one copy from 2 bytes back lands at 4.
    let mut out = vec![0u8; 8];
    let records = [rec(2, 1, 2)];
    let r = transform_tail_copy1_into(
        &mut out,
        TransformTailCopy1Spec { output_stride: 2, block_index: 0, out_offset: 1, records: &records, source: &[7, 9] },
    );
    assert_eq!(r, Ok(2));
    assert_eq!(out, vec![0, 7, 0, 9, 0, 9, 0, 0]);
}

#[test]
fn copy_tails_report_errors() {
    let mut out = vec![0u8; 4];
    let records = [rec(1, 0, 0)];
    let zero = transform_tail_copy1_into(
        &mut out,
        TransformTailCopy1Spec { output_stride: 0, block_index: 0, out_offset: 0, records: &records, source: &[1] },
    );
    assert_eq!(zero, Err(TransformTailCopyError::ZeroStride));
    let short = transform_tail_copy1_into(
        &mut out,
        TransformTailCopy1Spec { output_stride: 1, block_index: 0, out_offset: 0, records: &records, source: &[] },
    );
    assert_eq!(short, Err(TransformTailCopyError::SourceTooSmall));
    let records = [rec(0, 1, 1)];
    let early = transform_tail_copy1_into(
        &mut out,
        TransformTailCopy1Spec { output_stride: 1, block_index: 0, out_offset: 0, records: &records, source: &[] },
    );
    assert_eq!(early, Err(TransformTailCopyError::CopyBeforeOutput));
    // The two-byte tail rejects a record with no copies.
    let records = [rec(1, 0, 0)];
    let shape = transform_tail_copy2_into(
        &mut out,
        TransformTailCopy2Spec { output_stride: 2, block_index: 0, out_offset: 0, records: &records, source: &[1, 2] },
    );
    assert_eq!(shape, Err(TransformTailCopyError::UnobservedRecordShape));
    // Output too small for a four-byte value.
    let records = [rec(1, 1, 4)];
    let mut small = vec![0u8; 6];
    let r = transform_tail_copy4_into(
        &mut small,
        TransformTailCopy4Spec { output_stride: 4, block_index: 0, out_offset: 0, records: &records, source: &[1, 2, 3, 4] },
    );
    assert_eq!(r, Err(TransformTailCopyError::OutputTooSmall));
    assert_eq!(small, vec![1, 2, 3, 4, 0, 0]);
}

#[test]
fn delta1_direct_adds_to_matched_vertex() {
    // Vertex 0 direct (5); vertex 1 matches one vertex back (entry 1 << 3) and adds 3.
    let mut out = vec![0u8; 2];
    let records = [rec(2, 0, 0)];
    let r = transform_tail_delta1_direct_into(
        &mut out,
        TransformTailDelta1DirectSpec {
            output_stride: 1,
            block_index: 0,
            out_offset: 0,
            records: &records,
            matches: &[0, 8],
            source0: &[5],
            source1: &[3],
        },
    );
    assert_eq!(r, Ok(TransformTailDeltaUsage { source0: 1, source1: 1, source2: 0, match_entries: 2 }));
    assert_eq!(out, vec![5, 8]);
}

#[test]
fn delta2_to_4_direct_wrap_and_copy() {
    let mut out = vec![0u8; 6];
    let records = [rec(2, 1, 2)];
    let r = transform_tail_delta2_direct_into(
        &mut out,
        TransformTailDelta2DirectSpec {
            output_stride: 2,
            block_index: 0,
            out_offset: 0,
            records: &records,
            matches: &[0, 8, 0],
            source0: &[0xFF, 1],
            source1: &[2, 3],
        },
    );
    assert_eq!(r, Ok(TransformTailDeltaUsage { source0: 2, source1: 2, source2: 0, match_entries: 3 }));
    assert_eq!(out, vec![0xFF, 1, 1, 4, 1, 4]);

    let mut out3 = vec![0u8; 3];
    let records = [rec(1, 0, 0)];
    let r3 = transform_tail_delta3_direct_into(
        &mut out3,
        TransformTailDelta3DirectSpec {
            output_stride: 3,
            block_index: 0,
            out_offset: 0,
            records: &records,
            matches: &[0],
            source0: &[1, 2, 3],
            source1: &[],
        },
    );
    assert_eq!(r3.map(|u| u.source0), Ok(3));
    assert_eq!(out3, vec![1, 2, 3]);

    let mut out4 = vec![0u8; 4];
    let r4 = transform_tail_delta4_direct_into(
        &mut out4,
        TransformTailDelta4DirectSpec {
            output_stride: 4,
            block_index: 0,
            out_offset: 0,
            records: &records,
            matches: &[],
            source0: &[1, 2, 3, 4],
            source1: &[],
        },
    );
    assert_eq!(r4, Err(TransformTailDeltaError::MatchTableTooSmall));
}

#[test]
fn delta_direct_errors() {
    let records = [rec(1, 0, 0)];
    let mut out = vec![0u8; 2];
    let before = transform_tail_delta1_direct_into(
        &mut out,
        TransformTailDelta1DirectSpec {
            output_stride: 1,
            block_index: 0,
            out_offset: 0,
            records: &records,
            matches: &[16],
            source0: &[],
            source1: &[1],
        },
    );
    assert_eq!(before, Err(TransformTailDeltaError::MatchBeforeOutput));
    let no_src = transform_tail_delta1_direct_into(
        &mut out,
        TransformTailDelta1DirectSpec {
            output_stride: 1,
            block_index: 0,
            out_offset: 0,
            records: &records,
            matches: &[0],
            source0: &[],
            source1: &[],
        },
    );
    assert_eq!(no_src, Err(TransformTailDeltaError::Source0TooSmall));
    let records = [rec(0, 2, 1)];
    let table = transform_tail_delta2_direct_into(
        &mut vec![0u8; 8],
        TransformTailDelta2DirectSpec {
            output_stride: 2,
            block_index: 1,
            out_offset: 0,
            records: &records,
            matches: &[0],
            source0: &[],
            source1: &[],
        },
    );
    assert_eq!(table, Err(TransformTailDeltaError::MatchTableTooSmall));
}

#[test]
fn forward_reader_varints() {
    let buf = [0x81u8, 0x00, 0x05];
    let mut r = ForwardReader::new(&buf, 0);
    assert_eq!(r.varint(), 128);
    assert_eq!(r.varint(), 5);
    assert_eq!(r.byte(), None);
}

#[test]
fn leb_and_trailer() {
    assert_eq!(read_leb_lsb(&[0x80, 0x01, 0x7F], 0), (128, 2));
    assert_eq!(parse_super_block_trailer(&[0x00, 0x00, 0x09]), (0, 0, 2));
    assert_eq!(parse_super_block_trailer(&[0x85, 0x01, 0x03]), (133, 3, 3));
}

#[test]
fn sub_block_header_and_raw_window() {
    let buf = [0x02u8, 0x1F, 0x03, 0x0A, 0x04];
    let mut r = ForwardReader::new(&buf, 0);
    let h = parse_sub_block_header(&mut r).expect("header");
    assert_eq!((h.count, h.a, h.b, h.c, h.d, h.e, h.f), (2, 0xF, 1, 3, 10, 4, 5));
    let mut z = ForwardReader::new(&[0u8], 0);
    assert!(parse_sub_block_header(&mut z).is_none());
    let (w, end) = decode_raw_window(&[0x03, 9, 8, 7, 6], 0);
    assert_eq!((w, end), (vec![9, 8, 7], 4));
    let (w, end) = decode_raw_window(&[0x05, 9], 0);
    assert_eq!((w, end), (vec![9], 6));
}

#[test]
fn u16_lane_tails_carry_within_lanes() {
    // Vertex 0 direct (0x00FF, 0x0001); vertex 1 adds (1, 0xFFFF) to it: the
    // first lane carries into its high byte, the second wraps to 0.
    let records = [rec(2, 0, 0)];
    let mut out = vec![0u8; 8];
    let r = transform_tail_u16x2_direct_delta_into(
        &mut out,
        TransformTailU16x2DirectDeltaSpec {
            output_stride: 4,
            block_index: 0,
            out_offset: 0,
            records: &records,
            matches: &[0, 8],
            source0: &[0xFF, 0x00, 0x01, 0x00],
            source1: &[0x01, 0x00, 0xFF, 0xFF],
        },
    );
    assert_eq!(r, Ok(TransformTailDeltaUsage { source0: 4, source1: 4, source2: 0, match_entries: 2 }));
    assert_eq!(out, vec![0xFF, 0x00, 0x01, 0x00, 0x00, 0x01, 0x00, 0x00]);

    // Seed/previous: the second zero-match value adds source-0 deltas to the previous vertex.
    let mut out = vec![0u8; 8];
    let r = transform_tail_u16x2_delta_into(
        &mut out,
        TransformTailU16x2DeltaSpec {
            output_stride: 4,
            block_index: 0,
            out_offset: 0,
            records: &records,
            matches: &[0, 0],
            source0: &[0xFF, 0x00, 0x01, 0x00, 0x01, 0x00, 0x01, 0x00],
            source1: &[],
        },
    );
    assert_eq!(r, Ok(TransformTailDeltaUsage { source0: 8, source1: 0, source2: 0, match_entries: 2 }));
    assert_eq!(out, vec![0xFF, 0x00, 0x01, 0x00, 0x00, 0x01, 0x02, 0x00]);

    // Two u32 lanes.
    let records = [rec(2, 0, 0)];
    let mut out = vec![0u8; 16];
    let r = transform_tail_u32x2_delta_into(
        &mut out,
        TransformTailU32x2DeltaSpec {
            output_stride: 8,
            block_index: 0,
            out_offset: 0,
            records: &records,
            matches: &[0, 8],
            source0: &[0xFF, 0xFF, 0xFF, 0x00, 0, 0, 0, 0],
            source1: &[1, 0, 0, 0, 0xFF, 0xFF, 0xFF, 0xFF],
        },
    );
    assert!(r.is_ok());
    assert_eq!(&out[8..], &[0x00, 0x00, 0x00, 0x01, 0xFF, 0xFF, 0xFF, 0xFF]);
}
