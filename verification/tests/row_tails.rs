use nx_layout_toolbox::mc::geometry::delta::{transform_tail_i8x3_direct_delta_into, transform_tail_u16x3_delta_into};
use nx_layout_toolbox::mc::geometry::row_tails::{
    transform_tail_delta2_into, transform_tail_delta3_into, transform_tail_delta4_into,
    transform_tail_pack10x3_previous_delta_into, transform_tail_u16x2_previous_delta_into,
    transform_tail_u8_previous_delta_into, transform_tail_u8x2_delta_into, transform_tail_u8x3_delta_into,
    transform_tail_u8x3_previous_delta_into,
};
use nx_layout_toolbox::mc::geometry::tails::{
    TransformTailDelta2Spec, TransformTailDelta3Spec, TransformTailDelta4Spec, TransformTailDeltaError,
    TransformTailDeltaUsage, TransformTailI8x3DirectDeltaSpec, TransformTailPack10x3PreviousDeltaSpec,
    TransformTailRecord, TransformTailU16x2PreviousDeltaSpec, TransformTailU16x3DeltaSpec,
    TransformTailU8PreviousDeltaSpec, TransformTailU8x2DeltaSpec, TransformTailU8x3DeltaSpec,
    TransformTailU8x3PreviousDeltaSpec,
};

fn rec(literal_count: u16, copy_count: u16, back_distance: usize) -> TransformTailRecord {
    TransformTailRecord { literal_count, copy_count, back_distance }
}

fn usage(source0: usize, source1: usize, source2: usize, match_entries: usize) -> TransformTailDeltaUsage {
    TransformTailDeltaUsage { source0, source1, source2, match_entries }
}

#[test]
fn delta2_direct_matched_and_copied_rows() {
    let mut out = vec![0u8; 6];
    let records = [rec(2, 1, 2)];
    let r = transform_tail_delta2_into(
        &mut out,
        TransformTailDelta2Spec {
            output_stride: 2,
            block_index: 0,
            out_offset: 0,
            records: &records,
            matches: &[0, 8, 0],
            source0: &[10],
            source1: &[3],
            source2: &[1, 2],
        },
    );
    // Direct row: byte 1 = 3, byte 0 = 10 - 3 - 1; matched row adds [1, 2]
    // to the row one vertex back; the copy clones it.
    assert_eq!(r, Ok(usage(1, 1, 2, 3)));
    assert_eq!(out, vec![6, 3, 7, 5, 7, 5]);
}

#[test]
fn delta3_direct_row_wraps_below_zero() {
    let mut out = vec![0u8; 3];
    let records = [rec(1, 0, 0)];
    let r = transform_tail_delta3_into(
        &mut out,
        TransformTailDelta3Spec {
            output_stride: 3,
            block_index: 0,
            out_offset: 0,
            records: &records,
            matches: &[0],
            source0: &[0],
            source1: &[1, 2],
            source2: &[],
        },
    );
    assert_eq!(r, Ok(usage(1, 2, 0, 1)));
    assert_eq!(out, vec![252, 1, 2]);
}

#[test]
fn delta4_needs_a_match_entry_per_row() {
    let mut out = vec![9u8; 4];
    let records = [rec(1, 0, 0)];
    let r = transform_tail_delta4_into(
        &mut out,
        TransformTailDelta4Spec {
            output_stride: 4,
            block_index: 0,
            out_offset: 0,
            records: &records,
            matches: &[],
            source0: &[1],
            source1: &[1, 2, 3],
            source2: &[],
        },
    );
    assert_eq!(r, Err(TransformTailDeltaError::MatchTableTooSmall));
    assert_eq!(out, vec![9u8; 4]);
}

#[test]
fn u8x2_delta_rows_sit_one_byte_before_the_cursor() {
    let mut out = vec![0u8; 6];
    let records = [rec(3, 0, 0)];
    let r = transform_tail_u8x2_delta_into(
        &mut out,
        TransformTailU8x2DeltaSpec {
            output_stride: 2,
            block_index: 0,
            out_offset: 0,
            records: &records,
            matches: &[0, 0, 8],
            source0: &[1, 2, 10, 20],
            source1: &[5, 5],
        },
    );
    assert_eq!(r, Ok(usage(4, 2, 0, 3)));
    assert_eq!(out, vec![1, 2, 11, 22, 16, 27]);
}

#[test]
fn u8x3_delta_seed_and_copy() {
    let mut out = vec![0u8; 6];
    let records = [rec(1, 1, 3)];
    let r = transform_tail_u8x3_delta_into(
        &mut out,
        TransformTailU8x3DeltaSpec {
            output_stride: 3,
            block_index: 0,
            out_offset: 0,
            records: &records,
            matches: &[0, 0],
            source0: &[7, 8, 9],
            source1: &[],
        },
    );
    assert_eq!(r, Ok(usage(3, 0, 0, 2)));
    assert_eq!(out, vec![7, 8, 9, 7, 8, 9]);
}

#[test]
fn u8x3_delta_copy_past_start_is_rejected() {
    let mut out = vec![0u8; 6];
    let records = [rec(1, 1, 9)];
    let r = transform_tail_u8x3_delta_into(
        &mut out,
        TransformTailU8x3DeltaSpec {
            output_stride: 3,
            block_index: 0,
            out_offset: 0,
            records: &records,
            matches: &[0, 0],
            source0: &[7, 8, 9],
            source1: &[],
        },
    );
    assert_eq!(r, Err(TransformTailDeltaError::CopyBeforeOutput));
    assert_eq!(out, vec![7, 8, 9, 0, 0, 0]);
}

#[test]
fn u8_previous_delta_accumulates() {
    let mut out = vec![0u8; 3];
    let records = [rec(3, 0, 0)];
    let r = transform_tail_u8_previous_delta_into(
        &mut out,
        TransformTailU8PreviousDeltaSpec {
            output_stride: 1,
            block_index: 0,
            out_offset: 0,
            records: &records,
            source0: &[5, 1, 2],
        },
    );
    assert_eq!(r, Ok(usage(3, 0, 0, 0)));
    assert_eq!(out, vec![5, 6, 8]);
}

#[test]
fn u8x3_previous_delta_wraps_bytewise() {
    let mut out = vec![0u8; 6];
    let records = [rec(2, 0, 0)];
    let r = transform_tail_u8x3_previous_delta_into(
        &mut out,
        TransformTailU8x3PreviousDeltaSpec {
            output_stride: 3,
            block_index: 0,
            out_offset: 0,
            records: &records,
            source0: &[1, 2, 3, 255, 1, 1],
        },
    );
    assert_eq!(r, Ok(usage(6, 0, 0, 0)));
    assert_eq!(out, vec![1, 2, 3, 0, 3, 4]);
}

#[test]
fn u16x2_previous_delta_wraps_per_lane() {
    let mut out = vec![0u8; 8];
    let records = [rec(2, 0, 0)];
    let r = transform_tail_u16x2_previous_delta_into(
        &mut out,
        TransformTailU16x2PreviousDeltaSpec {
            output_stride: 4,
            block_index: 0,
            out_offset: 0,
            records: &records,
            source0: &[0x34, 0x12, 0xff, 0xff, 0x01, 0x00, 0x01, 0x00],
        },
    );
    assert_eq!(r, Ok(usage(8, 0, 0, 0)));
    assert_eq!(out, vec![0x34, 0x12, 0xff, 0xff, 0x35, 0x12, 0x00, 0x00]);
}

#[test]
fn pack10x3_previous_delta_packs_adds_and_copies() {
    let mut out = vec![0u8; 12];
    let records = [rec(2, 1, 4)];
    let r = transform_tail_pack10x3_previous_delta_into(
        &mut out,
        TransformTailPack10x3PreviousDeltaSpec {
            output_stride: 4,
            block_index: 0,
            out_offset: 0,
            records: &records,
            matches: &[0, 0, 0],
            source0: &[1, 0, 2, 0, 3, 0, 1, 0, 1, 0, 1, 0],
            source1: &[],
        },
    );
    assert_eq!(r, Ok(usage(12, 0, 0, 3)));
    let first = 1u32 | (2 << 10) | (3 << 20);
    let second = 2u32 | (3 << 10) | (4 << 20);
    let mut want = Vec::new();
    want.extend_from_slice(&first.to_le_bytes());
    want.extend_from_slice(&second.to_le_bytes());
    want.extend_from_slice(&second.to_le_bytes());
    assert_eq!(out, want);
}

#[test]
fn u16x3_delta_flips_signed_lanes() {
    let mut out = vec![0u8; 12];
    let records = [rec(2, 0, 0)];
    let r = transform_tail_u16x3_delta_into(
        &mut out,
        TransformTailU16x3DeltaSpec {
            output_stride: 6,
            block_index: 0,
            out_offset: 0,
            records: &records,
            matches: &[0, 9],
            source0: &[0x00, 0x80, 0x10, 0x00, 0x20, 0x00],
            source1: &[1, 0, 1, 0, 1, 0],
        },
    );
    assert_eq!(r, Ok(usage(6, 6, 0, 2)));
    assert_eq!(out, vec![0x00, 0x80, 0x10, 0x00, 0x20, 0x00, 0x01, 0x00, 0x11, 0x00, 0x21, 0x00]);
}

#[test]
fn i8x3_direct_delta_negates_flagged_bytes() {
    let mut out = vec![0u8; 6];
    let records = [rec(2, 0, 0)];
    let r = transform_tail_i8x3_direct_delta_into(
        &mut out,
        TransformTailI8x3DirectDeltaSpec {
            output_stride: 3,
            block_index: 0,
            out_offset: 0,
            records: &records,
            matches: &[0, 15],
            source0: &[10, 20, 30],
            source1: &[1, 2, 3],
        },
    );
    assert_eq!(r, Ok(usage(3, 3, 0, 2)));
    assert_eq!(out, vec![10, 20, 30, 247, 238, 229]);
}

#[test]
fn i8x3_direct_delta_rejects_copies_before_writing() {
    let mut out = vec![0u8; 6];
    let records = [rec(1, 1, 3)];
    let r = transform_tail_i8x3_direct_delta_into(
        &mut out,
        TransformTailI8x3DirectDeltaSpec {
            output_stride: 3,
            block_index: 0,
            out_offset: 0,
            records: &records,
            matches: &[0, 0],
            source0: &[10, 20, 30],
            source1: &[],
        },
    );
    assert_eq!(r, Err(TransformTailDeltaError::UnobservedRecordShape));
    assert_eq!(out, vec![0u8; 6]);
}
