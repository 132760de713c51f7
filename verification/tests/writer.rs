use nx_layout_toolbox::mc::geometry::sources::VertexAttributeWriterTarget as T;
use nx_layout_toolbox::mc::geometry::tails::{TransformTailCopyError, TransformTailDeltaError, TransformTailRecord};
use nx_layout_toolbox::mc::geometry::writer::{
    vertex_attribute_apply_writer, VertexAttributeWriterError, VertexAttributeWriterUsage, WriterApplied,
};

fn rec(literal_count: u16, copy_count: u16, back_distance: usize) -> TransformTailRecord {
    TransformTailRecord { literal_count, copy_count, back_distance }
}

#[test]
fn apply_writer_runs_copy_writer() {
    let mut out = vec![0u8; 8];
    let r = vertex_attribute_apply_writer(&mut out, T::Copy1, 2, 0, 1, &[rec(2, 1, 2)], &[], &[vec![7, 9]]);
    assert_eq!(r, Ok(WriterApplied::Done(VertexAttributeWriterUsage { sources: [2, 0, 0, 0], match_entries: 0 })));
    assert_eq!(out, vec![0, 7, 0, 9, 0, 9, 0, 0]);
}

#[test]
fn apply_writer_runs_direct_delta_writer() {
    let mut out = vec![0u8; 6];
    let r = vertex_attribute_apply_writer(
        &mut out,
        T::Delta2Direct,
        2,
        0,
        0,
        &[rec(2, 1, 2)],
        &[0, 8, 0],
        &[vec![0xFF, 1], vec![2, 3]],
    );
    assert_eq!(r, Ok(WriterApplied::Done(VertexAttributeWriterUsage { sources: [2, 2, 0, 0], match_entries: 3 })));
    assert_eq!(out, vec![0xFF, 1, 1, 4, 1, 4]);
}

#[test]
fn apply_writer_reports_missing_sources_and_writer_errors() {
    let mut out = vec![0u8; 4];
    let r = vertex_attribute_apply_writer(&mut out, T::Delta2, 1, 0, 0, &[rec(1, 0, 0)], &[0], &[vec![1], vec![2]]);
    assert_eq!(r, Err(VertexAttributeWriterError::MissingSource { target: T::Delta2, index: 2 }));
    let r = vertex_attribute_apply_writer(&mut out, T::Copy1, 0, 0, 0, &[rec(1, 0, 0)], &[], &[vec![1]]);
    assert_eq!(r, Err(VertexAttributeWriterError::Copy(TransformTailCopyError::ZeroStride)));
    let r = vertex_attribute_apply_writer(&mut out, T::Delta2Direct, 0, 0, 0, &[rec(1, 0, 0)], &[0], &[vec![1], vec![2]]);
    assert_eq!(r, Err(VertexAttributeWriterError::Delta(TransformTailDeltaError::ZeroStride)));
    assert_eq!(out, vec![0, 0, 0, 0]);
}

#[test]
fn apply_writer_leaves_float_writers_to_the_caller() {
    let mut out = vec![3u8; 4];
    let r = vertex_attribute_apply_writer(&mut out, T::I8x2Normal, 4, 0, 0, &[rec(1, 0, 0)], &[], &[vec![], vec![], vec![]]);
    assert_eq!(r, Ok(WriterApplied::Float(T::I8x2Normal)));
    assert_eq!(out, vec![3, 3, 3, 3]);
}
