//! The writer dispatch of the vertex attribute driver: the writer that the
//! source setup picked rebuilds the attribute into the output from its
//! source streams, the run/copy records and the match table, and reports
//! what it consumed. The three writers that compute with floating point are
//! left to the caller: for them the dispatch writes nothing and names the
//! writer.
use vstd::prelude::*;
use crate::mc::geometry::sources::VertexAttributeWriterTarget;
use crate::mc::geometry::tails::{
    copy_result, direct_result, spec_copy_tail, spec_direct_tail, CopyRun, DeltaRun, TransformTailCopyError,
    TransformTailDeltaError, TransformTailDeltaUsage, TransformTailRecord, TransformTailCopy1Spec, TransformTailCopy2Spec, TransformTailCopy4Spec, TransformTailDelta2Spec, TransformTailDelta3Spec, TransformTailU8x2DeltaSpec, TransformTailU16x2PreviousDeltaSpec, TransformTailDelta2DirectSpec, TransformTailDelta3DirectSpec, TransformTailDelta4DirectSpec, TransformTailU16x3DeltaSpec, TransformTailU16x2DirectDeltaSpec, TransformTailU16x2DeltaSpec,
    transform_tail_copy1_into, transform_tail_copy2_into, transform_tail_copy4_into,
};
use crate::mc::geometry::rows::{spec_row_tail, RowInput, RowRun};
use crate::mc::geometry::row_tails::{
    shape_of, usage_result, transform_tail_delta2_into, transform_tail_delta3_into, transform_tail_u8x2_delta_into,
    transform_tail_u16x2_previous_delta_into,
};
use crate::mc::geometry::delta::{
    transform_tail_delta2_direct_into, transform_tail_delta3_direct_into, transform_tail_delta4_direct_into,
    transform_tail_u16x3_delta_into, transform_tail_u16x2_direct_delta_into, transform_tail_u16x2_delta_into,
};

verus! {

/// Bytes consumed from up to four source streams, and match-table entries
/// consumed.
#[derive(Debug, Clone, Copy, PartialEq, Eq)]
pub struct VertexAttributeWriterUsage {
    pub sources: [usize; 4],
    pub match_entries: usize,
}

/// Why the writer dispatch refused its input.
#[derive(Debug, Clone, Copy, PartialEq, Eq, Structural)]
pub enum VertexAttributeWriterError {
    /// The writer needs a source stream that the setup did not produce.
    MissingSource { target: VertexAttributeWriterTarget, index: usize },
    /// A copy writer refused its input.
    Copy(TransformTailCopyError),
    /// A delta or match writer refused its input.
    Delta(TransformTailDeltaError),
}

/// What the dispatch did: ran the writer with this consumption, or left a
/// floating-point writer to the caller.
#[derive(Debug, Clone, Copy, PartialEq, Eq)]
pub enum WriterApplied {
    Done(VertexAttributeWriterUsage),
    Float(VertexAttributeWriterTarget),
}

/// How many source streams each writer reads.
pub open spec fn sources_needed(t: VertexAttributeWriterTarget) -> int {
    match t {
        VertexAttributeWriterTarget::Copy1 | VertexAttributeWriterTarget::Copy2 | VertexAttributeWriterTarget::Copy4 | VertexAttributeWriterTarget::U16x2PreviousDelta => 1,
        VertexAttributeWriterTarget::Delta2 | VertexAttributeWriterTarget::Delta3 | VertexAttributeWriterTarget::I8x2Normal => 3,
        VertexAttributeWriterTarget::I8x3NormalDelta | VertexAttributeWriterTarget::Pack10x3Delta => 4,
        _ => 2,
    }
}

/// The usage of a copy writer that consumed `n` source bytes.
pub open spec fn spec_copy_usage(n: usize) -> VertexAttributeWriterUsage {
    VertexAttributeWriterUsage { sources: [n, 0, 0, 0], match_entries: 0 }
}

/// The usage of a delta writer.
pub open spec fn spec_delta_usage(u: TransformTailDeltaUsage) -> VertexAttributeWriterUsage {
    VertexAttributeWriterUsage { sources: [u.source0, u.source1, u.source2, 0], match_entries: u.match_entries }
}

fn copy_usage(n: usize) -> (u: VertexAttributeWriterUsage)
    ensures
        u == spec_copy_usage(n),
{
    VertexAttributeWriterUsage { sources: [n, 0, 0, 0], match_entries: 0 }
}

fn delta_usage(x: TransformTailDeltaUsage) -> (u: VertexAttributeWriterUsage)
    ensures
        u == spec_delta_usage(x),
{
    VertexAttributeWriterUsage { sources: [x.source0, x.source1, x.source2, 0], match_entries: x.match_entries }
}

/// The dispatch's result for a copy writer whose run is `run`.
pub open spec fn copy_applied(fin: Seq<u8>, r: Result<WriterApplied, VertexAttributeWriterError>, run: CopyRun) -> bool {
    match run {
        CopyRun::Running(o, c, p) => fin == o && r == Ok::<WriterApplied, VertexAttributeWriterError>(
            WriterApplied::Done(spec_copy_usage(p as usize)),
        ),
        CopyRun::Failed(o, e) => fin == o && r == Err::<WriterApplied, VertexAttributeWriterError>(
            VertexAttributeWriterError::Copy(e),
        ),
    }
}

/// The dispatch's result for a row writer whose run is `run`.
pub open spec fn row_applied(fin: Seq<u8>, r: Result<WriterApplied, VertexAttributeWriterError>, run: RowRun, kind: int) -> bool {
    match run {
        RowRun::Running(o, c, p0, p1, p2, mi) => fin == o && r == Ok::<WriterApplied, VertexAttributeWriterError>(
            WriterApplied::Done(
                spec_delta_usage(
                    TransformTailDeltaUsage {
                        source0: p0 as usize,
                        source1: p1 as usize,
                        source2: p2 as usize,
                        match_entries: if kind == 2 { 0 } else { mi as usize },
                    },
                ),
            ),
        ),
        RowRun::Failed(o, e) => fin == o && r == Err::<WriterApplied, VertexAttributeWriterError>(
            VertexAttributeWriterError::Delta(e),
        ),
    }
}

/// The dispatch's result for a direct delta writer whose run is `run`.
pub open spec fn direct_applied(fin: Seq<u8>, r: Result<WriterApplied, VertexAttributeWriterError>, run: DeltaRun) -> bool {
    match run {
        DeltaRun::Running(o, c, p0, p1, mi) => fin == o && r == Ok::<WriterApplied, VertexAttributeWriterError>(
            WriterApplied::Done(
                spec_delta_usage(
                    TransformTailDeltaUsage { source0: p0 as usize, source1: p1 as usize, source2: 0, match_entries: mi as usize },
                ),
            ),
        ),
        DeltaRun::Failed(o, e) => fin == o && r == Err::<WriterApplied, VertexAttributeWriterError>(
            VertexAttributeWriterError::Delta(e),
        ),
    }
}

/// What the writer dispatch gives for `target`, from output `old_out` with
/// final output `fin`.
pub open spec fn writer_applied(
    target: VertexAttributeWriterTarget,
    old_out: Seq<u8>,
    fin: Seq<u8>,
    stride: int,
    block: int,
    off: int,
    records: Seq<TransformTailRecord>,
    matches: Seq<u32>,
    src: Seq<Seq<u8>>,
    r: Result<WriterApplied, VertexAttributeWriterError>,
) -> bool {
    if src.len() < sources_needed(target) {
        fin == old_out && r == Err::<WriterApplied, VertexAttributeWriterError>(
            VertexAttributeWriterError::MissingSource { target, index: src.len() as usize },
        )
    } else {
        match target {
        VertexAttributeWriterTarget::Copy1 => copy_applied(fin, r, spec_copy_tail(old_out, stride, block, off, records, src[0], 1, true, true)),
        VertexAttributeWriterTarget::Copy2 => copy_applied(fin, r, spec_copy_tail(old_out, stride, block, off, records, src[0], 2, false, false)),
        VertexAttributeWriterTarget::Copy4 => copy_applied(fin, r, spec_copy_tail(old_out, stride, block, off, records, src[0], 4, true, true)),
        VertexAttributeWriterTarget::Delta2 => row_applied(fin, r, spec_row_tail(old_out, stride, block, off, records, shape_of(0, 2, 0, 1), (RowInput { matches: matches, s0: src[0], s1: src[1], s2: src[2] })), 0),
        VertexAttributeWriterTarget::Delta3 => row_applied(fin, r, spec_row_tail(old_out, stride, block, off, records, shape_of(0, 3, 0, 1), (RowInput { matches: matches, s0: src[0], s1: src[1], s2: src[2] })), 0),
        VertexAttributeWriterTarget::U8x2Delta => row_applied(fin, r, spec_row_tail(old_out, stride, block, off, records, shape_of(1, 2, 1, 1), (RowInput { matches: matches, s0: src[0], s1: src[1], s2: Seq::<u8>::empty() })), 1),
        VertexAttributeWriterTarget::U16x2PreviousDelta => row_applied(fin, r, spec_row_tail(old_out, stride, block, off, records, shape_of(2, 4, 0, 2), (RowInput { matches: Seq::<u32>::empty(), s0: src[0], s1: Seq::<u8>::empty(), s2: Seq::<u8>::empty() })), 2),
        VertexAttributeWriterTarget::Delta2Direct => direct_applied(fin, r, spec_direct_tail(old_out, stride, block, off, records, matches, src[0], src[1], 2, 1, false)),
        VertexAttributeWriterTarget::Delta3Direct => direct_applied(fin, r, spec_direct_tail(old_out, stride, block, off, records, matches, src[0], src[1], 3, 1, false)),
        VertexAttributeWriterTarget::Delta4Direct => direct_applied(fin, r, spec_direct_tail(old_out, stride, block, off, records, matches, src[0], src[1], 4, 1, false)),
        VertexAttributeWriterTarget::U16x3Delta => direct_applied(fin, r, spec_direct_tail(old_out, stride, block, off, records, matches, src[0], src[1], 6, 6, false)),
        VertexAttributeWriterTarget::U16x2DirectDelta => direct_applied(fin, r, spec_direct_tail(old_out, stride, block, off, records, matches, src[0], src[1], 4, 2, false)),
        VertexAttributeWriterTarget::U16x2Delta => direct_applied(fin, r, spec_direct_tail(old_out, stride, block, off, records, matches, src[0], src[1], 4, 2, true)),
        VertexAttributeWriterTarget::I8x2Normal => fin == old_out && r == Ok::<WriterApplied, VertexAttributeWriterError>(WriterApplied::Float(VertexAttributeWriterTarget::I8x2Normal)),
        VertexAttributeWriterTarget::I8x3NormalDelta => fin == old_out && r == Ok::<WriterApplied, VertexAttributeWriterError>(WriterApplied::Float(VertexAttributeWriterTarget::I8x3NormalDelta)),
        VertexAttributeWriterTarget::Pack10x3Delta => fin == old_out && r == Ok::<WriterApplied, VertexAttributeWriterError>(WriterApplied::Float(VertexAttributeWriterTarget::Pack10x3Delta)),
        }
    }
}

/// Run the writer `target` over `out`: the output stride, block index and
/// output offset of the attribute, its run/copy records, the match table,
/// and the source streams in setup order. A writer that needs more source
/// streams than there are refuses with the first missing index. The
/// floating-point writers (`I8x2Normal`, `I8x3NormalDelta`,
/// `Pack10x3Delta`) are not run here: the result names them and `out` is
/// left as it was.
pub fn vertex_attribute_apply_writer(
    out: &mut [u8],
    target: VertexAttributeWriterTarget,
    output_stride: usize,
    block_index: usize,
    out_offset: usize,
    records: &[TransformTailRecord],
    matches: &[u32],
    sources: &[Vec<u8>],
) -> (r: Result<WriterApplied, VertexAttributeWriterError>)
    ensures
        writer_applied(
            target,
            old(out)@,
            final(out)@,
            output_stride as int,
            block_index as int,
            out_offset as int,
            records@,
            matches@,
            sources@.map_values(|v: Vec<u8>| v@),
            r,
        ),
{
    let ghost src = sources@.map_values(|v: Vec<u8>| v@);
    let need: usize = match target {
        VertexAttributeWriterTarget::Copy1 | VertexAttributeWriterTarget::Copy2 | VertexAttributeWriterTarget::Copy4 | VertexAttributeWriterTarget::U16x2PreviousDelta => 1,
        VertexAttributeWriterTarget::Delta2 | VertexAttributeWriterTarget::Delta3 | VertexAttributeWriterTarget::I8x2Normal => 3,
        VertexAttributeWriterTarget::I8x3NormalDelta | VertexAttributeWriterTarget::Pack10x3Delta => 4,
        _ => 2,
    };
    if sources.len() < need {
        return Err(VertexAttributeWriterError::MissingSource { target, index: sources.len() });
    }
    assert(forall|i: int| 0 <= i < sources@.len() ==> #[trigger] src[i] == sources@[i]@);
    match target {
        VertexAttributeWriterTarget::Copy1 => {
            let tr = transform_tail_copy1_into(out, TransformTailCopy1Spec { output_stride, block_index, out_offset, records, source: sources[0].as_slice() });
            match tr {
                Ok(n) => Ok(WriterApplied::Done(copy_usage(n))),
                Err(e) => Err(VertexAttributeWriterError::Copy(e)),
            }
        },
        VertexAttributeWriterTarget::Copy2 => {
            let tr = transform_tail_copy2_into(out, TransformTailCopy2Spec { output_stride, block_index, out_offset, records, source: sources[0].as_slice() });
            match tr {
                Ok(n) => Ok(WriterApplied::Done(copy_usage(n))),
                Err(e) => Err(VertexAttributeWriterError::Copy(e)),
            }
        },
        VertexAttributeWriterTarget::Copy4 => {
            let tr = transform_tail_copy4_into(out, TransformTailCopy4Spec { output_stride, block_index, out_offset, records, source: sources[0].as_slice() });
            match tr {
                Ok(n) => Ok(WriterApplied::Done(copy_usage(n))),
                Err(e) => Err(VertexAttributeWriterError::Copy(e)),
            }
        },
        VertexAttributeWriterTarget::Delta2 => {
            let tr = transform_tail_delta2_into(out, TransformTailDelta2Spec { output_stride, block_index, out_offset, records, matches, source0: sources[0].as_slice(), source1: sources[1].as_slice(), source2: sources[2].as_slice() });
            match tr {
                Ok(u) => Ok(WriterApplied::Done(delta_usage(u))),
                Err(e) => Err(VertexAttributeWriterError::Delta(e)),
            }
        },
        VertexAttributeWriterTarget::Delta3 => {
            let tr = transform_tail_delta3_into(out, TransformTailDelta3Spec { output_stride, block_index, out_offset, records, matches, source0: sources[0].as_slice(), source1: sources[1].as_slice(), source2: sources[2].as_slice() });
            match tr {
                Ok(u) => Ok(WriterApplied::Done(delta_usage(u))),
                Err(e) => Err(VertexAttributeWriterError::Delta(e)),
            }
        },
        VertexAttributeWriterTarget::U8x2Delta => {
            let tr = transform_tail_u8x2_delta_into(out, TransformTailU8x2DeltaSpec { output_stride, block_index, out_offset, records, matches, source0: sources[0].as_slice(), source1: sources[1].as_slice() });
            match tr {
                Ok(u) => Ok(WriterApplied::Done(delta_usage(u))),
                Err(e) => Err(VertexAttributeWriterError::Delta(e)),
            }
        },
        VertexAttributeWriterTarget::U16x2PreviousDelta => {
            let tr = transform_tail_u16x2_previous_delta_into(out, TransformTailU16x2PreviousDeltaSpec { output_stride, block_index, out_offset, records, source0: sources[0].as_slice() });
            match tr {
                Ok(u) => Ok(WriterApplied::Done(delta_usage(u))),
                Err(e) => Err(VertexAttributeWriterError::Delta(e)),
            }
        },
        VertexAttributeWriterTarget::Delta2Direct => {
            let tr = transform_tail_delta2_direct_into(out, TransformTailDelta2DirectSpec { output_stride, block_index, out_offset, records, matches, source0: sources[0].as_slice(), source1: sources[1].as_slice() });
            match tr {
                Ok(u) => Ok(WriterApplied::Done(delta_usage(u))),
                Err(e) => Err(VertexAttributeWriterError::Delta(e)),
            }
        },
        VertexAttributeWriterTarget::Delta3Direct => {
            let tr = transform_tail_delta3_direct_into(out, TransformTailDelta3DirectSpec { output_stride, block_index, out_offset, records, matches, source0: sources[0].as_slice(), source1: sources[1].as_slice() });
            match tr {
                Ok(u) => Ok(WriterApplied::Done(delta_usage(u))),
                Err(e) => Err(VertexAttributeWriterError::Delta(e)),
            }
        },
        VertexAttributeWriterTarget::Delta4Direct => {
            let tr = transform_tail_delta4_direct_into(out, TransformTailDelta4DirectSpec { output_stride, block_index, out_offset, records, matches, source0: sources[0].as_slice(), source1: sources[1].as_slice() });
            match tr {
                Ok(u) => Ok(WriterApplied::Done(delta_usage(u))),
                Err(e) => Err(VertexAttributeWriterError::Delta(e)),
            }
        },
        VertexAttributeWriterTarget::U16x3Delta => {
            let tr = transform_tail_u16x3_delta_into(out, TransformTailU16x3DeltaSpec { output_stride, block_index, out_offset, records, matches, source0: sources[0].as_slice(), source1: sources[1].as_slice() });
            match tr {
                Ok(u) => Ok(WriterApplied::Done(delta_usage(u))),
                Err(e) => Err(VertexAttributeWriterError::Delta(e)),
            }
        },
        VertexAttributeWriterTarget::U16x2DirectDelta => {
            let tr = transform_tail_u16x2_direct_delta_into(out, TransformTailU16x2DirectDeltaSpec { output_stride, block_index, out_offset, records, matches, source0: sources[0].as_slice(), source1: sources[1].as_slice() });
            match tr {
                Ok(u) => Ok(WriterApplied::Done(delta_usage(u))),
                Err(e) => Err(VertexAttributeWriterError::Delta(e)),
            }
        },
        VertexAttributeWriterTarget::U16x2Delta => {
            let tr = transform_tail_u16x2_delta_into(out, TransformTailU16x2DeltaSpec { output_stride, block_index, out_offset, records, matches, source0: sources[0].as_slice(), source1: sources[1].as_slice() });
            match tr {
                Ok(u) => Ok(WriterApplied::Done(delta_usage(u))),
                Err(e) => Err(VertexAttributeWriterError::Delta(e)),
            }
        },
        VertexAttributeWriterTarget::I8x2Normal => Ok(WriterApplied::Float(VertexAttributeWriterTarget::I8x2Normal)),
        VertexAttributeWriterTarget::I8x3NormalDelta => Ok(WriterApplied::Float(VertexAttributeWriterTarget::I8x3NormalDelta)),
        VertexAttributeWriterTarget::Pack10x3Delta => Ok(WriterApplied::Float(VertexAttributeWriterTarget::Pack10x3Delta)),
    }
}

} // verus!
