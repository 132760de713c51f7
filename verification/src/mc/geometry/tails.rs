//! MeshCodec transform tails: the loops that turn decoded run/copy records
//! and source streams into vertex attribute bytes at a strided output cursor.
//!
//! Each tail walks its run/copy records. A record first emits
//! `literal_count` values at the cursor, stepping it by the output stride,
//! then copies `copy_count` values from `back_distance` bytes behind the
//! cursor. Every access is checked; an error leaves the output as far as
//! it was written.
use vstd::prelude::*;

verus! {

/// One run/copy record consumed by a transform tail.
#[derive(Debug, Clone, Copy, PartialEq, Eq, Structural)]
pub struct TransformTailRecord {
    /// Number of literal values emitted from the source streams.
    pub literal_count: u16,
    /// Number of values copied from earlier output at `back_distance`.
    pub copy_count: u16,
    /// Byte distance from the current output position to the copy source.
    pub back_distance: usize,
}

/// Inputs for the single-byte copy transform tail.
pub struct TransformTailCopy1Spec<'a> {
    /// Byte distance between consecutive vertices.
    pub output_stride: usize,
    /// Block index, folded into the initial output position.
    pub block_index: usize,
    /// Per-entry output byte offset.
    pub out_offset: usize,
    /// Run/copy records.
    pub records: &'a [TransformTailRecord],
    /// Source stream.
    pub source: &'a [u8],
}

/// Inputs for the two-byte copy transform tail.
pub struct TransformTailCopy2Spec<'a> {
    /// Byte distance between consecutive vertices.
    pub output_stride: usize,
    /// Block index, folded into the initial output position.
    pub block_index: usize,
    /// Per-entry output byte offset.
    pub out_offset: usize,
    /// Run/copy records.
    pub records: &'a [TransformTailRecord],
    /// Source stream.
    pub source: &'a [u8],
}

/// Inputs for the three-byte copy transform tail.
pub struct TransformTailCopy3Spec<'a> {
    /// Byte distance between consecutive vertices.
    pub output_stride: usize,
    /// Block index, folded into the initial output position.
    pub block_index: usize,
    /// Per-entry output byte offset.
    pub out_offset: usize,
    /// Run/copy records.
    pub records: &'a [TransformTailRecord],
    /// Source stream.
    pub source: &'a [u8],
}

/// Inputs for the four-byte copy transform tail.
pub struct TransformTailCopy4Spec<'a> {
    /// Byte distance between consecutive vertices.
    pub output_stride: usize,
    /// Block index, folded into the initial output position.
    pub block_index: usize,
    /// Per-entry output byte offset.
    pub out_offset: usize,
    /// Run/copy records.
    pub records: &'a [TransformTailRecord],
    /// Source stream.
    pub source: &'a [u8],
}

/// Inputs for the six-byte copy transform tail.
pub struct TransformTailCopy6Spec<'a> {
    /// Byte distance between consecutive vertices.
    pub output_stride: usize,
    /// Block index, folded into the initial output position.
    pub block_index: usize,
    /// Per-entry output byte offset.
    pub out_offset: usize,
    /// Run/copy records.
    pub records: &'a [TransformTailRecord],
    /// Source stream.
    pub source: &'a [u8],
}

/// Inputs for the eight-byte copy transform tail.
pub struct TransformTailCopy8Spec<'a> {
    /// Byte distance between consecutive vertices.
    pub output_stride: usize,
    /// Block index, folded into the initial output position.
    pub block_index: usize,
    /// Per-entry output byte offset.
    pub out_offset: usize,
    /// Run/copy records.
    pub records: &'a [TransformTailRecord],
    /// Source stream.
    pub source: &'a [u8],
}

/// Errors from fixed-width transform copy tails.
#[derive(Debug, Clone, Copy, PartialEq, Eq, Structural)]
pub enum TransformTailCopyError {
    ZeroStride,
    OutputTooSmall,
    SourceTooSmall,
    CopyBeforeOutput,
    ArithmeticOverflow,
    UnobservedRecordShape,
}

/// Inputs for the one-byte seed/previous-delta transform tail.
pub struct TransformTailU8PreviousDeltaSpec<'a> {
    /// Entry high byte (`entry >> 24`): byte distance between consecutive vertices.
    pub output_stride: usize,
    /// Block index at `[x0+0xa0]`, folded into the initial output position.
    pub block_index: usize,
    /// Per-entry output byte offset from `[x0 + current*4 + 0x64]`.
    pub out_offset: usize,
    /// Run/copy records at `x2`.
    pub records: &'a [TransformTailRecord],
    /// Seed and previous-row delta stream at `[x4]`.
    pub source0: &'a [u8],
}

/// Inputs for the three-byte seed/previous-delta transform tail.
pub struct TransformTailU8x3PreviousDeltaSpec<'a> {
    /// Entry high byte (`entry >> 24`): byte distance between consecutive vertices.
    pub output_stride: usize,
    /// Block index at `[x0+0xa0]`, folded into the initial output position.
    pub block_index: usize,
    /// Per-entry output byte offset from `[x0 + current*4 + 0x64]`.
    pub out_offset: usize,
    /// Run/copy records at `x2`.
    pub records: &'a [TransformTailRecord],
    /// Seed and previous-row delta stream at `[x4]`.
    pub source0: &'a [u8],
}

/// Inputs for the two-byte delta-match transform tail.
pub struct TransformTailDelta2Spec<'a> {
    /// Entry high byte (`entry >> 24`): byte distance between consecutive vertices.
    pub output_stride: usize,
    /// Block index at `[x0+0xa0]`, folded into the initial output position.
    pub block_index: usize,
    /// Per-entry output byte offset from `[x0 + current*4 + 0x64]`.
    pub out_offset: usize,
    /// Run/copy records at `x2`.
    pub records: &'a [TransformTailRecord],
    /// Match table at `[x0+0x10]`, indexed by emitted vertex.
    pub matches: &'a [u32],
    /// Direct literal source stream at `[x4]`.
    pub source0: &'a [u8],
    /// Direct literal second-byte stream at `[x4+8]`.
    pub source1: &'a [u8],
    /// Matched delta stream at `[x4+0x10]`.
    pub source2: &'a [u8],
}

/// Inputs for the three-byte delta-match transform tail.
pub struct TransformTailDelta3Spec<'a> {
    /// Entry high byte (`entry >> 24`): byte distance between consecutive vertices.
    pub output_stride: usize,
    /// Block index at `[x0+0xa0]`, folded into the initial output position.
    pub block_index: usize,
    /// Per-entry output byte offset from `[x0 + current*4 + 0x64]`.
    pub out_offset: usize,
    /// Run/copy records at `x2`.
    pub records: &'a [TransformTailRecord],
    /// Match table at `[x0+0x10]`, indexed by emitted vertex.
    pub matches: &'a [u32],
    /// Direct literal source stream at `[x4]`.
    pub source0: &'a [u8],
    /// Direct literal bytes 1 and 2 stream at `[x4+8]`.
    pub source1: &'a [u8],
    /// Matched delta stream at `[x4+0x10]`.
    pub source2: &'a [u8],
}

/// Inputs for the four-byte delta-match transform tail.
pub struct TransformTailDelta4Spec<'a> {
    /// Entry high byte (`entry >> 24`): byte distance between consecutive vertices.
    pub output_stride: usize,
    /// Block index at `[x0+0xa0]`, folded into the initial output position.
    pub block_index: usize,
    /// Per-entry output byte offset from `[x0 + current*4 + 0x64]`.
    pub out_offset: usize,
    /// Run/copy records at `x2`.
    pub records: &'a [TransformTailRecord],
    /// Match table at `[x0+0x10]`, indexed by emitted vertex.
    pub matches: &'a [u32],
    /// Direct literal source stream at `[x4]`.
    pub source0: &'a [u8],
    /// Direct literal bytes 1, 2, and 3 stream at `[x4+8]`.
    pub source1: &'a [u8],
    /// Matched delta stream at `[x4+0x10]`.
    pub source2: &'a [u8],
}

/// Inputs for the one-byte direct/delta transform tail.
pub struct TransformTailDelta1DirectSpec<'a> {
    /// Entry high byte (`entry >> 24`): byte distance between consecutive vertices.
    pub output_stride: usize,
    /// Block index at `[x0+0xa0]`, folded into the initial output position.
    pub block_index: usize,
    /// Per-entry output byte offset from `[x0 + current*4 + 0x64]`.
    pub out_offset: usize,
    /// Run/copy records at `x2`.
    pub records: &'a [TransformTailRecord],
    /// Match table at `[x0+0x10]`, indexed by emitted vertex.
    pub matches: &'a [u32],
    /// Direct literal source stream at `[x4]`.
    pub source0: &'a [u8],
    /// Matched delta stream at `[x4+8]`.
    pub source1: &'a [u8],
}

/// Inputs for the two-byte direct/delta transform tail.
pub struct TransformTailDelta2DirectSpec<'a> {
    /// Entry high byte (`entry >> 24`): byte distance between consecutive vertices.
    pub output_stride: usize,
    /// Block index at `[x0+0xa0]`, folded into the initial output position.
    pub block_index: usize,
    /// Per-entry output byte offset from `[x0 + current*4 + 0x64]`.
    pub out_offset: usize,
    /// Run/copy records at `x2`.
    pub records: &'a [TransformTailRecord],
    /// Match table at `[x0+0x10]`, indexed by emitted vertex.
    pub matches: &'a [u32],
    /// Direct literal source stream at `[x4]`.
    pub source0: &'a [u8],
    /// Matched delta stream at `[x4+8]`.
    pub source1: &'a [u8],
}

/// Inputs for the three-byte direct/delta transform tail.
pub struct TransformTailDelta3DirectSpec<'a> {
    /// Entry high byte (`entry >> 24`): byte distance between consecutive vertices.
    pub output_stride: usize,
    /// Block index at `[x0+0xa0]`, folded into the initial output position.
    pub block_index: usize,
    /// Per-entry output byte offset from `[x0 + current*4 + 0x64]`.
    pub out_offset: usize,
    /// Run/copy records at `x2`.
    pub records: &'a [TransformTailRecord],
    /// Match table at `[x0+0x10]`, indexed by emitted vertex.
    pub matches: &'a [u32],
    /// Direct literal source stream at `[x4]`.
    pub source0: &'a [u8],
    /// Matched delta stream at `[x4+8]`.
    pub source1: &'a [u8],
}

/// Inputs for the three-byte signed direct/delta transform tail.
pub struct TransformTailI8x3DirectDeltaSpec<'a> {
    /// Entry high byte (`entry >> 24`): byte distance between consecutive vertices.
    pub output_stride: usize,
    /// Block index at `[x0+0xa0]`, folded into the initial output position.
    pub block_index: usize,
    /// Per-entry output byte offset from `[x0 + current*4 + 0x64]`.
    pub out_offset: usize,
    /// Run/copy records at `x2`.
    pub records: &'a [TransformTailRecord],
    /// Match table at `[x0+0x10]`, indexed by emitted vertex.
    pub matches: &'a [u32],
    /// Direct literal source stream at `[x4]`.
    pub source0: &'a [u8],
    /// Matched delta stream at `[x4+8]`.
    pub source1: &'a [u8],
}

/// Inputs for the four-byte direct/delta transform tail.
pub struct TransformTailDelta4DirectSpec<'a> {
    /// Entry high byte (`entry >> 24`): byte distance between consecutive vertices.
    pub output_stride: usize,
    /// Block index at `[x0+0xa0]`, folded into the initial output position.
    pub block_index: usize,
    /// Per-entry output byte offset from `[x0 + current*4 + 0x64]`.
    pub out_offset: usize,
    /// Run/copy records at `x2`.
    pub records: &'a [TransformTailRecord],
    /// Match table at `[x0+0x10]`, indexed by emitted vertex.
    pub matches: &'a [u32],
    /// Direct literal source stream at `[x4]`.
    pub source0: &'a [u8],
    /// Matched delta stream at `[x4+8]`.
    pub source1: &'a [u8],
}

/// Inputs for the two-byte previous/matched delta transform tail.
pub struct TransformTailU8x2DeltaSpec<'a> {
    /// Entry high byte (`entry >> 24`): byte distance between consecutive vertices.
    pub output_stride: usize,
    /// Block index at `[x0+0xa0]`, folded into the initial output position.
    pub block_index: usize,
    /// Per-entry output byte offset from `[x0 + current*4 + 0x64]`.
    pub out_offset: usize,
    /// Run/copy records at `x2`.
    pub records: &'a [TransformTailRecord],
    /// Match table at `[x0+0x10]`, indexed by emitted vertex.
    pub matches: &'a [u32],
    /// Seed and zero-match previous-row delta stream at `[x4]`.
    pub source0: &'a [u8],
    /// Non-zero match delta stream at `[x4+8]`.
    pub source1: &'a [u8],
}

/// Inputs for the three-byte previous/matched delta transform tail.
pub struct TransformTailU8x3DeltaSpec<'a> {
    /// Entry high byte (`entry >> 24`): byte distance between consecutive vertices.
    pub output_stride: usize,
    /// Block index at `[x0+0xa0]`, folded into the initial output position.
    pub block_index: usize,
    /// Per-entry output byte offset from `[x0 + current*4 + 0x64]`.
    pub out_offset: usize,
    /// Run/copy records at `x2`.
    pub records: &'a [TransformTailRecord],
    /// Match table at `[x0+0x10]`, indexed by emitted vertex.
    pub matches: &'a [u32],
    /// Seed and zero-match previous-row delta stream at `[x4]`.
    pub source0: &'a [u8],
    /// Non-zero match delta stream at `[x4+8]`.
    pub source1: &'a [u8],
}

/// Inputs for the three-u16 direct/signed-delta transform tail.
pub struct TransformTailU16x3DeltaSpec<'a> {
    /// Entry high byte (`entry >> 24`): byte distance between consecutive vertices.
    pub output_stride: usize,
    /// Block index at `[x0+0xa0]`, folded into the initial output position.
    pub block_index: usize,
    /// Per-entry output byte offset from `[x0 + current*4 + 0x64]`.
    pub out_offset: usize,
    /// Run/copy records at `x2`.
    pub records: &'a [TransformTailRecord],
    /// Match table at `[x0+0x10]`, indexed by emitted vertex.
    pub matches: &'a [u32],
    /// Direct three-u16 literal source stream at `[x4]`.
    pub source0: &'a [u8],
    /// Matched three-u16 delta stream at `[x4+8]`.
    pub source1: &'a [u8],
}

/// Inputs for the two-u16 direct/matched delta transform tail.
pub struct TransformTailU16x2DirectDeltaSpec<'a> {
    /// Entry high byte (`entry >> 24`): byte distance between consecutive vertices.
    pub output_stride: usize,
    /// Block index at `[x0+0xa0]`, folded into the initial output position.
    pub block_index: usize,
    /// Per-entry output byte offset from `[x0 + current*4 + 0x64]`.
    pub out_offset: usize,
    /// Run/copy records at `x2`.
    pub records: &'a [TransformTailRecord],
    /// Match table at `[x0+0x10]`, indexed by emitted vertex.
    pub matches: &'a [u32],
    /// Direct two-u16 literal source stream at `[x4]`.
    pub source0: &'a [u8],
    /// Matched two-u16 delta stream at `[x4+8]`.
    pub source1: &'a [u8],
}

/// Inputs for the two-u32 direct/matched delta transform tail.
pub struct TransformTailU32x2DeltaSpec<'a> {
    /// Entry high byte (`entry >> 24`): byte distance between consecutive vertices.
    pub output_stride: usize,
    /// Block index at `[x0+0xa0]`, folded into the initial output position.
    pub block_index: usize,
    /// Per-entry output byte offset from `[x0 + current*4 + 0x64]`.
    pub out_offset: usize,
    /// Run/copy records at `x2`.
    pub records: &'a [TransformTailRecord],
    /// Match table at `[x0+0x10]`, indexed by emitted vertex.
    pub matches: &'a [u32],
    /// Direct two-u32 literal source stream at `[x4]`.
    pub source0: &'a [u8],
    /// Matched two-u32 delta stream at `[x4+8]`.
    pub source1: &'a [u8],
}

/// Inputs for the two-u16 seed/previous delta transform tail.
pub struct TransformTailU16x2PreviousDeltaSpec<'a> {
    /// Entry high byte (`entry >> 24`): byte distance between consecutive vertices.
    pub output_stride: usize,
    /// Block index at `[x0+0xa0]`, folded into the initial output position.
    pub block_index: usize,
    /// Per-entry output byte offset from `[x0 + current*4 + 0x64]`.
    pub out_offset: usize,
    /// Run/copy records at `x2`.
    pub records: &'a [TransformTailRecord],
    /// Seed row and previous-row u16 delta stream at `[x4]`.
    pub source0: &'a [u8],
}

/// Inputs for the packed 10-10-10 direct/delta transform tail.
pub struct TransformTailPack10x3DeltaSpec<'a> {
    /// Entry high byte (`entry >> 24`): byte distance between consecutive vertices.
    pub output_stride: usize,
    /// Block index at `[x0+0xa0]`, folded into the initial output position.
    pub block_index: usize,
    /// Per-entry output byte offset from `[x0 + current*4 + 0x64]`.
    pub out_offset: usize,
    /// Run/copy records at `x2`.
    pub records: &'a [TransformTailRecord],
    /// Match table at `[x0+0x10]`, indexed by emitted vertex.
    pub matches: &'a [u32],
    /// Direct source stream with two raw 10-bit components per row at `[x4]`.
    pub source0: &'a [u8],
    /// Direct third-component delta stream at `[x4+8]`.
    pub source1: &'a [u8],
    /// Direct third-component sign-byte stream at `[x4+0x10]`.
    pub source2: &'a [u8],
    /// Matched three-u16 packed-lane delta stream at `[x4+0x18]`.
    pub source3: &'a [u8],
}

/// Inputs for the packed 10-10-10 normal transform tail.
pub struct TransformTailPack10x3NormalSpec<'a> {
    /// Entry high byte (`entry >> 24`): byte distance between consecutive vertices.
    pub output_stride: usize,
    /// Block index at `[x0+0xa0]`, folded into the initial output position.
    pub block_index: usize,
    /// Per-entry output byte offset from `[x0 + current*4 + 0x64]`.
    pub out_offset: usize,
    /// Run/copy records at `x2`.
    pub records: &'a [TransformTailRecord],
    /// Direct source stream with two raw 10-bit components per row at `[x4]`.
    pub source0: &'a [u8],
    /// Direct third-component delta stream at `[x4+8]`.
    pub source1: &'a [u8],
    /// Direct third-component sign-byte stream at `[x4+0x10]`.
    pub source2: &'a [u8],
}

/// Inputs for the f16x3 predictor transform tail.
pub struct TransformTailF16x3PredictSpec<'a> {
    /// Entry high byte (`entry >> 24`): byte distance between consecutive vertices.
    pub output_stride: usize,
    /// Block index at `[x0+0xa0]`, folded into the initial output position.
    pub block_index: usize,
    /// Per-entry output byte offset from `[x0 + current*4 + 0x64]`.
    pub out_offset: usize,
    /// Run/copy records at `x2`.
    pub records: &'a [TransformTailRecord],
    /// Predictor table at `[x0+8]`, indexed by emitted vertex.
    pub aux_table: &'a [u64],
    /// Per-lane flag stream at `[x4]`.
    pub source0: &'a [u8],
    /// Exponent-delta stream for zero flags at `[x4+8]`.
    pub source1: &'a [u8],
    /// Exponent-delta stream for non-zero flags at `[x4+0x10]`.
    pub source2: &'a [u8],
    /// Zigzag mantissa deltas for unchanged sign/exponent lanes at `[x4+0x18]`.
    pub source3: &'a [u8],
    /// Direct mantissas for changed sign/exponent lanes at `[x4+0x20]`.
    pub source4: &'a [u8],
}

/// Inputs for the two-u16 f16x3 reference predictor transform tail.
pub struct TransformTailU16x2F16x3PredictSpec<'a> {
    /// Entry high byte (`entry >> 24`): byte distance between consecutive vertices.
    pub output_stride: usize,
    /// Block index at `[x0+0xa0]`, folded into the initial output position.
    pub block_index: usize,
    /// Per-entry output byte offset from `[x0 + current*4 + 0x64]`.
    pub out_offset: usize,
    /// Referenced attribute high byte selected by the writer-local five-bit reader.
    pub reference_output_stride: usize,
    /// Referenced attribute byte offset selected by the same reader.
    pub reference_out_offset: usize,
    /// Run/copy records at `x2`.
    pub records: &'a [TransformTailRecord],
    /// Predictor table at `[x0+8]`, indexed by emitted vertex.
    pub aux_table: &'a [u64],
    /// Seed row and zero-aux previous-row u16 delta stream at `[x4]`.
    pub source0: &'a [u8],
    /// Base two-u16 rows for non-zero aux literals at `[x4+8]`.
    pub source1: &'a [u8],
    /// Non-zero aux orientation byte stream at `[x4+0x10]`.
    pub source2: &'a [u8],
}

/// Inputs for the packed 10-10-10 seed/previous/matched delta tail.
pub struct TransformTailPack10x3PreviousDeltaSpec<'a> {
    /// Entry high byte (`entry >> 24`): byte distance between consecutive vertices.
    pub output_stride: usize,
    /// Block index at `[x0+0xa0]`, folded into the initial output position.
    pub block_index: usize,
    /// Per-entry output byte offset from `[x0 + current*4 + 0x64]`.
    pub out_offset: usize,
    /// Run/copy records at `x2`.
    pub records: &'a [TransformTailRecord],
    /// Match table at `[x0+0x10]`, indexed by emitted vertex.
    pub matches: &'a [u32],
    /// Seed row and zero-match previous-row delta stream at `[x4]`.
    pub source0: &'a [u8],
    /// Non-zero match delta stream at `[x4+8]`.
    pub source1: &'a [u8],
}

/// Inputs for the two-u16 seed/previous/matched delta transform tail.
pub struct TransformTailU16x2DeltaSpec<'a> {
    /// Entry high byte (`entry >> 24`): byte distance between consecutive vertices.
    pub output_stride: usize,
    /// Block index at `[x0+0xa0]`, folded into the initial output position.
    pub block_index: usize,
    /// Per-entry output byte offset from `[x0 + current*4 + 0x64]`.
    pub out_offset: usize,
    /// Run/copy records at `x2`.
    pub records: &'a [TransformTailRecord],
    /// Match table at `[x0+0x10]`, indexed by emitted vertex.
    pub matches: &'a [u32],
    /// Seed row and zero-match previous-row delta stream at `[x4]`.
    pub source0: &'a [u8],
    /// Non-zero match delta stream at `[x4+8]`.
    pub source1: &'a [u8],
}

/// Inputs for the three-byte i8/i8/sqrt transform tail.
pub struct TransformTailI8x2NormalSpec<'a> {
    /// Entry high byte (`entry >> 24`): byte distance between consecutive vertices.
    pub output_stride: usize,
    /// Block index at `[x0+0xa0]`, folded into the initial output position.
    pub block_index: usize,
    /// Per-entry output byte offset from `[x0 + current*4 + 0x64]`.
    pub out_offset: usize,
    /// Run/copy records at `x2`.
    pub records: &'a [TransformTailRecord],
    /// Direct signed i8 x/y source stream at `[x4]`.
    pub source0: &'a [u8],
    /// Direct z adjustment stream at `[x4+8]`.
    pub source1: &'a [u8],
    /// Direct z sign-byte stream at `[x4+0x10]`.
    pub source2: &'a [u8],
}

/// Inputs for the three-byte i8/i8/sqrt direct/matched delta tail.
pub struct TransformTailI8x3NormalDeltaSpec<'a> {
    /// Entry high byte (`entry >> 24`): byte distance between consecutive vertices.
    pub output_stride: usize,
    /// Block index at `[x0+0xa0]`, folded into the initial output position.
    pub block_index: usize,
    /// Per-entry output byte offset from `[x0 + current*4 + 0x64]`.
    pub out_offset: usize,
    /// Run/copy records at `x2`.
    pub records: &'a [TransformTailRecord],
    /// Match table at `[x0+0x10]`, indexed by emitted vertex.
    pub matches: &'a [u32],
    /// Direct signed i8 x/y source stream at `[x4]`.
    pub source0: &'a [u8],
    /// Direct z adjustment stream at `[x4+8]`.
    pub source1: &'a [u8],
    /// Direct z sign-byte stream at `[x4+0x10]`.
    pub source2: &'a [u8],
    /// Matched three-byte delta stream at `[x4+0x18]`.
    pub source3: &'a [u8],
}

/// Source and table consumption from a delta-match transform tail.
#[derive(Debug, Clone, Copy, PartialEq, Eq, Structural)]
pub struct TransformTailDeltaUsage {
    pub source0: usize,
    pub source1: usize,
    pub source2: usize,
    pub match_entries: usize,
}

/// Source and table consumption from a packed 10-10-10 transform tail.
#[derive(Debug, Clone, Copy, PartialEq, Eq, Structural)]
pub struct TransformTailPack10Usage {
    pub source0: usize,
    pub source1: usize,
    pub source2: usize,
    pub source3: usize,
    pub match_entries: usize,
}

/// Source and table consumption from the three-byte normal delta tail.
#[derive(Debug, Clone, Copy, PartialEq, Eq, Structural)]
pub struct TransformTailI8x3NormalDeltaUsage {
    pub source0: usize,
    pub source1: usize,
    pub source2: usize,
    pub source3: usize,
    pub match_entries: usize,
}

/// Source and aux-table consumption from the f16x3 predictor tail.
#[derive(Debug, Clone, Copy, PartialEq, Eq, Structural)]
pub struct TransformTailF16x3PredictUsage {
    pub source0: usize,
    pub source1: usize,
    pub source2: usize,
    pub source3: usize,
    pub source4: usize,
    pub aux_entries: usize,
}

/// Source and aux-table consumption from the two-u16 f16x3 reference predictor tail.
#[derive(Debug, Clone, Copy, PartialEq, Eq, Structural)]
pub struct TransformTailU16x2F16x3PredictUsage {
    pub source0: usize,
    pub source1: usize,
    pub source2: usize,
    pub aux_entries: usize,
}

/// Errors from delta-match transform tails.
#[derive(Debug, Clone, Copy, PartialEq, Eq, Structural)]
pub enum TransformTailDeltaError {
    ZeroStride,
    OutputTooSmall,
    Source0TooSmall,
    Source1TooSmall,
    Source2TooSmall,
    Source3TooSmall,
    Source4TooSmall,
    MatchTableTooSmall,
    AuxTableTooSmall,
    MatchBeforeOutput,
    PredictorBeforeOutput,
    CopyBeforeOutput,
    ArithmeticOverflow,
    UnobservedRecordShape,
    UnobservedPredictorSignZero,
}

/// `out` with `data` written at `at`.
pub open spec fn splice(out: Seq<u8>, at: int, data: Seq<u8>) -> Seq<u8> {
    Seq::new(out.len(), |i: int| if at <= i < at + data.len() { data[i - at] } else { out[i] })
}

/// Write `data` into `out` at `at`.
pub fn write_bytes(out: &mut [u8], at: usize, data: &[u8])
    requires
        at + data@.len() <= old(out)@.len(),
    ensures
        final(out)@ == splice(old(out)@, at as int, data@),
{
    let olen = out.len();
    let mut j: usize = 0;
    while j < data.len()
        invariant
            olen == out@.len(),
            at + data@.len() <= out@.len(),
            out@.len() == old(out)@.len(),
            j <= data@.len(),
            forall|i: int| 0 <= i < out@.len() ==> #[trigger] out@[i] == if at <= i < at + j {
                data@[i - at]
            } else {
                old(out)@[i]
            },
        decreases data@.len() - j,
    {
        out[at + j] = data[j];
        j += 1;
    }
    assert(out@ =~= splice(old(out)@, at as int, data@));
}

/// The state of a copy tail: output, cursor, source position; or the output
/// at the error and the error.
pub enum CopyRun {
    Running(Seq<u8>, int, int),
    Failed(Seq<u8>, TransformTailCopyError),
}

/// One literal value: `unit` source bytes written at the cursor, which then
/// advances by the stride.
pub open spec fn copy_literal(out: Seq<u8>, cur: int, sp: int, src: Seq<u8>, unit: int, stride: int) -> CopyRun {
    if sp + unit > usize::MAX || cur + unit > usize::MAX {
        CopyRun::Failed(out, TransformTailCopyError::ArithmeticOverflow)
    } else if sp + unit > src.len() {
        CopyRun::Failed(out, TransformTailCopyError::SourceTooSmall)
    } else if cur + unit > out.len() {
        CopyRun::Failed(out, TransformTailCopyError::OutputTooSmall)
    } else {
        let o2 = splice(out, cur, src.subrange(sp, sp + unit));
        if cur + stride > usize::MAX {
            CopyRun::Failed(o2, TransformTailCopyError::ArithmeticOverflow)
        } else {
            CopyRun::Running(o2, cur + stride, sp + unit)
        }
    }
}

/// One copied value: `unit` bytes from `back` bytes behind the cursor
/// written at the cursor, which then advances by the stride.
pub open spec fn copy_back(out: Seq<u8>, cur: int, sp: int, back: int, unit: int, stride: int) -> CopyRun {
    if back == 0 || cur < back {
        CopyRun::Failed(out, TransformTailCopyError::CopyBeforeOutput)
    } else if cur - back + unit > usize::MAX || cur + unit > usize::MAX {
        CopyRun::Failed(out, TransformTailCopyError::ArithmeticOverflow)
    } else if cur - back + unit > out.len() {
        CopyRun::Failed(out, TransformTailCopyError::CopyBeforeOutput)
    } else if cur + unit > out.len() {
        CopyRun::Failed(out, TransformTailCopyError::OutputTooSmall)
    } else {
        let o2 = splice(out, cur, out.subrange(cur - back, cur - back + unit));
        if cur + stride > usize::MAX {
            CopyRun::Failed(o2, TransformTailCopyError::ArithmeticOverflow)
        } else {
            CopyRun::Running(o2, cur + stride, sp)
        }
    }
}

/// `n` literal values from state `st`.
pub open spec fn copy_literals(st: CopyRun, n: int, src: Seq<u8>, unit: int, stride: int) -> CopyRun
    decreases n,
{
    if n <= 0 {
        st
    } else {
        match copy_literals(st, n - 1, src, unit, stride) {
            CopyRun::Running(o, c, p) => copy_literal(o, c, p, src, unit, stride),
            f => f,
        }
    }
}

/// `n` copied values from state `st`.
pub open spec fn copy_backs(st: CopyRun, n: int, back: int, unit: int, stride: int) -> CopyRun
    decreases n,
{
    if n <= 0 {
        st
    } else {
        match copy_backs(st, n - 1, back, unit, stride) {
            CopyRun::Running(o, c, p) => copy_back(o, c, p, back, unit, stride),
            f => f,
        }
    }
}

/// One record: its shape check, its literals, then its copies.
pub open spec fn copy_record(
    st: CopyRun,
    r: TransformTailRecord,
    src: Seq<u8>,
    unit: int,
    stride: int,
    allow_zero_literal: bool,
    allow_zero_copy: bool,
) -> CopyRun {
    match st {
        CopyRun::Running(o, c, p) => if (!allow_zero_literal && r.literal_count == 0) || (!allow_zero_copy
            && r.copy_count == 0) {
            CopyRun::Failed(o, TransformTailCopyError::UnobservedRecordShape)
        } else {
            copy_backs(
                copy_literals(st, r.literal_count as int, src, unit, stride),
                r.copy_count as int,
                r.back_distance as int,
                unit,
                stride,
            )
        },
        f => f,
    }
}

/// The first `k` records.
pub open spec fn copy_records(
    st: CopyRun,
    rs: Seq<TransformTailRecord>,
    k: int,
    src: Seq<u8>,
    unit: int,
    stride: int,
    azl: bool,
    azc: bool,
) -> CopyRun
    decreases k,
{
    if k <= 0 {
        st
    } else {
        copy_record(copy_records(st, rs, k - 1, src, unit, stride, azl, azc), rs[k - 1], src, unit, stride, azl, azc)
    }
}

/// A copy tail over `out`: zero stride and an overflowing start fail at
/// once; otherwise the records run from cursor `block_index * stride +
/// out_offset` and source position 0.
pub open spec fn spec_copy_tail(
    out: Seq<u8>,
    stride: int,
    block_index: int,
    out_offset: int,
    rs: Seq<TransformTailRecord>,
    src: Seq<u8>,
    unit: int,
    azl: bool,
    azc: bool,
) -> CopyRun {
    if stride == 0 {
        CopyRun::Failed(out, TransformTailCopyError::ZeroStride)
    } else if block_index * stride > usize::MAX || block_index * stride + out_offset > usize::MAX {
        CopyRun::Failed(out, TransformTailCopyError::ArithmeticOverflow)
    } else {
        copy_records(
            CopyRun::Running(out, block_index * stride + out_offset, 0),
            rs,
            rs.len() as int,
            src,
            unit,
            stride,
            azl,
            azc,
        )
    }
}

/// A copy tail's result against its spec: the output and the returned
/// source position or error.
pub open spec fn copy_result(fin: Seq<u8>, r: Result<usize, TransformTailCopyError>, run: CopyRun) -> bool {
    match run {
        CopyRun::Running(o, c, p) => fin == o && r == Ok::<usize, TransformTailCopyError>(p as usize),
        CopyRun::Failed(o, e) => fin == o && r == Err::<usize, TransformTailCopyError>(e),
    }
}

/// A running state's source position never exceeds the source.
pub open spec fn run_in_bounds(st: CopyRun, src_len: int) -> bool {
    match st {
        CopyRun::Running(o, c, p) => 0 <= p <= src_len && 0 <= c <= usize::MAX,
        _ => true,
    }
}

/// Emit `n` literal values.
fn emit_literals(
    out: &mut [u8],
    cursor: &mut usize,
    sp: &mut usize,
    n: u16,
    src: &[u8],
    unit: usize,
    stride: usize,
) -> (r: Result<(), TransformTailCopyError>)
    requires
        *old(sp) <= src@.len(),
        1 <= unit <= 8,
    ensures
        match copy_literals(
            CopyRun::Running(old(out)@, *old(cursor) as int, *old(sp) as int),
            n as int,
            src@,
            unit as int,
            stride as int,
        ) {
            CopyRun::Running(o, c, p) => r is Ok && final(out)@ == o && *final(cursor) == c && *final(sp) == p,
            CopyRun::Failed(o, e) => r == Err::<(), TransformTailCopyError>(e) && final(out)@ == o,
        },
{
    let ghost s0 = CopyRun::Running(out@, *cursor as int, *sp as int);
    let mut i: u16 = 0;
    while i < n
        invariant
            i <= n,
            1 <= unit <= 8,
            *sp <= src@.len(),
            s0 == CopyRun::Running(old(out)@, *old(cursor) as int, *old(sp) as int),
            copy_literals(s0, i as int, src@, unit as int, stride as int) == CopyRun::Running(
                out@,
                *cursor as int,
                *sp as int,
            ),
        decreases n - i,
    {
        let ghost st = CopyRun::Running(out@, *cursor as int, *sp as int);
        if *sp > usize::MAX - unit || *cursor > usize::MAX - unit {
            proof {
                lemma_literals_failed_stays(s0, i + 1, n as int, src@, unit as int, stride as int);
            }
            return Err(TransformTailCopyError::ArithmeticOverflow);
        }
        let se = *sp + unit;
        let ce = *cursor + unit;
        if se > src.len() {
            proof {
                lemma_literals_failed_stays(s0, i + 1, n as int, src@, unit as int, stride as int);
            }
            return Err(TransformTailCopyError::SourceTooSmall);
        }
        if ce > out.len() {
            proof {
                lemma_literals_failed_stays(s0, i + 1, n as int, src@, unit as int, stride as int);
            }
            return Err(TransformTailCopyError::OutputTooSmall);
        }
        write_bytes(out, *cursor, &src[*sp..se]);
        *sp = se;
        if *cursor > usize::MAX - stride {
            proof {
                lemma_literals_failed_stays(s0, i + 1, n as int, src@, unit as int, stride as int);
            }
            return Err(TransformTailCopyError::ArithmeticOverflow);
        }
        *cursor = *cursor + stride;
        i += 1;
    }
    Ok(())
}

/// Copy `n` values from `back` bytes behind the cursor.
pub(crate) fn emit_copies(
    out: &mut [u8],
    cursor: &mut usize,
    sp: usize,
    n: u16,
    back: usize,
    unit: usize,
    stride: usize,
) -> (r: Result<(), TransformTailCopyError>)
    requires
        1 <= unit <= 8,
    ensures
        match copy_backs(
            CopyRun::Running(old(out)@, *old(cursor) as int, sp as int),
            n as int,
            back as int,
            unit as int,
            stride as int,
        ) {
            CopyRun::Running(o, c, p) => r is Ok && final(out)@ == o && *final(cursor) == c && p == sp,
            CopyRun::Failed(o, e) => r == Err::<(), TransformTailCopyError>(e) && final(out)@ == o,
        },
{
    let ghost s0 = CopyRun::Running(out@, *cursor as int, sp as int);
    let mut i: u16 = 0;
    while i < n
        invariant
            i <= n,
            1 <= unit <= 8,
            s0 == CopyRun::Running(old(out)@, *old(cursor) as int, sp as int),
            copy_backs(s0, i as int, back as int, unit as int, stride as int) == CopyRun::Running(
                out@,
                *cursor as int,
                sp as int,
            ),
        decreases n - i,
    {
        if back == 0 || *cursor < back {
            proof {
                lemma_backs_failed_stays(s0, i + 1, n as int, back as int, unit as int, stride as int);
            }
            return Err(TransformTailCopyError::CopyBeforeOutput);
        }
        let s = *cursor - back;
        if s > usize::MAX - unit || *cursor > usize::MAX - unit {
            proof {
                lemma_backs_failed_stays(s0, i + 1, n as int, back as int, unit as int, stride as int);
            }
            return Err(TransformTailCopyError::ArithmeticOverflow);
        }
        if s + unit > out.len() {
            proof {
                lemma_backs_failed_stays(s0, i + 1, n as int, back as int, unit as int, stride as int);
            }
            return Err(TransformTailCopyError::CopyBeforeOutput);
        }
        let chunk = crate::bytes::copy_bytes(&out[s..s + unit]);
        if *cursor + unit > out.len() {
            proof {
                lemma_backs_failed_stays(s0, i + 1, n as int, back as int, unit as int, stride as int);
            }
            return Err(TransformTailCopyError::OutputTooSmall);
        }
        write_bytes(out, *cursor, chunk.as_slice());
        if *cursor > usize::MAX - stride {
            proof {
                lemma_backs_failed_stays(s0, i + 1, n as int, back as int, unit as int, stride as int);
            }
            return Err(TransformTailCopyError::ArithmeticOverflow);
        }
        *cursor = *cursor + stride;
        i += 1;
    }
    Ok(())
}

/// Once a tail has failed, later records leave it failed.
proof fn lemma_copy_failed_stays(
    st: CopyRun,
    rs: Seq<TransformTailRecord>,
    k1: int,
    k2: int,
    src: Seq<u8>,
    unit: int,
    stride: int,
    azl: bool,
    azc: bool,
)
    requires
        0 <= k1 <= k2,
        copy_records(st, rs, k1, src, unit, stride, azl, azc) is Failed,
    ensures
        copy_records(st, rs, k2, src, unit, stride, azl, azc) == copy_records(st, rs, k1, src, unit, stride, azl, azc),
    decreases k2 - k1,
{
    if k1 < k2 {
        lemma_copy_failed_stays(st, rs, k1, k2 - 1, src, unit, stride, azl, azc);
    }
}

/// Once literals have failed, more literals leave the state failed.
proof fn lemma_literals_failed_stays(st: CopyRun, n1: int, n2: int, src: Seq<u8>, unit: int, stride: int)
    requires
        0 <= n1 <= n2,
        copy_literals(st, n1, src, unit, stride) is Failed,
    ensures
        copy_literals(st, n2, src, unit, stride) == copy_literals(st, n1, src, unit, stride),
    decreases n2 - n1,
{
    if n1 < n2 {
        lemma_literals_failed_stays(st, n1, n2 - 1, src, unit, stride);
    }
}

/// Once copies have failed, more copies leave the state failed.
proof fn lemma_backs_failed_stays(st: CopyRun, n1: int, n2: int, back: int, unit: int, stride: int)
    requires
        0 <= n1 <= n2,
        copy_backs(st, n1, back, unit, stride) is Failed,
    ensures
        copy_backs(st, n2, back, unit, stride) == copy_backs(st, n1, back, unit, stride),
    decreases n2 - n1,
{
    if n1 < n2 {
        lemma_backs_failed_stays(st, n1, n2 - 1, back, unit, stride);
    }
}

/// Copies of a failed state leave it as it was.
proof fn lemma_backs_of_failed(st: CopyRun, n: int, back: int, unit: int, stride: int)
    requires
        st is Failed,
    ensures
        copy_backs(st, n, back, unit, stride) == st,
    decreases n,
{
    if n > 0 {
        lemma_backs_of_failed(st, n - 1, back, unit, stride);
    }
}

/// The shared copy-tail loop.
fn copy_units_into(
    out: &mut [u8],
    output_stride: usize,
    block_index: usize,
    out_offset: usize,
    records: &[TransformTailRecord],
    source: &[u8],
    unit: usize,
    azl: bool,
    azc: bool,
) -> (r: Result<usize, TransformTailCopyError>)
    requires
        1 <= unit <= 8,
    ensures
        copy_result(
            final(out)@,
            r,
            spec_copy_tail(
                old(out)@,
                output_stride as int,
                block_index as int,
                out_offset as int,
                records@,
                source@,
                unit as int,
                azl,
                azc,
            ),
        ),
{
    if output_stride == 0 {
        return Err(TransformTailCopyError::ZeroStride);
    }
    let start = match block_index.checked_mul(output_stride) {
        Some(x) => match x.checked_add(out_offset) {
            Some(y) => y,
            None => {
                return Err(TransformTailCopyError::ArithmeticOverflow);
            },
        },
        None => {
            return Err(TransformTailCopyError::ArithmeticOverflow);
        },
    };
    let mut cursor = start;
    let mut sp: usize = 0;
    let ghost st0 = CopyRun::Running(old(out)@, start as int, 0);
    let ghost whole = spec_copy_tail(
        old(out)@,
        output_stride as int,
        block_index as int,
        out_offset as int,
        records@,
        source@,
        unit as int,
        azl,
        azc,
    );
    assert(whole == copy_records(st0, records@, records@.len() as int, source@, unit as int, output_stride as int, azl, azc));
    let mut k: usize = 0;
    while k < records.len()
        invariant
            k <= records@.len(),
            1 <= unit <= 8,
            sp <= source@.len(),
            st0 == CopyRun::Running(old(out)@, start as int, 0),
            whole == spec_copy_tail(
                old(out)@,
                output_stride as int,
                block_index as int,
                out_offset as int,
                records@,
                source@,
                unit as int,
                azl,
                azc,
            ),
            whole == copy_records(st0, records@, records@.len() as int, source@, unit as int, output_stride as int, azl, azc),
            copy_records(st0, records@, k as int, source@, unit as int, output_stride as int, azl, azc)
                == CopyRun::Running(out@, cursor as int, sp as int),
        decreases records@.len() - k,
    {
        let rec = records[k];
        let ghost before = CopyRun::Running(out@, cursor as int, sp as int);
        if (!azl && rec.literal_count == 0) || (!azc && rec.copy_count == 0) {
            proof {
                lemma_copy_failed_stays(st0, records@, k + 1, records@.len() as int, source@, unit as int, output_stride as int, azl, azc);
            }
            return Err(TransformTailCopyError::UnobservedRecordShape);
        }
        match emit_literals(out, &mut cursor, &mut sp, rec.literal_count, source, unit, output_stride) {
            Ok(()) => {},
            Err(e) => {
                proof {
                    let lit = copy_literals(before, rec.literal_count as int, source@, unit as int, output_stride as int);
                    lemma_backs_of_failed(lit, rec.copy_count as int, rec.back_distance as int, unit as int, output_stride as int);
                    lemma_copy_failed_stays(st0, records@, k + 1, records@.len() as int, source@, unit as int, output_stride as int, azl, azc);
                }
                return Err(e);
            },
        }
        match emit_copies(out, &mut cursor, sp, rec.copy_count, rec.back_distance, unit, output_stride) {
            Ok(()) => {},
            Err(e) => {
                proof {
                    lemma_copy_failed_stays(st0, records@, k + 1, records@.len() as int, source@, unit as int, output_stride as int, azl, azc);
                }
                return Err(e);
            },
        }
        k += 1;
    }
    Ok(sp)
}

/// Apply the single-byte copy transform tail: literals move 1 byte(s)
/// per record unit from the source stream, copies clone 1 byte(s) from
/// `back_distance` bytes behind the cursor; the cursor advances by the output
/// stride after each value. Returns how many source bytes were consumed.
pub fn transform_tail_copy1_into(out: &mut [u8], spec: TransformTailCopy1Spec<'_>) -> (r: Result<
    usize,
    TransformTailCopyError,
>)
    ensures
        copy_result(
            final(out)@,
            r,
            spec_copy_tail(
                old(out)@,
                spec.output_stride as int,
                spec.block_index as int,
                spec.out_offset as int,
                spec.records@,
                spec.source@,
                1,
                true,
                true,
            ),
        ),
{
    copy_units_into(
        out,
        spec.output_stride,
        spec.block_index,
        spec.out_offset,
        spec.records,
        spec.source,
        1,
        true,
        true,
    )
}

/// Apply the two-byte copy transform tail: literals move 2 byte(s)
/// per record unit from the source stream, copies clone 2 byte(s) from
/// `back_distance` bytes behind the cursor; the cursor advances by the output
/// stride after each value. Returns how many source bytes were consumed. The observed call has nonzero literal and copy counts in every record, so
/// records with a zero count are rejected.
pub fn transform_tail_copy2_into(out: &mut [u8], spec: TransformTailCopy2Spec<'_>) -> (r: Result<
    usize,
    TransformTailCopyError,
>)
    ensures
        copy_result(
            final(out)@,
            r,
            spec_copy_tail(
                old(out)@,
                spec.output_stride as int,
                spec.block_index as int,
                spec.out_offset as int,
                spec.records@,
                spec.source@,
                2,
                false,
                false,
            ),
        ),
{
    copy_units_into(
        out,
        spec.output_stride,
        spec.block_index,
        spec.out_offset,
        spec.records,
        spec.source,
        2,
        false,
        false,
    )
}

/// Apply the three-byte copy transform tail: literals move 3 byte(s)
/// per record unit from the source stream, copies clone 3 byte(s) from
/// `back_distance` bytes behind the cursor; the cursor advances by the output
/// stride after each value. Returns how many source bytes were consumed.
pub fn transform_tail_copy3_into(out: &mut [u8], spec: TransformTailCopy3Spec<'_>) -> (r: Result<
    usize,
    TransformTailCopyError,
>)
    ensures
        copy_result(
            final(out)@,
            r,
            spec_copy_tail(
                old(out)@,
                spec.output_stride as int,
                spec.block_index as int,
                spec.out_offset as int,
                spec.records@,
                spec.source@,
                3,
                true,
                true,
            ),
        ),
{
    copy_units_into(
        out,
        spec.output_stride,
        spec.block_index,
        spec.out_offset,
        spec.records,
        spec.source,
        3,
        true,
        true,
    )
}

/// Apply the four-byte copy transform tail: literals move 4 byte(s)
/// per record unit from the source stream, copies clone 4 byte(s) from
/// `back_distance` bytes behind the cursor; the cursor advances by the output
/// stride after each value. Returns how many source bytes were consumed.
pub fn transform_tail_copy4_into(out: &mut [u8], spec: TransformTailCopy4Spec<'_>) -> (r: Result<
    usize,
    TransformTailCopyError,
>)
    ensures
        copy_result(
            final(out)@,
            r,
            spec_copy_tail(
                old(out)@,
                spec.output_stride as int,
                spec.block_index as int,
                spec.out_offset as int,
                spec.records@,
                spec.source@,
                4,
                true,
                true,
            ),
        ),
{
    copy_units_into(
        out,
        spec.output_stride,
        spec.block_index,
        spec.out_offset,
        spec.records,
        spec.source,
        4,
        true,
        true,
    )
}

/// Apply the six-byte copy transform tail: literals move 6 byte(s)
/// per record unit from the source stream, copies clone 6 byte(s) from
/// `back_distance` bytes behind the cursor; the cursor advances by the output
/// stride after each value. Returns how many source bytes were consumed. Records with a zero copy count are rejected.
pub fn transform_tail_copy6_into(out: &mut [u8], spec: TransformTailCopy6Spec<'_>) -> (r: Result<
    usize,
    TransformTailCopyError,
>)
    ensures
        copy_result(
            final(out)@,
            r,
            spec_copy_tail(
                old(out)@,
                spec.output_stride as int,
                spec.block_index as int,
                spec.out_offset as int,
                spec.records@,
                spec.source@,
                6,
                true,
                false,
            ),
        ),
{
    copy_units_into(
        out,
        spec.output_stride,
        spec.block_index,
        spec.out_offset,
        spec.records,
        spec.source,
        6,
        true,
        false,
    )
}

/// Apply the eight-byte copy transform tail: literals move 8 byte(s)
/// per record unit from the source stream, copies clone 8 byte(s) from
/// `back_distance` bytes behind the cursor; the cursor advances by the output
/// stride after each value. Returns how many source bytes were consumed. Records with a zero copy count are rejected.
pub fn transform_tail_copy8_into(out: &mut [u8], spec: TransformTailCopy8Spec<'_>) -> (r: Result<
    usize,
    TransformTailCopyError,
>)
    ensures
        copy_result(
            final(out)@,
            r,
            spec_copy_tail(
                old(out)@,
                spec.output_stride as int,
                spec.block_index as int,
                spec.out_offset as int,
                spec.records@,
                spec.source@,
                8,
                true,
                false,
            ),
        ),
{
    copy_units_into(
        out,
        spec.output_stride,
        spec.block_index,
        spec.out_offset,
        spec.records,
        spec.source,
        8,
        true,
        false,
    )
}

/// The state of a direct/delta tail: output, cursor, source-0 and source-1
/// positions, match-table position; or the output at the error and the error.
pub enum DeltaRun {
    Running(Seq<u8>, int, int, int, int),
    Failed(Seq<u8>, TransformTailDeltaError),
}

/// The delta-tail error a copy-step error stands for.
pub open spec fn delta_error(e: TransformTailCopyError) -> TransformTailDeltaError {
    match e {
        TransformTailCopyError::ZeroStride => TransformTailDeltaError::ZeroStride,
        TransformTailCopyError::OutputTooSmall => TransformTailDeltaError::OutputTooSmall,
        TransformTailCopyError::SourceTooSmall => TransformTailDeltaError::Source0TooSmall,
        TransformTailCopyError::CopyBeforeOutput => TransformTailDeltaError::CopyBeforeOutput,
        TransformTailCopyError::ArithmeticOverflow => TransformTailDeltaError::ArithmeticOverflow,
        TransformTailCopyError::UnobservedRecordShape => TransformTailDeltaError::UnobservedRecordShape,
    }
}

/// `w` bytes: each of `delta` added (mod 256) to the same byte of `base`.
pub open spec fn add_bytes(delta: Seq<u8>, base: Seq<u8>) -> Seq<u8> {
    Seq::new(delta.len(), |j: int| ((delta[j] + base[j]) % 256) as u8)
}

/// Two little-endian 16-bit lanes at `off`, added with wraparound.
pub open spec fn add_u16_lane(d: Seq<u8>, b: Seq<u8>, off: int) -> Seq<u8> {
    crate::bytes::u16_bytes(
        ((crate::bytes::spec_u16(d, off, false) + crate::bytes::spec_u16(b, off, false)) % 0x1_0000) as u16,
        false,
    )
}

/// Two little-endian 32-bit lanes at `off`, added with wraparound.
pub open spec fn add_u32_lane(d: Seq<u8>, b: Seq<u8>, off: int) -> Seq<u8> {
    crate::bytes::u32_bytes(
        ((crate::bytes::spec_u32(d, off, false) + crate::bytes::spec_u32(b, off, false)) % 0x1_0000_0000) as u32,
        false,
    )
}

/// `delta` added to `base` lane by lane: bytes (`lw` 1), two 16-bit lanes
/// (`lw` 2) or two 32-bit lanes (`lw` 4), each wrapping.
pub open spec fn add_lanes(delta: Seq<u8>, base: Seq<u8>, lw: int) -> Seq<u8> {
    if lw == 2 {
        add_u16_lane(delta, base, 0) + add_u16_lane(delta, base, 2)
    } else if lw == 4 {
        add_u32_lane(delta, base, 0) + add_u32_lane(delta, base, 4)
    } else {
        add_bytes(delta, base)
    }
}

/// Lane `k` of a matched signed u16 row: the earlier lane with its top
/// bit flipped when bit `k` of the match entry is set, plus the delta.
pub open spec fn signed_u16_lane(d: Seq<u8>, b: Seq<u8>, k: int, m: u32) -> Seq<u8> {
    let flip: u16 = if (m >> (k as u32)) & 1u32 != 0 { 0x8000 } else { 0 };
    let prev = (crate::bytes::spec_u16(b, 2 * k, false) as u16) ^ flip;
    crate::bytes::u16_bytes(((prev + crate::bytes::spec_u16(d, 2 * k, false)) % 0x1_0000) as u16, false)
}

/// Byte `k` of a matched signed byte row: the earlier byte complemented
/// when bit `k` of the match entry is set, plus the delta, plus that bit.
pub open spec fn signed_byte(d: Seq<u8>, b: Seq<u8>, k: int, m: u32) -> u8 {
    let bit: u32 = (m >> (k as u32)) & 1u32;
    let mask: u8 = if bit != 0 { 0xff } else { 0 };
    (((b[k] ^ mask) + d[k] + bit) % 256) as u8
}

/// How a matched literal combines its delta with the earlier output:
/// three signed u16 lanes (`lw` 6), three signed bytes (`lw` 3), or lane
/// by lane addition (see `add_lanes`).
pub open spec fn combine(delta: Seq<u8>, base: Seq<u8>, lw: int, m: u32) -> Seq<u8> {
    if lw == 6 {
        signed_u16_lane(delta, base, 0, m) + signed_u16_lane(delta, base, 1, m) + signed_u16_lane(delta, base, 2, m)
    } else if lw == 3 {
        seq![signed_byte(delta, base, 0, m), signed_byte(delta, base, 1, m), signed_byte(delta, base, 2, m)]
    } else {
        add_lanes(delta, base, lw)
    }
}

/// Whether the cursor's end-of-value overflow is checked only when the
/// value is written (the signed byte tail) rather than first.
pub open spec fn late_cursor_check(lw: int) -> bool {
    lw == 3
}

/// One literal of a direct/delta tail of width `w`. Match entry 0 copies
/// `w` source-0 bytes (in `seed` mode only for the first value; later ones
/// add the source-0 bytes to the previous vertex, `stride` bytes back);
/// another entry `m` adds `w` source-1 bytes to the output `(m >> 3) *
/// stride` bytes behind the cursor. Additions go lane by lane (`lw`). The
/// cursor then advances by the stride. (`w == 1` checks its bounds in the
/// one-byte order: no end-of-value overflow checks.)
pub open spec fn direct_literal(
    out: Seq<u8>,
    cur: int,
    p0: int,
    p1: int,
    mi: int,
    matches: Seq<u32>,
    src0: Seq<u8>,
    src1: Seq<u8>,
    w: int,
    lw: int,
    seed: bool,
    stride: int,
) -> DeltaRun {
    if mi >= matches.len() {
        DeltaRun::Failed(out, TransformTailDeltaError::MatchTableTooSmall)
    } else if w > 1 && !late_cursor_check(lw) && cur + w > usize::MAX {
        DeltaRun::Failed(out, TransformTailDeltaError::ArithmeticOverflow)
    } else {
        let m = matches[mi];
        let step = if m == 0 {
            if w > 1 && p0 + w > usize::MAX {
                DeltaRun::Failed(out, TransformTailDeltaError::ArithmeticOverflow)
            } else if p0 + w > src0.len() {
                DeltaRun::Failed(out, TransformTailDeltaError::Source0TooSmall)
            } else if seed && mi > 0 {
                if cur < stride {
                    DeltaRun::Failed(out, TransformTailDeltaError::MatchBeforeOutput)
                } else if w > 1 && cur - stride + w > usize::MAX {
                    DeltaRun::Failed(out, TransformTailDeltaError::ArithmeticOverflow)
                } else if cur - stride + w > out.len() {
                    DeltaRun::Failed(out, TransformTailDeltaError::MatchBeforeOutput)
                } else if cur + w > out.len() {
                    DeltaRun::Failed(out, TransformTailDeltaError::OutputTooSmall)
                } else {
                    DeltaRun::Running(
                        splice(
                            out,
                            cur,
                            add_lanes(src0.subrange(p0, p0 + w), out.subrange(cur - stride, cur - stride + w), lw),
                        ),
                        cur,
                        p0 + w,
                        p1,
                        mi,
                    )
                }
            } else if late_cursor_check(lw) && cur + w > usize::MAX {
                DeltaRun::Failed(out, TransformTailDeltaError::ArithmeticOverflow)
            } else if cur + w > out.len() {
                DeltaRun::Failed(out, TransformTailDeltaError::OutputTooSmall)
            } else {
                DeltaRun::Running(splice(out, cur, src0.subrange(p0, p0 + w)), cur, p0 + w, p1, mi)
            }
        } else {
            let dist = (m >> 3u32) as int * stride;
            if dist > usize::MAX {
                DeltaRun::Failed(out, TransformTailDeltaError::ArithmeticOverflow)
            } else if cur < dist {
                DeltaRun::Failed(out, TransformTailDeltaError::MatchBeforeOutput)
            } else if w > 1 && cur - dist + w > usize::MAX {
                DeltaRun::Failed(out, TransformTailDeltaError::ArithmeticOverflow)
            } else if cur - dist + w > out.len() {
                DeltaRun::Failed(out, TransformTailDeltaError::MatchBeforeOutput)
            } else if w > 1 && p1 + w > usize::MAX {
                DeltaRun::Failed(out, TransformTailDeltaError::ArithmeticOverflow)
            } else if p1 + w > src1.len() {
                DeltaRun::Failed(out, TransformTailDeltaError::Source1TooSmall)
            } else if late_cursor_check(lw) && cur + w > usize::MAX {
                DeltaRun::Failed(out, TransformTailDeltaError::ArithmeticOverflow)
            } else if cur + w > out.len() {
                DeltaRun::Failed(out, TransformTailDeltaError::OutputTooSmall)
            } else {
                DeltaRun::Running(
                    splice(out, cur, combine(src1.subrange(p1, p1 + w), out.subrange(cur - dist, cur - dist + w), lw, m)),
                    cur,
                    p0,
                    p1 + w,
                    mi,
                )
            }
        };
        match step {
            DeltaRun::Running(o, c, q0, q1, j) => if c + stride > usize::MAX {
                DeltaRun::Failed(o, TransformTailDeltaError::ArithmeticOverflow)
            } else {
                DeltaRun::Running(o, c + stride, q0, q1, j + 1)
            },
            f => f,
        }
    }
}

/// `n` literals of a direct/delta tail.
pub open spec fn direct_literals(
    st: DeltaRun,
    n: int,
    matches: Seq<u32>,
    src0: Seq<u8>,
    src1: Seq<u8>,
    w: int,
    lw: int,
    seed: bool,
    stride: int,
) -> DeltaRun
    decreases n,
{
    if n <= 0 {
        st
    } else {
        match direct_literals(st, n - 1, matches, src0, src1, w, lw, seed, stride) {
            DeltaRun::Running(o, c, p0, p1, mi) => direct_literal(o, c, p0, p1, mi, matches, src0, src1, w, lw, seed, stride),
            f => f,
        }
    }
}

/// The copies of a record in a delta tail, then the match-table accounting:
/// the copied values use match entries too, and the table must hold them.
pub open spec fn delta_copies(st: DeltaRun, r: TransformTailRecord, matches: Seq<u32>, w: int, stride: int) -> DeltaRun {
    match st {
        DeltaRun::Running(o, c, p0, p1, mi) => match copy_backs(
            CopyRun::Running(o, c, 0),
            r.copy_count as int,
            r.back_distance as int,
            w,
            stride,
        ) {
            CopyRun::Failed(o2, e) => DeltaRun::Failed(o2, delta_error(e)),
            CopyRun::Running(o2, c2, q) => if mi + r.copy_count > usize::MAX {
                DeltaRun::Failed(o2, TransformTailDeltaError::ArithmeticOverflow)
            } else if mi + r.copy_count > matches.len() {
                DeltaRun::Failed(o2, TransformTailDeltaError::MatchTableTooSmall)
            } else {
                DeltaRun::Running(o2, c2, p0, p1, mi + r.copy_count)
            },
        },
        f => f,
    }
}

/// The first `k` records of a direct/delta tail.
pub open spec fn direct_records(
    st: DeltaRun,
    rs: Seq<TransformTailRecord>,
    k: int,
    matches: Seq<u32>,
    src0: Seq<u8>,
    src1: Seq<u8>,
    w: int,
    lw: int,
    seed: bool,
    stride: int,
) -> DeltaRun
    decreases k,
{
    if k <= 0 {
        st
    } else {
        let prev = direct_records(st, rs, k - 1, matches, src0, src1, w, lw, seed, stride);
        delta_copies(
            direct_literals(prev, rs[k - 1].literal_count as int, matches, src0, src1, w, lw, seed, stride),
            rs[k - 1],
            matches,
            w,
            stride,
        )
    }
}

/// A direct/delta tail of width `w` over `out`.
pub open spec fn spec_direct_tail(
    out: Seq<u8>,
    stride: int,
    block_index: int,
    out_offset: int,
    rs: Seq<TransformTailRecord>,
    matches: Seq<u32>,
    src0: Seq<u8>,
    src1: Seq<u8>,
    w: int,
    lw: int,
    seed: bool,
) -> DeltaRun {
    if stride == 0 {
        DeltaRun::Failed(out, TransformTailDeltaError::ZeroStride)
    } else if block_index * stride > usize::MAX || block_index * stride + out_offset > usize::MAX {
        DeltaRun::Failed(out, TransformTailDeltaError::ArithmeticOverflow)
    } else {
        direct_records(
            DeltaRun::Running(out, block_index * stride + out_offset, 0, 0, 0),
            rs,
            rs.len() as int,
            matches,
            src0,
            src1,
            w,
            lw,
            seed,
            stride,
        )
    }
}

/// A direct/delta tail's result against its spec: the output and the
/// returned usage or error.
pub open spec fn direct_result(
    fin: Seq<u8>,
    r: Result<TransformTailDeltaUsage, TransformTailDeltaError>,
    run: DeltaRun,
) -> bool {
    match run {
        DeltaRun::Running(o, c, p0, p1, mi) => fin == o && r == Ok::<TransformTailDeltaUsage, TransformTailDeltaError>(
            TransformTailDeltaUsage {
                source0: p0 as usize,
                source1: p1 as usize,
                source2: 0,
                match_entries: mi as usize,
            },
        ),
        DeltaRun::Failed(o, e) => fin == o && r == Err::<TransformTailDeltaUsage, TransformTailDeltaError>(e),
    }
}

} // verus!
