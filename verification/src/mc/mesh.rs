//! TotK MeshCodec mesh-section framing (`FMSH`), the geometry container.
//!
//! A model `.mc` is `[MCPK header][BFRES frame: magicless zstd][mesh section]`.
//! When the BFRES has geometry, the bytes after the zstd frame (4-aligned) are
//! an `FMSH` block: a 34-byte header followed by a chunk stream that decodes to
//! the vertex/index buffers. This module parses that framing; it does not
//! decode the geometry.
//!
//! ## FMSH header (little-endian, 34 bytes)
//!
//! ```text
//! +0x00 'FMSH'
//! +0x04 u32 version (=1)
//! +0x08 u32 workspace size hint
//! +0x0C u32 compressed payload size (= bytes after the 34-byte header)
//! +0x10 u32 buffer A decoded size (the index buffer)
//! +0x14 u32 buffer B decoded size (the vertex buffer)
//! +0x18 u8  align A      +0x19 u8 align B
//! +0x1a ..  first chunk descriptor (8 bytes: u16 type/val + two u24 sizes)
//! ```
use vstd::prelude::*;

use super::codec::{decompress_first_frame, spec_first_frame, zstd_frame_decoded, zstd_magic};
use super::{spec_decompressed_size, McError, McFile};
use crate::bytes::{get_u16, get_u32, spec_u16, spec_u32};
use crate::msbt::text::{push_decimal, push_str_chars, spec_decimal, string_from_chars};

verus! {

/// FMSH header length; the chunk payload begins here.
pub const FMSH_HEADER_LEN: usize = 0x22;

/// The first chunk descriptor (inlined into the FMSH header at `+0x1a`).
#[derive(Debug, Clone, Copy, PartialEq, Eq, Structural)]
pub struct MeshChunk {
    /// Decoder selector (`u16 & 3`).
    pub kind: u8,
    /// Auxiliary value (`u16 >> 2`).
    pub val: u32,
    /// Compressed length of sub-stream A (u24).
    pub sub_a_size: u32,
    /// Compressed length of sub-stream B (u24).
    pub sub_b_size: u32,
}

/// A parsed FMSH mesh section (framing only; geometry not decoded).
#[derive(Debug, Clone, Copy, PartialEq, Eq, Structural)]
pub struct MeshSection {
    /// `bfres[0xEE] & 8`, the BFRES has-mesh external-flags bit.
    pub has_mesh_flag: bool,
    /// Offset of `FMSH` within the inner stream.
    pub fmsh_offset: usize,
    /// `+0x04` format version.
    pub version: u32,
    /// `+0x08` decoder workspace-size hint.
    pub workspace_hint: u32,
    /// `+0x0C` compressed payload size.
    pub compressed_size: u32,
    /// `+0x10` decoded buffer A size (index buffer).
    pub buf_a_size: u32,
    /// `+0x14` decoded buffer B size (vertex buffer).
    pub buf_b_size: u32,
    /// `+0x18` buffer A alignment.
    pub align_a: u8,
    /// `+0x19` buffer B alignment.
    pub align_b: u8,
    /// The first chunk descriptor (`+0x1a`).
    pub first_chunk: MeshChunk,
    /// Offset of the chunk payload (`fmsh_offset + 34`) within the inner stream.
    pub payload_offset: usize,
}

impl MeshSection {
    /// Total decoded geometry size (buffer A + buffer B).
    pub fn decoded_geometry_size(&self) -> (s: usize)
        requires
            self.buf_a_size + self.buf_b_size <= usize::MAX,
        ensures
            s == self.buf_a_size + self.buf_b_size,
    {
        self.buf_a_size as usize + self.buf_b_size as usize
    }
}

/// The BFRES has-mesh bit: bit 3 of byte `+0xEE`, false when the byte is absent.
pub open spec fn spec_has_mesh_flag(b: Seq<u8>) -> bool {
    b.len() > 0xEE && b[0xEE] & 8 != 0
}

/// The BFRES "has-mesh" external-flags bit: bit 3 of byte `+0xEE`.
pub fn has_mesh_flag(bfres: &[u8]) -> (r: bool)
    ensures
        r == spec_has_mesh_flag(bfres@),
{
    bfres.len() > 0xEE && bfres[0xEE] & 0x08 != 0
}

/// The little-endian 24-bit field at `off`.
pub open spec fn u24_at(b: Seq<u8>, off: int) -> u32 {
    (b[off] + b[off + 1] * 256 + b[off + 2] * 65536) as u32
}

/// `FMSH` as bytes.
pub open spec fn fmsh_magic() -> Seq<u8> {
    seq![0x46u8, 0x4Du8, 0x53u8, 0x48u8]
}

/// What parsing the framing yields: a section, no section, or a framing
/// error with its message.
pub enum MeshOutcome {
    Section(MeshSection),
    NoMesh,
    Framing(Seq<char>),
}

/// The section header at `o` of the stream `s`.
pub open spec fn spec_fmsh_header(s: Seq<u8>, o: int, flag: bool) -> MeshSection {
    let c = spec_u16(s, o + 0x1a, false) as u16;
    MeshSection {
        has_mesh_flag: flag,
        fmsh_offset: o as usize,
        version: spec_u32(s, o + 4, false) as u32,
        workspace_hint: spec_u32(s, o + 8, false) as u32,
        compressed_size: spec_u32(s, o + 12, false) as u32,
        buf_a_size: spec_u32(s, o + 16, false) as u32,
        buf_b_size: spec_u32(s, o + 20, false) as u32,
        align_a: s[o + 24],
        align_b: s[o + 25],
        first_chunk: MeshChunk {
            kind: (c & 3) as u8,
            val: (c >> 2u16) as u32,
            sub_a_size: u24_at(s, o + 0x1c),
            sub_b_size: u24_at(s, o + 0x1f),
        },
        payload_offset: (o + 0x22) as usize,
    }
}

/// The message for a payload that overruns the stream.
pub open spec fn overrun_message(cs: u32, payload: int, len: int) -> Seq<char> {
    "FMSH payload ("@ + spec_decimal(cs as nat) + " bytes @ "@ + spec_decimal(payload as nat) + ") overruns the "@
        + spec_decimal(len as nat) + "-byte stream"@
}

/// The message for sub-stream sizes that do not add up.
pub open spec fn sum_message(a: u32, b: u32, cs: u32) -> Seq<char> {
    "FMSH sub-stream sizes "@ + spec_decimal(a as nat) + "+"@ + spec_decimal(b as nat) + " != compressed_size "@
        + spec_decimal(cs as nat)
}

/// The framing after a BFRES frame of `frame_len` bytes: the FMSH block at
/// the next 4-aligned offset, none when there is no room for its header or
/// its magic is missing, and an error when its payload overruns the stream
/// or its two sub-stream sizes do not add up to the payload size.
pub open spec fn spec_fmsh(s: Seq<u8>, frame_len: int, flag: bool) -> MeshOutcome {
    let o = frame_len + (4 - frame_len % 4) % 4;
    if o + 0x22 > s.len() {
        MeshOutcome::NoMesh
    } else if s.subrange(o, o + 4) != fmsh_magic() {
        MeshOutcome::NoMesh
    } else {
        let h = spec_fmsh_header(s, o, flag);
        if o + 0x22 + h.compressed_size > s.len() {
            MeshOutcome::Framing(overrun_message(h.compressed_size, o + 0x22, s.len() as int))
        } else if h.first_chunk.sub_a_size + h.first_chunk.sub_b_size != h.compressed_size {
            MeshOutcome::Framing(sum_message(h.first_chunk.sub_a_size, h.first_chunk.sub_b_size, h.compressed_size))
        } else {
            MeshOutcome::Section(h)
        }
    }
}

/// What a found mesh section reports against the stream bytes: the `FMSH`
/// magic at its offset, the first 4-aligned offset at or after the BFRES
/// frame; its header fields from the little-endian words and bytes at
/// +0x04 (version), +0x08 (workspace hint), +0x0C (compressed size),
/// +0x10 and +0x14 (buffer sizes), +0x18 and +0x19 (alignments), the
/// first-chunk descriptor's sub-stream sizes from the 24-bit words at
/// +0x1C and +0x1F); the
/// chunk payload right after the 34-byte header and within the stream; and
/// the two sub-stream sizes adding up to the payload size.
pub open spec fn fmsh_framing_read(s: Seq<u8>, frame_len: int, sec: MeshSection) -> bool {
    let o = sec.fmsh_offset as int;
    &&& frame_len <= o < frame_len + 4
    &&& o % 4 == 0
    &&& o + 0x22 <= s.len()
    &&& s[o] == 0x46 && s[o + 1] == 0x4D && s[o + 2] == 0x53 && s[o + 3] == 0x48
    &&& sec.version == s[o + 4] + s[o + 5] * 0x100 + s[o + 6] * 0x10000 + s[o + 7] * 0x1000000
    &&& sec.workspace_hint == s[o + 8] + s[o + 9] * 0x100 + s[o + 10] * 0x10000 + s[o + 11] * 0x1000000
    &&& sec.compressed_size == s[o + 12] + s[o + 13] * 0x100 + s[o + 14] * 0x10000 + s[o + 15] * 0x1000000
    &&& sec.buf_a_size == s[o + 16] + s[o + 17] * 0x100 + s[o + 18] * 0x10000 + s[o + 19] * 0x1000000
    &&& sec.buf_b_size == s[o + 20] + s[o + 21] * 0x100 + s[o + 22] * 0x10000 + s[o + 23] * 0x1000000
    &&& sec.align_a == s[o + 24]
    &&& sec.align_b == s[o + 25]
    &&& sec.first_chunk.sub_a_size == s[o + 28] + s[o + 29] * 0x100 + s[o + 30] * 0x10000
    &&& sec.first_chunk.sub_b_size == s[o + 31] + s[o + 32] * 0x100 + s[o + 33] * 0x10000
    &&& sec.payload_offset == o + FMSH_HEADER_LEN
    &&& sec.payload_offset + sec.compressed_size <= s.len()
    &&& sec.first_chunk.sub_a_size + sec.first_chunk.sub_b_size == sec.compressed_size
}

/// A section the framing spec finds is framed as `fmsh_framing_read` says.
#[verifier::rlimit(30)]
proof fn lemma_fmsh_framing(s: Seq<u8>, frame_len: int, flag: bool)
    requires
        0 <= frame_len <= s.len(),
        s.len() <= usize::MAX,
    ensures
        spec_fmsh(s, frame_len, flag) matches MeshOutcome::Section(sec) ==> fmsh_framing_read(s, frame_len, sec),
{
    let o = frame_len + (4 - frame_len % 4) % 4;
    if spec_fmsh(s, frame_len, flag) is Section {
        assert(s.subrange(o, o + 4) == fmsh_magic());
        assert(s.subrange(o, o + 4)[0] == s[o]);
        assert(s.subrange(o, o + 4)[1] == s[o + 1]);
        assert(s.subrange(o, o + 4)[2] == s[o + 2]);
        assert(s.subrange(o, o + 4)[3] == s[o + 3]);
        assert(o % 4 == 0);
        let sec = spec_fmsh_header(s, o, flag);
        assert(sec.fmsh_offset == o);
        assert(frame_len <= o < frame_len + 4);
        assert(sec.compressed_size == s[o + 12] + s[o + 13] * 0x100 + s[o + 14] * 0x10000 + s[o + 15] * 0x1000000);
        assert(sec.payload_offset == o + FMSH_HEADER_LEN);
        assert(sec.payload_offset + sec.compressed_size <= s.len());
        assert(sec.first_chunk.sub_a_size + sec.first_chunk.sub_b_size == sec.compressed_size);
    }
}

/// A parse result as an outcome.
pub open spec fn mesh_result_view(r: Result<Option<MeshSection>, McError>) -> Option<MeshOutcome> {
    match r {
        Ok(Some(m)) => Some(MeshOutcome::Section(m)),
        Ok(None) => Some(MeshOutcome::NoMesh),
        Err(McError::MeshFraming(msg)) => Some(MeshOutcome::Framing(msg@)),
        Err(_) => None,
    }
}

/// Parse the FMSH framing that follows a decoded BFRES frame of `frame_len`
/// bytes in the inner stream (the frame's content decides the has-mesh flag).
pub fn parse_fmsh(stream: &[u8], bfres: &[u8], frame_len: usize) -> (r: Result<Option<MeshSection>, McError>)
    requires
        frame_len <= stream@.len(),
    ensures
        mesh_result_view(r) == Some(spec_fmsh(stream@, frame_len as int, spec_has_mesh_flag(bfres@))),
        r matches Ok(Some(sec)) ==> fmsh_framing_read(stream@, frame_len as int, sec),
{
    let flag = has_mesh_flag(bfres);
    let len = stream.len();
    let pad = (4 - frame_len % 4) % 4;
    if pad > len - frame_len || FMSH_HEADER_LEN > len - (frame_len + pad) {
        return Ok(None);
    }
    let o = frame_len + pad;
    if !crate::bytes::magic4_at(stream, o, 0x46, 0x4D, 0x53, 0x48) {
        return Ok(None);
    }
    let version = get_u32(stream, o + 4, false);
    let workspace_hint = get_u32(stream, o + 8, false);
    let compressed_size = get_u32(stream, o + 12, false);
    let buf_a_size = get_u32(stream, o + 16, false);
    let buf_b_size = get_u32(stream, o + 20, false);
    let align_a = stream[o + 24];
    let align_b = stream[o + 25];
    let c = get_u16(stream, o + 0x1a, false);
    let sub_a_size = stream[o + 0x1c] as u32 + stream[o + 0x1d] as u32 * 256 + stream[o + 0x1e] as u32 * 65536;
    let sub_b_size = stream[o + 0x1f] as u32 + stream[o + 0x20] as u32 * 256 + stream[o + 0x21] as u32 * 65536;
    let first_chunk = MeshChunk { kind: (c & 3) as u8, val: (c >> 2) as u32, sub_a_size, sub_b_size };
    let payload_offset = o + FMSH_HEADER_LEN;
    let h = MeshSection {
        has_mesh_flag: flag,
        fmsh_offset: o,
        version,
        workspace_hint,
        compressed_size,
        buf_a_size,
        buf_b_size,
        align_a,
        align_b,
        first_chunk,
        payload_offset,
    };
    assert(h == spec_fmsh_header(stream@, o as int, flag));
    if compressed_size as usize > len - payload_offset {
        let mut msg: Vec<char> = Vec::new();
        push_str_chars(&mut msg, "FMSH payload (");
        push_decimal(&mut msg, compressed_size as u64);
        push_str_chars(&mut msg, " bytes @ ");
        push_decimal(&mut msg, payload_offset as u64);
        push_str_chars(&mut msg, ") overruns the ");
        push_decimal(&mut msg, len as u64);
        push_str_chars(&mut msg, "-byte stream");
        assert(msg@ =~= overrun_message(compressed_size, payload_offset as int, len as int));
        return Err(McError::MeshFraming(string_from_chars(&msg)));
    }
    if sub_a_size as u64 + sub_b_size as u64 != compressed_size as u64 {
        let mut msg: Vec<char> = Vec::new();
        push_str_chars(&mut msg, "FMSH sub-stream sizes ");
        push_decimal(&mut msg, sub_a_size as u64);
        push_str_chars(&mut msg, "+");
        push_decimal(&mut msg, sub_b_size as u64);
        push_str_chars(&mut msg, " != compressed_size ");
        push_decimal(&mut msg, compressed_size as u64);
        assert(msg@ =~= sum_message(sub_a_size, sub_b_size, compressed_size));
        return Err(McError::MeshFraming(string_from_chars(&msg)));
    }
    proof {
        lemma_fmsh_framing(stream@, frame_len as int, flag);
    }
    Ok(Some(h))
}

/// Parse the FMSH mesh-section framing of a model `.mc`, if present:
/// decode the leading BFRES frame (to find where it ends and read its
/// has-mesh bit), then parse the framing after it. `Ok(None)` for a model
/// with no geometry.
pub fn read_mesh_section(mc: &McFile) -> (r: Result<Option<MeshSection>, McError>)
    requires
        mc.well_formed(),
    ensures
        ({
            let s = mc.raw@.skip(0x0C);
            match spec_first_frame(zstd_frame_decoded(zstd_magic() + s), spec_decompressed_size(mc.header.size_descriptor)) {
                None => r matches Err(McError::Decompress(_)),
                Some((bfres, n)) => n <= s.len() && mesh_result_view(r) == Some(spec_fmsh(s, n, spec_has_mesh_flag(bfres))),
            }
        }),
        r matches Ok(Some(sec)) ==> exists|n: int| 0 <= n <= mc.raw@.len() - 0x0C && #[trigger] fmsh_framing_read(
            mc.raw@.skip(0x0C),
            n,
            sec,
        ),
{
    let stream = mc.compressed_stream();
    let (bfres, frame_len) = match decompress_first_frame(stream, mc.decompressed_size()) {
        Ok(x) => x,
        Err(e) => {
            return Err(e);
        },
    };
    let r = parse_fmsh(stream, bfres.as_slice(), frame_len);
    proof {
        if r is Ok {
            if let Ok(Some(sec)) = r {
                assert(fmsh_framing_read(stream@, frame_len as int, sec));
            }
        }
    }
    r
}

} // verus!
