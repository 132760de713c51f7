//! NSO (Nintendo Switch Object) executable read + segment decompression.
//!
//! NSO is the format of a Switch game's `exefs/main` (and `subsdk*`, `rtld`,
//! `sdk`) module. Its three segments, `.text`, `.rodata` and `.data`, are each
//! optionally LZ4-block-compressed (the per-segment flag in the header).
//! Reading is the only operation; the LZ4 codec is the `lz4_flex` crate
//! (block API).
//!
//! ## Header (`NSO0`, little-endian, 0x100 bytes)
//!
//! ```text
//! 0x00 char[4] magic "NSO0"
//! 0x04 u32     version (0)
//! 0x08 u32     reserved
//! 0x0C u32     flags         (bit0 .text / bit1 .rodata / bit2 .data compressed)
//! 0x10 Segment .text         { fileOffset u32, memoryOffset u32, decompressedSize u32 }
//! 0x20 Segment .rodata
//! 0x30 Segment .data
//! 0x60 u32     .text   compressedSize
//! 0x64 u32     .rodata compressedSize
//! 0x68 u32     .data   compressedSize
//! ```
use vstd::prelude::*;

use crate::bytes::{copy_bytes, get_u32, spec_u32, str_equal};

verus! {

/// The 4-byte NSO magic (`NSO0`).
pub const NSO_MAGIC: [u8; 4] = [0x4E, 0x53, 0x4F, 0x30];

/// NSO header length.
pub const NSO_HEADER_LEN: usize = 0x100;

/// An error reading an NSO module.
#[derive(Debug)]
pub enum NsoError {
    /// Buffer is smaller than the fixed 0x100-byte header.
    TooSmall(usize),
    /// The 4-byte magic was not `NSO0`.
    BadMagic([u8; 4]),
    /// A segment's compressed range ran past the end of the file.
    SegmentOutOfRange { seg: &'static str, off: usize, len: usize, file_len: usize },
    /// LZ4 block decompression of a segment failed.
    Lz4 { seg: &'static str, msg: String },
    /// A segment decompressed to a different size than the header declared.
    SizeMismatch { seg: &'static str, got: usize, want: usize },
}

/// An [`NsoError`] as a value (the LZ4 message text left out).
pub enum NsoFault {
    TooSmall(int),
    BadMagic(Seq<u8>),
    SegmentOutOfRange { seg: Seq<char>, off: int, len: int, file_len: int },
    Lz4 { seg: Seq<char> },
    SizeMismatch { seg: Seq<char>, got: int, want: int },
}

impl View for NsoError {
    type V = NsoFault;

    open spec fn view(&self) -> NsoFault {
        match self {
            NsoError::TooSmall(n) => NsoFault::TooSmall(*n as int),
            NsoError::BadMagic(m) => NsoFault::BadMagic(m@),
            NsoError::SegmentOutOfRange { seg, off, len, file_len } => NsoFault::SegmentOutOfRange {
                seg: seg@,
                off: *off as int,
                len: *len as int,
                file_len: *file_len as int,
            },
            NsoError::Lz4 { seg, msg } => NsoFault::Lz4 { seg: seg@ },
            NsoError::SizeMismatch { seg, got, want } => NsoFault::SizeMismatch {
                seg: seg@,
                got: *got as int,
                want: *want as int,
            },
        }
    }
}

/// One NSO segment header (`.text` / `.rodata` / `.data`).
#[derive(Debug, Clone, Copy)]
pub struct Segment {
    /// Offset of the segment's stored bytes in the file.
    pub file_offset: u32,
    /// Load offset in memory.
    pub memory_offset: u32,
    /// Size after inflation.
    pub decompressed_size: u32,
    /// Size of the stored bytes.
    pub compressed_size: u32,
    /// Whether the stored bytes are LZ4-compressed.
    pub is_compressed: bool,
}

/// A parsed NSO module with its three segments inflated.
#[derive(Debug, Clone)]
pub struct NsoFile {
    /// Header version.
    pub version: u32,
    /// Header flags.
    pub flags: u32,
    /// `.text` header.
    pub text: Segment,
    /// `.rodata` header.
    pub rodata: Segment,
    /// `.data` header.
    pub data: Segment,
    /// Inflated `.text` bytes.
    pub text_bytes: Vec<u8>,
    /// Inflated `.rodata` bytes.
    pub rodata_bytes: Vec<u8>,
    /// Inflated `.data` bytes.
    pub data_bytes: Vec<u8>,
}

/// What `lz4_flex::block::decompress(input, min_size)` returns: the
/// decompressed bytes, or `None` for an error.
pub uninterp spec fn lz4_block_decompressed(input: Seq<u8>, min_size: usize) -> Option<Seq<u8>>;

/// LZ4-decompress one block into at most `min_size` bytes.
///
/// Calls `lz4_flex::block::decompress`. Its (safe-decode) source allocates
/// `min_size` zero bytes, decodes into them with bounds checks that return
/// errors, and truncates to the decoded length; the contract claims that the
/// result is the named function of the input and the size, and that a
/// successful result holds at most `min_size` bytes. The error is handed back
/// as its message; nothing is stated of the message text.
#[verifier::external_body]
fn lz4_decompress(input: &[u8], min_size: usize) -> (r: Result<Vec<u8>, String>)
    ensures
        match r {
            Ok(v) => lz4_block_decompressed(input@, min_size) == Some(v@) && v@.len() <= min_size,
            Err(_) => lz4_block_decompressed(input@, min_size) is None,
        },
{
    lz4_flex::block::decompress(input, min_size).map_err(|e| e.to_string())
}

/// The little-endian 32-bit field at `off`.
pub open spec fn nso_u32(b: Seq<u8>, off: int) -> u32 {
    spec_u32(b, off, false) as u32
}

/// The segment header whose fields sit at `hoff` (and compressed size at
/// `coff`), compressed when flag bit `bit` is set.
pub open spec fn spec_segment(b: Seq<u8>, hoff: int, coff: int, bit: u32, flags: u32) -> Segment {
    Segment {
        file_offset: nso_u32(b, hoff),
        memory_offset: nso_u32(b, hoff + 4),
        decompressed_size: nso_u32(b, hoff + 8),
        compressed_size: nso_u32(b, coff),
        is_compressed: flags & (1u32 << bit) != 0,
    }
}

/// What follows decompression: the result is kept when it has the declared size.
pub open spec fn spec_check_inflated(out: Seq<u8>, want: int, seg: Seq<char>) -> Result<Seq<u8>, NsoFault> {
    if out.len() != want {
        Err(NsoFault::SizeMismatch { seg, got: out.len() as int, want })
    } else {
        Ok(out)
    }
}

/// The inflated bytes of segment `s` of file `b`, or the fault.
pub open spec fn spec_inflate(b: Seq<u8>, s: Segment, seg: Seq<char>) -> Result<Seq<u8>, NsoFault> {
    let off = s.file_offset as int;
    let clen = s.compressed_size as int;
    let dlen = s.decompressed_size as usize;
    if off + clen > b.len() {
        Err(NsoFault::SegmentOutOfRange { seg, off, len: clen, file_len: b.len() as int })
    } else if !s.is_compressed {
        Ok(b.subrange(off, off + clen))
    } else if dlen == 0 {
        Ok(Seq::empty())
    } else {
        match lz4_block_decompressed(b.subrange(off, off + clen), dlen) {
            None => Err(NsoFault::Lz4 { seg }),
            Some(out) => spec_check_inflated(out, dlen as int, seg),
        }
    }
}

/// A parsed module as a value: version, flags, the three segment headers and
/// the three inflated segments.
pub type NsoModel = (u32, u32, Segment, Segment, Segment, Seq<u8>, Seq<u8>, Seq<u8>);

/// The module `b` encodes, or the first fault a bounds-checked reading meets.
pub open spec fn spec_parse_nso(b: Seq<u8>) -> Result<NsoModel, NsoFault> {
    if b.len() < 0x100 {
        Err(NsoFault::TooSmall(b.len() as int))
    } else if b.subrange(0, 4) != seq![0x4Eu8, 0x53u8, 0x4Fu8, 0x30u8] {
        Err(NsoFault::BadMagic(b.subrange(0, 4)))
    } else {
        let flags = nso_u32(b, 0x0C);
        let text = spec_segment(b, 0x10, 0x60, 0, flags);
        let rodata = spec_segment(b, 0x20, 0x64, 1, flags);
        let data = spec_segment(b, 0x30, 0x68, 2, flags);
        match spec_inflate(b, text, "text"@) {
            Err(e) => Err(e),
            Ok(t) => match spec_inflate(b, rodata, "rodata"@) {
                Err(e) => Err(e),
                Ok(r) => match spec_inflate(b, data, "data"@) {
                    Err(e) => Err(e),
                    Ok(d) => Ok((nso_u32(b, 0x04), flags, text, rodata, data, t, r, d)),
                },
            },
        }
    }
}

/// The little-endian 32-bit word whose first byte is `b[off]`.
pub open spec fn le_word(b: Seq<u8>, off: int) -> int {
    b[off] + b[off + 1] * 0x100 + b[off + 2] * 0x10000 + b[off + 3] * 0x1000000
}

/// What a successful read reports, field by field, against the header
/// bytes: version at 0x04, flags at 0x0C; each segment's file offset,
/// memory offset and decompressed size at its header (+0, +4, +8: text at
/// 0x10, rodata at 0x20, data at 0x30), its compressed size at 0x60, 0x64,
/// 0x68, compressed exactly when its flag bit (0, 1, 2) is set; an
/// uncompressed segment's bytes are the stored bytes, and a compressed
/// one's have the declared size.
pub open spec fn nso_fields_read(b: Seq<u8>, f: NsoFile) -> bool {
    &&& b.len() >= 0x100
    &&& f.version == le_word(b, 0x04)
    &&& f.flags == le_word(b, 0x0C)
    &&& segment_read(b, f.text, f.text_bytes@, 0x10, 0x60, 1, f.flags)
    &&& segment_read(b, f.rodata, f.rodata_bytes@, 0x20, 0x64, 2, f.flags)
    &&& segment_read(b, f.data, f.data_bytes@, 0x30, 0x68, 4, f.flags)
}

/// One segment of a successful read, against the header bytes (see
/// `nso_fields_read`); `mask` is its flag bit.
pub open spec fn segment_read(b: Seq<u8>, s: Segment, bytes: Seq<u8>, hoff: int, coff: int, mask: u32, flags: u32) -> bool {
    &&& s.file_offset == le_word(b, hoff)
    &&& s.memory_offset == le_word(b, hoff + 4)
    &&& s.decompressed_size == le_word(b, hoff + 8)
    &&& s.compressed_size == le_word(b, coff)
    &&& s.is_compressed == (flags & mask != 0)
    &&& s.file_offset + s.compressed_size <= b.len()
    &&& !s.is_compressed ==> bytes == b.subrange(s.file_offset as int, s.file_offset + s.compressed_size)
    &&& s.is_compressed ==> bytes.len() == s.decompressed_size
}

/// A parsed module as a value.
pub open spec fn nso_view(f: NsoFile) -> NsoModel {
    (f.version, f.flags, f.text, f.rodata, f.data, f.text_bytes@, f.rodata_bytes@, f.data_bytes@)
}

/// A parse result as a value.
pub open spec fn nso_result_view(r: Result<NsoFile, NsoError>) -> Result<NsoModel, NsoFault> {
    match r {
        Ok(f) => Ok(nso_view(f)),
        Err(e) => Err(e@),
    }
}

impl NsoFile {
    /// The inflated bytes of a named segment (`"text"` / `"rodata"` / `"data"`).
    pub fn segment_bytes(&self, name: &str) -> (r: Option<&[u8]>)
        ensures
            name@ == "text"@ ==> (r matches Some(s) && s@ == self.text_bytes@),
            name@ == "rodata"@ ==> (r matches Some(s) && s@ == self.rodata_bytes@),
            name@ == "data"@ ==> (r matches Some(s) && s@ == self.data_bytes@),
            name@ != "text"@ && name@ != "rodata"@ && name@ != "data"@ ==> r is None,
    {
        proof {
            reveal_strlit("text");
            reveal_strlit("rodata");
            reveal_strlit("data");
            assert("text"@.len() == 4 && "rodata"@.len() == 6 && "data"@.len() == 4);
            assert("text"@[0] != "data"@[0]);
        }
        if str_equal(name, "text") {
            Some(self.text_bytes.as_slice())
        } else if str_equal(name, "rodata") {
            Some(self.rodata_bytes.as_slice())
        } else if str_equal(name, "data") {
            Some(self.data_bytes.as_slice())
        } else {
            None
        }
    }
}

/// Keep a decompressed segment when it has the size the header declared.
pub fn check_inflated(out: Vec<u8>, want: usize, seg: &'static str) -> (r: Result<Vec<u8>, NsoError>)
    ensures
        match r {
            Ok(v) => spec_check_inflated(out@, want as int, seg@) == Ok::<Seq<u8>, NsoFault>(v@),
            Err(e) => spec_check_inflated(out@, want as int, seg@) == Err::<Seq<u8>, NsoFault>(e@),
        },
{
    if out.len() != want {
        return Err(NsoError::SizeMismatch { seg, got: out.len(), want });
    }
    Ok(out)
}

/// Inflate one segment: slice out its compressed bytes, then LZ4-decompress
/// (when the per-segment flag is set) to the declared size, else copy verbatim.
fn inflate_segment(data: &[u8], seg: &Segment, name: &'static str) -> (r: Result<Vec<u8>, NsoError>)
    ensures
        match r {
            Ok(v) => spec_inflate(data@, *seg, name@) == Ok::<Seq<u8>, NsoFault>(v@),
            Err(e) => spec_inflate(data@, *seg, name@) == Err::<Seq<u8>, NsoFault>(e@),
        },
{
    let off = seg.file_offset as usize;
    let clen = seg.compressed_size as usize;
    let dlen = seg.decompressed_size as usize;
    if off > data.len() || clen > data.len() - off {
        return Err(NsoError::SegmentOutOfRange { seg: name, off, len: clen, file_len: data.len() });
    }
    let raw = &data[off..off + clen];
    if !seg.is_compressed {
        return Ok(copy_bytes(raw));
    }
    if dlen == 0 {
        return Ok(Vec::new());
    }
    match lz4_decompress(raw, dlen) {
        Ok(out) => check_inflated(out, dlen, name),
        Err(msg) => Err(NsoError::Lz4 { seg: name, msg }),
    }
}

/// Parse an NSO module and inflate its three segments.
pub fn read_nso(data: &[u8]) -> (r: Result<NsoFile, NsoError>)
    ensures
        nso_result_view(r) == spec_parse_nso(data@),
        r matches Ok(f) ==> nso_fields_read(data@, f),
{
    if data.len() < NSO_HEADER_LEN {
        return Err(NsoError::TooSmall(data.len()));
    }
    let m = [data[0], data[1], data[2], data[3]];
    proof {
        assert(m@ =~= data@.subrange(0, 4));
    }
    if !(m[0] == 0x4E && m[1] == 0x53 && m[2] == 0x4F && m[3] == 0x30) {
        proof {
            if data@.subrange(0, 4) == seq![0x4Eu8, 0x53u8, 0x4Fu8, 0x30u8] {
                assert(m@[0] == 0x4E && m@[1] == 0x53 && m@[2] == 0x4F && m@[3] == 0x30);
            }
        }
        return Err(NsoError::BadMagic(m));
    }
    proof {
        assert(data@.subrange(0, 4) =~= seq![0x4Eu8, 0x53u8, 0x4Fu8, 0x30u8]);
    }
    let version = get_u32(data, 0x04, false);
    let flags = get_u32(data, 0x0C, false);
    let text = read_segment(data, 0x10, 0x60, 0, flags);
    let rodata = read_segment(data, 0x20, 0x64, 1, flags);
    let data_seg = read_segment(data, 0x30, 0x68, 2, flags);
    let text_bytes = inflate_segment(data, &text, "text")?;
    let rodata_bytes = inflate_segment(data, &rodata, "rodata")?;
    let data_bytes = inflate_segment(data, &data_seg, "data")?;
    proof {
        assert((1u32 << 0u32) == 1 && (1u32 << 1u32) == 2 && (1u32 << 2u32) == 4) by (bit_vector);
    }
    Ok(NsoFile { version, flags, text, rodata, data: data_seg, text_bytes, rodata_bytes, data_bytes })
}

/// Read the segment header at `hoff` (compressed size at `coff`).
fn read_segment(data: &[u8], hoff: usize, coff: usize, bit: u32, flags: u32) -> (s: Segment)
    requires
        hoff + 12 <= data@.len(),
        coff + 4 <= data@.len(),
        bit < 32,
    ensures
        s == spec_segment(data@, hoff as int, coff as int, bit, flags),
{
    let n = data.len();
    Segment {
        file_offset: get_u32(data, hoff, false),
        memory_offset: get_u32(data, hoff + 4, false),
        decompressed_size: get_u32(data, hoff + 8, false),
        compressed_size: get_u32(data, coff, false),
        is_compressed: (flags & (1u32 << bit)) != 0,
    }
}

} // verus!
