//! MC / MCPK (TotK MeshCodec) container: inspect, verbatim round-trip and
//! mesh-section framing.
//!
//! TotK ships model BFRES as `Model/*.bfres.mc`: a MeshCodec (`MCPK`)
//! container wrapping a magicless zstd stream. The leading frame is the BFRES
//! structure; the geometry buffers in the trailing mesh section use a custom
//! MeshCodec encoding, whose transport and transform stages are in
//! [`geometry`].
//!
//! ## Header (`MCPK`, little-endian)
//!
//! ```text
//! +0x00 u32 magic 'MCPK'
//! +0x04 u8  version           (1 across the TotK model corpus)
//! +0x05 u8  flags             (<= 1; the decoder rejects > 1)
//! +0x06 u16 reserved          (0)
//! +0x08 u32 size descriptor   -> decompressed_size = (d >> 5) << (d & 0xf)
//! +0x0C ..  magicless-zstd stream
//! ```
use vstd::prelude::*;

pub mod codec;
pub mod geometry;
pub mod mesh;

pub use codec::{compress_stream, decompress_first_frame};
pub use mesh::{has_mesh_flag, read_mesh_section, MeshChunk, MeshSection};

verus! {

/// The 4-byte MeshCodec magic (`MCPK`).
pub const MC_MAGIC: [u8; 4] = [0x4D, 0x43, 0x50, 0x4B];
/// MCPK header length; the compressed stream begins here.
pub const MC_HEADER_LEN: usize = 0x0C;

/// An error reading an MC container or its mesh section.
#[derive(Debug)]
pub enum McError {
    /// Buffer is smaller than the 12-byte header.
    TooSmall(usize),
    /// The 4-byte magic was not `MCPK`.
    BadMagic([u8; 4]),
    /// The flags byte was above 1.
    BadFlags(u8),
    /// The reserved field was not zero.
    BadReserved(u16),
    /// The size descriptor gave zero or an implausibly large size.
    BadSize { descriptor: u32, size: usize },
    /// The inner zstd stream did not decode.
    Decompress(String),
    /// The mesh section's framing was inconsistent.
    MeshFraming(String),
}

/// Decoded MCPK header fields.
#[derive(Debug, Clone, Copy, PartialEq, Eq, Structural)]
pub struct McpkHeader {
    /// Format version (`+0x04`; 1 in the TotK model corpus).
    pub version: u8,
    /// Flags (`+0x05`; `<= 1`).
    pub flags: u8,
    /// Raw `+0x08` size descriptor.
    pub size_descriptor: u32,
}

/// The decompressed size a descriptor declares: `(d >> 5) << (d & 0xf)`,
/// computed in `usize`.
pub open spec fn spec_decompressed_size(d: u32) -> usize {
    ((d >> 5u32) as usize) << ((d & 0xfu32) as usize)
}

impl McpkHeader {
    /// The decompressed (alignment-padded) size: `(d >> 5) << (d & 0xf)`.
    pub fn decompressed_size(&self) -> (s: usize)
        ensures
            s == spec_decompressed_size(self.size_descriptor),
    {
        let d = self.size_descriptor;
        assert(d & 0xf < 16) by (bit_vector);
        let shift = (d & 0xf) as usize;
        ((self.size_descriptor >> 5) as usize) << shift
    }

    /// The alignment shift encoded in the low nibble (output is padded to
    /// `1 << shift`).
    pub fn alignment_shift(&self) -> (s: u32)
        ensures
            s == self.size_descriptor & 0xf,
            s < 16,
    {
        let d = self.size_descriptor;
        assert(d & 0xf < 16) by (bit_vector);
        d & 0xf
    }
}

/// A parsed MC (`MCPK`) container. Keeps the original bytes so an
/// unmodified file re-emits byte-identically via [`write_mc`]; the inner
/// zstd stream is not decompressed here.
#[derive(Debug, Clone)]
pub struct McFile {
    /// The parsed header.
    pub header: McpkHeader,
    /// The original file bytes.
    pub raw: Vec<u8>,
}

impl McFile {
    /// A container holds at least its header.
    pub open spec fn well_formed(&self) -> bool {
        self.raw@.len() >= 0x0C
    }

    /// The original bytes captured at parse time.
    pub fn raw(&self) -> (r: &[u8])
        ensures
            r@ == self.raw@,
    {
        self.raw.as_slice()
    }

    /// The (still-compressed) inner stream: everything after the header.
    pub fn compressed_stream(&self) -> (r: &[u8])
        requires
            self.well_formed(),
        ensures
            r@ == self.raw@.skip(0x0C),
    {
        let s = &self.raw.as_slice()[MC_HEADER_LEN..self.raw.len()];
        assert(s@ =~= self.raw@.skip(0x0C));
        s
    }

    /// The decompressed size declared by the header.
    pub fn decompressed_size(&self) -> (s: usize)
        ensures
            s == spec_decompressed_size(self.header.size_descriptor),
    {
        self.header.decompressed_size()
    }
}

/// `MCPK` as bytes.
pub open spec fn mc_magic() -> Seq<u8> {
    seq![0x4Du8, 0x43u8, 0x50u8, 0x4Bu8]
}

/// What a reading of an MC container yields: the header, or the error's
/// kind and fields.
pub enum McFault {
    TooSmall(int),
    BadMagic(Seq<u8>),
    BadFlags(u8),
    BadReserved(u16),
    BadSize { descriptor: u32, size: int },
}

/// The header `b` encodes, or the first check it fails: the magic, the flags
/// (at most 1), the reserved field (zero), and the declared size (nonzero and
/// at most 4096 times the file length, saturating).
pub open spec fn spec_read_mc(b: Seq<u8>) -> Result<McpkHeader, McFault> {
    if b.len() < 0x0C {
        Err(McFault::TooSmall(b.len() as int))
    } else if b.subrange(0, 4) != mc_magic() {
        Err(McFault::BadMagic(b.subrange(0, 4)))
    } else if b[5] > 1 {
        Err(McFault::BadFlags(b[5]))
    } else if b[6] + b[7] * 256 != 0 {
        Err(McFault::BadReserved((b[6] + b[7] * 256) as u16))
    } else {
        let d = crate::bytes::spec_u32(b, 8, false) as u32;
        let size = spec_decompressed_size(d);
        let cap: int = if b.len() * 4096 > usize::MAX { usize::MAX as int } else { (b.len() * 4096) as int };
        if size == 0 || size > cap {
            Err(McFault::BadSize { descriptor: d, size: size as int })
        } else {
            Ok(McpkHeader { version: b[4], flags: b[5], size_descriptor: d })
        }
    }
}

impl McError {
    /// The reading fault this error reports, for the errors a header read gives.
    pub open spec fn fault(&self) -> Option<McFault> {
        match self {
            McError::TooSmall(n) => Some(McFault::TooSmall(*n as int)),
            McError::BadMagic(m) => Some(McFault::BadMagic(m@)),
            McError::BadFlags(f) => Some(McFault::BadFlags(*f)),
            McError::BadReserved(r) => Some(McFault::BadReserved(*r)),
            McError::BadSize { descriptor, size } => Some(McFault::BadSize { descriptor: *descriptor, size: *size as int }),
            _ => None,
        }
    }
}

/// Parse an MC (`MCPK`) container header, keeping the original bytes for the
/// verbatim [`write_mc`] round-trip.
pub fn read_mc(data: &[u8]) -> (r: Result<McFile, McError>)
    ensures
        match r {
            Ok(f) => spec_read_mc(data@) == Ok::<McpkHeader, McFault>(f.header) && f.raw@ == data@ && f.well_formed(),
            Err(e) => spec_read_mc(data@) is Err && e.fault() == Some(spec_read_mc(data@)->Err_0),
        },
{
    let len = data.len();
    if len < MC_HEADER_LEN {
        return Err(McError::TooSmall(len));
    }
    let m = [data[0], data[1], data[2], data[3]];
    proof {
        assert(m@ =~= data@.subrange(0, 4));
    }
    if !(m[0] == 0x4D && m[1] == 0x43 && m[2] == 0x50 && m[3] == 0x4B) {
        proof {
            if data@.subrange(0, 4) == mc_magic() {
                assert(m@[0] == 0x4D && m@[1] == 0x43 && m@[2] == 0x50 && m@[3] == 0x4B);
            }
        }
        return Err(McError::BadMagic(m));
    }
    proof {
        assert(data@.subrange(0, 4) =~= mc_magic());
    }
    let version = data[4];
    let flags = data[5];
    if flags > 1 {
        return Err(McError::BadFlags(flags));
    }
    let reserved = crate::bytes::get_u16(data, 6, false);
    if reserved != 0 {
        return Err(McError::BadReserved(reserved));
    }
    let size_descriptor = crate::bytes::get_u32(data, 8, false);
    let header = McpkHeader { version, flags, size_descriptor };
    let size = header.decompressed_size();
    let cap: usize = if len > usize::MAX / 4096 {
        usize::MAX
    } else {
        len * 4096
    };
    if size == 0 || size > cap {
        return Err(McError::BadSize { descriptor: size_descriptor, size });
    }
    Ok(McFile { header, raw: crate::bytes::copy_bytes(data) })
}

/// Serialize an MC container verbatim: byte-identical for an unmodified file.
pub fn write_mc(mc: &McFile) -> (r: Vec<u8>)
    ensures
        r@ == mc.raw@,
{
    crate::bytes::copy_bytes(mc.raw.as_slice())
}

/// `1 << shift`, the unit a descriptor counts in.
pub open spec fn shift_unit(shift: u32) -> int {
    (1usize << (shift as usize)) as int
}

/// The size descriptor for an output of `size` bytes padded to `1 << shift`:
/// the padded size in units of `1 << shift`, shifted up by 5, with the shift
/// in the low nibble.
pub fn size_descriptor(size: usize, shift: u32) -> (d: u32)
    requires
        shift < 16,
        (size + shift_unit(shift) - 1) / shift_unit(shift) < 0x800_0000,
    ensures
        d & 0xf == shift,
        d >> 5 == (size + shift_unit(shift) - 1) / shift_unit(shift),
{
    let unit: usize = 1usize << (shift as usize);
    assert(unit >= 1) by (bit_vector)
        requires
            unit == 1usize << (shift as usize),
            shift < 16,
    ;
    let q: usize = size / unit;
    let r: usize = size % unit;
    assert(q < usize::MAX || r == 0) by (nonlinear_arith)
        requires
            unit >= 1,
            q == size / unit,
            r == size % unit,
            size <= usize::MAX,
    ;
    let units: usize = if r != 0 {
        q + 1
    } else {
        q
    };
    assert(units == (size as int + unit - 1) / (unit as int)) by (nonlinear_arith)
        requires
            unit >= 1,
            q == size / unit,
            r == size % unit,
            units == q + if r != 0 { 1int } else { 0int },
    ;
    let u = units as u32;
    let d = (u << 5u32) | shift;
    assert(d & 0xf == shift && d >> 5 == u) by (bit_vector)
        requires
            d == (u << 5u32) | shift,
            u < 0x800_0000,
            shift < 16,
    ;
    d
}

} // verus!
