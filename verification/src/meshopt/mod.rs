//! The meshoptimizer 0.15 stream codecs: the vertex buffer codec (`0xa0`),
//! the triangle-list index buffer codec (`0xe0`, versions 0 and 1) and the
//! index sequence codec (`0xd0`). Indices are little-endian `u16` or `u32`.
use vstd::prelude::*;
use crate::bytes::spec_u16;
use crate::bytes::spec_u32;
use crate::bytes::u16_bytes;
use crate::bytes::u32_bytes;

pub mod index;
pub mod index_encode;
pub mod index_laws;
pub mod message;
pub mod sequence;
pub mod split_laws;
pub mod vbyte;
pub mod vertex;
pub mod vertex_laws;

pub use index::{decode_index_buffer, decode_index_buffer_split, decode_index_buffer_split_aux_table, decode_index_buffer_split_used};
pub use index_encode::encode_index_buffer;
pub use sequence::{decode_index_sequence, encode_index_sequence};
pub use vertex::{decode_vertex_buffer, encode_vertex_buffer};

use crate::meshopt::message::{describe, message};

verus! {

/// A caller argument that breaks a codec's contract.
#[derive(Debug, Clone, Copy, PartialEq, Eq, Structural)]
pub enum MeshoptArgument {
    /// `index_size` was not 2 or 4.
    IndexSize(usize),
    /// `index_count` was not a multiple of 3.
    IndexCount(usize),
    /// `vertex_size` was zero, above 256 or not a multiple of 4.
    VertexSize(usize),
    /// The index buffer format version was above 1.
    IndexVersion(u8),
    /// The index sequence format version was above 1.
    SequenceVersion(u8),
    /// An index was outside the aux table.
    AuxIndex { index: usize, limit: usize },
}

/// An error encoding or decoding a meshoptimizer vertex or index stream.
#[derive(Debug)]
pub enum MeshoptError {
    /// The leading header byte did not carry the expected tag (`0xa0`,
    /// `0xe0`, `0xd0`) or named an unsupported version.
    BadHeader { what: &'static str, byte: u8 },
    /// The input was too small for what it declares.
    Truncated { what: &'static str, have: usize, need: usize },
    /// Decoding consumed a different number of bytes than the stream holds.
    ExtraBytes { what: &'static str, leftover: usize },
    /// A caller argument broke the codec's contract.
    Invalid(String),
}

/// Index `i` of a little-endian index buffer of `size`-byte indices.
pub open spec fn index_at(b: Seq<u8>, i: int, size: int) -> u32 {
    if size == 2 {
        spec_u16(b, i * 2, false) as u32
    } else {
        spec_u32(b, i * 4, false) as u32
    }
}

/// The first `count` indices of an index buffer.
pub open spec fn indices_of(b: Seq<u8>, count: int, size: int) -> Seq<u32> {
    Seq::new(count as nat, |i: int| index_at(b, i, size))
}

/// The little-endian bytes of one index of `size` bytes (a 2-byte index
/// keeps the low 16 bits).
pub open spec fn index_le(v: u32, size: int) -> Seq<u8> {
    if size == 2 {
        u16_bytes(v as u16, false)
    } else {
        u32_bytes(v, false)
    }
}

/// The bytes of an index list of `size`-byte indices.
pub open spec fn index_bytes(ix: Seq<u32>, size: int) -> Seq<u8>
    decreases ix.len(),
{
    if ix.len() == 0 {
        Seq::empty()
    } else {
        index_bytes(ix.drop_last(), size) + index_le(ix.last(), size)
    }
}

/// `a + b` wrapped to 32 bits.
pub open spec fn wrap_add(a: u32, b: u32) -> u32 {
    if a + b > u32::MAX {
        (a + b - 0x1_0000_0000) as u32
    } else {
        (a + b) as u32
    }
}

/// `a - b` wrapped to 32 bits.
pub open spec fn wrap_sub(a: u32, b: u32) -> u32 {
    if a - b < 0 {
        (a - b + 0x1_0000_0000) as u32
    } else {
        (a - b) as u32
    }
}

/// Append one index of `size` (2 or 4) bytes.
pub fn push_index(out: &mut Vec<u8>, v: u32, size: usize)
    requires
        size == 2 || size == 4,
    ensures
        final(out)@ == old(out)@ + index_le(v, size as int),
{
    if size == 2 {
        crate::bytes::push_u16(out, v as u16, false);
    } else {
        crate::bytes::push_u32(out, v, false);
    }
}

/// Read `count` little-endian indices of `index_size` (2 or 4) bytes from a
/// decoded index buffer.
pub fn read_indices(bytes: &[u8], count: usize, index_size: usize) -> (r: Result<Vec<u32>, MeshoptError>)
    requires
        count * index_size <= usize::MAX,
    ensures
        index_size != 2 && index_size != 4 ==> (r matches Err(MeshoptError::Invalid(a)) && a@
            == message(MeshoptArgument::IndexSize(index_size))),
        (index_size == 2 || index_size == 4) && bytes@.len() < count * index_size ==> (r matches Err(
            MeshoptError::Truncated { what, have, need },
        ) && what == "index bytes" && have == bytes@.len() && need == count * index_size),
        (index_size == 2 || index_size == 4) && bytes@.len() >= count * index_size ==> (r matches Ok(v) && v@
            == indices_of(bytes@, count as int, index_size as int)),
{
    if index_size != 2 && index_size != 4 {
        return Err(MeshoptError::Invalid(describe(MeshoptArgument::IndexSize(index_size))));
    }
    if bytes.len() < count * index_size {
        return Err(MeshoptError::Truncated { what: "index bytes", have: bytes.len(), need: count * index_size });
    }
    let mut out: Vec<u32> = Vec::new();
    let mut i: usize = 0;
    while i < count
        invariant
            i <= count,
            index_size == 2 || index_size == 4,
            count * index_size <= bytes@.len(),
            count * index_size <= usize::MAX,
            out@ == indices_of(bytes@, i as int, index_size as int),
        decreases count - i,
    {
        assert((i + 1) * index_size <= count * index_size && i * index_size + index_size == (i + 1) * index_size)
            by (nonlinear_arith)
            requires
                i < count,
        ;
        let pos = i * index_size;
        let v: u32 = if index_size == 2 {
            crate::bytes::get_u16(bytes, pos, false) as u32
        } else {
            crate::bytes::get_u32(bytes, pos, false)
        };
        out.push(v);
        proof {
            assert(i * index_size == if index_size == 2 { i * 2 } else { i * 4 });
        }
        assert(out@ =~= indices_of(bytes@, i as int + 1, index_size as int));
        i += 1;
    }
    Ok(out)
}

} // verus!
