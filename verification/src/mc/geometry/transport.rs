//! MeshCodec mesh-payload transport: a forward byte cursor with MSB-first
//! var-ints, LSB-first LEB128 sizes, the super-block trailer, sub-block
//! headers and raw windows.
use vstd::prelude::*;

verus! {

/// A forward byte cursor over a payload.
pub struct ForwardReader<'a> {
    /// The bytes read.
    pub buf: &'a [u8],
    /// Current read position.
    pub pos: usize,
}

impl<'a> ForwardReader<'a> {
    /// The bytes the cursor reads.
    pub open spec fn bytes(&self) -> Seq<u8> {
        self.buf@
    }

    /// Start a forward cursor at `pos`.
    pub fn new(buf: &'a [u8], pos: usize) -> (r: Self)
        ensures
            r.bytes() == buf@,
            r.pos == pos,
    {
        ForwardReader { buf, pos }
    }

    /// Read one byte, advancing the cursor; `None` (cursor unchanged) past the end.
    pub fn byte(&mut self) -> (r: Option<u8>)
        ensures
            final(self).bytes() == old(self).bytes(),
            old(self).pos < old(self).bytes().len() ==> r == Some(old(self).bytes()[old(self).pos as int])
                && final(self).pos == old(self).pos + 1,
            old(self).pos >= old(self).bytes().len() ==> r is None && final(self).pos == old(self).pos,
    {
        if self.pos < self.buf.len() {
            let b = self.buf[self.pos];
            self.pos = self.pos + 1;
            Some(b)
        } else {
            None
        }
    }

    /// Read an MSB-first base-128 var-int (`acc = (acc << 7) | (byte & 0x7f)`,
    /// continuing while the high bit is set), advancing the cursor.
    pub fn varint(&mut self) -> (v: u32)
        ensures
            final(self).bytes() == old(self).bytes(),
            (v, final(self).pos as int) == spec_varint(old(self).bytes(), old(self).pos as int, 0),
    {
        let mut v: u32 = 0;
        let ghost b = self.bytes();
        let ghost p0 = self.pos as int;
        loop
            invariant_except_break
                spec_varint(b, p0, 0) == spec_varint(b, self.pos as int, v),
            invariant
                self.bytes() == b,
            ensures
                self.bytes() == b,
                spec_varint(b, p0, 0) == (v, self.pos as int),
            decreases b.len() - self.pos,
        {
            let ghost p = self.pos as int;
            match self.byte() {
                Some(x) => {
                    let nv = (v << 7u32) | ((x & 0x7f) as u32);
                    v = nv;
                    if x & 0x80 == 0 {
                        break;
                    }
                },
                None => {
                    break;
                },
            }
        }
        v
    }
}

/// An MSB-first base-128 var-int from `pos`, continuing an accumulator:
/// the value and the position after it.
pub open spec fn spec_varint(b: Seq<u8>, pos: int, acc: u32) -> (u32, int)
    decreases b.len() - pos,
{
    if pos < 0 || pos >= b.len() {
        (acc, pos)
    } else {
        let x = b[pos];
        let acc2 = (acc << 7u32) | ((x & 0x7f) as u32);
        if x & 0x80 == 0 {
            (acc2, pos + 1)
        } else {
            spec_varint(b, pos + 1, acc2)
        }
    }
}

/// The byte at `i`, or zero past the end.
pub open spec fn byte_or_zero(b: Seq<u8>, i: int) -> int {
    if 0 <= i < b.len() {
        b[i] as int
    } else {
        0
    }
}

/// The eight bytes at `ptr` as a little-endian `u64`, zeros past the end.
pub open spec fn spec_u64_le(b: Seq<u8>, ptr: int) -> u64 {
    (byte_or_zero(b, ptr) + byte_or_zero(b, ptr + 1) * 0x100 + byte_or_zero(b, ptr + 2) * 0x1_0000 + byte_or_zero(b, ptr + 3)
        * 0x100_0000 + byte_or_zero(b, ptr + 4) * 0x1_0000_0000 + byte_or_zero(b, ptr + 5) * 0x100_0000_0000
        + byte_or_zero(b, ptr + 6) * 0x1_0000_0000_0000 + byte_or_zero(b, ptr + 7) * 0x100_0000_0000_0000) as u64
}

/// The byte at `ptr + j`, or zero past the end.
fn byte_at(buf: &[u8], ptr: usize, j: usize) -> (x: u64)
    requires
        j < 8,
    ensures
        x as int == byte_or_zero(buf@, ptr + j),
        x < 256,
{
    if ptr < buf.len() && j < buf.len() - ptr {
        buf[ptr + j] as u64
    } else {
        0
    }
}

/// Read 8 little-endian bytes at `ptr` (zero-padded past the end), the
/// backing load for the reverse bit reader.
pub fn u64_le(buf: &[u8], ptr: usize) -> (r: u64)
    ensures
        r == spec_u64_le(buf@, ptr as int),
{
    let b0 = byte_at(buf, ptr, 0);
    let b1 = byte_at(buf, ptr, 1);
    let b2 = byte_at(buf, ptr, 2);
    let b3 = byte_at(buf, ptr, 3);
    let b4 = byte_at(buf, ptr, 4);
    let b5 = byte_at(buf, ptr, 5);
    let b6 = byte_at(buf, ptr, 6);
    let b7 = byte_at(buf, ptr, 7);
    b0 + b1 * 0x100 + b2 * 0x1_0000 + b3 * 0x100_0000 + b4 * 0x1_0000_0000 + b5 * 0x100_0000_0000 + b6
        * 0x1_0000_0000_0000 + b7 * 0x100_0000_0000_0000
}

/// An LSB-first LEB128 from `pos` continuing an accumulator at bit `shift`:
/// the value and the position after it. Shifts wrap at 64 bits, as a
/// release build's shifts do.
pub open spec fn spec_leb_lsb(b: Seq<u8>, pos: int, acc: u64, shift: u32) -> (u64, int)
    decreases b.len() - pos,
{
    if pos < 0 || pos >= b.len() {
        (acc, pos)
    } else {
        let x = b[pos];
        let acc2 = acc | vstd::wrapping::u64_specs::wrapping_shl(((x & 0x7f) as u64), shift);
        if x & 0x80 == 0 {
            (acc2, pos + 1)
        } else {
            spec_leb_lsb(b, pos + 1, acc2, vstd::wrapping::u32_specs::wrapping_add(shift, 7))
        }
    }
}

/// Read one LSB-first LEB128 from `buf` at `pos`, returning `(value, new_pos)`.
pub fn read_leb_lsb(buf: &[u8], pos: usize) -> (r: (u64, usize))
    ensures
        (r.0, r.1 as int) == spec_leb_lsb(buf@, pos as int, 0, 0),
{
    let mut v: u64 = 0;
    let mut shift: u32 = 0;
    let mut p = pos;
    while p < buf.len()
        invariant_except_break
            spec_leb_lsb(buf@, pos as int, 0, 0) == spec_leb_lsb(buf@, p as int, v, shift),
        ensures
            spec_leb_lsb(buf@, pos as int, 0, 0) == (v, p as int),
        decreases buf@.len() - p,
    {
        let b = buf[p];
        p += 1;
        v = v | ((b & 0x7f) as u64).wrapping_shl(shift);
        shift = shift.wrapping_add(7);
        if b & 0x80 == 0 {
            break;
        }
    }
    (v, p)
}

/// The super-block trailer: two LSB-LEB128 sizes at the start of the payload
/// and the position after them. `(0, 0)` means this is the only or last
/// super-block.
pub fn parse_super_block_trailer(payload: &[u8]) -> (r: (u64, u64, usize))
    ensures
        ({
            let (a, p) = spec_leb_lsb(payload@, 0, 0, 0);
            let (b, q) = spec_leb_lsb(payload@, p, 0, 0);
            r.0 == a && r.1 == b && r.2 == q
        }),
{
    let (a, p) = read_leb_lsb(payload, 0);
    let (b, q) = read_leb_lsb(payload, p);
    (a, b, q)
}

/// A parsed sub-block header.
#[derive(Debug, Clone, Copy, PartialEq, Eq, Structural)]
pub struct SubBlockHeader {
    /// Number of sub-meshes / attributes in this sub-block.
    pub count: u32,
    /// Low nibble of the descriptor byte.
    pub a: u8,
    /// High nibble of the descriptor byte.
    pub b: u8,
    /// Var-int `c`.
    pub c: u32,
    /// Var-int `d` (e.g. the first sub-mesh's index-count source).
    pub d: u32,
    /// Var-int `e`.
    pub e: u32,
    /// Derived first-sub-mesh index count: `d >> (b == 1 ? 1 : 0)`.
    pub f: u32,
}

/// The sub-block header at `pos`: `None` when its count var-int is zero (the
/// end-of-super-block marker), else the header and the position after it.
/// A missing descriptor byte reads as zero.
pub open spec fn spec_sub_block_header(b: Seq<u8>, pos: int) -> (Option<SubBlockHeader>, int) {
    let (count, p1) = spec_varint(b, pos, 0);
    if count == 0 {
        (None, p1)
    } else {
        let (m, p2) = if 0 <= p1 < b.len() {
            (b[p1], p1 + 1)
        } else {
            (0u8, p1)
        };
        let (c, p3) = spec_varint(b, p2, 0);
        let (d, p4) = spec_varint(b, p3, 0);
        let (e, p5) = spec_varint(b, p4, 0);
        let bb = m >> 4u8;
        (Some(SubBlockHeader { count, a: m & 0xf, b: bb, c, d, e, f: if bb == 1 { d >> 1u32 } else { d } }), p5)
    }
}

/// Parse a sub-block header from the forward cursor. Returns `None` when the
/// count is zero (the end-of-super-block marker).
pub fn parse_sub_block_header(fwd: &mut ForwardReader) -> (r: Option<SubBlockHeader>)
    ensures
        final(fwd).bytes() == old(fwd).bytes(),
        (r, final(fwd).pos as int) == spec_sub_block_header(old(fwd).bytes(), old(fwd).pos as int),
{
    let count = fwd.varint();
    if count == 0 {
        return None;
    }
    let m = match fwd.byte() {
        Some(x) => x,
        None => 0,
    };
    let a = m & 0xf;
    let b = m >> 4;
    let c = fwd.varint();
    let d = fwd.varint();
    let e = fwd.varint();
    let f = if b == 1 {
        d >> 1
    } else {
        d
    };
    Some(SubBlockHeader { count, a, b, c, d, e, f })
}

/// Result of the state-0 canonical-Huffman table builder: the updated cursor
/// positions, the parsed scalars, and the built decode table.
#[derive(Debug, Clone)]
pub struct TableBuild {
    /// New forward cursor position.
    pub fwd: usize,
    /// New reverse-A pointer (payload offset).
    pub rev_ptr: usize,
    /// New reverse-A accumulator.
    pub rev_acc: u64,
    /// New reverse-A bit position.
    pub rev_bitpos: u32,
    /// The forward var-int `w8` (block-size hint).
    pub w8: u32,
    /// Number of canonical-Huffman symbols.
    pub symbols: u32,
    /// The trailing direction bit (0 for the index path).
    pub dir_bit: u32,
    /// Per-symbol packed entry.
    pub entries: Vec<u32>,
    /// Per-symbol byte offset in buffer B.
    pub offsets: Vec<u32>,
    /// Per-symbol column offset within its vertex stream.
    pub cols: Vec<u8>,
    /// Long-symbol markers (`(index << 16) | (w5 << 8) | w18`).
    pub longs: Vec<u32>,
    /// Total byte-group-decoded size.
    pub byte_group_total: u32,
    /// Largest `w24 * w26` product over the symbols.
    pub max_prod: u32,
}

/// A raw window at `pos`: a var-int size, then that many literal bytes
/// (clipped to the payload), and the position after the declared size.
pub open spec fn spec_raw_window(b: Seq<u8>, pos: int) -> (Seq<u8>, int) {
    let (n, start) = spec_varint(b, pos, 0);
    let end = if start + n > b.len() {
        b.len() as int
    } else {
        start + n
    };
    (b.subrange(start, end), start + n)
}

/// Decode a raw window: read the forward var-int `srcsize`, then copy
/// `srcsize` literal bytes (as many as the payload holds). Returns the bytes
/// and the new forward position. The position after the window must be an
/// address.
pub fn decode_raw_window(payload: &[u8], fwd_pos: usize) -> (r: (Vec<u8>, usize))
    requires
        fwd_pos <= payload@.len(),
        spec_varint(payload@, fwd_pos as int, 0).1 + spec_varint(payload@, fwd_pos as int, 0).0 <= usize::MAX,
    ensures
        (r.0@, r.1 as int) == spec_raw_window(payload@, fwd_pos as int),
{
    let mut f = ForwardReader::new(payload, fwd_pos);
    let srcsize = f.varint() as usize;
    let src_start = f.pos;
    proof {
        lemma_varint_pos(payload@, fwd_pos as int, 0);
    }
    let end = if srcsize > payload.len() - src_start {
        payload.len()
    } else {
        src_start + srcsize
    };
    (crate::bytes::copy_bytes(&payload[src_start..end]), src_start + srcsize)
}

/// A var-int read from inside the bytes ends inside them, or just past.
pub proof fn lemma_varint_pos(b: Seq<u8>, pos: int, acc: u32)
    requires
        0 <= pos <= b.len(),
    ensures
        pos <= spec_varint(b, pos, acc).1 <= b.len(),
    decreases b.len() - pos,
{
    if pos < b.len() {
        let x = b[pos];
        let acc2 = (acc << 7u32) | ((x & 0x7f) as u32);
        if x & 0x80 != 0 {
            lemma_varint_pos(b, pos + 1, acc2);
        }
    }
}

} // verus!
