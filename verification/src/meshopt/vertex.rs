//! The vertex buffer codec (`0xa0`, version 0). Vertices go in blocks of up
//! to 256; within a block each byte column is delta-coded against the
//! previous vertex, zig-zag mapped, and packed in groups of 16 values at
//! 0, 2, 4 or 8 bits each (a 2-bit header per group picks the width; the
//! all-ones code at 2 and 4 bits escapes to a literal byte). The stream
//! ends with a tail of `max(32, vertex_size)` bytes whose last
//! `vertex_size` bytes are the first vertex, the base of the first deltas.
use vstd::prelude::*;
use crate::meshopt::{MeshoptArgument, MeshoptError};
use crate::order::bytes_view;

use crate::meshopt::message::{describe, message};

verus! {

/// Why a vertex stream did not decode (the byte counts the error reports).
#[derive(Debug, Clone, Copy, PartialEq, Eq, Structural)]
pub enum VertexFault {
    /// A block column's group header ran past the end: bytes left, bytes needed.
    Header(usize, usize),
    /// A group had fewer than 24 bytes left to read from: bytes left.
    Group(usize),
    /// The stream did not end with exactly the tail: bytes left after the blocks.
    Extra(usize),
}

/// The value a zig-zag byte stands for, as a wrapping byte.
pub open spec fn unzigzag8(v: u8) -> u8 {
    (if v & 1u8 == 1 { 0xffu8 } else { 0u8 }) ^ (v >> 1u8)
}

/// The zig-zag byte of a wrapping byte delta.
pub open spec fn zigzag8(v: u8) -> u8 {
    (if v & 0x80u8 != 0 { 0xffu8 } else { 0u8 }) ^ ((v << 1u8) as u8)
}

/// Vertices per block for a vertex size: 8192 bytes' worth rounded down to
/// a multiple of 16, at most 256.
pub open spec fn block_size(vs: int) -> int {
    let r = 8192int / vs;
    let r2 = r - r % 16;
    if r2 < 256 { r2 } else { 256 }
}

/// Values `j..16` of a group packed at `bits` (2 or 4) bits per value
/// from `q`, with escaped literal bytes read from `dv` on: the values and
/// the position after the last literal.
pub open spec fn group_vals_from(data: Seq<u8>, q: int, bits: int, j: int, dv: int) -> (Seq<u8>, int)
    decreases 16 - j,
{
    if j >= 16 || j < 0 {
        (Seq::empty(), dv)
    } else {
        let per = 8int / bits;
        let byte = data[q + j / per];
        let shift = 8 - bits * (1 + j % per);
        let mask: u8 = if bits == 2 { 3 } else { 15 };
        let enc = (byte >> (shift as u8)) & mask;
        let v = if enc == mask { data[dv] } else { enc };
        let dv2 = if enc == mask { dv + 1 } else { dv };
        let (rest, d3) = group_vals_from(data, q, bits, j + 1, dv2);
        (seq![v] + rest, d3)
    }
}

/// A group of 16 values at `q` with width code `bl`: zeros (0), 2 bits
/// (1), 4 bits (2) or raw bytes (3); the values and the position after.
pub open spec fn group_decode(data: Seq<u8>, q: int, bl: u8) -> (Seq<u8>, int) {
    if bl == 0 {
        (Seq::new(16, |i: int| 0u8), q)
    } else if bl == 1 {
        group_vals_from(data, q, 2, 0, q + 4)
    } else if bl == 2 {
        group_vals_from(data, q, 4, 0, q + 8)
    } else {
        (data.subrange(q, q + 16), q + 16)
    }
}

/// Groups `g..ng` of a column whose group header starts at `hdr`, from `q`.
pub open spec fn groups_from(data: Seq<u8>, hdr: int, q: int, g: int, ng: int) -> Result<(Seq<u8>, int), VertexFault>
    decreases ng - g,
{
    if g >= ng {
        Ok((Seq::empty(), q))
    } else if data.len() - q < 24 {
        Err(VertexFault::Group((data.len() - q) as usize))
    } else {
        let bl = (data[hdr + g / 4] >> (((g % 4) * 2) as u8)) & 3u8;
        let (vals, q2) = group_decode(data, q, bl);
        match groups_from(data, hdr, q2, g + 1, ng) {
            Err(e) => Err(e),
            Ok((rest, q3)) => Ok((vals + rest, q3)),
        }
    }
}

/// One column of `size` (a multiple of 16) values at `p`: the group
/// header, then the groups.
pub open spec fn bytes_decode(data: Seq<u8>, p: int, size: int) -> Result<(Seq<u8>, int), VertexFault> {
    let hs = (size / 16 + 3) / 4;
    if data.len() - p < hs {
        Err(VertexFault::Header((data.len() - p) as usize, hs as usize))
    } else {
        groups_from(data, p, p + hs, 0, size / 16)
    }
}

/// The first `j` values of a column: each zig-zag delta added (mod 256) to
/// the previous value, starting from `start`; and the last value.
pub open spec fn col_prefix(deltas: Seq<u8>, start: u8, j: int) -> (Seq<u8>, u8)
    decreases j,
{
    if j <= 0 {
        (Seq::empty(), start)
    } else {
        let (vals, pr) = col_prefix(deltas, start, j - 1);
        let v = ((unzigzag8(deltas[j - 1]) + pr) % 256) as u8;
        (vals.push(v), v)
    }
}

/// Columns `k..vs` of a block of `bs` vertices (groups padded to `vca`
/// values), from `p`, each starting from byte `k` of `last`.
pub open spec fn block_cols(data: Seq<u8>, p: int, last: Seq<u8>, k: int, bs: int, vs: int, vca: int) -> Result<
    (Seq<Seq<u8>>, int),
    VertexFault,
>
    decreases vs - k,
{
    if k >= vs || k < 0 {
        Ok((Seq::empty(), p))
    } else {
        match bytes_decode(data, p, vca) {
            Err(e) => Err(e),
            Ok((deltas, p2)) => match block_cols(data, p2, last, k + 1, bs, vs, vca) {
                Err(e) => Err(e),
                Ok((rest, p3)) => Ok((seq![col_prefix(deltas, last[k], bs).0] + rest, p3)),
            },
        }
    }
}

/// Vertex `j` of a block: byte `k` from column `k`.
pub open spec fn block_row(cols: Seq<Seq<u8>>, j: int) -> Seq<u8> {
    Seq::new(cols.len(), |k: int| cols[k][j])
}

/// The first `j` vertices of a block, vertex after vertex.
pub open spec fn block_rows(cols: Seq<Seq<u8>>, j: int) -> Seq<u8>
    decreases j,
{
    if j <= 0 {
        Seq::empty()
    } else {
        block_rows(cols, j - 1) + block_row(cols, j - 1)
    }
}

/// The last `r` vertices from `p`, block by block, each block's columns
/// starting from `last`: the vertex bytes, the last vertex, the position.
pub open spec fn vertex_blocks(data: Seq<u8>, p: int, last: Seq<u8>, r: int, vs: int, vbs: int) -> Result<
    (Seq<u8>, Seq<u8>, int),
    VertexFault,
>
    decreases r,
{
    if r <= 0 || vbs <= 0 {
        Ok((Seq::empty(), last, p))
    } else {
        let bs = if vbs < r { vbs } else { r };
        let vca = (bs + 15) / 16 * 16;
        match block_cols(data, p, last, 0, bs, vs, vca) {
            Err(e) => Err(e),
            Ok((cols, p2)) => match vertex_blocks(data, p2, block_row(cols, bs - 1), r - bs, vs, vbs) {
                Err(e) => Err(e),
                Ok((rest, l, q)) => Ok((block_rows(cols, bs) + rest, l, q)),
            },
        }
    }
}

/// The vertex bytes a well-formed stream decodes to, or why it does not:
/// the blocks from position 1, starting from the first vertex kept in the
/// stream's last `vs` bytes, then exactly the tail.
pub open spec fn vertex_decode(b: Seq<u8>, count: int, vs: int) -> Result<Seq<u8>, VertexFault> {
    let n = b.len();
    match vertex_blocks(b, 1, b.subrange(n - vs, n as int), count, vs, block_size(vs)) {
        Err(e) => Err(e),
        Ok((out, l, p)) => {
            let tail = if vs < 32 { 32 } else { vs };
            if n - p != tail {
                Err(VertexFault::Extra((n - p) as usize))
            } else {
                Ok(out)
            }
        },
    }
}

/// The error a vertex fault is reported as.
pub open spec fn vertex_fault_error(f: VertexFault, e: MeshoptError) -> bool {
    match f {
        VertexFault::Header(have, need) => e matches MeshoptError::Truncated { what, have: h, need: n } && what
            == "vertex byte-group header" && h == have && n == need,
        VertexFault::Group(have) => e matches MeshoptError::Truncated { what, have: h, need: n } && what
            == "vertex byte-group" && h == have && n == 24,
        VertexFault::Extra(left) => e matches MeshoptError::ExtraBytes { what, leftover } && what == "vertex buffer"
            && leftover == left,
    }
}

/// Whether a vertex size is one the codec takes: a nonzero multiple of 4
/// up to 256.
pub open spec fn vertex_size_ok(vs: usize) -> bool {
    vs != 0 && vs <= 256 && vs % 4 == 0
}

/// Decode one group of 16 values (see `group_decode`).
fn decode_group(data: &[u8], q: usize, bl: u8) -> (r: (Vec<u8>, usize))
    requires
        q <= data@.len(),
        data@.len() < usize::MAX,
        data@.len() - q >= 24,
        bl <= 3,
    ensures
        (r.0@, r.1 as int) == group_decode(data@, q as int, bl),
        r.1 <= q + 24,
        r.0@.len() == 16,
{
    let mut vals: Vec<u8> = Vec::new();
    if bl == 0 {
        let mut i: usize = 0;
        while i < 16
            invariant
                i <= 16,
                vals@ == Seq::new(i as nat, |j: int| 0u8),
            decreases 16 - i,
        {
            vals.push(0);
            assert(vals@ =~= Seq::new((i + 1) as nat, |j: int| 0u8));
            i += 1;
        }
        return (vals, q);
    }
    if bl == 3 {
        crate::bytes::push_slice(&mut vals, &data[q..q + 16]);
        return (vals, q + 16);
    }
    let bits: usize = if bl == 1 { 2 } else { 4 };
    let per: usize = 8 / bits;
    let mask: u8 = if bits == 2 { 3 } else { 15 };
    let hdr: usize = 16 / per;
    let mut dv: usize = q + hdr;
    let ghost whole = group_vals_from(data@, q as int, bits as int, 0, q + hdr);
    let mut j: usize = 0;
    while j < 16
        invariant
            j <= 16,
            (bits == 2 && per == 4 && hdr == 4) || (bits == 4 && per == 2 && hdr == 8),
            bl == (if bits == 2 { 1u8 } else { 2u8 }),
            data@.len() < usize::MAX,
            mask == (if bits == 2 { 3u8 } else { 15u8 }),
            q <= data@.len(),
            data@.len() - q >= 24,
            dv <= q + hdr + j,
            vals@.len() == j,
            whole == group_vals_from(data@, q as int, bits as int, 0, q + hdr),
            whole == ({
                let rest = group_vals_from(data@, q as int, bits as int, j as int, dv as int);
                (vals@ + rest.0, rest.1)
            }),
        decreases 16 - j,
    {
        let byte = data[q + j / per];
        let shift: u8 = (8 - bits * (1 + j % per)) as u8;
        let enc = (byte >> shift) & mask;
        let ghost rest2 = group_vals_from(data@, q as int, bits as int, j + 1, if enc == mask { dv + 1 } else { dv as int });
        let v: u8;
        if enc == mask {
            v = data[dv];
            dv = dv + 1;
        } else {
            v = enc;
        }
        assert(vals@ + (seq![v] + rest2.0) =~= vals@.push(v) + rest2.0);
        vals.push(v);
        j += 1;
    }
    assert(group_vals_from(data@, q as int, bits as int, 16, dv as int).0 =~= Seq::<u8>::empty());
    assert(vals@ =~= vals@ + Seq::<u8>::empty());
    (vals, dv)
}

/// A result with `v` put in front of its values.
pub open spec fn prepend_vals(v: Seq<u8>, r: Result<(Seq<u8>, int), VertexFault>) -> Result<(Seq<u8>, int), VertexFault> {
    match r {
        Err(e) => Err(e),
        Ok((rest, q)) => Ok((v + rest, q)),
    }
}

/// Decode one column of `size` values (see `bytes_decode`).
fn decode_bytes(data: &[u8], p: usize, size: usize) -> (r: Result<(Vec<u8>, usize), VertexFault>)
    requires
        p <= data@.len(),
        data@.len() < usize::MAX,
        size <= 256,
    ensures
        match bytes_decode(data@, p as int, size as int) {
            Ok((v, q)) => r matches Ok((w, q2)) && w@ == v && q2 == q && q <= data@.len() && w@.len() == size / 16 * 16,
            Err(e) => r == Err::<(Vec<u8>, usize), VertexFault>(e),
        },
{
    let hs = (size / 16 + 3) / 4;
    if data.len() - p < hs {
        return Err(VertexFault::Header(data.len() - p, hs));
    }
    let ng = size / 16;
    let mut q = p + hs;
    let mut vals: Vec<u8> = Vec::new();
    let ghost whole = groups_from(data@, p as int, p + hs, 0, ng as int);
    let mut g: usize = 0;
    while g < ng
        invariant
            g <= ng,
            ng == size / 16,
            size <= 256,
            hs == (size / 16 + 3) / 4,
            p + hs <= data@.len(),
            data@.len() < usize::MAX,
            q <= data@.len(),
            vals@.len() == g * 16,
            whole == groups_from(data@, p as int, p + hs, 0, ng as int),
            whole == prepend_vals(vals@, groups_from(data@, p as int, q as int, g as int, ng as int)),
        decreases ng - g,
    {
        if data.len() - q < 24 {
            return Err(VertexFault::Group(data.len() - q));
        }
        let hb = data[p + g / 4];
        let sh = ((g % 4) * 2) as u8;
        let bl = (hb >> sh) & 3u8;
        assert(bl <= 3) by (bit_vector)
            requires
                bl == (hb >> sh) & 3u8,
        ;
        let (gv, q2) = decode_group(data, q, bl);
        let ghost rest = groups_from(data@, p as int, q2 as int, g + 1, ng as int);
        assert(prepend_vals(vals@, prepend_vals(gv@, rest)) == prepend_vals(vals@ + gv@, rest)) by {
            match rest {
                Ok((r2, q3)) => {
                    assert(vals@ + (gv@ + r2) =~= (vals@ + gv@) + r2);
                },
                Err(e) => {},
            }
        }
        crate::bytes::push_slice(&mut vals, gv.as_slice());
        q = q2;
        g += 1;
    }
    assert(vals@ + Seq::<u8>::empty() =~= vals@);
    Ok((vals, q))
}

/// The zig-zag byte's value.
fn unzigzag8_exec(v: u8) -> (r: u8)
    ensures
        r == unzigzag8(v),
{
    (if v & 1u8 == 1 { 0xffu8 } else { 0u8 }) ^ (v >> 1u8)
}

/// The zig-zag byte of a delta.
fn zigzag8_exec(v: u8) -> (r: u8)
    ensures
        r == zigzag8(v),
{
    (if v & 0x80u8 != 0 { 0xffu8 } else { 0u8 }) ^ ((v << 1u8) as u8)
}

/// Vertices per block (see `block_size`).
fn block_size_exec(vs: usize) -> (r: usize)
    requires
        4 <= vs <= 256,
    ensures
        r == block_size(vs as int),
        16 <= r <= 256,
{
    let r = 8192 / vs;
    let r2 = r - r % 16;
    assert(r >= 32) by (nonlinear_arith)
        requires
            4 <= vs <= 256,
            r == 8192usize / vs,
    ;
    if r2 < 256 {
        r2
    } else {
        256
    }
}

/// The first `bs` values of a column (see `col_prefix`).
fn col_values(deltas: &Vec<u8>, start: u8, bs: usize) -> (v: Vec<u8>)
    requires
        bs <= deltas@.len(),
    ensures
        v@ == col_prefix(deltas@, start, bs as int).0,
        v@.len() == bs,
{
    let mut vals: Vec<u8> = Vec::new();
    let mut pr = start;
    let mut j: usize = 0;
    while j < bs
        invariant
            j <= bs,
            bs <= deltas@.len(),
            (vals@, pr) == col_prefix(deltas@, start, j as int),
            vals@.len() == j,
        decreases bs - j,
    {
        let u = unzigzag8_exec(deltas[j]);
        let v: u8 = ((u as u16 + pr as u16) % 256) as u8;
        vals.push(v);
        pr = v;
        j += 1;
    }
    vals
}

/// A result with column `c` put in front of its columns.
pub open spec fn prepend_col(c: Seq<u8>, r: Result<(Seq<Seq<u8>>, int), VertexFault>) -> Result<
    (Seq<Seq<u8>>, int),
    VertexFault,
> {
    match r {
        Err(e) => Err(e),
        Ok((rest, q)) => Ok((seq![c] + rest, q)),
    }
}

/// A result with columns `cs` put in front of its columns.
pub open spec fn prepend_cols(cs: Seq<Seq<u8>>, r: Result<(Seq<Seq<u8>>, int), VertexFault>) -> Result<
    (Seq<Seq<u8>>, int),
    VertexFault,
> {
    match r {
        Err(e) => Err(e),
        Ok((rest, q)) => Ok((cs + rest, q)),
    }
}

/// Decode the columns of one block (see `block_cols`).
fn decode_block_cols(
    data: &[u8],
    p: usize,
    last: &Vec<u8>,
    bs: usize,
    vs: usize,
    vca: usize,
) -> (r: Result<(Vec<Vec<u8>>, usize), VertexFault>)
    requires
        p <= data@.len(),
        data@.len() < usize::MAX,
        last@.len() == vs,
        vca <= 256,
        vca % 16 == 0,
        bs <= vca,
    ensures
        match block_cols(data@, p as int, last@, 0, bs as int, vs as int, vca as int) {
            Ok((cols, q)) => r matches Ok((c, q2)) && bytes_view(c@) == cols && q2 == q && q <= data@.len()
                && c@.len() == vs && (forall|k: int| 0 <= k < vs ==> (#[trigger] c@[k])@.len() == bs),
            Err(e) => r == Err::<(Vec<Vec<u8>>, usize), VertexFault>(e),
        },
{
    let mut cols: Vec<Vec<u8>> = Vec::new();
    let mut q = p;
    let ghost whole = block_cols(data@, p as int, last@, 0, bs as int, vs as int, vca as int);
    let mut k: usize = 0;
    while k < vs
        invariant
            k <= vs,
            q <= data@.len(),
            data@.len() < usize::MAX,
            last@.len() == vs,
            vca <= 256,
            vca % 16 == 0,
            bs <= vca,
            cols@.len() == k,
            forall|i: int| 0 <= i < k ==> (#[trigger] cols@[i])@.len() == bs,
            whole == block_cols(data@, p as int, last@, 0, bs as int, vs as int, vca as int),
            whole == prepend_cols(
                bytes_view(cols@),
                block_cols(data@, q as int, last@, k as int, bs as int, vs as int, vca as int),
            ),
        decreases vs - k,
    {
        let (deltas, q2) = match decode_bytes(data, q, vca) {
            Err(e) => {
                return Err(e);
            },
            Ok(x) => x,
        };
        assert(vca / 16 * 16 == vca);
        let col = col_values(&deltas, last[k], bs);
        let ghost rest = block_cols(data@, q2 as int, last@, k + 1, bs as int, vs as int, vca as int);
        assert(prepend_cols(bytes_view(cols@), prepend_col(col@, rest)) == prepend_cols(
            bytes_view(cols@.push(col)),
            rest,
        )) by {
            assert(bytes_view(cols@.push(col)) =~= bytes_view(cols@).push(col@));
            match rest {
                Ok((r2, q3)) => {
                    assert(bytes_view(cols@) + (seq![col@] + r2) =~= bytes_view(cols@).push(col@) + r2);
                },
                Err(e) => {},
            }
        }
        cols.push(col);
        q = q2;
        k += 1;
    }
    assert(bytes_view(cols@) + Seq::<Seq<u8>>::empty() =~= bytes_view(cols@));
    Ok((cols, q))
}

/// Vertex `j` of a block (see `block_row`).
fn block_row_exec(cols: &Vec<Vec<u8>>, j: usize) -> (v: Vec<u8>)
    requires
        forall|k: int| 0 <= k < cols@.len() ==> j < (#[trigger] cols@[k])@.len(),
    ensures
        v@ == block_row(bytes_view(cols@), j as int),
{
    let mut v: Vec<u8> = Vec::new();
    let mut k: usize = 0;
    while k < cols.len()
        invariant
            k <= cols@.len(),
            forall|i: int| 0 <= i < cols@.len() ==> j < (#[trigger] cols@[i])@.len(),
            v@ == Seq::new(k as nat, |i: int| bytes_view(cols@)[i][j as int]),
        decreases cols@.len() - k,
    {
        v.push(cols[k][j]);
        assert(v@ =~= Seq::new((k + 1) as nat, |i: int| bytes_view(cols@)[i][j as int]));
        k += 1;
    }
    assert(v@ =~= block_row(bytes_view(cols@), j as int));
    v
}

/// The bytes of a block, vertex after vertex (see `block_rows`).
fn block_bytes(cols: &Vec<Vec<u8>>, bs: usize, out: &mut Vec<u8>)
    requires
        forall|k: int| 0 <= k < cols@.len() ==> (#[trigger] cols@[k])@.len() == bs,
    ensures
        final(out)@ == old(out)@ + block_rows(bytes_view(cols@), bs as int),
{
    let ghost base = old(out)@;
    let mut j: usize = 0;
    while j < bs
        invariant
            j <= bs,
            forall|k: int| 0 <= k < cols@.len() ==> (#[trigger] cols@[k])@.len() == bs,
            base == old(out)@,
            out@ == base + block_rows(bytes_view(cols@), j as int),
        decreases bs - j,
    {
        let row = block_row_exec(cols, j);
        crate::bytes::push_slice(out, row.as_slice());
        assert(base + block_rows(bytes_view(cols@), j as int) + row@ =~= base + block_rows(
            bytes_view(cols@),
            j + 1,
        ));
        j += 1;
    }
}

/// A result with `o` put in front of its vertex bytes.
pub open spec fn prepend_out(o: Seq<u8>, r: Result<(Seq<u8>, Seq<u8>, int), VertexFault>) -> Result<
    (Seq<u8>, Seq<u8>, int),
    VertexFault,
> {
    match r {
        Err(e) => Err(e),
        Ok((rest, l, q)) => Ok((o + rest, l, q)),
    }
}

/// Decode a vertex buffer of `vertex_count` vertices of `vertex_size`
/// bytes (a nonzero multiple of 4 up to 256); returns the vertex bytes.
#[verifier::rlimit(40)]
pub fn decode_vertex_buffer(vertex_count: usize, vertex_size: usize, buffer: &[u8]) -> (r: Result<
    Vec<u8>,
    MeshoptError,
>)
    requires
        buffer@.len() < usize::MAX,
    ensures
        !vertex_size_ok(vertex_size) ==> (r matches Err(MeshoptError::Invalid(a)) && a@
            == message(MeshoptArgument::VertexSize(vertex_size))),
        vertex_size_ok(vertex_size) && buffer@.len() < 1 + vertex_size ==> (r matches Err(
            MeshoptError::Truncated { what, have, need },
        ) && what == "vertex buffer" && have == buffer@.len() && need == 1 + vertex_size),
        vertex_size_ok(vertex_size) && buffer@.len() >= 1 + vertex_size && ((buffer@[0] & 0xf0u8) != 0xa0u8 || (
        buffer@[0] & 0x0fu8) != 0) ==> (r matches Err(MeshoptError::BadHeader { what, byte }) && what == "vertex"
            && byte == buffer@[0]),
        vertex_size_ok(vertex_size) && buffer@.len() >= 1 + vertex_size && (buffer@[0] & 0xf0u8) == 0xa0u8 && (
        buffer@[0] & 0x0fu8) == 0 ==> match vertex_decode(buffer@, vertex_count as int, vertex_size as int) {
            Err(f) => r matches Err(e) && vertex_fault_error(f, e),
            Ok(out) => r matches Ok(v) && v@ == out,
        },
{
    if vertex_size == 0 || vertex_size > 256 || vertex_size % 4 != 0 {
        return Err(MeshoptError::Invalid(describe(MeshoptArgument::VertexSize(vertex_size))));
    }
    let n = buffer.len();
    if n < 1 + vertex_size {
        return Err(MeshoptError::Truncated { what: "vertex buffer", have: n, need: 1 + vertex_size });
    }
    if (buffer[0] & 0xf0u8) != 0xa0u8 || (buffer[0] & 0x0fu8) != 0 {
        return Err(MeshoptError::BadHeader { what: "vertex", byte: buffer[0] });
    }
    let vs = vertex_size;
    let mut last = crate::bytes::copy_bytes(&buffer[n - vs..n]);
    let vbs = block_size_exec(vs);
    let mut out: Vec<u8> = Vec::new();
    let mut p: usize = 1;
    let mut vo: usize = 0;
    let ghost whole = vertex_blocks(buffer@, 1, buffer@.subrange(n - vs, n as int), vertex_count as int, vs as int, vbs as int);
    while vo < vertex_count
        invariant
            vo <= vertex_count,
            p <= buffer@.len(),
            buffer@.len() < usize::MAX,
            4 <= vs <= 256,
            vs == vertex_size,
            vertex_size_ok(vertex_size),
            n == buffer@.len(),
            n >= 1 + vs,
            (buffer@[0] & 0xf0u8) == 0xa0u8 && (buffer@[0] & 0x0fu8) == 0,
            vbs == block_size(vs as int),
            16 <= vbs <= 256,
            last@.len() == vs,
            whole == vertex_blocks(
                buffer@,
                1,
                buffer@.subrange(n - vs, n as int),
                vertex_count as int,
                vs as int,
                vbs as int,
            ),
            whole == prepend_out(
                out@,
                vertex_blocks(buffer@, p as int, last@, vertex_count - vo, vs as int, vbs as int),
            ),
        decreases vertex_count - vo,
    {
        let bs = if vbs < vertex_count - vo { vbs } else { vertex_count - vo };
        let vca = (bs + 15) / 16 * 16;
        let (cols, p2) = match decode_block_cols(buffer, p, &last, bs, vs, vca) {
            Err(f) => {
                return match f {
                    VertexFault::Header(have, need) => Err(
                        MeshoptError::Truncated { what: "vertex byte-group header", have, need },
                    ),
                    VertexFault::Group(have) => Err(MeshoptError::Truncated { what: "vertex byte-group", have, need: 24 }),
                    VertexFault::Extra(left) => Err(MeshoptError::ExtraBytes { what: "vertex buffer", leftover: left }),
                };
            },
            Ok(x) => x,
        };
        let ghost before = out@;
        block_bytes(&cols, bs, &mut out);
        let new_last = block_row_exec(&cols, bs - 1);
        let ghost rest = vertex_blocks(buffer@, p2 as int, new_last@, vertex_count - vo - bs, vs as int, vbs as int);
        assert(prepend_out(before, prepend_out(block_rows(bytes_view(cols@), bs as int), rest)) == prepend_out(
            out@,
            rest,
        )) by {
            match rest {
                Ok((r2, l, q)) => {
                    assert(before + (block_rows(bytes_view(cols@), bs as int) + r2) =~= out@ + r2);
                },
                Err(e) => {},
            }
        }
        last = new_last;
        p = p2;
        vo = vo + bs;
    }
    assert(out@ + Seq::<u8>::empty() =~= out@);
    let tail: usize = if vs < 32 { 32 } else { vs };
    if n - p != tail {
        return Err(MeshoptError::ExtraBytes { what: "vertex buffer", leftover: n - p });
    }
    Ok(out)
}

/// The all-ones code of a `bits`-wide group (2 or 4 bits).
pub open spec fn sentinel(bits: int) -> u8 {
    if bits == 2 { 3u8 } else { 15u8 }
}

/// The code of value `b` in a group with sentinel `s`.
pub open spec fn enc_val(b: u8, s: u8) -> u8 {
    if b >= s { s } else { b }
}

/// The codes of values `base..base + k` of a group packed high bits first.
pub open spec fn pack_fold(g: Seq<u8>, base: int, bits: int, k: int) -> u8
    decreases k,
{
    if k <= 0 {
        0u8
    } else {
        ((pack_fold(g, base, bits, k - 1) << (bits as u8)) as u8) | enc_val(g[base + k - 1], sentinel(bits))
    }
}

/// The first `m` packed bytes of a group.
pub open spec fn packed_bytes(g: Seq<u8>, bits: int, m: int) -> Seq<u8>
    decreases m,
{
    if m <= 0 {
        Seq::empty()
    } else {
        let per = 8int / bits;
        packed_bytes(g, bits, m - 1).push(pack_fold(g, (m - 1) * per, bits, per))
    }
}

/// The values among the first `n` of a group that need a literal byte.
pub open spec fn literals(g: Seq<u8>, s: u8, n: int) -> Seq<u8>
    decreases n,
{
    if n <= 0 {
        Seq::empty()
    } else if g[n - 1] >= s {
        literals(g, s, n - 1).push(g[n - 1])
    } else {
        literals(g, s, n - 1)
    }
}

/// A group of 16 values encoded at `bits` bits per value: nothing at 1
/// (all zeros), the raw bytes at 8, else the packed codes then the
/// literals.
pub open spec fn group_encode(g: Seq<u8>, bits: int) -> Seq<u8> {
    if bits == 1 {
        Seq::empty()
    } else if bits == 8 {
        g.subrange(0, 16)
    } else {
        packed_bytes(g, bits, 16int / (8int / bits)) + literals(g, sentinel(bits), 16)
    }
}

/// The narrowest width that gives the smallest encoding of a group, trying
/// 8, then 1, 2 and 4 bits and keeping only a strictly smaller size.
pub open spec fn best_bits(g: Seq<u8>) -> int {
    let m1: int = if (forall|i: int| 0 <= i < 16 ==> g[i] == 0) { 0 } else { u64::MAX as int };
    let m2: int = 4 + literals(g, 3, 16).len() as int;
    let m4: int = 8 + literals(g, 15, 16).len() as int;
    let b1: int = if m1 < 16 { 1 } else { 8 };
    let s1: int = if m1 < 16 { m1 } else { 16 };
    let b2: int = if m2 < s1 { 2 } else { b1 };
    let s2: int = if m2 < s1 { m2 } else { s1 };
    if m4 < s2 { 4 } else { b2 }
}

/// The 2-bit width code for a width.
pub open spec fn width_code(bits: int) -> u8 {
    if bits == 1 { 0u8 } else if bits == 2 { 1u8 } else if bits == 4 { 2u8 } else { 3u8 }
}

/// Group `g` of a column.
pub open spec fn group_at(buf: Seq<u8>, g: int) -> Seq<u8> {
    buf.subrange(16 * g, 16 * g + 16)
}

/// Header byte `i` of a column of `ng` groups: the width codes of groups
/// `4i..4i+4`, two bits each from the low bits up.
pub open spec fn header_fold(buf: Seq<u8>, ng: int, i: int, j: int) -> u8
    decreases j,
{
    if j <= 0 {
        0u8
    } else {
        let g = 4 * i + j - 1;
        header_fold(buf, ng, i, j - 1) | (if g < ng {
            (width_code(best_bits(group_at(buf, g))) << ((2 * (j - 1)) as u8)) as u8
        } else {
            0u8
        })
    }
}

/// The encodings of the first `g` groups of a column.
pub open spec fn groups_encode(buf: Seq<u8>, g: int) -> Seq<u8>
    decreases g,
{
    if g <= 0 {
        Seq::empty()
    } else {
        groups_encode(buf, g - 1) + group_encode(group_at(buf, g - 1), best_bits(group_at(buf, g - 1)))
    }
}

/// A column of `size` (a multiple of 16) values: the header bytes, then
/// the groups.
pub open spec fn column_encode(buf: Seq<u8>, size: int) -> Seq<u8> {
    let ng = size / 16;
    Seq::new(((ng + 3) / 4) as nat, |i: int| header_fold(buf, ng, i, 4)) + groups_encode(buf, ng)
}

/// The first `j` zig-zag deltas of the column at `base` in rows of `vs`
/// bytes, from `start`; and the last value.
pub open spec fn col_deltas(v: Seq<u8>, base: int, vs: int, start: u8, j: int) -> (Seq<u8>, u8)
    decreases j,
{
    if j <= 0 {
        (Seq::empty(), start)
    } else {
        let (d, pr) = col_deltas(v, base, vs, start, j - 1);
        let cur = v[base + (j - 1) * vs];
        (d.push(zigzag8(((cur - pr + 256) % 256) as u8)), cur)
    }
}

/// Columns `k..vs` of the block of `bs` vertices at byte `voff`, each
/// padded with zeros to `aligned` values and encoded.
pub open spec fn block_encode(v: Seq<u8>, voff: int, bs: int, vs: int, last: Seq<u8>, k: int, aligned: int) -> Seq<u8>
    decreases vs - k,
{
    if k >= vs || k < 0 {
        Seq::empty()
    } else {
        let d = col_deltas(v, voff + k, vs, last[k], bs).0;
        let buf = d + Seq::new((aligned - bs) as nat, |i: int| 0u8);
        column_encode(buf, aligned) + block_encode(v, voff, bs, vs, last, k + 1, aligned)
    }
}

/// The last `r` vertices from vertex `vo`, block by block.
pub open spec fn encode_blocks(v: Seq<u8>, vo: int, last: Seq<u8>, r: int, vs: int, vbs: int) -> Seq<u8>
    decreases r,
{
    if r <= 0 || vbs <= 0 {
        Seq::empty()
    } else {
        let bs = if vbs < r { vbs } else { r };
        let aligned = (bs + 15) / 16 * 16;
        let voff = vo * vs;
        block_encode(v, voff, bs, vs, last, 0, aligned) + encode_blocks(
            v,
            vo + bs,
            v.subrange(voff + vs * (bs - 1), voff + vs * bs),
            r - bs,
            vs,
            vbs,
        )
    }
}

/// The vertex stream for `count` vertices of `vs` bytes: the header byte
/// `0xa0`, the blocks, zero padding up to 32 bytes of tail, then the first
/// vertex (zeros when there is none).
pub open spec fn vertex_stream(v: Seq<u8>, count: int, vs: int) -> Seq<u8> {
    let first = if count > 0 { v.subrange(0, vs) } else { Seq::new(vs as nat, |i: int| 0u8) };
    seq![0xa0u8] + encode_blocks(v, 0, first, count, vs, block_size(vs)) + Seq::new(
        (if vs < 32 { 32 - vs } else { 0 }) as nat,
        |i: int| 0u8,
    ) + first
}

/// How many of a group's 16 values need a literal byte at sentinel `s`.
fn count_literals(g: &[u8], s: u8) -> (c: usize)
    requires
        g@.len() >= 16,
    ensures
        c == literals(g@, s, 16).len(),
        c <= 16,
{
    let mut c: usize = 0;
    let mut i: usize = 0;
    while i < 16
        invariant
            i <= 16,
            g@.len() >= 16,
            c == literals(g@, s, i as int).len(),
            c <= i,
        decreases 16 - i,
    {
        if g[i] >= s {
            c += 1;
        }
        i += 1;
    }
    c
}

/// The width for a group (see `best_bits`).
fn choose_bits(g: &[u8]) -> (b: u32)
    requires
        g@.len() >= 16,
    ensures
        b == best_bits(g@),
        b == 1 || b == 2 || b == 4 || b == 8,
{
    let mut zero = true;
    let mut i: usize = 0;
    while i < 16
        invariant
            i <= 16,
            g@.len() >= 16,
            zero == (forall|j: int| 0 <= j < i ==> g@[j] == 0),
        decreases 16 - i,
    {
        if g[i] != 0 {
            zero = false;
        }
        i += 1;
    }
    let m1: u64 = if zero { 0 } else { u64::MAX };
    let m2: u64 = 4 + count_literals(g, 3) as u64;
    let m4: u64 = 8 + count_literals(g, 15) as u64;
    let mut best: u32 = 8;
    let mut size: u64 = 16;
    if m1 < size {
        best = 1;
        size = m1;
    }
    if m2 < size {
        best = 2;
        size = m2;
    }
    if m4 < size {
        best = 4;
    }
    best
}

/// Append a group encoded at `bits` (see `group_encode`).
fn encode_group(out: &mut Vec<u8>, g: &[u8], bits: u32)
    requires
        g@.len() == 16,
        bits == 1 || bits == 2 || bits == 4 || bits == 8,
    ensures
        final(out)@ == old(out)@ + group_encode(g@, bits as int),
{
    if bits == 1 {
        assert(old(out)@ + Seq::<u8>::empty() =~= old(out)@);
        return;
    }
    if bits == 8 {
        crate::bytes::push_slice(out, g);
        assert(g@.subrange(0, 16) =~= g@);
        return;
    }
    let per: usize = if bits == 2 { 4 } else { 2 };
    let s: u8 = if bits == 2 { 3 } else { 15 };
    let nbytes: usize = if bits == 2 { 4 } else { 8 };
    let ghost base = old(out)@;
    let mut m: usize = 0;
    while m < nbytes
        invariant
            m <= nbytes,
            (bits == 2 && per == 4 && nbytes == 4) || (bits == 4 && per == 2 && nbytes == 8),
            s == sentinel(bits as int),
            g@.len() == 16,
            base == old(out)@,
            out@ == base + packed_bytes(g@, bits as int, m as int),
        decreases nbytes - m,
    {
        let mut byte: u8 = 0;
        let mut k: usize = 0;
        while k < per
            invariant
                k <= per,
                m < nbytes,
                (bits == 2 && per == 4 && nbytes == 4) || (bits == 4 && per == 2 && nbytes == 8),
                s == sentinel(bits as int),
                g@.len() == 16,
                byte == pack_fold(g@, (m * per) as int, bits as int, k as int),
            decreases per - k,
        {
            assert(m * per + k < 16) by (nonlinear_arith)
                requires
                    m < nbytes,
                    k < per,
                    (per == 4 && nbytes == 4) || (per == 2 && nbytes == 8),
            ;
            let b = g[m * per + k];
            let e = if b >= s { s } else { b };
            byte = ((byte << (bits as u8)) as u8) | e;
            k += 1;
        }
        out.push(byte);
        assert(out@ =~= base + packed_bytes(g@, bits as int, m + 1));
        m += 1;
    }
    let ghost mid = out@;
    let mut i: usize = 0;
    while i < 16
        invariant
            i <= 16,
            g@.len() == 16,
            mid == base + packed_bytes(g@, bits as int, nbytes as int),
            out@ == mid + literals(g@, s, i as int),
        decreases 16 - i,
    {
        if g[i] >= s {
            out.push(g[i]);
        }
        assert(out@ =~= mid + literals(g@, s, i + 1));
        i += 1;
    }
    assert(out@ =~= base + group_encode(g@, bits as int));
}

/// The width code of a width.
fn width_code_exec(bits: u32) -> (c: u8)
    ensures
        c == width_code(bits as int),
{
    if bits == 1 {
        0
    } else if bits == 2 {
        1
    } else if bits == 4 {
        2
    } else {
        3
    }
}

/// Append a column of `size` values (see `column_encode`).
fn encode_column(out: &mut Vec<u8>, buf: &[u8], size: usize)
    requires
        buf@.len() == size,
        size % 16 == 0,
        size <= 256,
    ensures
        final(out)@ == old(out)@ + column_encode(buf@, size as int),
{
    let ng = size / 16;
    let hs = (ng + 3) / 4;
    let mut widths: Vec<u32> = Vec::new();
    let mut g: usize = 0;
    while g < ng
        invariant
            g <= ng,
            ng == size / 16,
            buf@.len() == size,
            size % 16 == 0,
            widths@.len() == g,
            forall|i: int| 0 <= i < g ==> #[trigger] widths@[i] == best_bits(group_at(buf@, i)),
            forall|i: int| 0 <= i < g ==> (#[trigger] widths@[i] == 1 || widths@[i] == 2 || widths@[i] == 4 || widths@[i] == 8),
        decreases ng - g,
    {
        let grp = &buf[16 * g..16 * g + 16];
        assert(grp@ == group_at(buf@, g as int));
        widths.push(choose_bits(grp));
        g += 1;
    }
    let ghost base = old(out)@;
    let mut i: usize = 0;
    while i < hs
        invariant
            i <= hs,
            hs == (ng + 3) / 4,
            ng == size / 16,
            widths@.len() == ng,
            forall|x: int| 0 <= x < ng ==> #[trigger] widths@[x] == best_bits(group_at(buf@, x)),
            base == old(out)@,
            out@ == base + Seq::new(i as nat, |x: int| header_fold(buf@, ng as int, x, 4)),
        decreases hs - i,
    {
        let mut hb: u8 = 0;
        let mut j: usize = 0;
        while j < 4
            invariant
                j <= 4,
                i < hs,
                hs == (ng + 3) / 4,
                widths@.len() == ng,
                forall|x: int| 0 <= x < ng ==> #[trigger] widths@[x] == best_bits(group_at(buf@, x)),
                hb == header_fold(buf@, ng as int, i as int, j as int),
            decreases 4 - j,
        {
            let gi = 4 * i + j;
            if gi < ng {
                let c = width_code_exec(widths[gi]);
                let sh: u8 = (2 * j) as u8;
                hb = hb | ((c << sh) as u8);
            } else {
                hb = hb | 0u8;
                assert(hb | 0u8 == hb) by (bit_vector);
            }
            j += 1;
        }
        out.push(hb);
        assert(out@ =~= base + Seq::new((i + 1) as nat, |x: int| header_fold(buf@, ng as int, x, 4)));
        i += 1;
    }
    let ghost mid = out@;
    let mut g2: usize = 0;
    while g2 < ng
        invariant
            g2 <= ng,
            ng == size / 16,
            buf@.len() == size,
            size % 16 == 0,
            widths@.len() == ng,
            forall|x: int| 0 <= x < ng ==> #[trigger] widths@[x] == best_bits(group_at(buf@, x)),
            forall|x: int| 0 <= x < ng ==> (#[trigger] widths@[x] == 1 || widths@[x] == 2 || widths@[x] == 4 || widths@[x] == 8),
            out@ == mid + groups_encode(buf@, g2 as int),
        decreases ng - g2,
    {
        let grp = &buf[16 * g2..16 * g2 + 16];
        assert(grp@ == group_at(buf@, g2 as int));
        encode_group(out, grp, widths[g2]);
        assert(out@ =~= mid + groups_encode(buf@, g2 + 1));
        g2 += 1;
    }
    assert(out@ =~= base + column_encode(buf@, size as int));
}

/// Append the block of `bs` vertices at byte `voff` (see `block_encode`).
fn encode_block(out: &mut Vec<u8>, v: &[u8], voff: usize, bs: usize, vs: usize, last: &Vec<u8>)
    requires
        1 <= bs <= 256,
        4 <= vs <= 256,
        last@.len() == vs,
        voff + bs * vs <= v@.len(),
        voff + bs * vs <= usize::MAX,
    ensures
        final(out)@ == old(out)@ + block_encode(v@, voff as int, bs as int, vs as int, last@, 0, (bs + 15) / 16 * 16),
{
    let aligned = (bs + 15) / 16 * 16;
    let ghost base = old(out)@;
    let mut k: usize = 0;
    while k < vs
        invariant
            k <= vs,
            1 <= bs <= 256,
            4 <= vs <= 256,
            aligned == (bs + 15) / 16 * 16,
            last@.len() == vs,
            voff + bs * vs <= v@.len(),
            voff + bs * vs <= usize::MAX,
            base == old(out)@,
            base + block_encode(v@, voff as int, bs as int, vs as int, last@, 0, aligned as int) == out@
                + block_encode(v@, voff as int, bs as int, vs as int, last@, k as int, aligned as int),
        decreases vs - k,
    {
        let mut buf: Vec<u8> = Vec::new();
        let mut pr = last[k];
        let mut j: usize = 0;
        while j < bs
            invariant
                j <= bs,
                k < vs,
                1 <= bs <= 256,
                4 <= vs <= 256,
                last@.len() == vs,
                voff + bs * vs <= v@.len(),
                voff + bs * vs <= usize::MAX,
                (buf@, pr) == col_deltas(v@, voff + k, vs as int, last@[k as int], j as int),
                buf@.len() == j,
            decreases bs - j,
        {
            assert(j * vs + k < bs * vs && voff + (j * vs + k) == voff + k + j * vs) by (nonlinear_arith)
                requires
                    j < bs,
                    k < vs,
            ;
            let cur = v[voff + (j * vs + k)];
            buf.push(zigzag8_exec(cur.wrapping_sub(pr)));
            pr = cur;
            j += 1;
        }
        let ghost d = buf@;
        let mut z: usize = bs;
        while z < aligned
            invariant
                bs <= z <= aligned,
                aligned <= 256,
                buf@ == d + Seq::new((z - bs) as nat, |i: int| 0u8),
            decreases aligned - z,
        {
            buf.push(0);
            assert(buf@ =~= d + Seq::new((z + 1 - bs) as nat, |i: int| 0u8));
            z += 1;
        }
        let ghost ob = out@;
        encode_column(out, buf.as_slice(), aligned);
        let ghost rest = block_encode(v@, voff as int, bs as int, vs as int, last@, k + 1, aligned as int);
        assert(ob + (column_encode(buf@, aligned as int) + rest) =~= out@ + rest);
        k += 1;
    }
}

/// Encode `vertex_count` vertices of `vertex_size` bytes (a nonzero
/// multiple of 4 up to 256) as a version-0 vertex stream.
#[verifier::rlimit(40)]
pub fn encode_vertex_buffer(vertices: &[u8], vertex_count: usize, vertex_size: usize) -> (r: Result<
    Vec<u8>,
    MeshoptError,
>)
    requires
        vertex_count * vertex_size <= usize::MAX,
    ensures
        !vertex_size_ok(vertex_size) ==> (r matches Err(MeshoptError::Invalid(a)) && a@
            == message(MeshoptArgument::VertexSize(vertex_size))),
        vertex_size_ok(vertex_size) && vertices@.len() < vertex_count * vertex_size ==> (r matches Err(
            MeshoptError::Truncated { what, have, need },
        ) && what == "vertex source" && have == vertices@.len() && need == vertex_count * vertex_size),
        vertex_size_ok(vertex_size) && vertices@.len() >= vertex_count * vertex_size ==> (r matches Ok(out) && out@
            == vertex_stream(vertices@, vertex_count as int, vertex_size as int)),
{
    if vertex_size == 0 || vertex_size > 256 || vertex_size % 4 != 0 {
        return Err(MeshoptError::Invalid(describe(MeshoptArgument::VertexSize(vertex_size))));
    }
    let vs = vertex_size;
    if vertices.len() < vertex_count * vs {
        return Err(MeshoptError::Truncated { what: "vertex source", have: vertices.len(), need: vertex_count * vs });
    }
    let mut out: Vec<u8> = Vec::new();
    out.push(0xa0u8);
    let first: Vec<u8> = if vertex_count > 0 {
        assert(vs <= vertex_count * vs) by (nonlinear_arith)
            requires
                vertex_count > 0,
        ;
        crate::bytes::copy_bytes(&vertices[0..vs])
    } else {
        let mut z: Vec<u8> = Vec::new();
        crate::bytes::push_zeros(&mut z, vs);
        z
    };
    assert(first@ =~= (if vertex_count > 0 { vertices@.subrange(0, vs as int) } else { Seq::new(vs as nat, |i: int| 0u8) }));
    let vbs = block_size_exec(vs);
    let mut last = crate::bytes::copy_bytes(first.as_slice());
    let ghost head = out@;
    let ghost whole = head + encode_blocks(vertices@, 0, first@, vertex_count as int, vs as int, vbs as int);
    let mut vo: usize = 0;
    while vo < vertex_count
        invariant
            vo <= vertex_count,
            4 <= vs <= 256,
            16 <= vbs <= 256,
            vertex_count * vs <= vertices@.len(),
            vertex_count * vs <= usize::MAX,
            last@.len() == vs,
            whole == head + encode_blocks(vertices@, 0, first@, vertex_count as int, vs as int, vbs as int),
            whole == out@ + encode_blocks(vertices@, vo as int, last@, vertex_count - vo, vs as int, vbs as int),
        decreases vertex_count - vo,
    {
        let bs = if vbs < vertex_count - vo { vbs } else { vertex_count - vo };
        assert(vo * vs + bs * vs == (vo + bs) * vs && (vo + bs) * vs <= vertex_count * vs && vs * (bs - 1) + vs
            == vs * bs && vs * bs == bs * vs) by (nonlinear_arith)
            requires
                vo + bs <= vertex_count,
                bs >= 1,
        ;
        let voff = vo * vs;
        let ghost ob = out@;
        encode_block(&mut out, vertices, voff, bs, vs, &last);
        let new_last = crate::bytes::copy_bytes(&vertices[voff + vs * (bs - 1)..voff + vs * bs]);
        let ghost rest = encode_blocks(vertices@, vo + bs, new_last@, vertex_count - vo - bs, vs as int, vbs as int);
        assert(ob + (block_encode(vertices@, voff as int, bs as int, vs as int, last@, 0, (bs + 15) / 16 * 16)
            + rest) =~= out@ + rest);
        last = new_last;
        vo = vo + bs;
    }
    assert(out@ + Seq::<u8>::empty() =~= out@);
    if vs < 32 {
        crate::bytes::push_zeros(&mut out, 32 - vs);
    }
    crate::bytes::push_slice(&mut out, first.as_slice());
    assert(out@ =~= vertex_stream(vertices@, vertex_count as int, vs as int));
    Ok(out)
}

} // verus!
