//! Decoding the vertex stream that the encoder wrote gives back the
//! vertices, proved layer by layer: a group of 16 values, a column, a
//! block, the blocks, the stream.
use vstd::prelude::*;
use crate::bytes::{lemma_stands_at_split, stands_at};
use crate::meshopt::vertex::VertexFault;
use crate::meshopt::vertex::{
    best_bits, bytes_decode, column_encode, enc_val, group_at, group_decode, group_encode, group_vals_from,
    groups_encode, groups_from, header_fold, literals, pack_fold, packed_bytes, sentinel, width_code, col_deltas,
    col_prefix, unzigzag8, zigzag8, block_encode, block_cols, block_rows, block_row, encode_blocks, vertex_blocks,
    vertex_stream, vertex_decode, block_size,
};

verus! {

/// The code of value `j` in a packed group byte.
proof fn lemma_unpack_2(e0: u8, e1: u8, e2: u8, e3: u8, byte: u8)
    requires
        e0 <= 3 && e1 <= 3 && e2 <= 3 && e3 <= 3,
        byte == ((((((((0u8 << 2u8) as u8 | e0) << 2u8) as u8 | e1) << 2u8) as u8 | e2) << 2u8) as u8 | e3),
    ensures
        (byte >> 6u8) & 3u8 == e0,
        (byte >> 4u8) & 3u8 == e1,
        (byte >> 2u8) & 3u8 == e2,
        (byte >> 0u8) & 3u8 == e3,
{
    assert((byte >> 6u8) & 3u8 == e0 && (byte >> 4u8) & 3u8 == e1 && (byte >> 2u8) & 3u8 == e2 && (byte >> 0u8)
        & 3u8 == e3) by (bit_vector)
        requires
            e0 <= 3 && e1 <= 3 && e2 <= 3 && e3 <= 3,
            byte == ((((((((0u8 << 2u8) as u8 | e0) << 2u8) as u8 | e1) << 2u8) as u8 | e2) << 2u8) as u8 | e3),
    ;
}

/// The codes of a byte packed at 4 bits.
proof fn lemma_unpack_4(e0: u8, e1: u8, byte: u8)
    requires
        e0 <= 15 && e1 <= 15,
        byte == ((((0u8 << 4u8) as u8 | e0) << 4u8) as u8 | e1),
    ensures
        (byte >> 4u8) & 15u8 == e0,
        (byte >> 0u8) & 15u8 == e1,
{
    assert((byte >> 4u8) & 15u8 == e0 && (byte >> 0u8) & 15u8 == e1) by (bit_vector)
        requires
            e0 <= 15 && e1 <= 15,
            byte == ((((0u8 << 4u8) as u8 | e0) << 4u8) as u8 | e1),
    ;
}

/// Reading code `j` back from the packed bytes gives `enc_val` of value `j`.
proof fn lemma_packed_code(g: Seq<u8>, bits: int, j: int)
    requires
        bits == 2 || bits == 4,
        g.len() == 16,
        0 <= j < 16,
    ensures
        ({
            let per = 8int / bits;
            let byte = packed_bytes(g, bits, 16int / per)[j / per];
            let mask: u8 = if bits == 2 { 3 } else { 15 };
            (byte >> ((8 - bits * (1 + j % per)) as u8)) & mask == enc_val(g[j], sentinel(bits))
        }),
{
    let s = sentinel(bits);
    if bits == 2 {
        assert(8int / 2 == 4);
        let m = j / 4;
        let k = j % 4;
        assert(0 <= m < 4 && 0 <= k < 4 && j == m * 4 + k);
        lemma_packed_bytes_index(g, 2, 4, m);
        let base = m * 4;
        let e0 = enc_val(g[base], s);
        let e1 = enc_val(g[base + 1], s);
        let e2 = enc_val(g[base + 2], s);
        let e3 = enc_val(g[base + 3], s);
        assert(e0 <= 3 && e1 <= 3 && e2 <= 3 && e3 <= 3);
        let p0 = pack_fold(g, base, 2, 0);
        let p1 = pack_fold(g, base, 2, 1);
        let p2 = pack_fold(g, base, 2, 2);
        let p3 = pack_fold(g, base, 2, 3);
        let byte = pack_fold(g, base, 2, 4);
        assert(p0 == 0u8);
        assert(p1 == ((p0 << 2u8) as u8) | e0);
        assert(p2 == ((p1 << 2u8) as u8) | e1);
        assert(p3 == ((p2 << 2u8) as u8) | e2);
        assert(byte == ((p3 << 2u8) as u8) | e3);
        lemma_unpack_2(e0, e1, e2, e3, byte);
        if k == 0 {
            assert(j == base);
        } else if k == 1 {
            assert(j == base + 1);
        } else if k == 2 {
            assert(j == base + 2);
        } else {
            assert(j == base + 3);
        }
    } else {
        assert(8int / 4 == 2);
        let m = j / 2;
        let k = j % 2;
        assert(0 <= m < 8 && 0 <= k < 2 && j == m * 2 + k);
        lemma_packed_bytes_index(g, 4, 8, m);
        let base = m * 2;
        let e0 = enc_val(g[base], s);
        let e1 = enc_val(g[base + 1], s);
        assert(e0 <= 15 && e1 <= 15);
        let p0 = pack_fold(g, base, 4, 0);
        let p1 = pack_fold(g, base, 4, 1);
        let byte = pack_fold(g, base, 4, 2);
        assert(p0 == 0u8);
        assert(p1 == ((p0 << 4u8) as u8) | e0);
        assert(byte == ((p1 << 4u8) as u8) | e1);
        lemma_unpack_4(e0, e1, byte);
        if k == 0 {
            assert(j == base);
        } else {
            assert(j == base + 1);
        }
    }
}

/// Packed byte `m` is the fold of its values.
proof fn lemma_packed_bytes_index(g: Seq<u8>, bits: int, n: int, m: int)
    requires
        bits == 2 || bits == 4,
        0 <= m < n,
    ensures
        packed_bytes(g, bits, n).len() == n,
        packed_bytes(g, bits, n)[m] == pack_fold(g, m * (8int / bits), bits, 8int / bits),
    decreases n,
{
    lemma_packed_bytes_len(g, bits, n - 1);
    if m < n - 1 {
        lemma_packed_bytes_index(g, bits, n - 1, m);
    }
}

/// There are `n` packed bytes.
proof fn lemma_packed_bytes_len(g: Seq<u8>, bits: int, n: int)
    requires
        n >= 0,
    ensures
        packed_bytes(g, bits, n).len() == n,
    decreases n,
{
    if n > 0 {
        lemma_packed_bytes_len(g, bits, n - 1);
    }
}

/// The literals of the first `j` values begin those of the first `n`.
proof fn lemma_literals_prefix(g: Seq<u8>, s: u8, j: int, n: int)
    requires
        0 <= j <= n,
    ensures
        literals(g, s, j).len() <= literals(g, s, n).len(),
        literals(g, s, n).subrange(0, literals(g, s, j).len() as int) == literals(g, s, j),
        literals(g, s, n).len() <= n - j + literals(g, s, j).len(),
    decreases n - j,
{
    if j < n {
        lemma_literals_prefix(g, s, j, n - 1);
        let a = literals(g, s, n - 1);
        let k = literals(g, s, j).len() as int;
        if g[n - 1] >= s {
            assert(a.push(g[n - 1]).subrange(0, k) =~= a.subrange(0, k));
        }
    } else {
        assert(literals(g, s, n).subrange(0, literals(g, s, n).len() as int) =~= literals(g, s, n));
    }
}

/// A value that needs a literal finds it right after the literals before it.
proof fn lemma_literal_at(g: Seq<u8>, s: u8, j: int, n: int)
    requires
        0 <= j < n,
        g[j] >= s,
    ensures
        literals(g, s, j).len() < literals(g, s, n).len(),
        literals(g, s, n)[literals(g, s, j).len() as int] == g[j],
{
    lemma_literals_prefix(g, s, j + 1, n);
    let k = literals(g, s, j).len() as int;
    assert(literals(g, s, j + 1) == literals(g, s, j).push(g[j]));
    assert(literals(g, s, n).subrange(0, k + 1)[k] == g[j]);
}

/// Values `j..16` of a packed group decode back, with the literals read in
/// order.
proof fn lemma_group_vals(data: Seq<u8>, q: int, g: Seq<u8>, bits: int, j: int)
    requires
        bits == 2 || bits == 4,
        g.len() == 16,
        0 <= j <= 16,
        stands_at(data, q, packed_bytes(g, bits, 16int / (8int / bits)) + literals(g, sentinel(bits), 16)),
    ensures
        ({
            let nb = 16int / (8int / bits);
            let s = sentinel(bits);
            group_vals_from(data, q, bits, j, q + nb + literals(g, s, j).len()) == (
                g.subrange(j, 16),
                q + nb + literals(g, s, 16).len(),
            )
        }),
    decreases 16 - j,
{
    let per = 8int / bits;
    let nb = 16int / per;
    let s = sentinel(bits);
    let pk = packed_bytes(g, bits, nb);
    let lit = literals(g, s, 16);
    lemma_stands_at_split(data, q, pk, lit);
    lemma_packed_bytes_len(g, bits, nb);
    if j < 16 {
        let dv = q + nb + literals(g, s, j).len();
        lemma_packed_code(g, bits, j);
        if bits == 2 {
            assert(per == 4);
            assert(16int / 4 == 4);
            assert(nb == 4);
            assert(j / 4 < 4) by (nonlinear_arith)
                requires
                    0 <= j < 16,
            ;
        } else {
            assert(per == 2);
            assert(16int / 2 == 8);
            assert(nb == 8);
            assert(j / 2 < 8) by (nonlinear_arith)
                requires
                    0 <= j < 16,
            ;
        }
        assert(data[q + j / per] == data.subrange(q, q + pk.len())[j / per]);
        let mask: u8 = if bits == 2 { 3 } else { 15 };
        let enc = (data[q + j / per] >> ((8 - bits * (1 + j % per)) as u8)) & mask;
        assert(enc == enc_val(g[j], s));
        if enc == mask {
            lemma_literal_at(g, s, j, 16);
            assert(data[dv] == data.subrange(q + nb, q + nb + lit.len())[literals(g, s, j).len() as int]);
            assert(literals(g, s, j + 1) == literals(g, s, j).push(g[j]));
        } else {
            assert(literals(g, s, j + 1) == literals(g, s, j));
        }
        lemma_group_vals(data, q, g, bits, j + 1);
        assert(seq![g[j]] + g.subrange(j + 1, 16) =~= g.subrange(j, 16));
    } else {
        assert(g.subrange(16, 16) =~= Seq::<u8>::empty());
    }
}

/// A group of 16 values decodes back from its encoding at the width the
/// encoder picks.
pub proof fn lemma_group_round_trip(data: Seq<u8>, q: int, g: Seq<u8>)
    requires
        g.len() == 16,
        stands_at(data, q, group_encode(g, best_bits(g))),
    ensures
        group_decode(data, q, width_code(best_bits(g))) == (g, q + group_encode(g, best_bits(g)).len()),
{
    let bits = best_bits(g);
    assert(bits == 1 || bits == 2 || bits == 4 || bits == 8);
    let enc = group_encode(g, bits);
    if bits == 1 {
        assert(forall|i: int| 0 <= i < 16 ==> g[i] == 0);
        assert(g =~= Seq::new(16, |i: int| 0u8));
        assert(width_code(bits) == 0u8);
        assert(enc.len() == 0);
    } else if bits == 8 {
        assert(width_code(bits) == 3u8);
        assert(enc == g.subrange(0, 16));
        assert(g.subrange(0, 16) =~= g);
        assert(data.subrange(q, q + 16) == g);
    } else if bits == 2 {
        assert(8int / 2 == 4 && 16int / 4 == 4);
        lemma_packed_bytes_len(g, 2, 4);
        lemma_group_vals(data, q, g, 2, 0);
        assert(literals(g, sentinel(2), 0).len() == 0);
        assert(g.subrange(0, 16) =~= g);
        assert(width_code(bits) == 1u8);
    } else {
        assert(8int / 4 == 2 && 16int / 2 == 8);
        lemma_packed_bytes_len(g, 4, 8);
        lemma_group_vals(data, q, g, 4, 0);
        assert(literals(g, sentinel(4), 0).len() == 0);
        assert(g.subrange(0, 16) =~= g);
        assert(width_code(bits) == 2u8);
    }
}

/// The two-bit codes of a header byte read back.
proof fn lemma_header_bits(c0: u8, c1: u8, c2: u8, c3: u8, hb: u8)
    requires
        c0 <= 3 && c1 <= 3 && c2 <= 3 && c3 <= 3,
        hb == ((((0u8 | ((c0 << 0u8) as u8)) | ((c1 << 2u8) as u8)) | ((c2 << 4u8) as u8)) | ((c3 << 6u8) as u8)),
    ensures
        (hb >> 0u8) & 3u8 == c0,
        (hb >> 2u8) & 3u8 == c1,
        (hb >> 4u8) & 3u8 == c2,
        (hb >> 6u8) & 3u8 == c3,
{
    assert((hb >> 0u8) & 3u8 == c0 && (hb >> 2u8) & 3u8 == c1 && (hb >> 4u8) & 3u8 == c2 && (hb >> 6u8) & 3u8
        == c3) by (bit_vector)
        requires
            c0 <= 3 && c1 <= 3 && c2 <= 3 && c3 <= 3,
            hb == ((((0u8 | ((c0 << 0u8) as u8)) | ((c1 << 2u8) as u8)) | ((c2 << 4u8) as u8)) | ((c3 << 6u8) as u8)),
    ;
}

/// The width code of group `g` read back from its header byte.
proof fn lemma_header_code(buf: Seq<u8>, ng: int, g: int)
    requires
        0 <= g < ng,
    ensures
        (header_fold(buf, ng, g / 4, 4) >> (((g % 4) * 2) as u8)) & 3u8 == width_code(best_bits(group_at(buf, g))),
{
    let i = g / 4;
    let k = g % 4;
    assert(0 <= k < 4 && g == 4 * i + k);
    let code = |x: int| if x < ng { width_code(best_bits(group_at(buf, x))) } else { 0u8 };
    let c0 = code(4 * i);
    let c1 = code(4 * i + 1);
    let c2 = code(4 * i + 2);
    let c3 = code(4 * i + 3);
    assert(c0 <= 3 && c1 <= 3 && c2 <= 3 && c3 <= 3);
    let h0 = header_fold(buf, ng, i, 0);
    let h1 = header_fold(buf, ng, i, 1);
    let h2 = header_fold(buf, ng, i, 2);
    let h3 = header_fold(buf, ng, i, 3);
    let h4 = header_fold(buf, ng, i, 4);
    assert(h0 == 0u8);
    assert(((0u8 << 0u8) as u8) == 0u8 && ((0u8 << 2u8) as u8) == 0u8 && ((0u8 << 4u8) as u8) == 0u8
        && ((0u8 << 6u8) as u8) == 0u8) by (bit_vector);
    assert(h1 == h0 | ((c0 << 0u8) as u8)) by {
        if 4 * i < ng {} else {}
    }
    assert(h2 == h1 | ((c1 << 2u8) as u8)) by {
        if 4 * i + 1 < ng {} else {}
    }
    assert(h3 == h2 | ((c2 << 4u8) as u8)) by {
        if 4 * i + 2 < ng {} else {}
    }
    assert(h4 == h3 | ((c3 << 6u8) as u8)) by {
        if 4 * i + 3 < ng {} else {}
    }
    lemma_header_bits(c0, c1, c2, c3, h4);
    if k == 0 {
        assert(g == 4 * i);
    } else if k == 1 {
        assert(g == 4 * i + 1);
    } else if k == 2 {
        assert(g == 4 * i + 2);
    } else {
        assert(g == 4 * i + 3);
    }
}

/// The encodings of the first `g` groups begin those of the first `n`.
proof fn lemma_groups_encode_prefix(buf: Seq<u8>, g: int, n: int)
    requires
        0 <= g <= n,
    ensures
        groups_encode(buf, n).len() >= groups_encode(buf, g).len(),
        groups_encode(buf, n).subrange(0, groups_encode(buf, g).len() as int) == groups_encode(buf, g),
    decreases n - g,
{
    if g < n {
        lemma_groups_encode_prefix(buf, g, n - 1);
        let a = groups_encode(buf, n - 1);
        let k = groups_encode(buf, g).len() as int;
        let e = group_encode(group_at(buf, n - 1), best_bits(group_at(buf, n - 1)));
        assert((a + e).subrange(0, k) =~= a.subrange(0, k));
    } else {
        assert(groups_encode(buf, n).subrange(0, groups_encode(buf, n).len() as int) =~= groups_encode(buf, n));
    }
}

/// Groups `g..ng` of a column decode back.
proof fn lemma_groups_round_trip(data: Seq<u8>, p: int, hs: int, buf: Seq<u8>, g: int, ng: int)
    requires
        0 <= g <= ng,
        buf.len() == 16 * ng,
        0 <= p,
        stands_at(data, p + hs, groups_encode(buf, ng)),
        data.len() >= p + hs + groups_encode(buf, ng).len() + 24,
        forall|x: int| 0 <= x < ng ==> (#[trigger] data[p + x / 4] >> (((x % 4) * 2) as u8)) & 3u8 == width_code(
            best_bits(group_at(buf, x)),
        ),
    ensures
        groups_from(data, p, p + hs + groups_encode(buf, g).len(), g, ng) == Ok::<(Seq<u8>, int), VertexFault>(
            (buf.subrange(16 * g, 16 * ng), p + hs + groups_encode(buf, ng).len()),
        ),
    decreases ng - g,
{
    let q = p + hs + groups_encode(buf, g).len();
    if g < ng {
        lemma_groups_encode_prefix(buf, g + 1, ng);
        lemma_groups_encode_prefix(buf, g, g + 1);
        let all = groups_encode(buf, ng);
        let gi = group_at(buf, g);
        let e = group_encode(gi, best_bits(gi));
        let before = groups_encode(buf, g);
        assert(groups_encode(buf, g + 1) == before + e);
        assert(stands_at(data, q, e)) by {
            assert forall|i: int| 0 <= i < e.len() implies data[q + i] == e[i] by {
                assert(data[q + i] == data.subrange(p + hs, p + hs + all.len())[before.len() + i]);
                assert(all.subrange(0, groups_encode(buf, g + 1).len() as int)[before.len() + i] == (before + e)[
                before.len() + i]);
            }
            assert(data.subrange(q, q + e.len()) =~= e);
        }
        lemma_group_round_trip(data, q, gi);
        lemma_groups_round_trip(data, p, hs, buf, g + 1, ng);
        assert(gi + buf.subrange(16 * (g + 1), 16 * ng) =~= buf.subrange(16 * g, 16 * ng));
    } else {
        assert(buf.subrange(16 * ng, 16 * ng) =~= Seq::<u8>::empty());
    }
}

/// A column decodes back from its encoding when at least 24 bytes follow
/// it.
pub proof fn lemma_column_round_trip(data: Seq<u8>, p: int, buf: Seq<u8>, size: int)
    requires
        0 < size <= 256,
        size % 16 == 0,
        buf.len() == size,
        stands_at(data, p, column_encode(buf, size)),
        data.len() >= p + column_encode(buf, size).len() + 24,
    ensures
        bytes_decode(data, p, size) == Ok::<(Seq<u8>, int), VertexFault>(
            (buf, p + column_encode(buf, size).len()),
        ),
{
    let ng = size / 16;
    let hs = (ng + 3) / 4;
    let hdr = Seq::new(hs as nat, |i: int| header_fold(buf, ng, i, 4));
    let ge = groups_encode(buf, ng);
    assert(column_encode(buf, size) == hdr + ge);
    lemma_stands_at_split(data, p, hdr, ge);
    assert forall|x: int| 0 <= x < ng implies (#[trigger] data[p + x / 4] >> (((x % 4) * 2) as u8)) & 3u8
        == width_code(best_bits(group_at(buf, x))) by {
        assert(x / 4 < hs);
        assert(data[p + x / 4] == data.subrange(p, p + hdr.len())[x / 4]);
        lemma_header_code(buf, ng, x);
    }
    lemma_groups_round_trip(data, p, hs, buf, 0, ng);
    assert(groups_encode(buf, 0).len() == 0);
    assert(buf.subrange(0, 16 * ng) =~= buf);
}

/// The value before row `i` of a column: `start` before the first.
pub open spec fn prev_val(v: Seq<u8>, base: int, vs: int, start: u8, i: int) -> u8 {
    if i == 0 { start } else { v[base + (i - 1) * vs] }
}

/// The column deltas are the zig-zag codes of each value's wrapping
/// difference from the one before.
proof fn lemma_col_deltas(v: Seq<u8>, base: int, vs: int, start: u8, n: int)
    requires
        n >= 0,
    ensures
        col_deltas(v, base, vs, start, n).0.len() == n,
        col_deltas(v, base, vs, start, n).1 == prev_val(v, base, vs, start, n),
        forall|i: int| 0 <= i < n ==> #[trigger] col_deltas(v, base, vs, start, n).0[i] == zigzag8(
            ((v[base + i * vs] - prev_val(v, base, vs, start, i) + 256) % 256) as u8,
        ),
    decreases n,
{
    if n > 0 {
        lemma_col_deltas(v, base, vs, start, n - 1);
    }
}

/// Zig-zag decoding undoes zig-zag encoding, and adding a wrapping
/// difference back gives the value.
proof fn lemma_delta_round_trip(cur: u8, pr: u8)
    ensures
        ((unzigzag8(zigzag8(((cur - pr + 256) % 256) as u8)) + pr) % 256) as u8 == cur,
{
    let x = ((cur - pr + 256) % 256) as u8;
    assert(unzigzag8(zigzag8(x)) == x) by (bit_vector);
}

/// Prefix sums of a column's deltas give back its values.
proof fn lemma_col_values(v: Seq<u8>, base: int, vs: int, start: u8, bs: int, aligned: int, j: int)
    requires
        0 <= j <= bs <= aligned,
    ensures
        ({
            let d = col_deltas(v, base, vs, start, bs).0;
            let buf = d + Seq::new((aligned - bs) as nat, |i: int| 0u8);
            col_prefix(buf, start, j) == (Seq::new(j as nat, |i: int| v[base + i * vs]), prev_val(v, base, vs, start, j))
        }),
    decreases j,
{
    let d = col_deltas(v, base, vs, start, bs).0;
    let buf = d + Seq::new((aligned - bs) as nat, |i: int| 0u8);
    lemma_col_deltas(v, base, vs, start, bs);
    if j > 0 {
        lemma_col_values(v, base, vs, start, bs, aligned, j - 1);
        assert(buf[j - 1] == d[j - 1]);
        lemma_delta_round_trip(v[base + (j - 1) * vs], prev_val(v, base, vs, start, j - 1));
        assert(Seq::new((j - 1) as nat, |i: int| v[base + i * vs]).push(v[base + (j - 1) * vs]) =~= Seq::new(
            j as nat,
            |i: int| v[base + i * vs],
        ));
    } else {
        assert(Seq::new(0, |i: int| v[base + i * vs]) =~= Seq::<u8>::empty());
    }
}

/// The column `k` of a block as written: byte `k` of each of its vertices.
pub open spec fn block_col(v: Seq<u8>, voff: int, vs: int, bs: int, k: int) -> Seq<u8> {
    Seq::new(bs as nat, |j: int| v[voff + k + j * vs])
}

/// Columns `k..vs` of a block decode back from their encodings.
proof fn lemma_block_cols(
    data: Seq<u8>,
    p: int,
    v: Seq<u8>,
    voff: int,
    bs: int,
    vs: int,
    last: Seq<u8>,
    k: int,
)
    requires
        0 <= k <= vs,
        1 <= bs <= 256,
        stands_at(data, p, block_encode(v, voff, bs, vs, last, k, (bs + 15) / 16 * 16)),
        data.len() >= p + block_encode(v, voff, bs, vs, last, k, (bs + 15) / 16 * 16).len() + 24,
    ensures
        block_cols(data, p, last, k, bs, vs, (bs + 15) / 16 * 16) == Ok::<(Seq<Seq<u8>>, int), VertexFault>(
            (
                Seq::new((vs - k) as nat, |x: int| block_col(v, voff, vs, bs, k + x)),
                p + block_encode(v, voff, bs, vs, last, k, (bs + 15) / 16 * 16).len(),
            ),
        ),
    decreases vs - k,
{
    let aligned = (bs + 15) / 16 * 16;
    if k < vs {
        let d = col_deltas(v, voff + k, vs, last[k], bs).0;
        lemma_col_deltas(v, voff + k, vs, last[k], bs);
        let buf = d + Seq::new((aligned - bs) as nat, |i: int| 0u8);
        let ce = crate::meshopt::vertex::column_encode(buf, aligned);
        let rest = block_encode(v, voff, bs, vs, last, k + 1, aligned);
        assert(block_encode(v, voff, bs, vs, last, k, aligned) == ce + rest);
        lemma_stands_at_split(data, p, ce, rest);
        assert(16 <= aligned <= 256 && aligned % 16 == 0 && bs <= aligned) by (nonlinear_arith)
            requires
                1 <= bs <= 256,
                aligned == (bs + 15) / 16 * 16,
        ;
        lemma_column_round_trip(data, p, buf, aligned);
        lemma_col_values(v, voff + k, vs, last[k], bs, aligned, bs);
        assert(Seq::new(bs as nat, |i: int| v[voff + k + i * vs]) =~= block_col(v, voff, vs, bs, k));
        lemma_block_cols(data, p + ce.len(), v, voff, bs, vs, last, k + 1);
        assert(seq![block_col(v, voff, vs, bs, k)] + Seq::new((vs - k - 1) as nat, |x: int| block_col(v, voff, vs, bs, k + 1 + x))
            =~= Seq::new((vs - k) as nat, |x: int| block_col(v, voff, vs, bs, k + x)));
    } else {
        assert(Seq::new(0, |x: int| block_col(v, voff, vs, bs, k + x)) =~= Seq::<Seq<u8>>::empty());
    }
}

/// Vertex `j` of a block read row-wise from its columns is the vertex as
/// written.
proof fn lemma_block_row(v: Seq<u8>, voff: int, vs: int, bs: int, j: int)
    requires
        0 <= voff,
        1 <= vs,
        0 <= j < bs,
        voff + bs * vs <= v.len(),
    ensures
        block_row(Seq::new(vs as nat, |x: int| block_col(v, voff, vs, bs, x)), j) == v.subrange(
            voff + j * vs,
            voff + j * vs + vs,
        ),
{
    let cols = Seq::new(vs as nat, |x: int| block_col(v, voff, vs, bs, x));
    assert(voff + j * vs + vs <= voff + bs * vs) by (nonlinear_arith)
        requires
            0 <= j < bs,
            1 <= vs,
    ;
    assert forall|k: int| 0 <= k < vs implies #[trigger] block_row(cols, j)[k] == v.subrange(
        voff + j * vs,
        voff + j * vs + vs,
    )[k] by {
        assert(cols[k][j] == v[voff + k + j * vs]);
    }
    assert(block_row(cols, j) =~= v.subrange(voff + j * vs, voff + j * vs + vs));
}

/// The first `j` vertices of a block, read row by row from its columns,
/// are the bytes of those vertices as written.
proof fn lemma_block_rows(v: Seq<u8>, voff: int, vs: int, bs: int, j: int)
    requires
        0 <= voff,
        1 <= vs,
        0 <= j <= bs,
        voff + bs * vs <= v.len(),
    ensures
        block_rows(Seq::new(vs as nat, |x: int| block_col(v, voff, vs, bs, x)), j) == v.subrange(
            voff,
            voff + j * vs,
        ),
    decreases j,
{
    let cols = Seq::new(vs as nat, |x: int| block_col(v, voff, vs, bs, x));
    if j > 0 {
        lemma_block_rows(v, voff, vs, bs, j - 1);
        lemma_block_row(v, voff, vs, bs, j - 1);
        assert((j - 1) * vs + vs == j * vs && 0 <= (j - 1) * vs && j * vs <= bs * vs) by (nonlinear_arith)
            requires
                1 <= j <= bs,
                1 <= vs,
        ;
        assert(v.subrange(voff, voff + (j - 1) * vs) + v.subrange(voff + (j - 1) * vs, voff + j * vs) =~= v.subrange(
            voff,
            voff + j * vs,
        ));
    } else {
        assert(v.subrange(voff, voff + 0 * vs) =~= Seq::<u8>::empty());
    }
}

/// The last `r` vertices from vertex `vo` decode back from their blocks,
/// when at least 24 bytes follow them.
proof fn lemma_blocks_round_trip(data: Seq<u8>, p: int, v: Seq<u8>, vo: int, last: Seq<u8>, r: int, vs: int, vbs: int)
    requires
        0 <= vo,
        0 <= r,
        1 <= vs,
        1 <= vbs <= 256,
        (vo + r) * vs <= v.len(),
        stands_at(data, p, encode_blocks(v, vo, last, r, vs, vbs)),
        data.len() >= p + encode_blocks(v, vo, last, r, vs, vbs).len() + 24,
    ensures
        vertex_blocks(data, p, last, r, vs, vbs) matches Ok((out, l, q)) && out == v.subrange(vo * vs, (vo + r) * vs)
            && q == p + encode_blocks(v, vo, last, r, vs, vbs).len(),
    decreases r,
{
    if r > 0 {
        let bs = if vbs < r { vbs } else { r };
        let aligned = (bs + 15) / 16 * 16;
        let voff = vo * vs;
        let nl = v.subrange(voff + vs * (bs - 1), voff + vs * bs);
        let be = block_encode(v, voff, bs, vs, last, 0, aligned);
        let rest = encode_blocks(v, vo + bs, nl, r - bs, vs, vbs);
        assert(encode_blocks(v, vo, last, r, vs, vbs) == be + rest);
        lemma_stands_at_split(data, p, be, rest);
        assert(0 <= voff && voff + bs * vs <= v.len() && vs * (bs - 1) == (bs - 1) * vs && vs * bs == bs * vs
            && voff + bs * vs == (vo + bs) * vs && (vo + bs + (r - bs)) * vs == (vo + r) * vs && (bs - 1) * vs + vs
            == bs * vs && (vo + bs) * vs <= (vo + r) * vs && 0 <= voff) by (nonlinear_arith)
            requires
                0 <= vo,
                1 <= bs <= r,
                1 <= vs,
                voff == vo * vs,
                (vo + r) * vs <= v.len(),
        ;
        lemma_block_cols(data, p, v, voff, bs, vs, last, 0);
        let cols = Seq::new(vs as nat, |x: int| block_col(v, voff, vs, bs, x));
        assert(Seq::new((vs - 0) as nat, |x: int| block_col(v, voff, vs, bs, 0 + x)) =~= cols);
        lemma_block_rows(v, voff, vs, bs, bs);
        lemma_block_row(v, voff, vs, bs, bs - 1);
        assert(voff + (bs - 1) * vs + vs == voff + bs * vs);
        lemma_blocks_round_trip(data, p + be.len(), v, vo + bs, nl, r - bs, vs, vbs);
        assert(v.subrange(voff, voff + bs * vs) + v.subrange((vo + bs) * vs, (vo + r) * vs) =~= v.subrange(
            vo * vs,
            (vo + r) * vs,
        ));
    } else {
        assert(v.subrange(vo * vs, (vo + r) * vs) =~= Seq::<u8>::empty());
    }
}

/// Decoding the stream that `encode_vertex_buffer` writes for `count`
/// vertices of `vs` bytes (a nonzero multiple of 4 up to 256) gives back
/// the first `count * vs` bytes of the vertices.
pub proof fn lemma_vertex_round_trip(v: Seq<u8>, count: int, vs: int)
    requires
        0 <= count,
        0 < vs <= 256,
        vs % 4 == 0,
        count * vs <= v.len(),
    ensures
        vertex_stream(v, count, vs).len() >= 1 + vs,
        vertex_stream(v, count, vs)[0] == 0xa0u8,
        vertex_decode(vertex_stream(v, count, vs), count, vs) == Ok::<Seq<u8>, VertexFault>(v.subrange(0, count * vs)),
{
    let vbs = block_size(vs);
    assert(8192int / vs >= 32) by (nonlinear_arith)
        requires
            0 < vs <= 256,
    ;
    assert(16 <= vbs <= 256);
    let first = if count > 0 { v.subrange(0, vs) } else { Seq::new(vs as nat, |i: int| 0u8) };
    if count > 0 {
        assert(vs <= count * vs) by (nonlinear_arith)
            requires
                count > 0,
                vs > 0,
        ;
    }
    let eb = encode_blocks(v, 0, first, count, vs, vbs);
    let pad = Seq::new((if vs < 32 { 32 - vs } else { 0 }) as nat, |i: int| 0u8);
    let b = vertex_stream(v, count, vs);
    assert(b == seq![0xa0u8] + eb + pad + first);
    let n = b.len();
    assert(n == 1 + eb.len() + pad.len() + vs);
    assert(b.subrange(n - vs, n as int) =~= first);
    assert(b.subrange(1, 1 + eb.len() as int) =~= eb);
    lemma_blocks_round_trip(b, 1, v, 0, first, count, vs, vbs);
    assert(0 * vs == 0 && (0 + count) * vs == count * vs);
}

} // verus!
