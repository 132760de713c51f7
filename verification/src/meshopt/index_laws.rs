//! Decoding the index buffer that the encoder wrote gives back every
//! triangle, possibly rotated to start at another of its vertices: the
//! decoder's FIFOs and counters follow the encoder's step by step.
use vstd::prelude::*;
use crate::meshopt::index::{code_aux_table, idx_run, idx_start, idx_step, tri_indices, IdxState, IdxStep, Tri};
use crate::meshopt::index::read_free;
use crate::meshopt::index_encode::{
    edge_find, enc_free, enc_run, enc_start, enc_step, index_stream, rotate, table_find, vertex_find, EncState,
};
use crate::meshopt::vbyte::{lemma_vbyte_in_bounds, lemma_vbyte_round_trip, lemma_zigzag_round_trip};
use crate::bytes::{lemma_stands_at_split, stands_at};
use crate::meshopt::{wrap_add, wrap_sub};

verus! {

/// The decoder state `ds` follows the encoder state `es`: the same
/// offsets and counters, the same edges, and the same vertex FIFO except
/// at the slot written next, and (format version 1) where a restart
/// cleared the encoder's FIFO.
pub open spec fn follows(es: EncState, ds: IdxState, version: int) -> bool {
    &&& es.ef.len() == 16 && ds.ef.len() == 16 && es.vf.len() == 16 && ds.vf.len() == 16
    &&& 0 <= es.eo < 16 && es.eo == ds.eo
    &&& 0 <= es.vo < 16 && es.vo == ds.vo
    &&& es.next == ds.next && es.last == ds.last
    &&& forall|i: int| #![trigger es.ef[i]] 0 <= i < 16 ==> es.ef[i].0 == ds.ef[i].0 && es.ef[i].1 == ds.ef[i].1
    &&& forall|i: int|
        #![trigger es.vf[i]]
        0 <= i < 16 && i != es.vo ==> es.vf[i] == ds.vf[i] || (version >= 1 && es.vf[i] == u32::MAX)
}

/// `(x, y, z)` is the triangle `(t0, t1, t2)` started at one of its
/// vertices, with the winding kept.
pub open spec fn is_rotation(x: u32, y: u32, z: u32, t0: u32, t1: u32, t2: u32) -> bool {
    (x, y, z) == rotate(t0, t1, t2, 0) || (x, y, z) == rotate(t0, t1, t2, 1) || (x, y, z) == rotate(t0, t1, t2, 2)
}

/// The first `n` indices of `out` are those of `ix`, each triangle
/// possibly rotated.
pub open spec fn rotated_triangles(out: Seq<u32>, ix: Seq<u32>, n: int) -> bool {
    &&& out.len() == n
    &&& forall|k: int|
        0 <= k < n / 3 ==> #[trigger] is_rotation(
            out[3 * k],
            out[3 * k + 1],
            out[3 * k + 2],
            ix[3 * k],
            ix[3 * k + 1],
            ix[3 * k + 2],
        )
}

/// An edge the search finds is the `k`-th edge of the triangle, `back`
/// entries back.
proof fn lemma_edge_found(ef: Seq<(u32, u32)>, eo: int, a: u32, b: u32, c: u32, i: int)
    requires
        0 <= i,
    ensures
        ({
            let r = edge_find(ef, eo, a, b, c, i);
            r == -1 || ({
                let e = ef[(eo - 1 - r / 4) % 16];
                &&& i <= r / 4 < 16
                &&& r % 4 <= 2
                &&& r % 4 == 0 ==> e.0 == a && e.1 == b
                &&& r % 4 == 1 ==> e.0 == b && e.1 == c
                &&& r % 4 == 2 ==> e.0 == c && e.1 == a
            })
        }),
    decreases 16 - i,
{
    if i < 16 {
        let e = ef[(eo - 1 - i) % 16];
        if e.0 == a && e.1 == b {
            assert((i * 4) / 4 == i && (i * 4) % 4 == 0);
        } else if e.0 == b && e.1 == c {
            assert((i * 4 + 1) / 4 == i && (i * 4 + 1) % 4 == 1);
        } else if e.0 == c && e.1 == a {
            assert((i * 4 + 2) / 4 == i && (i * 4 + 2) % 4 == 2);
        } else {
            lemma_edge_found(ef, eo, a, b, c, i + 1);
        }
    }
}

/// A vertex the search finds stands that far back.
proof fn lemma_vertex_found(vf: Seq<u32>, vo: int, v: u32, i: int)
    requires
        0 <= i,
    ensures
        vertex_find(vf, vo, v, i) == -1 || (i <= vertex_find(vf, vo, v, i) < 16 && vf[(vo - 1 - vertex_find(
            vf,
            vo,
            v,
            i,
        )) % 16] == v),
    decreases 16 - i,
{
    if i < 16 && vf[(vo - 1 - i) % 16] != v {
        lemma_vertex_found(vf, vo, v, i + 1);
    }
}

/// A vertex other than `u32::MAX` is not found in a cleared FIFO.
proof fn lemma_vertex_not_in_cleared(vo: int, v: u32, i: int)
    requires
        0 <= i,
        v != u32::MAX,
    ensures
        vertex_find(Seq::new(16, |j: int| u32::MAX), vo, v, i) == -1,
    decreases 16 - i,
{
    if i < 16 {
        lemma_vertex_not_in_cleared(vo, v, i + 1);
    }
}

/// A table entry the search finds holds the value.
proof fn lemma_table_found(table: Seq<u8>, v: u8, i: int)
    requires
        0 <= i,
    ensures
        table_find(table, v, i) == -1 || (i <= table_find(table, v, i) < 16 && table_find(table, v, i)
            < table.len() && table[table_find(table, v, i)] == v),
    decreases 16 - i,
{
    if 0 <= i < 16 && i < table.len() && table[i] != v {
        lemma_table_found(table, v, i + 1);
    }
}

/// Adding back a wrapping difference gives the value.
proof fn lemma_wrap_back(v: u32, last: u32)
    ensures
        wrap_add(last, wrap_sub(v, last)) == v,
{
}

/// Reading an explicit vertex where the encoder wrote it gives the vertex
/// back, after exactly the bytes written.
proof fn lemma_read_free(data: Seq<u8>, dp: int, v: u32, last: u32, go: bool)
    requires
        stands_at(data, dp, enc_free(v, last, go).0),
    ensures
        read_free(data, dp, last, go) == Ok::<(u32, int), usize>(
            (enc_free(v, last, go).1, dp + enc_free(v, last, go).0.len()),
        ),
{
    if go {
        let w = crate::meshopt::vbyte::zigzag(wrap_sub(v, last));
        lemma_vbyte_in_bounds(w, data, dp);
        lemma_vbyte_round_trip(w, data, dp);
        lemma_zigzag_round_trip(wrap_sub(v, last));
        lemma_wrap_back(v, last);
    }
}

/// The code byte of an edge triangle splits back into the edge's
/// distance and the vertex code.
proof fn lemma_edge_code(fe: u8, fec: u8, x: u8)
    requires
        fe < 15,
        fec < 16,
        x == fe * 16 + fec,
    ensures
        x < 0xf0,
        (x >> 4u8) == fe,
        (x & 15u8) == fec,
{
    assert(x < 0xf0 && (x >> 4u8) == fe && (x & 15u8) == fec) by (bit_vector)
        requires
            fe < 15,
            fec < 16,
            x == fe * 16 + fec,
    ;
}

/// A triangle the encoder codes against an edge decodes to that triangle,
/// rotated, and the decoder keeps following the encoder.
#[verifier::rlimit(60)]
#[verifier::spinoff_prover]
proof fn lemma_edge_step(
    es: EncState,
    ds: IdxState,
    t0: u32,
    t1: u32,
    t2: u32,
    code: Seq<u8>,
    data: Seq<u8>,
    table: Seq<u8>,
    fecmax: int,
    version: int,
)
    requires
        follows(es, ds, version),
        0 <= version <= 1,
        fecmax == (if version >= 1 { 13int } else { 15int }),
        version >= 1 ==> t0 != u32::MAX && t1 != u32::MAX && t2 != u32::MAX,
        edge_find(es.ef, es.eo, t0, t1, t2, 0) >= 0,
        edge_find(es.ef, es.eo, t0, t1, t2, 0) / 4 < 15,
        0 <= ds.cp < code.len(),
        code[ds.cp] == crate::meshopt::index_encode::enc_edge(
            es,
            t0,
            t1,
            t2,
            edge_find(es.ef, es.eo, t0, t1, t2, 0),
            fecmax,
            version,
        ).1,
        stands_at(
            data,
            ds.dp,
            crate::meshopt::index_encode::enc_edge(es, t0, t1, t2, edge_find(es.ef, es.eo, t0, t1, t2, 0), fecmax, version).2,
        ),
    ensures
        ({
            let r = crate::meshopt::index_encode::enc_edge(
                es,
                t0,
                t1,
                t2,
                edge_find(es.ef, es.eo, t0, t1, t2, 0),
                fecmax,
                version,
            );
            idx_step(ds, code, data, table, fecmax) matches IdxStep::Step(ds2, t) && follows(r.0, ds2, version)
                && ds2.cp == ds.cp + 1 && ds2.dp == ds.dp + r.2.len() && is_rotation(t.0, t.1, t.2, t0, t1, t2)
        }),
{
    reveal(idx_step);
    let fer = edge_find(es.ef, es.eo, t0, t1, t2, 0);
    lemma_edge_found(es.ef, es.eo, t0, t1, t2, 0);
    let (a, b, c) = rotate(t0, t1, t2, fer % 4);
    let fe = fer / 4;
    let fc = vertex_find(es.vf, es.vo, c, 0);
    lemma_vertex_found(es.vf, es.vo, c, 0);
    let fec0: int = if 1 <= fc < fecmax { fc } else if c == es.next { 0 } else { 15 };
    let fec: int = if fec0 == 15 && version >= 1 && wrap_add(c, 1) == es.last {
        13
    } else if fec0 == 15 && version >= 1 && c == wrap_add(es.last, 1) {
        14
    } else {
        fec0
    };
    let promoted = fec0 == 15 && version >= 1 && (wrap_add(c, 1) == es.last || c == wrap_add(es.last, 1));
    let last1 = if promoted { c } else { es.last };
    let r = crate::meshopt::index_encode::enc_edge(es, t0, t1, t2, fer, fecmax, version);
    assert(r.1 == (fe * 16 + fec) as u8);
    lemma_edge_code(fe as u8, fec as u8, r.1);
    lemma_read_free(data, ds.dp, c, last1, fec == 15);
    let slot = (es.eo - 1 - fe) % 16;
    assert(ds.ef[slot].0 == a && ds.ef[slot].1 == b);
    if 1 <= fec < fecmax {
        let vs = (es.vo - 1 - fec) % 16;
        assert(vs != es.vo);
        assert(es.vf[vs] == c);
        assert(ds.vf[vs] == c);
    }
    if fec == 13 && fecmax == 13 {
        assert(wrap_sub(es.last, 1) == c);
    }
    assert(is_rotation(a, b, c, t0, t1, t2));
    let s1 = IdxState { cp: ds.cp + 1, ..ds };
    let t = r.1;
    assert(code[ds.cp] == t);
    let step = crate::meshopt::index::edge_tri(s1, t, data, fecmax);
    assert(idx_step(ds, code, data, table, fecmax) == step);
    match step {
        IdxStep::Step(ds2, tri) => {
            assert(tri.0 == a && tri.1 == b && tri.2 == c);
            assert(ds2.cp == ds.cp + 1);
            assert(ds2.dp == ds.dp + r.2.len());
            assert(ds2.next == r.0.next);
            assert(ds2.last == r.0.last);
            assert(ds2.eo == r.0.eo && ds2.vo == r.0.vo);
            let e2 = r.0;
            assert(e2.ef.len() == 16 && ds2.ef.len() == 16 && e2.vf.len() == 16 && ds2.vf.len() == 16);
            assert forall|i: int| 0 <= i < 16 implies e2.ef[i].0 == ds2.ef[i].0 && e2.ef[i].1
                == ds2.ef[i].1 by {
                if i == es.eo {
                } else if i == (es.eo + 1) % 16 {
                } else {
                    assert(e2.ef[i] == es.ef[i]);
                    assert(ds2.ef[i] == ds.ef[i]);
                }
            }
            assert forall|i: int| 0 <= i < 16 && i != e2.vo implies e2.vf[i] == ds2.vf[i] || (version
                >= 1 && e2.vf[i] == u32::MAX) by {
                if i == es.vo {
                    assert(e2.vo != es.vo);
                } else {
                    assert(ds2.vf[i] == ds.vf[i]);
                    assert(e2.vf[i] == es.vf[i]);
                }
            }
            assert(follows(r.0, ds2, version));
        },
        IdxStep::Fail(f) => {
            assert(false);
        },
    }
}

/// The pair byte of a fresh triangle splits back into its two vertex
/// codes.
proof fn lemma_pair_code(feb: u8, fec: u8, x: u8)
    requires
        feb < 16,
        fec < 16,
        x == feb * 16 + fec,
    ensures
        (x >> 4u8) == feb,
        (x & 15u8) == fec,
        x == 0 <==> feb == 0 && fec == 0,
{
    assert((x >> 4u8) == feb && (x & 15u8) == fec) by (bit_vector)
        requires
            feb < 16,
            fec < 16,
            x == feb * 16 + fec,
    ;
}

/// The short code `0xf0 + ti` names table entry `ti`.
proof fn lemma_short_code(ti: u8, x: u8)
    requires
        ti < 14,
        x == 0xf0 + ti,
    ensures
        0xf0 <= x < 0xfe,
        (x & 15u8) == ti,
{
    assert((x & 15u8) == ti) by (bit_vector)
        requires
            ti < 14,
            x == 0xf0 + ti,
    ;
}

/// The first 14 entries of the table name no explicit vertex.
proof fn lemma_table_nibbles(i: int)
    requires
        0 <= i < 14,
    ensures
        (code_aux_table()[i] >> 4u8) < 15,
        (code_aux_table()[i] & 15u8) < 15,
{
    let x = code_aux_table()[i];
    assert(x == 0x00 || x == 0x76 || x == 0x87 || x == 0x56 || x == 0x67 || x == 0x78 || x == 0xa9 || x == 0x86
        || x == 0x65 || x == 0x89 || x == 0x68 || x == 0x98 || x == 0x01 || x == 0x69);
    assert((x >> 4u8) < 15 && (x & 15u8) < 15) by (bit_vector)
        requires
            x == 0x00 || x == 0x76 || x == 0x87 || x == 0x56 || x == 0x67 || x == 0x78 || x == 0xa9 || x == 0x86
                || x == 0x65 || x == 0x89 || x == 0x68 || x == 0x98 || x == 0x01 || x == 0x69,
    ;
}

/// What the plan of a fresh triangle holds: its vertices are the triangle
/// rotated; a vertex named from the FIFO stands that far back in both the
/// encoder's and the decoder's FIFO; a restart names `(0, 1, 2)` all
/// fresh; otherwise a zero pair byte would have had the short code, and an
/// explicit first vertex is never followed by a fresh one.
#[verifier::rlimit(40)]
proof fn lemma_plan(es: EncState, ds: IdxState, t0: u32, t1: u32, t2: u32, version: int)
    requires
        follows(es, ds, version),
        0 <= version <= 1,
        version >= 1 ==> t0 != u32::MAX && t1 != u32::MAX && t2 != u32::MAX,
    ensures
        ({
            let p = crate::meshopt::index_encode::fresh_plan(es, t0, t1, t2, version);
            let n0 = if p.reset { 0u32 } else { es.next };
            let na = if p.fea == 0 { wrap_add(n0, 1) } else { n0 };
            let nb = if p.feb == 0 { wrap_add(na, 1) } else { na };
            &&& is_rotation(p.a, p.b, p.c, t0, t1, t2)
            &&& p.fea == 0 || p.fea == 15
            &&& 0 <= p.feb <= 15 && 0 <= p.fec <= 15
            &&& p.vf.len() == 16
            &&& p.reset ==> version >= 1 && p.fea == 0 && p.feb == 0 && p.fec == 0
            &&& p.reset ==> p.vf == Seq::new(16, |j: int| u32::MAX)
            &&& !p.reset ==> p.vf == es.vf
            &&& p.fea == 15 ==> p.feb != 0
            &&& p.fea == 0 ==> p.a == n0
            &&& p.feb == 0 ==> p.b == na
            &&& p.fec == 0 ==> p.c == nb
            &&& 1 <= p.feb <= 14 ==> (es.vo - p.feb) % 16 != es.vo && ds.vf[(es.vo - p.feb) % 16] == p.b
            &&& 1 <= p.fec <= 14 ==> (es.vo - p.fec) % 16 != es.vo && ds.vf[(es.vo - p.fec) % 16] == p.c
            &&& p.next == (if p.fec == 0 { wrap_add(nb, 1) } else { nb })
        }),
{
    let p = crate::meshopt::index_encode::fresh_plan(es, t0, t1, t2, version);
    let r: int = if t1 == es.next { 1 } else if t2 == es.next { 2 } else { 0 };
    assert((p.a, p.b, p.c) == rotate(t0, t1, t2, r));
    let vf0 = p.vf;
    let fb = vertex_find(vf0, es.vo, p.b, 0);
    let fc = vertex_find(vf0, es.vo, p.c, 0);
    lemma_vertex_found(vf0, es.vo, p.b, 0);
    lemma_vertex_found(vf0, es.vo, p.c, 0);
    if p.reset {
        lemma_vertex_not_in_cleared(es.vo, p.b, 0);
        lemma_vertex_not_in_cleared(es.vo, p.c, 0);
    }
    if 0 <= fb < 14 {
        let sl = (es.vo - 1 - fb) % 16;
        assert(sl != es.vo);
        assert(vf0[sl] == p.b);
        assert(ds.vf[sl] == p.b);
    }
    if 0 <= fc < 14 {
        let sl = (es.vo - 1 - fc) % 16;
        assert(sl != es.vo);
        assert(vf0[sl] == p.c);
        assert(ds.vf[sl] == p.c);
    }
}

/// The encoder's pushes for a triangle named by its vertices: `a`, then
/// `b` and `c` when `pb` and `pc`, then its three edges.
pub open spec fn enc_after(s: EncState, a: u32, b: u32, c: u32, pb: bool, pc: bool) -> EncState {
    let s2 = crate::meshopt::index_encode::enc_push_v(s, a);
    let s3 = if pb { crate::meshopt::index_encode::enc_push_v(s2, b) } else { s2 };
    let s4 = if pc { crate::meshopt::index_encode::enc_push_v(s3, c) } else { s3 };
    crate::meshopt::index_encode::enc_push_e(
        crate::meshopt::index_encode::enc_push_e(crate::meshopt::index_encode::enc_push_e(s4, b, a), c, b),
        a,
        c,
    )
}

/// The decoder's pushes for a triangle named by its vertices.
pub open spec fn dec_after(s: IdxState, a: u32, b: u32, c: u32, pb: bool, pc: bool) -> IdxState {
    crate::meshopt::index::push_tri_edges(
        crate::meshopt::index::push_v(
            crate::meshopt::index::push_v(crate::meshopt::index::push_v(s, a, true), b, pb),
            c,
            pc,
        ),
        a,
        b,
        c,
    )
}

/// Pushing the same edge keeps the decoder following the encoder.
proof fn lemma_push_edge(es: EncState, ds: IdxState, x: u32, y: u32, z: u32, version: int)
    requires
        follows(es, ds, version),
    ensures
        follows(crate::meshopt::index_encode::enc_push_e(es, x, y), crate::meshopt::index::push_e(ds, (x, y, z)), version),
{
    let e2 = crate::meshopt::index_encode::enc_push_e(es, x, y);
    let d2 = crate::meshopt::index::push_e(ds, (x, y, z));
    assert forall|i: int| 0 <= i < 16 implies e2.ef[i].0 == d2.ef[i].0 && e2.ef[i].1 == d2.ef[i].1 by {
        if i != es.eo {
            assert(e2.ef[i] == es.ef[i]);
            assert(d2.ef[i] == ds.ef[i]);
        }
    }
    assert forall|i: int| 0 <= i < 16 && i != e2.vo implies e2.vf[i] == d2.vf[i] || (version >= 1
        && e2.vf[i] == u32::MAX) by {
        assert(e2.vf[i] == es.vf[i] && d2.vf[i] == ds.vf[i]);
    }
}

/// Pushing the same vertex into both FIFOs keeps the decoder following
/// the encoder; a decoder write that does not move on touches only the
/// slot written next.
proof fn lemma_push_vertex(es: EncState, ds: IdxState, v: u32, both: bool, version: int)
    requires
        follows(es, ds, version),
    ensures
        follows(
            if both { crate::meshopt::index_encode::enc_push_v(es, v) } else { es },
            crate::meshopt::index::push_v(ds, v, both),
            version,
        ),
{
    let e2 = if both { crate::meshopt::index_encode::enc_push_v(es, v) } else { es };
    let d2 = crate::meshopt::index::push_v(ds, v, both);
    assert(e2.ef == es.ef && d2.ef == ds.ef);
    assert forall|i: int| 0 <= i < 16 implies e2.ef[i].0 == d2.ef[i].0 && e2.ef[i].1 == d2.ef[i].1 by {
        assert(es.ef[i].0 == ds.ef[i].0 && es.ef[i].1 == ds.ef[i].1);
    }
    assert forall|i: int| 0 <= i < 16 && i != e2.vo implies e2.vf[i] == d2.vf[i] || (version >= 1
        && e2.vf[i] == u32::MAX) by {
        if i != es.vo {
            assert(e2.vf[i] == es.vf[i]);
            assert(d2.vf[i] == ds.vf[i]);
            assert(es.vf[i] == ds.vf[i] || (version >= 1 && es.vf[i] == u32::MAX));
        }
    }
    assert(e2.eo == d2.eo && e2.vo == d2.vo && e2.next == d2.next && e2.last == d2.last);
    assert(e2.vf.len() == 16 && d2.vf.len() == 16);
}

/// The pushes for a triangle keep the decoder following the encoder.
proof fn lemma_after(es: EncState, ds: IdxState, a: u32, b: u32, c: u32, pb: bool, pc: bool, version: int)
    requires
        follows(es, ds, version),
    ensures
        follows(enc_after(es, a, b, c, pb, pc), dec_after(ds, a, b, c, pb, pc), version),
{
    let e1 = crate::meshopt::index_encode::enc_push_v(es, a);
    let d1 = crate::meshopt::index::push_v(ds, a, true);
    lemma_push_vertex(es, ds, a, true, version);
    let e2 = if pb { crate::meshopt::index_encode::enc_push_v(e1, b) } else { e1 };
    let d2 = crate::meshopt::index::push_v(d1, b, pb);
    lemma_push_vertex(e1, d1, b, pb, version);
    let e3 = if pc { crate::meshopt::index_encode::enc_push_v(e2, c) } else { e2 };
    let d3 = crate::meshopt::index::push_v(d2, c, pc);
    lemma_push_vertex(e2, d2, c, pc, version);
    let e4 = crate::meshopt::index_encode::enc_push_e(e3, b, a);
    let d4 = crate::meshopt::index::push_e(d3, (b, a, c));
    lemma_push_edge(e3, d3, b, a, c, version);
    let e5 = crate::meshopt::index_encode::enc_push_e(e4, c, b);
    let d5 = crate::meshopt::index::push_e(d4, (c, b, a));
    lemma_push_edge(e4, d4, c, b, a, version);
    lemma_push_edge(e5, d5, a, c, b, version);
}

/// Whether the encoder gives a fresh triangle the one-byte code `0xf0 + i`.
pub open spec fn fresh_short(es: EncState, t0: u32, t1: u32, t2: u32, version: int) -> bool {
    let p = crate::meshopt::index_encode::fresh_plan(es, t0, t1, t2, version);
    let codeaux = (p.feb * 16 + p.fec) as u8;
    let ti = table_find(code_aux_table(), codeaux, 0);
    p.fea == 0 && 0 <= ti < 14 && !p.reset
}

/// A fresh triangle with a one-byte code decodes back (see
/// `lemma_fresh_step`).
#[verifier::rlimit(60)]
#[verifier::spinoff_prover]
proof fn lemma_fresh_short(
    es: EncState,
    ds: IdxState,
    t0: u32,
    t1: u32,
    t2: u32,
    code: Seq<u8>,
    data: Seq<u8>,
    fecmax: int,
    version: int,
)
    requires
        follows(es, ds, version),
        0 <= version <= 1,
        version >= 1 ==> t0 != u32::MAX && t1 != u32::MAX && t2 != u32::MAX,
        0 <= ds.cp < code.len(),
        code[ds.cp] == crate::meshopt::index_encode::enc_fresh(es, t0, t1, t2, version).1,
        stands_at(data, ds.dp, crate::meshopt::index_encode::enc_fresh(es, t0, t1, t2, version).2),
        fresh_short(es, t0, t1, t2, version),
    ensures
        ({
            let r = crate::meshopt::index_encode::enc_fresh(es, t0, t1, t2, version);
            idx_step(ds, code, data, code_aux_table(), fecmax) matches IdxStep::Step(ds2, t) && follows(
                r.0,
                ds2,
                version,
            ) && ds2.cp == ds.cp + 1 && ds2.dp == ds.dp + r.2.len() && is_rotation(t.0, t.1, t.2, t0, t1, t2)
        }),
{
    reveal(idx_step);
    let table = code_aux_table();
    let p = crate::meshopt::index_encode::fresh_plan(es, t0, t1, t2, version);
    lemma_plan(es, ds, t0, t1, t2, version);
    let r = crate::meshopt::index_encode::enc_fresh(es, t0, t1, t2, version);
    let codeaux = (p.feb * 16 + p.fec) as u8;
    lemma_pair_code(p.feb as u8, p.fec as u8, codeaux);
    let ti = table_find(table, codeaux, 0);
    lemma_table_found(table, codeaux, 0);
    let t = r.1;
    lemma_short_code(ti as u8, t);
    lemma_table_nibbles(ti);
    assert(table[(t & 15u8) as int] == codeaux);
    let es0 = EncState { vf: p.vf, next: p.next, ..es };
    let ds0 = IdxState { cp: ds.cp + 1, next: p.next, ..ds };
    assert(follows(es0, ds0, version));
    assert(r.0 == enc_after(es0, p.a, p.b, p.c, p.feb == 0, p.fec == 0));
    assert(r.2 =~= Seq::<u8>::empty());
    lemma_after(es0, ds0, p.a, p.b, p.c, p.feb == 0, p.fec == 0, version);
    let s1 = IdxState { cp: ds.cp + 1, ..ds };
    assert(idx_step(ds, code, data, table, fecmax) == crate::meshopt::index::fresh_tri(s1, t, table));
    assert(crate::meshopt::index::fresh_tri(s1, t, table) == IdxStep::Step(
        dec_after(ds0, p.a, p.b, p.c, p.feb == 0, p.fec == 0),
        (p.a, p.b, p.c, crate::meshopt::index::TriKind::Fresh),
    ));
}

/// A fresh triangle with a pair byte in the data decodes back (see
/// `lemma_fresh_step`).
#[verifier::rlimit(60)]
#[verifier::spinoff_prover]
proof fn lemma_fresh_long(
    es: EncState,
    ds: IdxState,
    t0: u32,
    t1: u32,
    t2: u32,
    code: Seq<u8>,
    data: Seq<u8>,
    fecmax: int,
    version: int,
)
    requires
        follows(es, ds, version),
        0 <= version <= 1,
        version >= 1 ==> t0 != u32::MAX && t1 != u32::MAX && t2 != u32::MAX,
        0 <= ds.cp < code.len(),
        code[ds.cp] == crate::meshopt::index_encode::enc_fresh(es, t0, t1, t2, version).1,
        stands_at(data, ds.dp, crate::meshopt::index_encode::enc_fresh(es, t0, t1, t2, version).2),
        !fresh_short(es, t0, t1, t2, version),
    ensures
        ({
            let r = crate::meshopt::index_encode::enc_fresh(es, t0, t1, t2, version);
            idx_step(ds, code, data, code_aux_table(), fecmax) matches IdxStep::Step(ds2, t) && follows(
                r.0,
                ds2,
                version,
            ) && ds2.cp == ds.cp + 1 && ds2.dp == ds.dp + r.2.len() && is_rotation(t.0, t.1, t.2, t0, t1, t2)
        }),
{
    reveal(idx_step);
    let table = code_aux_table();
    let p = crate::meshopt::index_encode::fresh_plan(es, t0, t1, t2, version);
    lemma_plan(es, ds, t0, t1, t2, version);
    let r = crate::meshopt::index_encode::enc_fresh(es, t0, t1, t2, version);
    let codeaux = (p.feb * 16 + p.fec) as u8;
    lemma_pair_code(p.feb as u8, p.fec as u8, codeaux);
    let ti = table_find(table, codeaux, 0);
    lemma_table_found(table, codeaux, 0);
    let t = r.1;
    let (ba, la) = enc_free(p.a, es.last, p.fea == 15);
    let (bb, lb) = enc_free(p.b, la, p.feb == 15);
    let (bc, lc) = enc_free(p.c, lb, p.fec == 15);
    assert(t == 0xfe || t == 0xff);
    assert(r.2 == seq![codeaux] + ba + bb + bc);
    if p.reset {
        assert(codeaux == 0);
    } else if p.fea == 0 {
        assert(table[0] == 0u8);
        assert(codeaux != 0);
    } else {
        assert(codeaux != 0);
    }
    lemma_stands_at_split(data, ds.dp, seq![codeaux] + ba + bb, bc);
    lemma_stands_at_split(data, ds.dp, seq![codeaux] + ba, bb);
    lemma_stands_at_split(data, ds.dp, seq![codeaux], ba);
    assert(data[ds.dp] == codeaux) by {
        assert(data.subrange(ds.dp, ds.dp + 1)[0] == data[ds.dp]);
    }
    lemma_read_free(data, ds.dp + 1, p.a, es.last, p.fea == 15);
    lemma_read_free(data, ds.dp + 1 + ba.len(), p.b, la, p.feb == 15);
    lemma_read_free(data, ds.dp + 1 + ba.len() + bb.len(), p.c, lb, p.fec == 15);
    let pb = p.feb == 0 || p.feb == 15;
    let pc = p.fec == 0 || p.fec == 15;
    let es0 = EncState { vf: p.vf, next: p.next, last: lc, ..es };
    let ds0 = IdxState { cp: ds.cp + 1, next: p.next, last: lc, dp: ds.dp + r.2.len(), ..ds };
    assert(follows(es0, ds0, version));
    assert(r.0 == enc_after(es0, p.a, p.b, p.c, pb, pc));
    lemma_after(es0, ds0, p.a, p.b, p.c, pb, pc, version);
    let s1 = IdxState { cp: ds.cp + 1, ..ds };
    assert(idx_step(ds, code, data, table, fecmax) == crate::meshopt::index::explicit_tri(s1, t, data));
    assert(crate::meshopt::index::explicit_tri(s1, t, data) == IdxStep::Step(
        dec_after(ds0, p.a, p.b, p.c, pb, pc),
        (p.a, p.b, p.c, crate::meshopt::index::TriKind::Fresh),
    ));
}

/// A triangle the encoder names by its vertices decodes to that triangle,
/// rotated, and the decoder keeps following the encoder.
proof fn lemma_fresh_step(
    es: EncState,
    ds: IdxState,
    t0: u32,
    t1: u32,
    t2: u32,
    code: Seq<u8>,
    data: Seq<u8>,
    fecmax: int,
    version: int,
)
    requires
        follows(es, ds, version),
        0 <= version <= 1,
        version >= 1 ==> t0 != u32::MAX && t1 != u32::MAX && t2 != u32::MAX,
        0 <= ds.cp < code.len(),
        code[ds.cp] == crate::meshopt::index_encode::enc_fresh(es, t0, t1, t2, version).1,
        stands_at(data, ds.dp, crate::meshopt::index_encode::enc_fresh(es, t0, t1, t2, version).2),
    ensures
        ({
            let r = crate::meshopt::index_encode::enc_fresh(es, t0, t1, t2, version);
            idx_step(ds, code, data, code_aux_table(), fecmax) matches IdxStep::Step(ds2, t) && follows(
                r.0,
                ds2,
                version,
            ) && ds2.cp == ds.cp + 1 && ds2.dp == ds.dp + r.2.len() && is_rotation(t.0, t.1, t.2, t0, t1, t2)
        }),
{
    if fresh_short(es, t0, t1, t2, version) {
        lemma_fresh_short(es, ds, t0, t1, t2, code, data, fecmax, version);
    } else {
        lemma_fresh_long(es, ds, t0, t1, t2, code, data, fecmax, version);
    }
}

/// One triangle: the decoder reads back what the encoder wrote for it.
proof fn lemma_step(
    es: EncState,
    ds: IdxState,
    t0: u32,
    t1: u32,
    t2: u32,
    code: Seq<u8>,
    data: Seq<u8>,
    fecmax: int,
    version: int,
)
    requires
        follows(es, ds, version),
        0 <= version <= 1,
        fecmax == (if version >= 1 { 13int } else { 15int }),
        version >= 1 ==> t0 != u32::MAX && t1 != u32::MAX && t2 != u32::MAX,
        0 <= ds.cp < code.len(),
        code[ds.cp] == enc_step(es, t0, t1, t2, fecmax, version).1,
        stands_at(data, ds.dp, enc_step(es, t0, t1, t2, fecmax, version).2),
    ensures
        ({
            let r = enc_step(es, t0, t1, t2, fecmax, version);
            idx_step(ds, code, data, code_aux_table(), fecmax) matches IdxStep::Step(ds2, t) && follows(
                r.0,
                ds2,
                version,
            ) && ds2.cp == ds.cp + 1 && ds2.dp == ds.dp + r.2.len() && is_rotation(t.0, t.1, t.2, t0, t1, t2)
        }),
{
    reveal(enc_step);
    let fer = edge_find(es.ef, es.eo, t0, t1, t2, 0);
    if fer >= 0 && fer / 4 < 15 {
        lemma_edge_step(es, ds, t0, t1, t2, code, data, code_aux_table(), fecmax, version);
    } else {
        lemma_fresh_step(es, ds, t0, t1, t2, code, data, fecmax, version);
    }
}

/// The code and data the encoder writes for the first `k` triangles begin
/// those it writes for the first `m`; one code byte per triangle.
proof fn lemma_enc_run_prefix(ix: Seq<u32>, k: int, m: int, fecmax: int, version: int)
    requires
        0 <= k <= m,
    ensures
        enc_run(ix, k, fecmax, version).1.len() == k,
        enc_run(ix, m, fecmax, version).1.len() == m,
        enc_run(ix, k, fecmax, version).1 == enc_run(ix, m, fecmax, version).1.subrange(0, k),
        enc_run(ix, k, fecmax, version).2.len() <= enc_run(ix, m, fecmax, version).2.len(),
        enc_run(ix, k, fecmax, version).2 == enc_run(ix, m, fecmax, version).2.subrange(
            0,
            enc_run(ix, k, fecmax, version).2.len() as int,
        ),
    decreases m,
{
    if m > 0 {
        if k < m {
            lemma_enc_run_prefix(ix, k, m - 1, fecmax, version);
        } else {
            lemma_enc_run_prefix(ix, m - 1, m - 1, fecmax, version);
        }
        let (s, c, d) = enc_run(ix, m - 1, fecmax, version);
        let (s2, b, dd) = enc_step(s, ix[3 * m - 3], ix[3 * m - 2], ix[3 * m - 1], fecmax, version);
        assert(c.push(b).subrange(0, m - 1) =~= c);
        assert((d + dd).subrange(0, d.len() as int) =~= d);
        assert(enc_run(ix, m, fecmax, version).1.subrange(0, m) =~= enc_run(ix, m, fecmax, version).1);
        assert(enc_run(ix, m, fecmax, version).2.subrange(0, enc_run(ix, m, fecmax, version).2.len() as int)
            =~= enc_run(ix, m, fecmax, version).2);
    }
}

/// The first `k` decoded triangles are those of `ix`, each possibly
/// rotated.
pub open spec fn tris_rotated(tris: Seq<Tri>, ix: Seq<u32>, k: int) -> bool {
    &&& tris.len() == k
    &&& forall|j: int|
        0 <= j < k ==> #[trigger] is_rotation(
            tris[j].0,
            tris[j].1,
            tris[j].2,
            ix[3 * j],
            ix[3 * j + 1],
            ix[3 * j + 2],
        )
}

/// The first `k` triangles decode back from the encoder's code and data
/// for the first `m`, with the decoder following the encoder.
proof fn lemma_run(ix: Seq<u32>, m: int, version: int, k: int)
    requires
        0 <= k <= m,
        3 * m <= ix.len(),
        0 <= version <= 1,
        version >= 1 ==> forall|i: int| 0 <= i < 3 * m ==> #[trigger] ix[i] != u32::MAX,
    ensures
        ({
            let fecmax: int = if version >= 1 { 13 } else { 15 };
            let (es, ck, dk) = enc_run(ix, k, fecmax, version);
            let (ef, code, data) = enc_run(ix, m, fecmax, version);
            idx_run(code, data, code_aux_table(), fecmax, k) matches Ok((ds, tris)) && follows(es, ds, version)
                && ds.cp == k && ds.dp == dk.len() && tris_rotated(tris, ix, k)
        }),
    decreases k,
{
    let fecmax: int = if version >= 1 { 13 } else { 15 };
    let (ef, code, data) = enc_run(ix, m, fecmax, version);
    if k == 0 {
        assert(follows(enc_start(), idx_start(), version));
    } else {
        lemma_run(ix, m, version, k - 1);
        let (es, ck, dk) = enc_run(ix, k - 1, fecmax, version);
        let prev = idx_run(code, data, code_aux_table(), fecmax, k - 1);
        assert(prev is Ok);
        let (ds, tris) = prev->Ok_0;
        assert(tris_rotated(tris, ix, k - 1));
        let t0 = ix[3 * k - 3];
        let t1 = ix[3 * k - 2];
        let t2 = ix[3 * k - 1];
        let (es2, byte, dd) = enc_step(es, t0, t1, t2, fecmax, version);
        lemma_enc_run_prefix(ix, k, m, fecmax, version);
        lemma_enc_run_prefix(ix, k - 1, k, fecmax, version);
        assert(enc_run(ix, k, fecmax, version).1 == ck.push(byte));
        assert(code[k - 1] == enc_run(ix, k, fecmax, version).1[k - 1]);
        assert(enc_run(ix, k, fecmax, version).2 == dk + dd);
        assert(stands_at(data, dk.len() as int, dd)) by {
            let dk1 = enc_run(ix, k, fecmax, version).2;
            assert(data.subrange(dk.len() as int, (dk.len() + dd.len()) as int) =~= dk1.subrange(
                dk.len() as int,
                dk1.len() as int,
            ));
            assert(dk1.subrange(dk.len() as int, dk1.len() as int) =~= dd);
        }
        if version >= 1 {
            assert(ix[3 * (k - 1)] != u32::MAX && ix[3 * (k - 1) + 1] != u32::MAX && ix[3 * (k - 1) + 2] != u32::MAX);
        }
        lemma_step(es, ds, t0, t1, t2, code, data, fecmax, version);
        let tris2 = idx_run(code, data, code_aux_table(), fecmax, k)->Ok_0.1;
        assert forall|j: int| 0 <= j < k implies #[trigger] is_rotation(
            tris2[j].0,
            tris2[j].1,
            tris2[j].2,
            ix[3 * j],
            ix[3 * j + 1],
            ix[3 * j + 2],
        ) by {
            let t = idx_step(ds, code, data, code_aux_table(), fecmax)->Step_1;
            assert(tris2 == tris.push(t));
            if j < k - 1 {
                assert(tris2[j] == tris[j]);
                assert(is_rotation(tris[j].0, tris[j].1, tris[j].2, ix[3 * j], ix[3 * j + 1], ix[3 * j + 2]));
            } else {
                assert(3 * j == 3 * k - 3);
                assert(tris2[j] == t);
                assert(ix[3 * j] == t0 && ix[3 * j + 1] == t1 && ix[3 * j + 2] == t2);
            }
        }
    }
}

/// The indices of a triangle list, three per triangle.
proof fn lemma_tri_indices(tris: Seq<Tri>)
    ensures
        tri_indices(tris).len() == 3 * tris.len(),
        forall|k: int|
            0 <= k < tris.len() ==> tri_indices(tris)[3 * k] == (#[trigger] tris[k]).0 && tri_indices(tris)[3 * k
                + 1] == tris[k].1 && tri_indices(tris)[3 * k + 2] == tris[k].2,
    decreases tris.len(),
{
    if tris.len() > 0 {
        let init = tris.drop_last();
        lemma_tri_indices(init);
        let t = tris.last();
        assert forall|k: int| 0 <= k < tris.len() implies tri_indices(tris)[3 * k] == (#[trigger] tris[k]).0
            && tri_indices(tris)[3 * k + 1] == tris[k].1 && tri_indices(tris)[3 * k + 2] == tris[k].2 by {
            if k < tris.len() - 1 {
                assert(tris[k] == init[k]);
            }
        }
    }
}

/// Decoding the index buffer that `encode_index_buffer` writes for the
/// first `n` indices (a multiple of 3) at format version 0 or 1 gives back
/// every triangle, possibly rotated to start at another of its vertices
/// (winding kept), and consumes the data stream exactly. At version 1 this
/// needs indices other than `u32::MAX`: a restart of the fresh vertices
/// clears only the encoder's vertex FIFO.
pub proof fn lemma_index_round_trip(ix: Seq<u32>, n: int, version: u8)
    requires
        0 <= n <= ix.len(),
        n % 3 == 0,
        version <= 1,
        version >= 1 ==> forall|i: int| 0 <= i < n ==> #[trigger] ix[i] != u32::MAX,
    ensures
        ({
            let b = index_stream(ix, n, version);
            let code = b.subrange(1, 1 + n / 3);
            let data = b.subrange(1 + n / 3, b.len() - 16);
            let table = b.subrange(b.len() - 16, b.len() as int);
            let fecmax: int = if (b[0] & 0x0fu8) >= 1 { 13 } else { 15 };
            &&& b.len() >= 1 + n / 3 + 16
            &&& (b[0] & 0xf0u8) == 0xe0u8 && (b[0] & 0x0fu8) == version
            &&& idx_run(code, data, table, fecmax, n / 3) matches Ok((s, tris)) && s.dp == data.len()
                && rotated_triangles(tri_indices(tris), ix, n)
        }),
{
    let v = version as int;
    let fecmax: int = if version >= 1 { 13 } else { 15 };
    let m = n / 3;
    let (es, code, data) = enc_run(ix, m, fecmax, v);
    let b = index_stream(ix, n, version);
    assert(b == seq![(0xe0u8 | version) as u8] + code + data + code_aux_table());
    lemma_enc_run_prefix(ix, m, m, fecmax, v);
    assert(b.subrange(1, 1 + m) =~= code);
    assert(b.subrange(1 + m, b.len() - 16) =~= data);
    assert(b.subrange(b.len() - 16, b.len() as int) =~= code_aux_table());
    let h = (0xe0u8 | version) as u8;
    assert(b[0] == h);
    assert((h & 0xf0u8) == 0xe0u8 && (h & 0x0fu8) == version) by (bit_vector)
        requires
            version <= 1,
            h == (0xe0u8 | version) as u8,
    ;
    lemma_run(ix, m, v, m);
    let (ds, tris) = idx_run(code, data, code_aux_table(), fecmax, m)->Ok_0;
    lemma_tri_indices(tris);
    let out = tri_indices(tris);
    assert forall|k: int| 0 <= k < n / 3 implies #[trigger] is_rotation(
        out[3 * k],
        out[3 * k + 1],
        out[3 * k + 2],
        ix[3 * k],
        ix[3 * k + 1],
        ix[3 * k + 2],
    ) by {
        assert(is_rotation(tris[k].0, tris[k].1, tris[k].2, ix[3 * k], ix[3 * k + 1], ix[3 * k + 2]));
    }
}

} // verus!
