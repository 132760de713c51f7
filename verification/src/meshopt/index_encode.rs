//! The triangle-list index encoder: the mirror of the decoder's FIFOs. A
//! triangle that shares an edge with a recent one is coded against that
//! edge; otherwise its vertices are named fresh, from the vertex FIFO, or
//! explicitly.
use vstd::prelude::*;
use crate::meshopt::index::code_aux_table;
use crate::meshopt::index::code_aux_table_exec;
use crate::meshopt::vbyte::{encode_vbyte, vbyte_bytes, zigzag, zigzag_exec};
use crate::meshopt::{wrap_add, wrap_sub, MeshoptArgument, MeshoptError};

use crate::meshopt::message::{describe, message};

verus! {

/// The encoder's state between triangles.
pub struct EncState {
    pub ef: Seq<(u32, u32)>,
    pub vf: Seq<u32>,
    pub eo: int,
    pub vo: int,
    pub next: u32,
    pub last: u32,
}

/// The state before the first triangle.
pub open spec fn enc_start() -> EncState {
    EncState {
        ef: Seq::new(16, |i: int| (u32::MAX, u32::MAX)),
        vf: Seq::new(16, |i: int| u32::MAX),
        eo: 0,
        vo: 0,
        next: 0,
        last: 0,
    }
}

/// Where edge `(a, b)`, `(b, c)` or `(c, a)` stands in the edge FIFO,
/// searching back from the newest entry from the `i`-th on: `4 * back + k`
/// for the `k`-th of those edges, or -1.
pub open spec fn edge_find(ef: Seq<(u32, u32)>, eo: int, a: u32, b: u32, c: u32, i: int) -> int
    decreases 16 - i,
{
    if i < 0 || i >= 16 {
        -1
    } else {
        let e = ef[(eo - 1 - i) % 16];
        if e.0 == a && e.1 == b {
            i * 4
        } else if e.0 == b && e.1 == c {
            i * 4 + 1
        } else if e.0 == c && e.1 == a {
            i * 4 + 2
        } else {
            edge_find(ef, eo, a, b, c, i + 1)
        }
    }
}

/// How far back vertex `v` stands in the vertex FIFO, searching from the
/// `i`-th newest entry on, or -1.
pub open spec fn vertex_find(vf: Seq<u32>, vo: int, v: u32, i: int) -> int
    decreases 16 - i,
{
    if i < 0 || i >= 16 {
        -1
    } else if vf[(vo - 1 - i) % 16] == v {
        i
    } else {
        vertex_find(vf, vo, v, i + 1)
    }
}

/// The first position of `v` among the table's first 16 entries from `i`
/// on, or -1.
pub open spec fn table_find(table: Seq<u8>, v: u8, i: int) -> int
    decreases 16 - i,
{
    if i < 0 || i >= 16 || i >= table.len() {
        -1
    } else if table[i] == v {
        i
    } else {
        table_find(table, v, i + 1)
    }
}

/// The triangle `(t0, t1, t2)` rotated to start at its `r`-th vertex.
pub open spec fn rotate(t0: u32, t1: u32, t2: u32, r: int) -> (u32, u32, u32) {
    if r == 1 {
        (t1, t2, t0)
    } else if r == 2 {
        (t2, t0, t1)
    } else {
        (t0, t1, t2)
    }
}

/// Push into the vertex FIFO.
pub open spec fn enc_push_v(s: EncState, v: u32) -> EncState {
    EncState { vf: s.vf.update(s.vo, v), vo: (s.vo + 1) % 16, ..s }
}

/// Push into the edge FIFO.
pub open spec fn enc_push_e(s: EncState, a: u32, b: u32) -> EncState {
    EncState { ef: s.ef.update(s.eo, (a, b)), eo: (s.eo + 1) % 16, ..s }
}

/// An explicit vertex `v` when `go`: its var-byte zig-zag delta against
/// `last`, and the new `last`.
pub open spec fn enc_free(v: u32, last: u32, go: bool) -> (Seq<u8>, u32) {
    if go {
        (vbyte_bytes(zigzag(wrap_sub(v, last))), v)
    } else {
        (Seq::empty(), last)
    }
}

/// A triangle on an edge found `fer` in the FIFO: the state after it, its
/// code byte and its data bytes.
pub open spec fn enc_edge(s: EncState, t0: u32, t1: u32, t2: u32, fer: int, fecmax: int, version: int) -> (
    EncState,
    u8,
    Seq<u8>,
) {
    let (a, b, c) = rotate(t0, t1, t2, fer % 4);
    let fe = fer / 4;
    let fc = vertex_find(s.vf, s.vo, c, 0);
    let fec0: int = if 1 <= fc < fecmax { fc } else if c == s.next { 0 } else { 15 };
    let next1 = if !(1 <= fc < fecmax) && c == s.next { wrap_add(s.next, 1) } else { s.next };
    let fec: int = if fec0 == 15 && version >= 1 && wrap_add(c, 1) == s.last {
        13
    } else if fec0 == 15 && version >= 1 && c == wrap_add(s.last, 1) {
        14
    } else {
        fec0
    };
    let promoted = fec0 == 15 && version >= 1 && (wrap_add(c, 1) == s.last || c == wrap_add(s.last, 1));
    let last1 = if promoted { c } else { s.last };
    let (bytes, last2) = enc_free(c, last1, fec == 15);
    let s1 = EncState { next: next1, last: last2, ..s };
    let s2 = if fec == 0 || fec >= fecmax { enc_push_v(s1, c) } else { s1 };
    (enc_push_e(enc_push_e(s2, c, b), a, c), (fe * 16 + fec) as u8, bytes)
}

/// The vertex choices for a triangle named by its vertices: the rotated
/// vertices, whether the fresh numbering restarts, the three vertex codes
/// (0: fresh; 15: explicit; else one more than the FIFO distance), and the
/// next fresh vertex and vertex FIFO after them.
pub struct FreshPlan {
    pub a: u32,
    pub b: u32,
    pub c: u32,
    pub reset: bool,
    pub fea: int,
    pub feb: int,
    pub fec: int,
    pub next: u32,
    pub vf: Seq<u32>,
}

/// Plan a triangle named by its vertices: rotate it to start at the next
/// fresh vertex if it holds one; restart the numbering (version 1) on a
/// triangle `(0, 1, 2)` when vertices were already numbered.
pub open spec fn fresh_plan(s: EncState, t0: u32, t1: u32, t2: u32, version: int) -> FreshPlan {
    let r: int = if t1 == s.next { 1 } else if t2 == s.next { 2 } else { 0 };
    let (a, b, c) = rotate(t0, t1, t2, r);
    let reset = a == 0 && b == 1 && c == 2 && s.next > 0 && version >= 1;
    let n0 = if reset { 0u32 } else { s.next };
    let vf0 = if reset { Seq::new(16, |i: int| u32::MAX) } else { s.vf };
    let fb = vertex_find(vf0, s.vo, b, 0);
    let fc = vertex_find(vf0, s.vo, c, 0);
    let fea: int = if a == n0 { 0 } else { 15 };
    let na = if a == n0 { wrap_add(n0, 1) } else { n0 };
    let feb: int = if 0 <= fb < 14 { fb + 1 } else if b == na { 0 } else { 15 };
    let nb = if !(0 <= fb < 14) && b == na { wrap_add(na, 1) } else { na };
    let fec: int = if 0 <= fc < 14 { fc + 1 } else if c == nb { 0 } else { 15 };
    let nc = if !(0 <= fc < 14) && c == nb { wrap_add(nb, 1) } else { nb };
    FreshPlan { a, b, c, reset, fea, feb, fec, next: nc, vf: vf0 }
}

/// Emit a planned triangle from state `s`: the short code `0xf0 + i` when
/// the first vertex is fresh and the pair of codes is the table's `i`-th
/// entry (below 14) and there was no restart; otherwise `0xfe` (fresh first
/// vertex) or `0xff` (explicit) followed by the pair byte in the data; then
/// the explicit vertices in order.
pub open spec fn fresh_emit(s: EncState, p: FreshPlan) -> (EncState, u8, Seq<u8>) {
    let codeaux = (p.feb * 16 + p.fec) as u8;
    let ti = table_find(code_aux_table(), codeaux, 0);
    let short = p.fea == 0 && 0 <= ti < 14 && !p.reset;
    let code_byte: u8 = if short { (0xf0 + ti) as u8 } else { (0xfe + p.fea / 15) as u8 };
    let (ba, la) = enc_free(p.a, s.last, p.fea == 15);
    let (bb, lb) = enc_free(p.b, la, p.feb == 15);
    let (bc, lc) = enc_free(p.c, lb, p.fec == 15);
    let bytes = (if short { Seq::empty() } else { seq![codeaux] }) + ba + bb + bc;
    let s1 = EncState { last: lc, ..s };
    let s2 = enc_push_v(s1, p.a);
    let s3 = if p.feb == 0 || p.feb == 15 { enc_push_v(s2, p.b) } else { s2 };
    let s4 = if p.fec == 0 || p.fec == 15 { enc_push_v(s3, p.c) } else { s3 };
    (enc_push_e(enc_push_e(enc_push_e(s4, p.b, p.a), p.c, p.b), p.a, p.c), code_byte, bytes)
}

/// A triangle named by its vertices: the state after it, its code byte and
/// its data bytes.
pub open spec fn enc_fresh(s: EncState, t0: u32, t1: u32, t2: u32, version: int) -> (EncState, u8, Seq<u8>) {
    let p = fresh_plan(s, t0, t1, t2, version);
    fresh_emit(EncState { vf: p.vf, next: p.next, ..s }, p)
}

/// One triangle.
#[verifier::opaque]
pub open spec fn enc_step(s: EncState, t0: u32, t1: u32, t2: u32, fecmax: int, version: int) -> (
    EncState,
    u8,
    Seq<u8>,
) {
    let fer = edge_find(s.ef, s.eo, t0, t1, t2, 0);
    if fer >= 0 && fer / 4 < 15 {
        enc_edge(s, t0, t1, t2, fer, fecmax, version)
    } else {
        enc_fresh(s, t0, t1, t2, version)
    }
}

/// The first `k` triangles of `ix`: the state, the code bytes and the data
/// bytes.
pub open spec fn enc_run(ix: Seq<u32>, k: int, fecmax: int, version: int) -> (EncState, Seq<u8>, Seq<u8>)
    decreases k,
{
    if k <= 0 {
        (enc_start(), Seq::empty(), Seq::empty())
    } else {
        let (s, code, data) = enc_run(ix, k - 1, fecmax, version);
        let (s2, b, d) = enc_step(s, ix[3 * k - 3], ix[3 * k - 2], ix[3 * k - 1], fecmax, version);
        (s2, code.push(b), data + d)
    }
}

/// The index buffer stream for the first `n` indices of `ix` at `version`.
pub open spec fn index_stream(ix: Seq<u32>, n: int, version: u8) -> Seq<u8> {
    let fecmax: int = if version >= 1 { 13 } else { 15 };
    let (s, code, data) = enc_run(ix, n / 3, fecmax, version as int);
    seq![(0xe0u8 | version) as u8] + code + data + code_aux_table()
}

/// The running index encoder: the FIFOs and counters of `EncState`.
pub struct IndexEncoder {
    pub ef: Vec<(u32, u32)>,
    pub vf: Vec<u32>,
    pub eo: usize,
    pub vo: usize,
    pub next: u32,
    pub last: u32,
}

/// A vertex FIFO of 16 unused entries.
fn empty_vertex_fifo() -> (v: Vec<u32>)
    ensures
        v@ == Seq::new(16, |i: int| u32::MAX),
{
    let mut v: Vec<u32> = Vec::new();
    let mut i: usize = 0;
    while i < 16
        invariant
            i <= 16,
            v@ == Seq::new(i as nat, |j: int| u32::MAX),
        decreases 16 - i,
    {
        v.push(u32::MAX);
        assert(v@ =~= Seq::new((i + 1) as nat, |j: int| u32::MAX));
        i += 1;
    }
    v
}

/// How far back `v` stands in a vertex FIFO (see `vertex_find`).
fn vertex_find_exec(vf: &Vec<u32>, vo: usize, v: u32) -> (r: i64)
    requires
        vf@.len() == 16,
        vo < 16,
    ensures
        r == vertex_find(vf@, vo as int, v, 0),
{
    let mut i: usize = 0;
    while i < 16
        invariant
            i <= 16,
            vf@.len() == 16,
            vo < 16,
            vertex_find(vf@, vo as int, v, 0) == vertex_find(vf@, vo as int, v, i as int),
        decreases 16 - i,
    {
        assert((vo + 15 - i) % 16 == (vo - 1 - i) % 16) by (nonlinear_arith)
            requires
                vo < 16,
                i < 16,
        ;
        if vf[(vo + 15 - i) % 16] == v {
            return i as i64;
        }
        i += 1;
    }
    -1
}

/// The first position of `v` in the table (see `table_find`).
fn table_find_exec(table: &Vec<u8>, v: u8) -> (r: i64)
    ensures
        r == table_find(table@, v, 0),
{
    let mut i: usize = 0;
    while i < 16 && i < table.len()
        invariant
            i <= 16,
            table_find(table@, v, 0) == table_find(table@, v, i as int),
        decreases 16 - i,
    {
        if table[i] == v {
            return i as i64;
        }
        i += 1;
    }
    -1
}

/// Append an explicit vertex when `go` (see `enc_free`).
fn free_exec(data: &mut Vec<u8>, v: u32, last: u32, go: bool) -> (l: u32)
    ensures
        final(data)@ == old(data)@ + enc_free(v, last, go).0,
        l == enc_free(v, last, go).1,
{
    if go {
        encode_vbyte(data, zigzag_exec(v.wrapping_sub(last)));
        v
    } else {
        assert(old(data)@ + Seq::<u8>::empty() =~= old(data)@);
        last
    }
}

impl IndexEncoder {
    /// The encoder's state.
    pub open spec fn state(&self) -> EncState {
        EncState {
            ef: self.ef@,
            vf: self.vf@,
            eo: self.eo as int,
            vo: self.vo as int,
            next: self.next,
            last: self.last,
        }
    }

    /// The FIFOs have 16 entries and the offsets point into them.
    pub open spec fn wf(&self) -> bool {
        self.ef@.len() == 16 && self.vf@.len() == 16 && self.eo < 16 && self.vo < 16
    }

    /// An encoder before the first triangle.
    pub fn new() -> (e: Self)
        ensures
            e.wf(),
            e.state() == enc_start(),
    {
        let mut ef: Vec<(u32, u32)> = Vec::new();
        let mut i: usize = 0;
        while i < 16
            invariant
                i <= 16,
                ef@ == Seq::new(i as nat, |j: int| (u32::MAX, u32::MAX)),
            decreases 16 - i,
        {
            ef.push((u32::MAX, u32::MAX));
            assert(ef@ =~= Seq::new((i + 1) as nat, |j: int| (u32::MAX, u32::MAX)));
            i += 1;
        }
        IndexEncoder { ef, vf: empty_vertex_fifo(), eo: 0, vo: 0, next: 0, last: 0 }
    }

    /// Where an edge of the triangle stands in the edge FIFO (see
    /// `edge_find`).
    fn edge_find_exec(&self, a: u32, b: u32, c: u32) -> (r: i64)
        requires
            self.wf(),
        ensures
            r == edge_find(self.ef@, self.eo as int, a, b, c, 0),
    {
        let mut i: usize = 0;
        while i < 16
            invariant
                i <= 16,
                self.wf(),
                edge_find(self.ef@, self.eo as int, a, b, c, 0) == edge_find(self.ef@, self.eo as int, a, b, c, i as int),
            decreases 16 - i,
        {
            assert((self.eo + 15 - i) % 16 == (self.eo - 1 - i) % 16) by (nonlinear_arith)
                requires
                    self.eo < 16,
                    i < 16,
            ;
            let e = self.ef[(self.eo + 15 - i) % 16];
            if e.0 == a && e.1 == b {
                return (i * 4) as i64;
            }
            if e.0 == b && e.1 == c {
                return (i * 4 + 1) as i64;
            }
            if e.0 == c && e.1 == a {
                return (i * 4 + 2) as i64;
            }
            i += 1;
        }
        -1
    }

    /// Push into the vertex FIFO.
    fn vpush(&mut self, v: u32)
        requires
            old(self).wf(),
        ensures
            final(self).wf(),
            final(self).state() == enc_push_v(old(self).state(), v),
    {
        let o = self.vo;
        self.vf.set(o, v);
        self.vo = (o + 1) % 16;
    }

    /// Push into the edge FIFO.
    fn epush(&mut self, a: u32, b: u32)
        requires
            old(self).wf(),
        ensures
            final(self).wf(),
            final(self).state() == enc_push_e(old(self).state(), a, b),
    {
        let o = self.eo;
        self.ef.set(o, (a, b));
        self.eo = (o + 1) % 16;
    }
}

impl IndexEncoder {
    /// Encode a triangle on the edge found at `fer` (see `enc_edge`).
    fn edge_exec(
        &mut self,
        t0: u32,
        t1: u32,
        t2: u32,
        fer: i64,
        fecmax: u32,
        version: u8,
        data: &mut Vec<u8>,
    ) -> (byte: u8)
        requires
            old(self).wf(),
            0 <= fer < 60,
            fecmax == 13 || fecmax == 15,
        ensures
            final(self).wf(),
            ({
                let (s2, b, d) = enc_edge(old(self).state(), t0, t1, t2, fer as int, fecmax as int, version as int);
                final(self).state() == s2 && byte == b && final(data)@ == old(data)@ + d
            }),
    {
        let r = fer % 4;
        let (a, b, c) = if r == 1 {
            (t1, t2, t0)
        } else if r == 2 {
            (t2, t0, t1)
        } else {
            (t0, t1, t2)
        };
        let fe = fer / 4;
        let fc = vertex_find_exec(&self.vf, self.vo, c);
        let mut fec: i64;
        if 1 <= fc && fc < fecmax as i64 {
            fec = fc;
        } else if c == self.next {
            fec = 0;
            self.next = self.next.wrapping_add(1);
        } else {
            fec = 15;
        }
        if fec == 15 && version >= 1 {
            if c.wrapping_add(1) == self.last {
                fec = 13;
                self.last = c;
            } else if c == self.last.wrapping_add(1) {
                fec = 14;
                self.last = c;
            }
        }
        let l = free_exec(data, c, self.last, fec == 15);
        self.last = l;
        if fec == 0 || fec >= fecmax as i64 {
            self.vpush(c);
        }
        self.epush(c, b);
        self.epush(a, c);
        (fe * 16 + fec) as u8
    }

    /// Plan a triangle by its vertices (see `fresh_plan`).
    fn fresh_plan_exec(&mut self, t0: u32, t1: u32, t2: u32, version: u8) -> (r: (u32, u32, u32, bool, i64, i64, i64))
        requires
            old(self).wf(),
        ensures
            final(self).wf(),
            ({
                let p = fresh_plan(old(self).state(), t0, t1, t2, version as int);
                &&& r == (p.a, p.b, p.c, p.reset, p.fea as i64, p.feb as i64, p.fec as i64)
                &&& final(self).state() == EncState { vf: p.vf, next: p.next, ..old(self).state() }
                &&& (p.fea == 0 || p.fea == 15) && (0 <= p.feb <= 15) && (0 <= p.fec <= 15)
            }),
    {
        let (a, b, c) = if t1 == self.next {
            (t1, t2, t0)
        } else if t2 == self.next {
            (t2, t0, t1)
        } else {
            (t0, t1, t2)
        };
        let reset = a == 0 && b == 1 && c == 2 && self.next > 0 && version >= 1;
        if reset {
            self.next = 0;
            self.vf = empty_vertex_fifo();
        }
        let fb = vertex_find_exec(&self.vf, self.vo, b);
        let fc = vertex_find_exec(&self.vf, self.vo, c);
        let fea: i64 = if a == self.next {
            self.next = self.next.wrapping_add(1);
            0
        } else {
            15
        };
        let feb: i64 = if 0 <= fb && fb < 14 {
            fb + 1
        } else if b == self.next {
            self.next = self.next.wrapping_add(1);
            0
        } else {
            15
        };
        let fec: i64 = if 0 <= fc && fc < 14 {
            fc + 1
        } else if c == self.next {
            self.next = self.next.wrapping_add(1);
            0
        } else {
            15
        };
        (a, b, c, reset, fea, feb, fec)
    }

    /// Emit a planned triangle (see `fresh_emit`).
    fn fresh_emit_exec(
        &mut self,
        plan: (u32, u32, u32, bool, i64, i64, i64),
        table: &Vec<u8>,
        data: &mut Vec<u8>,
    ) -> (byte: u8)
        requires
            old(self).wf(),
            table@ == code_aux_table(),
            plan.4 == 0 || plan.4 == 15,
            0 <= plan.5 <= 15,
            0 <= plan.6 <= 15,
        ensures
            final(self).wf(),
            ({
                let p = FreshPlan {
                    a: plan.0,
                    b: plan.1,
                    c: plan.2,
                    reset: plan.3,
                    fea: plan.4 as int,
                    feb: plan.5 as int,
                    fec: plan.6 as int,
                    next: old(self).next,
                    vf: old(self).vf@,
                };
                let (s2, b, d) = fresh_emit(old(self).state(), p);
                final(self).state() == s2 && byte == b && final(data)@ == old(data)@ + d
            }),
    {
        let ghost d0 = old(data)@;
        let (a, b, c, reset, fea, feb, fec) = plan;
        let codeaux: u8 = (feb * 16 + fec) as u8;
        let ti = table_find_exec(table, codeaux);
        let short = fea == 0 && 0 <= ti && ti < 14 && !reset;
        let byte: u8 = if short { (0xf0 + ti) as u8 } else { (0xfe + fea / 15) as u8 };
        if !short {
            data.push(codeaux);
        }
        let ghost d1 = data@;
        assert(d1 =~= d0 + (if short { Seq::<u8>::empty() } else { seq![codeaux] }));
        let la = free_exec(data, a, self.last, fea == 15);
        let lb = free_exec(data, b, la, feb == 15);
        let lc = free_exec(data, c, lb, fec == 15);
        self.last = lc;
        self.vpush(a);
        if feb == 0 || feb == 15 {
            self.vpush(b);
        }
        if fec == 0 || fec == 15 {
            self.vpush(c);
        }
        self.epush(b, a);
        self.epush(c, b);
        self.epush(a, c);
        proof {
            let p = FreshPlan {
                a: plan.0,
                b: plan.1,
                c: plan.2,
                reset: plan.3,
                fea: plan.4 as int,
                feb: plan.5 as int,
                fec: plan.6 as int,
                next: old(self).next,
                vf: old(self).vf@,
            };
            let (s2, bb, dd) = fresh_emit(old(self).state(), p);
            assert(data@ =~= d0 + dd);
        }
        byte
    }

    /// Encode a triangle by its vertices (see `enc_fresh`).
    fn fresh_exec(&mut self, t0: u32, t1: u32, t2: u32, version: u8, table: &Vec<u8>, data: &mut Vec<u8>) -> (byte: u8)
        requires
            old(self).wf(),
            table@ == code_aux_table(),
        ensures
            final(self).wf(),
            ({
                let (s2, b, d) = enc_fresh(old(self).state(), t0, t1, t2, version as int);
                final(self).state() == s2 && byte == b && final(data)@ == old(data)@ + d
            }),
    {
        let plan = self.fresh_plan_exec(t0, t1, t2, version);
        self.fresh_emit_exec(plan, table, data)
    }

    /// Encode one triangle (see `enc_step`), appending its code byte and its
    /// data bytes.
    pub fn step(
        &mut self,
        t0: u32,
        t1: u32,
        t2: u32,
        fecmax: u32,
        version: u8,
        table: &Vec<u8>,
        code: &mut Vec<u8>,
        data: &mut Vec<u8>,
    )
        requires
            old(self).wf(),
            fecmax == 13 || fecmax == 15,
            table@ == code_aux_table(),
        ensures
            final(self).wf(),
            ({
                let (s2, b, d) = enc_step(old(self).state(), t0, t1, t2, fecmax as int, version as int);
                final(self).state() == s2 && final(code)@ == old(code)@.push(b) && final(data)@ == old(data)@ + d
            }),
    {
        proof {
            reveal(enc_step);
        }
        let fer = self.edge_find_exec(t0, t1, t2);
        proof {
            lemma_edge_find_range(self.ef@, self.eo as int, t0, t1, t2, 0);
        }
        if fer >= 0 && fer / 4 < 15 {
            let b = self.edge_exec(t0, t1, t2, fer, fecmax, version, data);
            code.push(b);
        } else {
            let b = self.fresh_exec(t0, t1, t2, version, table, data);
            code.push(b);
        }
    }
}

/// An edge position is -1 or `4 * back + k` with `back` below 16 and `k`
/// below 3.
proof fn lemma_edge_find_range(ef: Seq<(u32, u32)>, eo: int, a: u32, b: u32, c: u32, i: int)
    ensures
        edge_find(ef, eo, a, b, c, i) == -1 || (0 <= edge_find(ef, eo, a, b, c, i) < 64 && edge_find(
            ef,
            eo,
            a,
            b,
            c,
            i,
        ) % 4 <= 2),
    decreases 16 - i,
{
    if 0 <= i < 16 {
        lemma_edge_find_range(ef, eo, a, b, c, i + 1);
    }
}

/// Encode the first `index_count` indices (a multiple of 3) as a
/// triangle-list index buffer at format `version` (0 or 1): the header byte
/// `0xe0 | version`, one code byte per triangle, the data stream, then the
/// 16-byte table.
pub fn encode_index_buffer(indices: &[u32], index_count: usize, version: u8) -> (r: Result<
    Vec<u8>,
    MeshoptError,
>)
    ensures
        index_count % 3 != 0 ==> (r matches Err(MeshoptError::Invalid(a)) && a@ == message(MeshoptArgument::IndexCount(
            index_count,
        ))),
        index_count % 3 == 0 && version > 1 ==> (r matches Err(MeshoptError::Invalid(a)) && a@
            == message(MeshoptArgument::IndexVersion(version))),
        index_count % 3 == 0 && version <= 1 && indices@.len() < index_count ==> (r matches Err(
            MeshoptError::Truncated { what, have, need },
        ) && what == "index source" && have == indices@.len() && need == index_count),
        index_count % 3 == 0 && version <= 1 && indices@.len() >= index_count ==> (r matches Ok(out) && out@
            == index_stream(indices@, index_count as int, version)),
{
    if index_count % 3 != 0 {
        return Err(MeshoptError::Invalid(describe(MeshoptArgument::IndexCount(index_count))));
    }
    if version > 1 {
        return Err(MeshoptError::Invalid(describe(MeshoptArgument::IndexVersion(version))));
    }
    if indices.len() < index_count {
        return Err(MeshoptError::Truncated { what: "index source", have: indices.len(), need: index_count });
    }
    let fecmax: u32 = if version >= 1 { 13 } else { 15 };
    let table = code_aux_table_exec();
    let mut enc = IndexEncoder::new();
    let mut code: Vec<u8> = Vec::new();
    let mut data: Vec<u8> = Vec::new();
    let n = index_count / 3;
    let mut k: usize = 0;
    while k < n
        invariant
            k <= n,
            n == index_count / 3,
            index_count <= indices@.len(),
            fecmax == (if version >= 1 { 13u32 } else { 15u32 }),
            table@ == code_aux_table(),
            enc.wf(),
            enc_run(indices@, k as int, fecmax as int, version as int) == (enc.state(), code@, data@),
        decreases n - k,
    {
        let t0 = indices[3 * k];
        let t1 = indices[3 * k + 1];
        let t2 = indices[3 * k + 2];
        enc.step(t0, t1, t2, fecmax, version, &table, &mut code, &mut data);
        k += 1;
    }
    let mut out: Vec<u8> = Vec::new();
    out.push(0xe0u8 | version);
    crate::bytes::push_slice(&mut out, code.as_slice());
    crate::bytes::push_slice(&mut out, data.as_slice());
    crate::bytes::push_slice(&mut out, table.as_slice());
    assert(out@ =~= index_stream(indices@, index_count as int, version));
    Ok(out)
}

} // verus!
