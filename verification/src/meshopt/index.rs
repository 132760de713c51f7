//! The triangle-list index buffer codec (`0xe0`): each triangle is one code
//! byte that names an edge in a 16-entry edge FIFO and a vertex in a
//! 16-entry vertex FIFO, or a fresh or explicit vertex; explicit vertices are
//! zig-zag var-byte deltas in a separate data stream.
use vstd::prelude::*;
use crate::meshopt::vbyte::{decode_vbyte_checked, unzigzag, unzigzag_exec, vbyte_at, vbyte_overrun};
use crate::meshopt::{index_bytes, push_index, wrap_add, wrap_sub, MeshoptArgument, MeshoptError};

use crate::meshopt::message::{describe, message};

verus! {

/// The standard table of vertex-FIFO pairs for codes `0xf0..0xfd`.
pub open spec fn code_aux_table() -> Seq<u8> {
    seq![0x00u8, 0x76, 0x87, 0x56, 0x67, 0x78, 0xa9, 0x86, 0x65, 0x89, 0x68, 0x98, 0x01, 0x69, 0, 0]
}

/// The standard table, built.
pub fn code_aux_table_exec() -> (t: Vec<u8>)
    ensures
        t@ == code_aux_table(),
{
    let t: Vec<u8> = vec![0x00u8, 0x76, 0x87, 0x56, 0x67, 0x78, 0xa9, 0x86, 0x65, 0x89, 0x68, 0x98, 0x01, 0x69, 0, 0];
    assert(t@ =~= code_aux_table());
    t
}

/// How a decoded triangle came about: from an edge in the FIFO (with the
/// vertex opposite that edge in its earlier triangle), or from vertices
/// alone.
#[derive(Debug, Clone, Copy, PartialEq, Eq, Structural)]
pub enum TriKind {
    Fresh,
    Edge(u32),
}

/// A decoded triangle `(a, b, c)` and how it came about.
pub type Tri = (u32, u32, u32, TriKind);

/// Where a decode ran out: the code stream, or the data stream, at a
/// position.
#[derive(Debug, Clone, Copy, PartialEq, Eq, Structural)]
pub enum IdxFail {
    Code(usize),
    Data(usize),
}

/// The decoder's state between triangles: the edge FIFO (each edge with the
/// vertex opposite it), the vertex FIFO, their write offsets, the next
/// fresh vertex, the last explicit vertex, and the code and data
/// positions.
pub struct IdxState {
    pub ef: Seq<(u32, u32, u32)>,
    pub vf: Seq<u32>,
    pub eo: int,
    pub vo: int,
    pub next: u32,
    pub last: u32,
    pub cp: int,
    pub dp: int,
}

/// One decode step: a triangle and the state after it, or where it ran out.
pub enum IdxStep {
    Step(IdxState, Tri),
    Fail(IdxFail),
}

/// The state before the first triangle.
pub open spec fn idx_start() -> IdxState {
    IdxState {
        ef: Seq::new(16, |i: int| (u32::MAX, u32::MAX, u32::MAX)),
        vf: Seq::new(16, |i: int| u32::MAX),
        eo: 0,
        vo: 0,
        next: 0,
        last: 0,
        cp: 0,
        dp: 0,
    }
}

/// Push `v` into the vertex FIFO; the offset moves on only when `adv`.
pub open spec fn push_v(s: IdxState, v: u32, adv: bool) -> IdxState {
    IdxState { vf: s.vf.update(s.vo, v), vo: if adv { (s.vo + 1) % 16 } else { s.vo }, ..s }
}

/// Push edge `e` into the edge FIFO.
pub open spec fn push_e(s: IdxState, e: (u32, u32, u32)) -> IdxState {
    IdxState { ef: s.ef.update(s.eo, e), eo: (s.eo + 1) % 16, ..s }
}

/// Push the three edges of a triangle `(a, b, c)` named from scratch.
pub open spec fn push_tri_edges(s: IdxState, a: u32, b: u32, c: u32) -> IdxState {
    push_e(push_e(push_e(s, (b, a, c)), (c, b, a)), (a, c, b))
}

/// An explicit vertex read from `data` at `dp` as a delta against `last`:
/// the vertex and the position after it, or where the data ran out. When
/// `go` is false nothing is read.
pub open spec fn read_free(data: Seq<u8>, dp: int, last: u32, go: bool) -> Result<(u32, int), usize> {
    if !go {
        Ok((last, dp))
    } else {
        match vbyte_overrun(data, dp) {
            Some(q) => Err(q as usize),
            None => Ok((wrap_add(last, unzigzag(vbyte_at(data, dp).0)), vbyte_at(data, dp).1)),
        }
    }
}

/// A code byte below `0xf0`: the edge `code >> 4` back in the edge FIFO,
/// closed by the vertex `code & 15` (0: the next fresh vertex; below
/// `fecmax`: that far back in the vertex FIFO; 13 and 14: the last explicit
/// vertex minus or plus one; 15: an explicit vertex).
pub open spec fn edge_tri(s: IdxState, t: u8, data: Seq<u8>, fecmax: int) -> IdxStep {
    let e = s.ef[(s.eo - 1 - (t >> 4u8) as int) % 16];
    let a = e.0;
    let b = e.1;
    let fec = (t & 15u8) as int;
    if fec < fecmax {
        let c = if fec == 0 { s.next } else { s.vf[(s.vo - 1 - fec) % 16] };
        let s2 = IdxState { next: if fec == 0 { wrap_add(s.next, 1) } else { s.next }, ..s };
        IdxStep::Step(push_e(push_e(push_v(s2, c, fec == 0), (c, b, a)), (a, c, b)), (a, b, c, TriKind::Edge(e.2)))
    } else if fec != 15 {
        let c = if fec == 13 { wrap_sub(s.last, 1) } else { wrap_add(s.last, 1) };
        let s2 = IdxState { last: c, ..s };
        IdxStep::Step(push_e(push_e(push_v(s2, c, true), (c, b, a)), (a, c, b)), (a, b, c, TriKind::Edge(e.2)))
    } else {
        match read_free(data, s.dp, s.last, true) {
            Err(q) => IdxStep::Fail(IdxFail::Data(q)),
            Ok((c, p2)) => {
                let s2 = IdxState { last: c, dp: p2, ..s };
                IdxStep::Step(
                    push_e(push_e(push_v(s2, c, true), (c, b, a)), (a, c, b)),
                    (a, b, c, TriKind::Edge(e.2)),
                )
            },
        }
    }
}

/// A code byte `0xf0..0xfd`: a fresh vertex, then two vertices named by the
/// table entry's nibbles (0: fresh; else that far back in the vertex FIFO).
pub open spec fn fresh_tri(s: IdxState, t: u8, table: Seq<u8>) -> IdxStep {
    let aux = table[(t & 15u8) as int];
    let feb = (aux >> 4u8) as int;
    let fec = (aux & 15u8) as int;
    let a = s.next;
    let n1 = wrap_add(s.next, 1);
    let b = if feb == 0 { n1 } else { s.vf[(s.vo - feb) % 16] };
    let n2 = if feb == 0 { wrap_add(n1, 1) } else { n1 };
    let c = if fec == 0 { n2 } else { s.vf[(s.vo - fec) % 16] };
    let n3 = if fec == 0 { wrap_add(n2, 1) } else { n2 };
    let s2 = IdxState { next: n3, ..s };
    let s3 = push_v(push_v(push_v(s2, a, true), b, feb == 0), c, fec == 0);
    IdxStep::Step(push_tri_edges(s3, a, b, c), (a, b, c, TriKind::Fresh))
}

/// A code byte `0xfe` or `0xff`: a data byte names the second and third
/// vertices (0: fresh; 15: explicit; else back in the vertex FIFO); the
/// first is fresh (`0xfe`) or explicit (`0xff`). A zero data byte restarts
/// the fresh vertices at 0.
pub open spec fn explicit_tri(s: IdxState, t: u8, data: Seq<u8>) -> IdxStep {
    if s.dp >= data.len() {
        IdxStep::Fail(IdxFail::Data(s.dp as usize))
    } else {
        let aux = data[s.dp];
        let fea: int = if t == 0xfe { 0 } else { 15 };
        let feb = (aux >> 4u8) as int;
        let fec = (aux & 15u8) as int;
        let n0 = if aux == 0 { 0u32 } else { s.next };
        let a0 = if fea == 0 { n0 } else { 0u32 };
        let na = if fea == 0 { wrap_add(n0, 1) } else { n0 };
        let b0 = if feb == 0 { na } else { s.vf[(s.vo - feb) % 16] };
        let nb = if feb == 0 { wrap_add(na, 1) } else { na };
        let c0 = if fec == 0 { nb } else { s.vf[(s.vo - fec) % 16] };
        let nc = if fec == 0 { wrap_add(nb, 1) } else { nb };
        match read_free(data, s.dp + 1, s.last, fea == 15) {
            Err(q) => IdxStep::Fail(IdxFail::Data(q)),
            Ok((la, pa)) => match read_free(data, pa, la, feb == 15) {
                Err(q) => IdxStep::Fail(IdxFail::Data(q)),
                Ok((lb, pb)) => match read_free(data, pb, lb, fec == 15) {
                    Err(q) => IdxStep::Fail(IdxFail::Data(q)),
                    Ok((lc, pc)) => {
                        let a = if fea == 15 { la } else { a0 };
                        let b = if feb == 15 { lb } else { b0 };
                        let c = if fec == 15 { lc } else { c0 };
                        let s2 = IdxState { next: nc, last: lc, dp: pc, ..s };
                        let s3 = push_v(push_v(push_v(s2, a, true), b, feb == 0 || feb == 15), c, fec == 0 || fec == 15);
                        IdxStep::Step(push_tri_edges(s3, a, b, c), (a, b, c, TriKind::Fresh))
                    },
                },
            },
        }
    }
}

/// One triangle from the code byte at `s.cp`.
#[verifier::opaque]
pub open spec fn idx_step(s: IdxState, code: Seq<u8>, data: Seq<u8>, table: Seq<u8>, fecmax: int) -> IdxStep {
    if s.cp >= code.len() {
        IdxStep::Fail(IdxFail::Code(s.cp as usize))
    } else {
        let t = code[s.cp];
        let s1 = IdxState { cp: s.cp + 1, ..s };
        if t < 0xf0 {
            edge_tri(s1, t, data, fecmax)
        } else if t < 0xfe {
            fresh_tri(s1, t, table)
        } else {
            explicit_tri(s1, t, data)
        }
    }
}

/// The first `k` triangles: the state after them and the triangles, or
/// where the streams ran out.
pub open spec fn idx_run(code: Seq<u8>, data: Seq<u8>, table: Seq<u8>, fecmax: int, k: int) -> Result<
    (IdxState, Seq<Tri>),
    IdxFail,
>
    decreases k,
{
    if k <= 0 {
        Ok((idx_start(), Seq::empty()))
    } else {
        match idx_run(code, data, table, fecmax, k - 1) {
            Err(f) => Err(f),
            Ok((s, tris)) => match idx_step(s, code, data, table, fecmax) {
                IdxStep::Fail(f) => Err(f),
                IdxStep::Step(s2, t) => Ok((s2, tris.push(t))),
            },
        }
    }
}

/// The indices of a triangle list.
pub open spec fn tri_indices(tris: Seq<Tri>) -> Seq<u32>
    decreases tris.len(),
{
    if tris.len() == 0 {
        Seq::empty()
    } else {
        tri_indices(tris.drop_last()) + seq![tris.last().0, tris.last().1, tris.last().2]
    }
}

/// The error a decode failure is reported as.
pub open spec fn idx_fail_error(f: IdxFail, code_len: int, data_len: int, e: MeshoptError) -> bool {
    match f {
        IdxFail::Code(q) => e matches MeshoptError::Truncated { what, have, need } && what == "index code stream"
            && have == code_len && need == q + 1,
        IdxFail::Data(q) => e matches MeshoptError::Truncated { what, have, need } && what == "index data stream"
            && have == data_len && need == q + 1,
    }
}

/// The running index decoder: the FIFOs and counters of `IdxState`.
pub struct IndexDecoder {
    pub ef: Vec<(u32, u32, u32)>,
    pub vf: Vec<u32>,
    pub eo: usize,
    pub vo: usize,
    pub next: u32,
    pub last: u32,
    pub cp: usize,
    pub dp: usize,
}

/// The read position of a FIFO offset `off`, `back` entries back.
pub open spec fn fifo_back(off: int, back: int) -> int {
    (off - back) % 16
}

proof fn lemma_fifo_back(off: int, back: int)
    requires
        0 <= off < 16,
        0 <= back <= 16,
    ensures
        (off + 16 - back) % 16 == (off - back) % 16,
        0 <= (off - back) % 16 < 16,
{
    assert((off + 16 - back) % 16 == (off - back) % 16) by (nonlinear_arith)
        requires
            0 <= off < 16,
            0 <= back <= 16,
    ;
}

impl IndexDecoder {
    /// The decoder's state.
    pub open spec fn state(&self) -> IdxState {
        IdxState {
            ef: self.ef@,
            vf: self.vf@,
            eo: self.eo as int,
            vo: self.vo as int,
            next: self.next,
            last: self.last,
            cp: self.cp as int,
            dp: self.dp as int,
        }
    }

    /// The FIFOs have 16 entries and the offsets point into them.
    pub open spec fn wf(&self) -> bool {
        self.ef@.len() == 16 && self.vf@.len() == 16 && self.eo < 16 && self.vo < 16
    }

    /// A decoder before the first triangle.
    pub fn new() -> (d: Self)
        ensures
            d.wf(),
            d.state() == idx_start(),
    {
        let mut ef: Vec<(u32, u32, u32)> = Vec::new();
        let mut vf: Vec<u32> = Vec::new();
        let mut i: usize = 0;
        while i < 16
            invariant
                i <= 16,
                ef@ == Seq::new(i as nat, |j: int| (u32::MAX, u32::MAX, u32::MAX)),
                vf@ == Seq::new(i as nat, |j: int| u32::MAX),
            decreases 16 - i,
        {
            ef.push((u32::MAX, u32::MAX, u32::MAX));
            vf.push(u32::MAX);
            assert(ef@ =~= Seq::new((i + 1) as nat, |j: int| (u32::MAX, u32::MAX, u32::MAX)));
            assert(vf@ =~= Seq::new((i + 1) as nat, |j: int| u32::MAX));
            i += 1;
        }
        IndexDecoder { ef, vf, eo: 0, vo: 0, next: 0, last: 0, cp: 0, dp: 0 }
    }

    /// The vertex FIFO entry `back` places behind the offset.
    fn vback(&self, back: usize) -> (v: u32)
        requires
            self.wf(),
            back <= 16,
        ensures
            v == self.vf@[fifo_back(self.vo as int, back as int)],
    {
        proof {
            lemma_fifo_back(self.vo as int, back as int);
        }
        self.vf[(self.vo + 16 - back) % 16]
    }

    /// Push into the vertex FIFO.
    fn vpush(&mut self, v: u32, adv: bool)
        requires
            old(self).wf(),
        ensures
            final(self).wf(),
            final(self).state() == push_v(old(self).state(), v, adv),
            final(self).cp == old(self).cp && final(self).dp == old(self).dp,
    {
        let o = self.vo;
        self.vf.set(o, v);
        if adv {
            self.vo = (o + 1) % 16;
        }
    }

    /// Push into the edge FIFO.
    fn epush(&mut self, e: (u32, u32, u32))
        requires
            old(self).wf(),
        ensures
            final(self).wf(),
            final(self).state() == push_e(old(self).state(), e),
            final(self).cp == old(self).cp && final(self).dp == old(self).dp,
    {
        let o = self.eo;
        self.ef.set(o, e);
        self.eo = (o + 1) % 16;
    }
}

impl IndexDecoder {
    /// A triangle from a code byte below `0xf0` (see `edge_tri`).
    fn edge_exec(&mut self, t: u8, data: &[u8], fecmax: u8) -> (r: Result<Tri, IdxFail>)
        requires
            old(self).wf(),
            old(self).dp <= data@.len(),
            data@.len() < usize::MAX,
            t < 0xf0,
            fecmax == 13 || fecmax == 15,
        ensures
            match edge_tri(old(self).state(), t, data@, fecmax as int) {
                IdxStep::Step(s2, tri) => r == Ok::<Tri, IdxFail>(tri) && final(self).state() == s2,
                IdxStep::Fail(f) => r == Err::<Tri, IdxFail>(f),
            },
            r is Ok ==> final(self).wf() && final(self).cp == old(self).cp && final(self).dp <= data@.len(),
            r matches Err(IdxFail::Data(q)) ==> q < usize::MAX,
            r matches Err(IdxFail::Code(q)) ==> false,
    {
        assert(t >> 4u8 <= 14 && t & 15u8 <= 15) by (bit_vector)
            requires
                t < 0xf0,
        ;
        let fe = (t >> 4u8) as usize;
        proof {
            lemma_fifo_back(self.eo as int, fe + 1);
        }
        let e = self.ef[(self.eo + 15 - fe) % 16];
        let a = e.0;
        let b = e.1;
        let fec = (t & 15u8) as usize;
        let c: u32;
        if fec < fecmax as usize {
            if fec == 0 {
                c = self.next;
                self.next = self.next.wrapping_add(1);
            } else {
                c = self.vback(fec + 1);
            }
            self.vpush(c, fec == 0);
        } else if fec != 15 {
            c = if fec == 13 { self.last.wrapping_sub(1) } else { self.last.wrapping_add(1) };
            self.last = c;
            self.vpush(c, true);
        } else {
            match read_free_exec(data, self.dp, self.last, true) {
                Err(q) => {
                    return Err(IdxFail::Data(q));
                },
                Ok((v, p2)) => {
                    c = v;
                    self.last = v;
                    self.dp = p2;
                },
            }
            self.vpush(c, true);
        }
        self.epush((c, b, a));
        self.epush((a, c, b));
        Ok((a, b, c, TriKind::Edge(e.2)))
    }

    /// A triangle from a code byte `0xf0..0xfd` (see `fresh_tri`).
    fn fresh_exec(&mut self, t: u8, table: &[u8]) -> (r: Tri)
        requires
            old(self).wf(),
            table@.len() >= 16,
            t >= 0xf0,
        ensures
            match fresh_tri(old(self).state(), t, table@) {
                IdxStep::Step(s2, tri) => r == tri && final(self).state() == s2,
                IdxStep::Fail(f) => false,
            },
            final(self).wf() && final(self).cp == old(self).cp && final(self).dp == old(self).dp,
    {
        assert(t & 15u8 < 16) by (bit_vector);
        let aux = table[(t & 15u8) as usize];
        assert(aux >> 4u8 <= 15 && aux & 15u8 <= 15) by (bit_vector);
        let feb = (aux >> 4u8) as usize;
        let fec = (aux & 15u8) as usize;
        let a = self.next;
        let n1 = a.wrapping_add(1);
        let b = if feb == 0 { n1 } else { self.vback(feb) };
        let n2 = if feb == 0 { n1.wrapping_add(1) } else { n1 };
        let c = if fec == 0 { n2 } else { self.vback(fec) };
        let n3 = if fec == 0 { n2.wrapping_add(1) } else { n2 };
        self.next = n3;
        self.vpush(a, true);
        self.vpush(b, feb == 0);
        self.vpush(c, fec == 0);
        self.epush((b, a, c));
        self.epush((c, b, a));
        self.epush((a, c, b));
        (a, b, c, TriKind::Fresh)
    }

    /// A triangle from a code byte `0xfe` or `0xff` (see `explicit_tri`).
    fn explicit_exec(&mut self, t: u8, data: &[u8]) -> (r: Result<Tri, IdxFail>)
        requires
            old(self).wf(),
            old(self).dp <= data@.len(),
            data@.len() < usize::MAX,
        ensures
            match explicit_tri(old(self).state(), t, data@) {
                IdxStep::Step(s2, tri) => r == Ok::<Tri, IdxFail>(tri) && final(self).state() == s2,
                IdxStep::Fail(f) => r == Err::<Tri, IdxFail>(f),
            },
            r is Ok ==> final(self).wf() && final(self).cp == old(self).cp && final(self).dp <= data@.len(),
            r matches Err(IdxFail::Data(q)) ==> q < usize::MAX,
            r matches Err(IdxFail::Code(q)) ==> false,
    {
        if self.dp >= data.len() {
            return Err(IdxFail::Data(self.dp));
        }
        let aux = data[self.dp];
        assert(aux >> 4u8 <= 15 && aux & 15u8 <= 15) by (bit_vector);
        let fea: usize = if t == 0xfe { 0 } else { 15 };
        let feb = (aux >> 4u8) as usize;
        let fec = (aux & 15u8) as usize;
        let n0 = if aux == 0 { 0u32 } else { self.next };
        let a0 = if fea == 0 { n0 } else { 0u32 };
        let na = if fea == 0 { n0.wrapping_add(1) } else { n0 };
        let b0 = if feb == 0 { na } else { self.vback(feb) };
        let nb = if feb == 0 { na.wrapping_add(1) } else { na };
        let c0 = if fec == 0 { nb } else { self.vback(fec) };
        let nc = if fec == 0 { nb.wrapping_add(1) } else { nb };
        let (la, pa) = match read_free_exec(data, self.dp + 1, self.last, fea == 15) {
            Err(q) => {
                return Err(IdxFail::Data(q));
            },
            Ok(x) => x,
        };
        let (lb, pb) = match read_free_exec(data, pa, la, feb == 15) {
            Err(q) => {
                return Err(IdxFail::Data(q));
            },
            Ok(x) => x,
        };
        let (lc, pc) = match read_free_exec(data, pb, lb, fec == 15) {
            Err(q) => {
                return Err(IdxFail::Data(q));
            },
            Ok(x) => x,
        };
        let a = if fea == 15 { la } else { a0 };
        let b = if feb == 15 { lb } else { b0 };
        let c = if fec == 15 { lc } else { c0 };
        self.next = nc;
        self.last = lc;
        self.dp = pc;
        self.vpush(a, true);
        self.vpush(b, feb == 0 || feb == 15);
        self.vpush(c, fec == 0 || fec == 15);
        self.epush((b, a, c));
        self.epush((c, b, a));
        self.epush((a, c, b));
        Ok((a, b, c, TriKind::Fresh))
    }

    /// Decode one triangle (see `idx_step`).
    pub fn step(&mut self, code: &[u8], data: &[u8], table: &[u8], fecmax: u8) -> (r: Result<Tri, IdxFail>)
        requires
            old(self).wf(),
            old(self).cp <= code@.len(),
            old(self).dp <= data@.len(),
            data@.len() < usize::MAX,
            table@.len() >= 16,
            fecmax == 13 || fecmax == 15,
        ensures
            match idx_step(old(self).state(), code@, data@, table@, fecmax as int) {
                IdxStep::Step(s2, tri) => r == Ok::<Tri, IdxFail>(tri) && final(self).state() == s2,
                IdxStep::Fail(f) => r == Err::<Tri, IdxFail>(f),
            },
            r is Ok ==> final(self).wf() && final(self).cp <= code@.len() && final(self).dp <= data@.len(),
            r matches Err(IdxFail::Data(q)) ==> q < usize::MAX,
            r matches Err(IdxFail::Code(q)) ==> q <= code@.len(),
    {
        proof {
            reveal(idx_step);
        }
        if self.cp >= code.len() {
            return Err(IdxFail::Code(self.cp));
        }
        let t = code[self.cp];
        self.cp = self.cp + 1;
        if t < 0xf0 {
            self.edge_exec(t, data, fecmax)
        } else if t < 0xfe {
            Ok(self.fresh_exec(t, table))
        } else {
            self.explicit_exec(t, data)
        }
    }
}

/// Read an explicit vertex (see `read_free`).
fn read_free_exec(data: &[u8], dp: usize, last: u32, go: bool) -> (r: Result<(u32, usize), usize>)
    requires
        dp <= data@.len(),
        data@.len() < usize::MAX,
    ensures
        match read_free(data@, dp as int, last, go) {
            Ok((v, p)) => r == Ok::<(u32, usize), usize>((v, p as usize)) && dp <= p <= data@.len(),
            Err(q) => r == Err::<(u32, usize), usize>(q) && q < usize::MAX,
        },
{
    if !go {
        return Ok((last, dp));
    }
    let mut p = dp;
    match decode_vbyte_checked(data, &mut p) {
        Ok(v) => Ok((last.wrapping_add(unzigzag_exec(v)), p)),
        Err(MeshoptError::Truncated { need, .. }) => {
            assert(vbyte_overrun(data@, dp as int) is Some);
            let ghost q = vbyte_overrun(data@, dp as int)->Some_0;
            proof {
                crate::meshopt::vbyte::lemma_vbyte_overrun_after(data@, dp as int + 1, 1);
            }
            assert(need == q + 1 && q >= 0);
            Err(need - 1)
        },
        Err(_) => Err(0),
    }
}

/// Once a decode has failed, later triangles leave it failed.
proof fn lemma_idx_run_failed_stays(code: Seq<u8>, data: Seq<u8>, table: Seq<u8>, fecmax: int, k1: int, k2: int)
    requires
        0 <= k1 <= k2,
        idx_run(code, data, table, fecmax, k1) is Err,
    ensures
        idx_run(code, data, table, fecmax, k2) == idx_run(code, data, table, fecmax, k1),
    decreases k2 - k1,
{
    if k1 < k2 {
        lemma_idx_run_failed_stays(code, data, table, fecmax, k1, k2 - 1);
    }
}

/// Appending a triangle appends its three indices' bytes.
proof fn lemma_index_bytes_tri(tris: Seq<Tri>, t: Tri, size: int)
    ensures
        index_bytes(tri_indices(tris.push(t)), size) == index_bytes(tri_indices(tris), size)
            + crate::meshopt::index_le(t.0, size) + crate::meshopt::index_le(t.1, size)
            + crate::meshopt::index_le(t.2, size),
{
    let base = tri_indices(tris);
    assert(tris.push(t).drop_last() =~= tris);
    let s3 = tri_indices(tris.push(t));
    assert(s3 == base + seq![t.0, t.1, t.2]);
    let s2 = base + seq![t.0, t.1];
    let s1 = base.push(t.0);
    assert(s3.drop_last() =~= s2);
    assert(index_bytes(s3, size) == index_bytes(s2, size) + crate::meshopt::index_le(t.2, size));
    assert(s2.drop_last() =~= s1);
    assert(index_bytes(s2, size) == index_bytes(s1, size) + crate::meshopt::index_le(t.1, size));
    assert(s1.drop_last() =~= base);
    assert(index_bytes(s1, size) == index_bytes(base, size) + crate::meshopt::index_le(t.0, size));
    assert(index_bytes(s3, size) =~= index_bytes(base, size) + crate::meshopt::index_le(t.0, size)
        + crate::meshopt::index_le(t.1, size) + crate::meshopt::index_le(t.2, size));
}

/// The shared triangle-list decode loop over separate `code` and `data`
/// streams, with the table for codes `0xf0..0xfd` and the vertex-FIFO bound
/// `fecmax` (13 for format version 1, 15 for version 0). Returns the index
/// bytes and how much of each stream was consumed.
#[verifier::rlimit(50)]
fn decode_index_core(
    index_count: usize,
    index_size: usize,
    code: &[u8],
    data: &[u8],
    table: &[u8],
    fecmax: u8,
) -> (r: Result<(Vec<u8>, usize, usize), MeshoptError>)
    requires
        index_size == 2 || index_size == 4,
        table@.len() >= 16,
        fecmax == 13 || fecmax == 15,
        data@.len() < usize::MAX,
        code@.len() < usize::MAX,
    ensures
        match idx_run(code@, data@, table@, fecmax as int, index_count as int / 3) {
            Err(f) => r matches Err(e) && idx_fail_error(f, code@.len() as int, data@.len() as int, e),
            Ok((s, tris)) => r matches Ok((out, cu, du)) && out@ == index_bytes(tri_indices(tris), index_size as int)
                && cu == s.cp && du == s.dp,
        },
{
    let mut dec = IndexDecoder::new();
    let mut out: Vec<u8> = Vec::new();
    let ghost mut tris: Seq<Tri> = Seq::empty();
    let n = index_count / 3;
    let mut k: usize = 0;
    assert(index_bytes(tri_indices(tris), index_size as int) =~= out@);
    while k < n
        invariant
            k <= n,
            n == index_count / 3,
            index_size == 2 || index_size == 4,
            table@.len() >= 16,
            fecmax == 13 || fecmax == 15,
            data@.len() < usize::MAX,
            code@.len() < usize::MAX,
            dec.wf(),
            dec.cp <= code@.len(),
            dec.dp <= data@.len(),
            idx_run(code@, data@, table@, fecmax as int, k as int) == Ok::<(IdxState, Seq<Tri>), IdxFail>(
                (dec.state(), tris),
            ),
            out@ == index_bytes(tri_indices(tris), index_size as int),
        decreases n - k,
    {
        match dec.step(code, data, table, fecmax) {
            Err(f) => {
                proof {
                    lemma_idx_run_failed_stays(code@, data@, table@, fecmax as int, k + 1, n as int);
                }
                return match f {
                    IdxFail::Code(q) => Err(
                        MeshoptError::Truncated { what: "index code stream", have: code.len(), need: q + 1 },
                    ),
                    IdxFail::Data(q) => Err(
                        MeshoptError::Truncated { what: "index data stream", have: data.len(), need: q + 1 },
                    ),
                };
            },
            Ok(t) => {
                proof {
                    lemma_index_bytes_tri(tris, t, index_size as int);
                    tris = tris.push(t);
                }
                push_index(&mut out, t.0, index_size);
                push_index(&mut out, t.1, index_size);
                push_index(&mut out, t.2, index_size);
            },
        }
        k += 1;
    }
    Ok((out, dec.cp, dec.dp))
}

/// What the decode loop returns for `index_count` indices: the index bytes
/// and the stream positions, or the error for where a stream ran out.
pub open spec fn core_result(
    code: Seq<u8>,
    data: Seq<u8>,
    table: Seq<u8>,
    fecmax: int,
    index_count: int,
    index_size: int,
    r: Result<(Vec<u8>, usize, usize), MeshoptError>,
) -> bool {
    match idx_run(code, data, table, fecmax, index_count / 3) {
        Err(f) => r matches Err(e) && idx_fail_error(f, code.len() as int, data.len() as int, e),
        Ok((s, tris)) => r matches Ok((out, cu, du)) && out@ == index_bytes(tri_indices(tris), index_size) && cu
            == s.cp && du == s.dp,
    }
}

/// The argument checks shared by the split decoders: `Some` error when an
/// argument is out of its range.
pub open spec fn split_args_error(index_count: usize, index_size: usize, version: u8) -> Option<MeshoptArgument> {
    if index_count % 3 != 0 {
        Some(MeshoptArgument::IndexCount(index_count))
    } else if index_size != 2 && index_size != 4 {
        Some(MeshoptArgument::IndexSize(index_size))
    } else if version > 1 {
        Some(MeshoptArgument::IndexVersion(version))
    } else {
        None
    }
}

/// What decoding the index buffer `b` gives: the argument errors, a
/// buffer too short for its code stream and table, a bad header, the
/// triangle walk's own errors, unconsumed data, or the index bytes.
pub open spec fn index_buffer_result(index_count: usize, index_size: usize, b: Seq<u8>, r: Result<
    Vec<u8>,
    MeshoptError,
>) -> bool {
    if index_count % 3 != 0 {
        r matches Err(MeshoptError::Invalid(a)) && a@ == message(MeshoptArgument::IndexCount(index_count))
    } else if index_size != 2 && index_size != 4 {
        r matches Err(MeshoptError::Invalid(a)) && a@ == message(MeshoptArgument::IndexSize(index_size))
    } else if b.len() < 1 + index_count / 3 + 16 {
        r matches Err(MeshoptError::Truncated { what, have, need }) && what == "index buffer" && have == b.len()
            && need == 1 + index_count / 3 + 16
    } else if (b[0] & 0xf0u8) != 0xe0u8 || (b[0] & 0x0fu8) > 1 {
        r matches Err(MeshoptError::BadHeader { what, byte }) && what == "index" && byte == b[0]
    } else {
        let code = b.subrange(1, 1 + index_count / 3);
        let data = b.subrange(1 + index_count / 3, b.len() - 16);
        let table = b.subrange(b.len() - 16, b.len() as int);
        let fecmax: int = if (b[0] & 0x0fu8) >= 1 { 13 } else { 15 };
        match idx_run(code, data, table, fecmax, index_count as int / 3) {
            Err(f) => r matches Err(e) && idx_fail_error(f, code.len() as int, data.len() as int, e),
            Ok((s, tris)) => if s.dp != data.len() {
                r matches Err(MeshoptError::ExtraBytes { what, leftover }) && what == "index buffer" && leftover
                    == crate::meshopt::sequence::abs_diff(data.len() as int, s.dp)
            } else {
                r matches Ok(out) && out@ == index_bytes(tri_indices(tris), index_size as int)
            },
        }
    }
}

/// Decode a triangle-list index buffer (`0xe0`) of `index_count` indices
/// (a multiple of 3) of `index_size` (2 or 4) bytes. The buffer is the
/// header byte `0xe0 | version` (version 0 or 1), one code byte per
/// triangle, the data stream, and the 16-byte table; the data stream must
/// be consumed exactly.
pub fn decode_index_buffer(index_count: usize, index_size: usize, buffer: &[u8]) -> (r: Result<
    Vec<u8>,
    MeshoptError,
>)
    requires
        buffer@.len() < usize::MAX,
    ensures
        index_buffer_result(index_count, index_size, buffer@, r),
{
    if index_count % 3 != 0 {
        return Err(MeshoptError::Invalid(describe(MeshoptArgument::IndexCount(index_count))));
    }
    if index_size != 2 && index_size != 4 {
        return Err(MeshoptError::Invalid(describe(MeshoptArgument::IndexSize(index_size))));
    }
    let need = 1 + index_count / 3 + 16;
    if buffer.len() < need {
        return Err(MeshoptError::Truncated { what: "index buffer", have: buffer.len(), need });
    }
    if (buffer[0] & 0xf0u8) != 0xe0u8 || (buffer[0] & 0x0fu8) > 1 {
        return Err(MeshoptError::BadHeader { what: "index", byte: buffer[0] });
    }
    let fecmax: u8 = if (buffer[0] & 0x0fu8) >= 1 { 13 } else { 15 };
    let data_start = 1 + index_count / 3;
    let data_end = buffer.len() - 16;
    let code = &buffer[1..data_start];
    let data = &buffer[data_start..data_end];
    let table = &buffer[data_end..buffer.len()];
    match decode_index_core(index_count, index_size, code, data, table, fecmax) {
        Err(e) => Err(e),
        Ok((out, _cu, du)) => {
            if du != data.len() {
                let leftover = if data.len() >= du { data.len() - du } else { du - data.len() };
                Err(MeshoptError::ExtraBytes { what: "index buffer", leftover })
            } else {
                Ok(out)
            }
        },
    }
}

/// What the split decode of `code` and `data` gives, with the bytes it used.
pub open spec fn split_used_result(
    index_count: usize,
    index_size: usize,
    code: Seq<u8>,
    data: Seq<u8>,
    version: u8,
    r: Result<(Vec<u8>, usize, usize), MeshoptError>,
) -> bool {
    match split_args_error(index_count, index_size, version) {
        Some(a) => r matches Err(MeshoptError::Invalid(b)) && b@ == message(a),
        None => core_result(
            code,
            data,
            code_aux_table(),
            if version >= 1 { 13 } else { 15 },
            index_count as int,
            index_size as int,
            r,
        ),
    }
}

/// What the split decode of `code` and `data` gives.
pub open spec fn split_result(
    index_count: usize,
    index_size: usize,
    code: Seq<u8>,
    data: Seq<u8>,
    version: u8,
    r: Result<Vec<u8>, MeshoptError>,
) -> bool {
    match split_args_error(index_count, index_size, version) {
        Some(a) => r matches Err(MeshoptError::Invalid(b)) && b@ == message(a),
        None => match idx_run(code, data, code_aux_table(), if version >= 1 { 13 } else { 15 }, index_count as int / 3) {
            Err(f) => r matches Err(e) && idx_fail_error(f, code.len() as int, data.len() as int, e),
            Ok((s, tris)) => r matches Ok(out) && out@ == index_bytes(tri_indices(tris), index_size as int),
        },
    }
}

/// Decode a triangle list from separate `code` and `data` streams with the
/// standard table (`version` 0: vertex-FIFO bound 15; 1: bound 13), and
/// return the index bytes with how many code and data bytes were consumed;
/// the streams may hold more after that.
pub fn decode_index_buffer_split_used(
    index_count: usize,
    index_size: usize,
    code: &[u8],
    data: &[u8],
    version: u8,
) -> (r: Result<(Vec<u8>, usize, usize), MeshoptError>)
    requires
        code@.len() < usize::MAX,
        data@.len() < usize::MAX,
    ensures
        split_used_result(index_count, index_size, code@, data@, version, r),
{
    if index_count % 3 != 0 {
        return Err(MeshoptError::Invalid(describe(MeshoptArgument::IndexCount(index_count))));
    }
    if index_size != 2 && index_size != 4 {
        return Err(MeshoptError::Invalid(describe(MeshoptArgument::IndexSize(index_size))));
    }
    if version > 1 {
        return Err(MeshoptError::Invalid(describe(MeshoptArgument::IndexVersion(version))));
    }
    let fecmax: u8 = if version >= 1 { 13 } else { 15 };
    let table = code_aux_table_exec();
    decode_index_core(index_count, index_size, code, data, table.as_slice(), fecmax)
}

/// Decode a triangle list from separate `code` and `data` streams (see
/// `decode_index_buffer_split_used`), returning only the index bytes.
pub fn decode_index_buffer_split(
    index_count: usize,
    index_size: usize,
    code: &[u8],
    data: &[u8],
    version: u8,
) -> (r: Result<Vec<u8>, MeshoptError>)
    requires
        code@.len() < usize::MAX,
        data@.len() < usize::MAX,
    ensures
        split_result(index_count, index_size, code@, data@, version, r),
{
    match decode_index_buffer_split_used(index_count, index_size, code, data, version) {
        Ok((out, _, _)) => Ok(out),
        Err(e) => Err(e),
    }
}

/// Three vertex distances packed into one aux-table entry: 22 bits, then
/// 21 bits at bit 22, then 21 bits at bit 43.
pub open spec fn pack_aux(low: u32, mid: u32, high: u32) -> u64 {
    ((low as u64) & 0x3f_ffffu64) | (((mid as u64) & 0x1f_ffffu64) << 22u64) | (((high as u64) & 0x1f_ffffu64)
        << 43u64)
}

/// The largest of three vertices.
pub open spec fn max3(a: u32, b: u32, c: u32) -> u32 {
    let m = if a >= b { a } else { b };
    if m >= c { m } else { c }
}

/// The aux-table entry a triangle would write at its largest vertex: for a
/// triangle on a FIFO edge whose new vertex is the largest, the distances
/// from it to the vertex opposite the edge (0 when that one is larger) and
/// to the edge's ends; otherwise 0 and the distances from the largest
/// vertex to the other two in winding order.
pub open spec fn aux_entry(t: Tri) -> u64 {
    let (a, b, c, kind) = t;
    let m = max3(a, b, c);
    match kind {
        TriKind::Edge(opp) => if m == c {
            pack_aux(if c >= opp { (c - opp) as u32 } else { 0u32 }, (c - a) as u32, (c - b) as u32)
        } else if m == a {
            pack_aux(0, (a - b) as u32, (a - c) as u32)
        } else {
            pack_aux(0, (b - c) as u32, (b - a) as u32)
        },
        TriKind::Fresh => if m == a {
            pack_aux(0, (a - b) as u32, (a - c) as u32)
        } else if m == b {
            pack_aux(0, (b - c) as u32, (b - a) as u32)
        } else {
            pack_aux(0, (c - a) as u32, (c - b) as u32)
        },
    }
}

/// Record a triangle in the aux table: its largest vertex must index the
/// table; an entry whose low distance field is already nonzero stays.
pub open spec fn aux_record(aux: Seq<u64>, t: Tri) -> Result<Seq<u64>, MeshoptArgument> {
    let m = max3(t.0, t.1, t.2);
    if m >= aux.len() {
        Err(MeshoptArgument::AuxIndex { index: m as usize, limit: aux.len() as usize })
    } else if aux[m as int] & 0x3f_ffffu64 != 0 {
        Ok(aux)
    } else {
        Ok(aux.update(m as int, aux_entry(t)))
    }
}

/// The aux-table decode after `k` triangles.
pub enum AuxRun {
    Running(IdxState, Seq<u64>),
    Ran(IdxFail),
    Bad(MeshoptArgument),
}

/// The first `k` triangles of the aux-table decode over a table of
/// `limit` zero entries.
pub open spec fn aux_run(code: Seq<u8>, data: Seq<u8>, limit: int, k: int) -> AuxRun
    decreases k,
{
    if k <= 0 {
        AuxRun::Running(idx_start(), Seq::new(limit as nat, |i: int| 0u64))
    } else {
        match aux_run(code, data, limit, k - 1) {
            AuxRun::Running(s, aux) => match idx_step(s, code, data, code_aux_table(), 15) {
                IdxStep::Fail(f) => AuxRun::Ran(f),
                IdxStep::Step(s2, t) => match aux_record(aux, t) {
                    Err(a) => AuxRun::Bad(a),
                    Ok(aux2) => AuxRun::Running(s2, aux2),
                },
            },
            other => other,
        }
    }
}

/// Once the aux-table decode has stopped, later triangles leave it so.
proof fn lemma_aux_run_stopped_stays(code: Seq<u8>, data: Seq<u8>, limit: int, k1: int, k2: int)
    requires
        0 <= k1 <= k2,
        !(aux_run(code, data, limit, k1) is Running),
    ensures
        aux_run(code, data, limit, k2) == aux_run(code, data, limit, k1),
    decreases k2 - k1,
{
    if k1 < k2 {
        lemma_aux_run_stopped_stays(code, data, limit, k1, k2 - 1);
    }
}

/// Pack three distances.
fn pack_aux_exec(low: u32, mid: u32, high: u32) -> (v: u64)
    ensures
        v == pack_aux(low, mid, high),
{
    ((low as u64) & 0x3f_ffffu64) | (((mid as u64) & 0x1f_ffffu64) << 22u64) | (((high as u64) & 0x1f_ffffu64)
        << 43u64)
}

/// Record a decoded triangle in the aux table (see `aux_record`).
fn aux_record_exec(aux: &mut Vec<u64>, t: Tri) -> (r: Result<(), MeshoptArgument>)
    ensures
        match aux_record(old(aux)@, t) {
            Ok(a2) => r is Ok && final(aux)@ == a2,
            Err(e) => r == Err::<(), MeshoptArgument>(e),
        },
{
    let (a, b, c, kind) = t;
    let m0 = if a >= b { a } else { b };
    let m = if m0 >= c { m0 } else { c };
    if m as usize >= aux.len() {
        return Err(MeshoptArgument::AuxIndex { index: m as usize, limit: aux.len() });
    }
    let i = m as usize;
    if aux[i] & 0x3f_ffffu64 != 0 {
        return Ok(());
    }
    let v = match kind {
        TriKind::Edge(opp) => if m == c {
            pack_aux_exec(if c >= opp { c - opp } else { 0u32 }, c - a, c - b)
        } else if m == a {
            pack_aux_exec(0, a - b, a - c)
        } else {
            pack_aux_exec(0, b - c, b - a)
        },
        TriKind::Fresh => if m == a {
            pack_aux_exec(0, a - b, a - c)
        } else if m == b {
            pack_aux_exec(0, b - c, b - a)
        } else {
            pack_aux_exec(0, c - a, c - b)
        },
    };
    aux.set(i, v);
    Ok(())
}

/// Walk a version-0 triangle stream from separate `code` and `data`
/// streams and, in place of the indices, fill a table of `vertex_limit`
/// entries: for each triangle, at its largest vertex, the packed distances
/// of `aux_entry` unless the entry's low field is already set. Returns the
/// table and how many code and data bytes were consumed.
#[verifier::rlimit(50)]
pub fn decode_index_buffer_split_aux_table(
    index_count: usize,
    code: &[u8],
    data: &[u8],
    vertex_limit: usize,
) -> (r: Result<(Vec<u64>, usize, usize), MeshoptError>)
    requires
        code@.len() < usize::MAX,
        data@.len() < usize::MAX,
    ensures
        index_count % 3 != 0 ==> (r matches Err(MeshoptError::Invalid(a)) && a@ == message(MeshoptArgument::IndexCount(
            index_count,
        ))),
        index_count % 3 == 0 ==> match aux_run(code@, data@, vertex_limit as int, index_count as int / 3) {
            AuxRun::Ran(f) => r matches Err(e) && idx_fail_error(f, code@.len() as int, data@.len() as int, e),
            AuxRun::Bad(a) => r matches Err(MeshoptError::Invalid(b)) && b@ == message(a),
            AuxRun::Running(s, aux) => r matches Ok((table, cu, du)) && table@ == aux && cu == s.cp && du == s.dp,
        },
{
    if index_count % 3 != 0 {
        return Err(MeshoptError::Invalid(describe(MeshoptArgument::IndexCount(index_count))));
    }
    let table = code_aux_table_exec();
    let mut dec = IndexDecoder::new();
    let mut aux: Vec<u64> = Vec::new();
    let mut j: usize = 0;
    while j < vertex_limit
        invariant
            j <= vertex_limit,
            aux@ == Seq::new(j as nat, |i: int| 0u64),
        decreases vertex_limit - j,
    {
        aux.push(0);
        assert(aux@ =~= Seq::new((j + 1) as nat, |i: int| 0u64));
        j += 1;
    }
    let n = index_count / 3;
    let mut k: usize = 0;
    while k < n
        invariant
            k <= n,
            n == index_count / 3,
            index_count % 3 == 0,
            table@ == code_aux_table(),
            data@.len() < usize::MAX,
            code@.len() < usize::MAX,
            dec.wf(),
            dec.cp <= code@.len(),
            dec.dp <= data@.len(),
            aux_run(code@, data@, vertex_limit as int, k as int) == AuxRun::Running(dec.state(), aux@),
        decreases n - k,
    {
        match dec.step(code, data, table.as_slice(), 15) {
            Err(f) => {
                proof {
                    lemma_aux_run_stopped_stays(code@, data@, vertex_limit as int, k + 1, n as int);
                }
                return match f {
                    IdxFail::Code(q) => Err(
                        MeshoptError::Truncated { what: "index code stream", have: code.len(), need: q + 1 },
                    ),
                    IdxFail::Data(q) => Err(
                        MeshoptError::Truncated { what: "index data stream", have: data.len(), need: q + 1 },
                    ),
                };
            },
            Ok(t) => {
                match aux_record_exec(&mut aux, t) {
                    Err(a) => {
                        proof {
                            lemma_aux_run_stopped_stays(code@, data@, vertex_limit as int, k + 1, n as int);
                        }
                        return Err(MeshoptError::Invalid(describe(a)));
                    },
                    Ok(()) => {},
                }
            },
        }
        k += 1;
    }
    Ok((aux, dec.cp, dec.dp))
}

} // verus!
