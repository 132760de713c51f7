//! Building a UTF-16 message from chunks and reading its chunks back gives
//! the chunks again, when they are in the form the reader produces.
use vstd::prelude::*;
use crate::bytes::{lemma_stands_at_split, lemma_u16_bytes_roundtrip, spec_u16, stands_at, u16_bytes};
use super::chunks::{chunk_utf16_bytes, chunks_utf16, flush, spec_chunks, spec_from_chunks, spec_utf16_chunks, units_bytes};
use super::laws::lemma_stands_within;
use super::text::{char_utf16, is_high_surrogate, is_low_surrogate, pair_scalar, spec_encode_utf16, spec_utf16_lossy};
use super::{ChunkModel, Encoding};

verus! {

/// A 16-bit field reads back the value written there.
proof fn lemma_u16_at(b: Seq<u8>, off: int, v: u16, be: bool)
    requires
        stands_at(b, off, u16_bytes(v, be)),
    ensures
        spec_u16(b, off, be) == v,
{
    lemma_u16_bytes_roundtrip(v, be);
    assert(b.subrange(off, off + 2)[0] == b[off]);
    assert(b.subrange(off, off + 2)[1] == b[off + 1]);
}

/// Decoding the code units of one character, then more units, gives the
/// character, then the decoding of the rest.
proof fn lemma_char_lossy(c: char, rest: Seq<u16>)
    ensures
        spec_utf16_lossy(char_utf16(c) + rest) == seq![c] + spec_utf16_lossy(rest),
{
    let v = c as u32;
    let u = char_utf16(c) + rest;
    if v < 0x10000 {
        assert(u[0] == v as u16);
        assert(u.drop_first() =~= rest);
        assert(u[0] as u32 as char == c);
    } else {
        let hi = (0xD800 + (v - 0x10000) / 0x400) as u16;
        let lo = (0xDC00 + (v - 0x10000) % 0x400) as u16;
        assert(u[0] == hi && u[1] == lo);
        assert(is_high_surrogate(hi) && is_low_surrogate(lo));
        assert(pair_scalar(hi, lo) == v);
        assert(u.skip(2) =~= rest);
        assert(pair_scalar(hi, lo) as char == c);
    }
}

/// Decoding the UTF-16 encoding of `t`, then more units, gives `t`, then
/// the decoding of the rest.
proof fn lemma_encode_lossy(t: Seq<char>, rest: Seq<u16>)
    ensures
        spec_utf16_lossy(spec_encode_utf16(t) + rest) == t + spec_utf16_lossy(rest),
    decreases t.len(),
{
    if t.len() == 0 {
        assert(spec_encode_utf16(t) + rest =~= rest);
        assert(t + spec_utf16_lossy(rest) =~= spec_utf16_lossy(rest));
    } else {
        let t0 = t.drop_last();
        let c = t.last();
        assert(spec_encode_utf16(t) + rest =~= spec_encode_utf16(t0) + (char_utf16(c) + rest));
        lemma_encode_lossy(t0, char_utf16(c) + rest);
        lemma_char_lossy(c, rest);
        assert(t0 + (seq![c] + spec_utf16_lossy(rest)) =~= t + spec_utf16_lossy(rest));
    }
}

/// A character of message text: not NUL and not a tag marker.
pub open spec fn text_char_ok(c: char) -> bool {
    c as u32 != 0 && c as u32 != 0x0E && c as u32 != 0x0F
}

/// The UTF-16 encoding of text without NULs and tag markers holds none of
/// those units, and is at least as long as the text.
proof fn lemma_encode_units(t: Seq<char>)
    requires
        forall|i: int| 0 <= i < t.len() ==> text_char_ok(#[trigger] t[i]),
    ensures
        spec_encode_utf16(t).len() >= t.len(),
        forall|j: int|
            0 <= j < spec_encode_utf16(t).len() ==> {
                let x = #[trigger] spec_encode_utf16(t)[j];
                x != 0 && x != 0x0E && x != 0x0F
            },
    decreases t.len(),
{
    if t.len() > 0 {
        let t0 = t.drop_last();
        assert forall|i: int| 0 <= i < t0.len() implies text_char_ok(#[trigger] t0[i]) by {
            assert(t0[i] == t[i]);
        }
        lemma_encode_units(t0);
        let c = t.last();
        assert(text_char_ok(t[t.len() - 1]));
        let e0 = spec_encode_utf16(t0);
        let e = spec_encode_utf16(t);
        assert(e == e0 + char_utf16(c));
        assert forall|j: int| 0 <= j < e.len() implies {
            let x = #[trigger] e[j];
            x != 0 && x != 0x0E && x != 0x0F
        } by {
            if j < e0.len() {
                assert(e[j] == e0[j]);
            } else {
                assert(e[j] == char_utf16(c)[j - e0.len()]);
                lemma_char_units(c);
            }
        }
    }
}

/// The code units of a character that is not NUL or a tag marker are not
/// those units either.
proof fn lemma_char_units(c: char)
    requires
        text_char_ok(c),
    ensures
        forall|j: int|
            0 <= j < char_utf16(c).len() ==> {
                let x = #[trigger] char_utf16(c)[j];
                x != 0 && x != 0x0E && x != 0x0F
            },
{
    let v = c as u32;
    if v >= 0x10000 {
        let hi = (0xD800 + (v - 0x10000) / 0x400) as u16;
        let lo = (0xDC00 + (v - 0x10000) % 0x400) as u16;
        assert(char_utf16(c)[0] == hi && char_utf16(c)[1] == lo);
        assert(is_high_surrogate(hi) && is_low_surrogate(lo));
    }
}

/// The bytes of the code units `u`: two per unit, unit `j` at `2 * j`.
proof fn lemma_units_bytes(u: Seq<u16>, be: bool)
    ensures
        units_bytes(u, be).len() == 2 * u.len(),
        forall|j: int| 0 <= j < u.len() ==> stands_at(units_bytes(u, be), 2 * j, u16_bytes(#[trigger] u[j], be)),
    decreases u.len(),
{
    if u.len() > 0 {
        let u0 = u.drop_last();
        lemma_units_bytes(u0, be);
        lemma_u16_bytes_roundtrip(u.last(), be);
        let a = units_bytes(u0, be);
        let b = u16_bytes(u.last(), be);
        let w = units_bytes(u, be);
        assert(w == a + b);
        assert(stands_at(w, 0, a + b)) by {
            assert(w.subrange(0, w.len() as int) =~= w);
        }
        lemma_stands_at_split(w, 0, a, b);
        assert forall|j: int| 0 <= j < u.len() implies stands_at(w, 2 * j, u16_bytes(#[trigger] u[j], be)) by {
            if j < u0.len() {
                assert(u[j] == u0[j]);
                lemma_stands_within(w, 0, a, 2 * j, u16_bytes(u0[j], be));
            }
        }
    }
}

/// A chunk in the form the UTF-16 reader produces: non-empty text without
/// NULs or tag markers, or a tag whose payload fits its 16-bit size field.
pub open spec fn chunk_canonical(c: ChunkModel) -> bool {
    match c {
        ChunkModel::Text(t) => t.len() > 0 && forall|i: int| 0 <= i < t.len() ==> text_char_ok(#[trigger] t[i]),
        ChunkModel::Tag { data, .. } => data.len() <= 0xFFFF,
        ChunkModel::TagClose { .. } => true,
    }
}

/// Chunks in the form the UTF-16 reader produces: each chunk canonical and
/// no two text chunks side by side.
pub open spec fn chunks_canonical(cs: Seq<ChunkModel>) -> bool {
    &&& forall|k: int| 0 <= k < cs.len() ==> chunk_canonical(#[trigger] cs[k])
    &&& forall|k: int| 0 <= k < cs.len() - 1 ==> !(#[trigger] cs[k] is Text && cs[k + 1] is Text)
}

/// The bytes of the first `m` chunks begin the bytes of the first `k`.
proof fn lemma_chunks_prefix(cs: Seq<ChunkModel>, be: bool, m: int, k: int)
    requires
        0 <= m <= k,
    ensures
        stands_at(chunks_utf16(cs, be, k), 0, chunks_utf16(cs, be, m)),
    decreases k - m,
{
    if m == k {
        assert(chunks_utf16(cs, be, k).subrange(0, chunks_utf16(cs, be, k).len() as int) =~= chunks_utf16(cs, be, k));
    } else {
        lemma_chunks_prefix(cs, be, m, k - 1);
        let a = chunks_utf16(cs, be, k - 1);
        let w = chunks_utf16(cs, be, k);
        assert(w == a + chunk_utf16_bytes(cs[k - 1], be));
        assert(stands_at(w, 0, a)) by {
            assert(w.subrange(0, a.len() as int) =~= a);
        }
        lemma_stands_within(w, 0, a, 0, chunks_utf16(cs, be, m));
    }
}

/// The message bytes built from `cs`.
pub open spec fn built(cs: Seq<ChunkModel>, be: bool) -> Seq<u8> {
    spec_from_chunks(cs, Encoding::Utf16, be)
}

/// Where chunk `m` starts in the built message.
pub open spec fn chunk_pos(cs: Seq<ChunkModel>, be: bool, m: int) -> int {
    chunks_utf16(cs, be, m).len() as int
}

/// Chunk `m` stands at its position, and the next starts right after it.
proof fn lemma_chunk_at(cs: Seq<ChunkModel>, be: bool, m: int)
    requires
        0 <= m < cs.len(),
    ensures
        stands_at(built(cs, be), chunk_pos(cs, be, m), chunk_utf16_bytes(cs[m], be)),
        chunk_pos(cs, be, m + 1) == chunk_pos(cs, be, m) + chunk_utf16_bytes(cs[m], be).len(),
        chunk_pos(cs, be, m + 1) + 2 <= built(cs, be).len(),
{
    let n = cs.len() as int;
    let r = built(cs, be);
    let all = chunks_utf16(cs, be, n);
    assert(r == all + u16_bytes(0, be));
    lemma_u16_bytes_roundtrip(0, be);
    assert(stands_at(r, 0, all)) by {
        assert(r.subrange(0, all.len() as int) =~= all);
    }
    lemma_chunks_prefix(cs, be, m + 1, n);
    lemma_stands_within(r, 0, all, 0, chunks_utf16(cs, be, m + 1));
    lemma_stands_at_split(r, 0, chunks_utf16(cs, be, m), chunk_utf16_bytes(cs[m], be));
}

/// The built message ends with a NUL unit.
proof fn lemma_built_end(cs: Seq<ChunkModel>, be: bool)
    ensures
        stands_at(built(cs, be), chunk_pos(cs, be, cs.len() as int), u16_bytes(0, be)),
        built(cs, be).len() == chunk_pos(cs, be, cs.len() as int) + 2,
{
    let n = cs.len() as int;
    let r = built(cs, be);
    let all = chunks_utf16(cs, be, n);
    lemma_u16_bytes_roundtrip(0, be);
    assert(r.subrange(all.len() as int, all.len() + 2int) =~= u16_bytes(0, be));
}

/// Reading a text chunk's code units accumulates them as pending text.
proof fn lemma_text_run(cs: Seq<ChunkModel>, be: bool, m: int, j: int)
    requires
        chunks_canonical(cs),
        0 <= m < cs.len(),
        cs[m] is Text,
        0 <= j <= spec_encode_utf16(cs[m]->Text_0).len(),
    ensures
        spec_utf16_chunks(built(cs, be), be, chunk_pos(cs, be, m), Seq::empty()) == spec_utf16_chunks(
            built(cs, be),
            be,
            chunk_pos(cs, be, m) + 2 * j,
            spec_encode_utf16(cs[m]->Text_0).take(j),
        ),
    decreases j,
{
    let u = spec_encode_utf16(cs[m]->Text_0);
    if j == 0 {
        assert(u.take(0) =~= Seq::<u16>::empty());
    } else {
        lemma_text_run(cs, be, m, j - 1);
        let r = built(cs, be);
        let p = chunk_pos(cs, be, m);
        let i = p + 2 * (j - 1);
        assert(chunk_canonical(cs[m]));
        lemma_encode_units(cs[m]->Text_0);
        lemma_units_bytes(u, be);
        lemma_chunk_at(cs, be, m);
        assert(chunk_utf16_bytes(cs[m], be) == units_bytes(u, be));
        lemma_stands_within(r, p, units_bytes(u, be), 2 * (j - 1), u16_bytes(u[j - 1], be));
        lemma_u16_at(r, i, u[j - 1], be);
        let x = u[j - 1];
        assert(x != 0 && x != 0x0E && x != 0x0F);
        assert(spec_u16(r, i, be) as u16 == x);
        assert(u.take(j - 1).push(x) =~= u.take(j));
    }
}

/// Reading the built message from chunk `m` on, with the text run `text`
/// pending (empty when chunk `m` is text), gives that run, then chunks `m`
/// onwards.
#[verifier::rlimit(40)]
#[verifier::spinoff_prover]
proof fn lemma_read_from(cs: Seq<ChunkModel>, be: bool, m: int, text: Seq<u16>)
    requires
        chunks_canonical(cs),
        0 <= m <= cs.len(),
        m < cs.len() && cs[m] is Text ==> text.len() == 0,
    ensures
        spec_utf16_chunks(built(cs, be), be, chunk_pos(cs, be, m), text) == flush(text) + cs.subrange(
            m,
            cs.len() as int,
        ),
    decreases cs.len() - m,
{
    let n = cs.len() as int;
    let r = built(cs, be);
    let p = chunk_pos(cs, be, m);
    lemma_built_end(cs, be);
    if m == n {
        lemma_u16_at(r, p, 0, be);
        assert(spec_utf16_chunks(r, be, p, text) == flush(text));
        assert(flush(text) + cs.subrange(m, n) =~= flush(text));
    } else {
        lemma_chunk_at(cs, be, m);
        assert(chunk_canonical(cs[m]));
        let x = chunk_utf16_bytes(cs[m], be);
        match cs[m] {
            ChunkModel::Tag { group, ty, data } => {
                let h = u16_bytes(0x000E, be) + u16_bytes(group, be) + u16_bytes(ty, be) + u16_bytes(data.len() as u16, be);
                lemma_u16_bytes_roundtrip(0x000E, be);
                lemma_u16_bytes_roundtrip(group, be);
                lemma_u16_bytes_roundtrip(ty, be);
                lemma_u16_bytes_roundtrip(data.len() as u16, be);
                assert(x == h + data);
                lemma_stands_at_split(r, p, h, data);
                lemma_stands_at_split(r, p, u16_bytes(0x000E, be) + u16_bytes(group, be) + u16_bytes(ty, be), u16_bytes(data.len() as u16, be));
                lemma_stands_at_split(r, p, u16_bytes(0x000E, be) + u16_bytes(group, be), u16_bytes(ty, be));
                lemma_stands_at_split(r, p, u16_bytes(0x000E, be), u16_bytes(group, be));
                lemma_u16_at(r, p, 0x000E, be);
                lemma_u16_at(r, p + 2, group, be);
                lemma_u16_at(r, p + 4, ty, be);
                lemma_u16_at(r, p + 6, data.len() as u16, be);
                let ds = p + 8;
                assert(r.subrange(ds, ds + data.len()) == data);
                assert((data.len() as u16) as int == data.len());
                assert(chunk_pos(cs, be, m + 1) == ds + data.len());
                lemma_read_from(cs, be, m + 1, Seq::empty());
                assert(spec_utf16_chunks(r, be, p, text) == flush(text) + seq![cs[m]] + spec_utf16_chunks(
                    r,
                    be,
                    ds + data.len(),
                    Seq::empty(),
                ));
                assert(flush(Seq::<u16>::empty()) =~= Seq::<ChunkModel>::empty());
                assert(flush(text) + seq![cs[m]] + (flush(Seq::<u16>::empty()) + cs.subrange(m + 1, n)) =~= flush(text)
                    + cs.subrange(m, n));
            },
            ChunkModel::TagClose { group, ty } => {
                lemma_u16_bytes_roundtrip(0x000F, be);
                lemma_u16_bytes_roundtrip(group, be);
                lemma_u16_bytes_roundtrip(ty, be);
                lemma_stands_at_split(r, p, u16_bytes(0x000F, be) + u16_bytes(group, be), u16_bytes(ty, be));
                lemma_stands_at_split(r, p, u16_bytes(0x000F, be), u16_bytes(group, be));
                lemma_u16_at(r, p, 0x000F, be);
                lemma_u16_at(r, p + 2, group, be);
                lemma_u16_at(r, p + 4, ty, be);
                assert(chunk_pos(cs, be, m + 1) == p + 6);
                lemma_read_from(cs, be, m + 1, Seq::empty());
                assert(spec_utf16_chunks(r, be, p, text) == flush(text) + seq![cs[m]] + spec_utf16_chunks(
                    r,
                    be,
                    p + 6,
                    Seq::empty(),
                ));
                assert(flush(Seq::<u16>::empty()) =~= Seq::<ChunkModel>::empty());
                assert(flush(text) + seq![cs[m]] + (flush(Seq::<u16>::empty()) + cs.subrange(m + 1, n)) =~= flush(text)
                    + cs.subrange(m, n));
            },
            ChunkModel::Text(t) => {
                let u = spec_encode_utf16(t);
                assert(text =~= Seq::<u16>::empty());
                lemma_encode_units(t);
                lemma_units_bytes(u, be);
                lemma_text_run(cs, be, m, u.len() as int);
                assert(u.take(u.len() as int) =~= u);
                assert(m + 1 < n ==> !(cs[m + 1] is Text)) by {
                    if m + 1 < n {
                        assert(!(cs[m] is Text && cs[m + 1] is Text));
                    }
                }
                assert(chunk_pos(cs, be, m + 1) == p + 2 * u.len());
                lemma_read_from(cs, be, m + 1, u);
                lemma_encode_lossy(t, Seq::empty());
                assert(u + Seq::<u16>::empty() =~= u);
                assert(t + spec_utf16_lossy(Seq::<u16>::empty()) =~= t);
                assert(flush(u) == seq![ChunkModel::Text(t)]);
                assert(flush(text) =~= Seq::<ChunkModel>::empty());
                assert(seq![ChunkModel::Text(t)] + cs.subrange(m + 1, n) =~= flush(text) + cs.subrange(m, n));
                assert(spec_utf16_chunks(r, be, p, text) == spec_utf16_chunks(r, be, p + 2 * u.len(), u));
            },
        }
    }
}

/// Building a UTF-16 message from chunks and reading its chunks back gives
/// the same chunks, when they are in the form the reader produces (no empty
/// text, no two text chunks side by side, no NUL or tag-marker character in
/// text, tag payloads within 0xFFFF bytes); the message ends with a NUL
/// unit.
pub proof fn lemma_chunks_of_from_chunks(cs: Seq<ChunkModel>, be: bool)
    requires
        chunks_canonical(cs),
    ensures
        spec_chunks(spec_from_chunks(cs, Encoding::Utf16, be), Encoding::Utf16, be) == cs,
        ({
            let raw = spec_from_chunks(cs, Encoding::Utf16, be);
            raw.len() >= 2 && raw.subrange(raw.len() - 2, raw.len() as int) == u16_bytes(0, be)
        }),
{
    lemma_read_from(cs, be, 0, Seq::empty());
    assert(flush(Seq::<u16>::empty()) + cs.subrange(0, cs.len() as int) =~= cs);
    lemma_built_end(cs, be);
}

} // verus!
