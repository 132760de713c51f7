//! What reading a table gives back of what writing it stored.
use vstd::prelude::*;
use vstd::utf8::{decode_utf8, encode_utf8, valid_utf8};

use super::codec::{
    block_name, crc_entry_bytes, crc_table_bytes, first_long_name, header_bytes, le32, lemma_nul_pos,
    name_entry_bytes, name_entry_off, name_table_bytes, nul_pos, restbl_magic, spec_crc_entries,
    spec_name_entries, spec_name_entry, spec_parse_restbl, spec_write_restbl, zero_bytes,
};
use super::{CrcModel, NameModel, RestblFault, RestblModel};
use crate::bytes::{lemma_u32_bytes_roundtrip, spec_u32, u32_bytes};

verus! {

/// The tables that the format can hold and read back exactly: a string
/// block size the reader accepts, entry counts that fit the 32-bit header
/// fields, a total size within `usize`, and names that fit their blocks with
/// a NUL and hold no NUL byte themselves.
pub open spec fn restbl_writable(m: RestblModel) -> bool {
    &&& 1 <= m.1 <= 4096
    &&& m.2.len() <= u32::MAX
    &&& m.3.len() <= u32::MAX
    &&& 22 + 8 * (m.2.len() as int) + m.3.len() * (m.1 + 4) <= usize::MAX
    &&& forall|i: int| 0 <= i < m.3.len() ==> encode_utf8(#[trigger] m.3[i].0).len() < m.1
    &&& forall|i: int, k: int|
        0 <= i < m.3.len() && 0 <= k < encode_utf8(m.3[i].0).len() ==> #[trigger] encode_utf8(m.3[i].0)[k]
            != 0
}

/// Reading the four bytes of a little-endian field gives its value.
proof fn lemma_read_le32(b: Seq<u8>, off: int, v: u32)
    requires
        0 <= off,
        off + 4 <= b.len(),
        b.subrange(off, off + 4) == u32_bytes(v, false),
    ensures
        le32(b, off) == v,
{
    lemma_u32_bytes_roundtrip(v, false);
    let w = u32_bytes(v, false);
    assert(b[off] == w[0] && b[off + 1] == w[1] && b[off + 2] == w[2] && b[off + 3] == w[3]) by {
        assert(b.subrange(off, off + 4)[0] == b[off]);
        assert(b.subrange(off, off + 4)[1] == b[off + 1]);
        assert(b.subrange(off, off + 4)[2] == b[off + 2]);
        assert(b.subrange(off, off + 4)[3] == b[off + 3]);
    }
}

/// The CRC table bytes: 8 per entry, each entry's bytes at its slot.
proof fn lemma_crc_table(s: Seq<CrcModel>, k: int)
    requires
        0 <= k <= s.len(),
    ensures
        crc_table_bytes(s, k).len() == 8 * k,
        forall|i: int| 0 <= i < k ==> #[trigger] crc_table_bytes(s, k).subrange(8 * i, 8 * i + 8) == crc_entry_bytes(s[i]),
    decreases k,
{
    if k > 0 {
        lemma_crc_table(s, k - 1);
        let p = crc_table_bytes(s, k - 1);
        let e = crc_entry_bytes(s[k - 1]);
        lemma_u32_bytes_roundtrip(s[k - 1].0, false);
        lemma_u32_bytes_roundtrip(s[k - 1].1, false);
        assert forall|i: int| 0 <= i < k implies #[trigger] crc_table_bytes(s, k).subrange(8 * i, 8 * i + 8)
            == crc_entry_bytes(s[i]) by {
            if i < k - 1 {
                assert(crc_table_bytes(s, k).subrange(8 * i, 8 * i + 8) =~= p.subrange(8 * i, 8 * i + 8));
            } else {
                assert(crc_table_bytes(s, k).subrange(8 * i, 8 * i + 8) =~= e);
            }
        }
    }
}

/// The name table bytes: `sbs + 4` per entry, each entry's bytes at its slot.
proof fn lemma_name_table(s: Seq<NameModel>, sbs: int, k: int)
    requires
        0 <= k <= s.len(),
        sbs >= 1,
        forall|i: int| 0 <= i < s.len() ==> encode_utf8(#[trigger] s[i].0).len() < sbs,
    ensures
        name_table_bytes(s, sbs, k).len() == k * (sbs + 4),
        forall|i: int|
            0 <= i < k ==> #[trigger] name_table_bytes(s, sbs, k).subrange(i * (sbs + 4), i * (sbs + 4) + sbs + 4)
                == name_entry_bytes(s[i], sbs),
    decreases k,
{
    if k > 0 {
        lemma_name_table(s, sbs, k - 1);
        let p = name_table_bytes(s, sbs, k - 1);
        let e = name_entry_bytes(s[k - 1], sbs);
        lemma_u32_bytes_roundtrip(s[k - 1].1, false);
        assert(encode_utf8(s[k - 1].0).len() < sbs);
        assert(e.len() == sbs + 4);
        assert((k - 1) * (sbs + 4) + (sbs + 4) == k * (sbs + 4)) by (nonlinear_arith);
        assert forall|i: int| 0 <= i < k implies #[trigger] name_table_bytes(s, sbs, k).subrange(
            i * (sbs + 4),
            i * (sbs + 4) + sbs + 4,
        ) == name_entry_bytes(s[i], sbs) by {
            if i < k - 1 {
                assert(i * (sbs + 4) + sbs + 4 <= (k - 1) * (sbs + 4)) by (nonlinear_arith)
                    requires
                        i < k - 1,
                        sbs >= 1,
                ;
                assert(i * (sbs + 4) >= 0) by (nonlinear_arith)
                    requires
                        i >= 0,
                        sbs >= 1,
                ;
                assert(name_table_bytes(s, sbs, k).subrange(i * (sbs + 4), i * (sbs + 4) + sbs + 4) =~= p.subrange(
                    i * (sbs + 4),
                    i * (sbs + 4) + sbs + 4,
                ));
            } else {
                assert(name_table_bytes(s, sbs, k).subrange(i * (sbs + 4), i * (sbs + 4) + sbs + 4) =~= e);
            }
        }
    }
}

/// No name among the first `k` is too long for its block.
proof fn lemma_no_long_name(s: Seq<NameModel>, sbs: int, k: int)
    requires
        0 <= k <= s.len(),
        forall|i: int| 0 <= i < s.len() ==> encode_utf8(#[trigger] s[i].0).len() < sbs,
    ensures
        first_long_name(s, sbs, k) is None,
    decreases k,
{
    if k > 0 {
        lemma_no_long_name(s, sbs, k - 1);
    }
}

/// Name entry `i` of a written table reads back as entry `i`.
proof fn lemma_name_entry_reads(m: RestblModel, b: Seq<u8>, i: int)
    requires
        restbl_writable(m),
        0 <= i < m.3.len(),
        b == header_bytes(m) + crc_table_bytes(m.2, m.2.len() as int) + name_table_bytes(
            m.3,
            m.1 as int,
            m.3.len() as int,
        ),
    ensures
        spec_name_entry(b, 22 + 8 * (m.2.len() as int), m.1 as int, i) == Ok::<NameModel, int>(m.3[i]),
{
    let sbs = m.1 as int;
    let hc = header_bytes(m) + crc_table_bytes(m.2, m.2.len() as int);
    let nt = name_table_bytes(m.3, sbs, m.3.len() as int);
    lemma_header(m);
    lemma_crc_table(m.2, m.2.len() as int);
    lemma_name_table(m.3, sbs, m.3.len() as int);
    let base = 22 + 8 * (m.2.len() as int);
    assert(hc.len() == base);
    let o = name_entry_off(base, sbs, i);
    let rel = i * (sbs + 4);
    assert(o == base + rel);
    assert(rel + sbs + 4 <= m.3.len() * (sbs + 4)) by (nonlinear_arith)
        requires
            0 <= i < m.3.len(),
            sbs >= 1,
            rel == i * (sbs + 4),
    ;
    assert(rel >= 0) by (nonlinear_arith)
        requires
            i >= 0,
            sbs >= 1,
            rel == i * (sbs + 4),
    ;
    let e = name_entry_bytes(m.3[i], sbs);
    assert(nt.subrange(rel, rel + sbs + 4) == e);
    assert(b.subrange(o, o + sbs + 4) == e) by {
        assert(b.subrange(o, o + sbs + 4) =~= nt.subrange(rel, rel + sbs + 4));
    }
    let enc = encode_utf8(m.3[i].0);
    let l = enc.len() as int;
    assert(l < sbs);
    let block = b.subrange(o, o + sbs);
    assert(block =~= e.subrange(0, sbs));
    assert(block =~= enc + zero_bytes(sbs - l));
    assert forall|k: int| 0 <= k < l implies block[k] != 0 by {
        assert(block[k] == enc[k]);
    }
    assert(block[l] == 0);
    lemma_nul_pos(block, l);
    assert(block_name(b, o, sbs) =~= enc);
    vstd::utf8::encode_utf8_valid_utf8(m.3[i].0);
    vstd::utf8::encode_utf8_decode_utf8(m.3[i].0);
    lemma_u32_bytes_roundtrip(m.3[i].1, false);
    assert(b.subrange(o + sbs, o + sbs + 4) =~= e.subrange(sbs, sbs + 4));
    assert(e.subrange(sbs, sbs + 4) =~= u32_bytes(m.3[i].1, false));
    lemma_read_le32(b, o + sbs, m.3[i].1);
}

/// The first `k` name entries of a written table read back as the first `k` entries.
proof fn lemma_name_entries_read(m: RestblModel, b: Seq<u8>, k: int)
    requires
        restbl_writable(m),
        0 <= k <= m.3.len(),
        b == header_bytes(m) + crc_table_bytes(m.2, m.2.len() as int) + name_table_bytes(
            m.3,
            m.1 as int,
            m.3.len() as int,
        ),
    ensures
        spec_name_entries(b, 22 + 8 * (m.2.len() as int), m.1 as int, k) == Ok::<Seq<NameModel>, int>(m.3.take(k)),
    decreases k,
{
    if k > 0 {
        lemma_name_entries_read(m, b, k - 1);
        lemma_name_entry_reads(m, b, k - 1);
        assert(m.3.take(k - 1).push(m.3[k - 1]) =~= m.3.take(k));
    } else {
        assert(m.3.take(0) =~= Seq::<NameModel>::empty());
    }
}

/// The header's fields.
proof fn lemma_header(m: RestblModel)
    ensures
        header_bytes(m).len() == 22,
        header_bytes(m).subrange(0, 6) == restbl_magic(),
        header_bytes(m).subrange(6, 10) == u32_bytes(m.0, false),
        header_bytes(m).subrange(10, 14) == u32_bytes(m.1, false),
        header_bytes(m).subrange(14, 18) == u32_bytes(m.2.len() as u32, false),
        header_bytes(m).subrange(18, 22) == u32_bytes(m.3.len() as u32, false),
{
    lemma_u32_bytes_roundtrip(m.0, false);
    lemma_u32_bytes_roundtrip(m.1, false);
    lemma_u32_bytes_roundtrip(m.2.len() as u32, false);
    lemma_u32_bytes_roundtrip(m.3.len() as u32, false);
    let h = header_bytes(m);
    assert(h.subrange(0, 6) =~= restbl_magic());
    assert(h.subrange(6, 10) =~= u32_bytes(m.0, false));
    assert(h.subrange(10, 14) =~= u32_bytes(m.1, false));
    assert(h.subrange(14, 18) =~= u32_bytes(m.2.len() as u32, false));
    assert(h.subrange(18, 22) =~= u32_bytes(m.3.len() as u32, false));
}

/// Write then read: a table the format can hold is written without error,
/// and reading the bytes gives back the same table; writing what was read
/// gives back the same bytes.
#[verifier::rlimit(40)]
pub proof fn lemma_restbl_write_read(m: RestblModel)
    requires
        restbl_writable(m),
    ensures
        spec_write_restbl(m) is Ok,
        spec_write_restbl(m) matches Ok(b) && spec_parse_restbl(b) == Ok::<RestblModel, RestblFault>(m)
            && spec_write_restbl(m) == Ok::<Seq<u8>, RestblFault>(b),
{
    let sbs = m.1 as int;
    let cn = m.2.len() as int;
    let nn = m.3.len() as int;
    lemma_no_long_name(m.3, sbs, nn);
    let h = header_bytes(m);
    let c = crc_table_bytes(m.2, cn);
    let n = name_table_bytes(m.3, sbs, nn);
    let b = h + c + n;
    assert(spec_write_restbl(m) == Ok::<Seq<u8>, RestblFault>(b));
    lemma_header(m);
    lemma_crc_table(m.2, cn);
    lemma_name_table(m.3, sbs, nn);
    assert(b.len() == 22 + 8 * cn + nn * (sbs + 4));
    assert(b.subrange(0, 6) =~= h.subrange(0, 6));
    assert(b.subrange(6, 10) =~= h.subrange(6, 10));
    assert(b.subrange(10, 14) =~= h.subrange(10, 14));
    assert(b.subrange(14, 18) =~= h.subrange(14, 18));
    assert(b.subrange(18, 22) =~= h.subrange(18, 22));
    lemma_read_le32(b, 6, m.0);
    lemma_read_le32(b, 10, m.1);
    lemma_read_le32(b, 14, cn as u32);
    lemma_read_le32(b, 18, nn as u32);
    assert(le32(b, 14) == cn);
    assert(le32(b, 18) == nn);
    assert(spec_crc_entries(b, cn) =~= m.2) by {
        assert forall|i: int| 0 <= i < cn implies #[trigger] spec_crc_entries(b, cn)[i] == m.2[i] by {
            let e = crc_entry_bytes(m.2[i]);
            lemma_u32_bytes_roundtrip(m.2[i].0, false);
            lemma_u32_bytes_roundtrip(m.2[i].1, false);
            assert(c.subrange(8 * i, 8 * i + 8) == e);
            assert(b.subrange(22 + 8 * i, 26 + 8 * i) =~= e.subrange(0, 4));
            assert(b.subrange(26 + 8 * i, 30 + 8 * i) =~= e.subrange(4, 8));
            assert(e.subrange(0, 4) =~= u32_bytes(m.2[i].0, false));
            assert(e.subrange(4, 8) =~= u32_bytes(m.2[i].1, false));
            lemma_read_le32(b, 22 + 8 * i, m.2[i].0);
            lemma_read_le32(b, 26 + 8 * i, m.2[i].1);
        }
    }
    lemma_name_entries_read(m, b, nn);
    assert(m.3.take(nn) =~= m.3);
}

} // verus!
