//! RESTBL bytes: the bounds-checked reader and the deterministic writer.
use vstd::prelude::*;
use vstd::utf8::{decode_utf8, encode_utf8, valid_utf8};

use super::{
    crc_view, names_view, CrcEntry, CrcModel, NameEntry, NameModel, Restbl, RestblError, RestblFault,
    RestblModel, HEADER_SIZE,
};
use crate::bytes::{get_u32, push_slice, push_u32, push_zeros, spec_u32, u32_bytes, utf8_to_string};

verus! {

/// `RESTBL` as bytes.
pub open spec fn restbl_magic() -> Seq<u8> {
    seq![0x52u8, 0x45u8, 0x53u8, 0x54u8, 0x42u8, 0x4Cu8]
}

/// The little-endian 32-bit field at `off`.
pub open spec fn le32(b: Seq<u8>, off: int) -> u32 {
    spec_u32(b, off, false) as u32
}

/// The index of the first NUL byte of `s`, or its length when it has none.
pub open spec fn nul_pos(s: Seq<u8>) -> int
    decreases s.len(),
{
    if s.len() == 0 {
        0
    } else if s[0] == 0 {
        0
    } else {
        1 + nul_pos(s.drop_first())
    }
}

/// `nul_pos` is the first NUL, or the length.
pub proof fn lemma_nul_pos(s: Seq<u8>, k: int)
    requires
        0 <= k <= s.len(),
        forall|j: int| 0 <= j < k ==> s[j] != 0,
        k < s.len() ==> s[k] == 0,
    ensures
        nul_pos(s) == k,
    decreases k,
{
    if k > 0 {
        lemma_nul_pos(s.drop_first(), k - 1);
    }
}

/// The bytes of the NUL-padded name block of `sbs` bytes at `o`.
pub open spec fn block_name(b: Seq<u8>, o: int, sbs: int) -> Seq<u8> {
    let block = b.subrange(o, o + sbs);
    block.take(nul_pos(block))
}

/// The offset of name entry `i`.
pub open spec fn name_entry_off(base: int, sbs: int, i: int) -> int {
    base + i * (sbs + 4)
}

/// Name entry `i`, or its index when its name is not UTF-8.
pub open spec fn spec_name_entry(b: Seq<u8>, base: int, sbs: int, i: int) -> Result<NameModel, int> {
    let o = name_entry_off(base, sbs, i);
    let nb = block_name(b, o, sbs);
    if valid_utf8(nb) {
        Ok((decode_utf8(nb), le32(b, o + sbs)))
    } else {
        Err(i)
    }
}

/// The first `k` name entries, or the index of the first whose name is not UTF-8.
pub open spec fn spec_name_entries(b: Seq<u8>, base: int, sbs: int, k: int) -> Result<Seq<NameModel>, int>
    decreases k,
{
    if k <= 0 {
        Ok(Seq::empty())
    } else {
        match spec_name_entries(b, base, sbs, k - 1) {
            Err(i) => Err(i),
            Ok(s) => match spec_name_entry(b, base, sbs, k - 1) {
                Err(i) => Err(i),
                Ok(e) => Ok(s.push(e)),
            },
        }
    }
}

/// The CRC table of `n` entries at offset 22.
pub open spec fn spec_crc_entries(b: Seq<u8>, n: int) -> Seq<CrcModel> {
    Seq::new(n as nat, |i: int| (le32(b, 22 + 8 * i), le32(b, 26 + 8 * i)))
}

/// The table `b` encodes, or the first fault a bounds-checked reading meets.
pub open spec fn spec_parse_restbl(b: Seq<u8>) -> Result<RestblModel, RestblFault> {
    if b.len() < 22 {
        Err(RestblFault::TooSmall(b.len() as int))
    } else if b.subrange(0, 6) != restbl_magic() {
        Err(RestblFault::BadMagic(b.subrange(0, 6)))
    } else {
        let version = le32(b, 6);
        let sbs = le32(b, 10);
        let cn = le32(b, 14) as int;
        let nn = le32(b, 18) as int;
        let total = 22 + cn * 8 + nn * (sbs + 4);
        if sbs == 0 || sbs > 4096 {
            Err(RestblFault::BadStringBlockSize(sbs))
        } else if total > usize::MAX {
            Err(RestblFault::Truncated { offset: 22, need: usize::MAX as int, len: b.len() as int })
        } else if b.len() < total {
            Err(RestblFault::Truncated { offset: 22, need: total - 22, len: b.len() as int })
        } else {
            match spec_name_entries(b, 22 + cn * 8, sbs as int, nn) {
                Err(i) => Err(RestblFault::NonUtf8Name { index: i }),
                Ok(names) => Ok((version, sbs, spec_crc_entries(b, cn), names)),
            }
        }
    }
}

/// A read result as a value.
pub open spec fn restbl_result_view(r: Result<Restbl, RestblError>) -> Result<RestblModel, RestblFault> {
    match r {
        Ok(t) => Ok(t@),
        Err(e) => Err(e@),
    }
}

/// Read name entry `i`.
fn read_name_entry(data: &[u8], base: usize, sbs: usize, i: usize) -> (r: Result<NameEntry, RestblError>)
    requires
        1 <= sbs <= 4096,
        name_entry_off(base as int, sbs as int, i as int) + sbs + 4 <= data@.len(),
    ensures
        match r {
            Ok(e) => spec_name_entry(data@, base as int, sbs as int, i as int) == Ok::<NameModel, int>(e@),
            Err(e) => spec_name_entry(data@, base as int, sbs as int, i as int) == Err::<NameModel, int>(
                i as int,
            ) && e@ == RestblFault::NonUtf8Name { index: i as int },
        },
{
    let dl = data.len();
    proof {
        assert(i * (sbs + 4) >= 0) by (nonlinear_arith)
            requires
                sbs >= 1,
        ;
    }
    let o = base + i * (sbs + 4);
    let block = &data[o..o + sbs];
    let mut nul: usize = 0;
    while nul < sbs && block[nul] != 0
        invariant
            nul <= sbs,
            block@.len() == sbs,
            forall|j: int| 0 <= j < nul ==> block@[j] != 0,
        decreases sbs - nul,
    {
        nul += 1;
    }
    proof {
        lemma_nul_pos(block@, nul as int);
        assert(block@ == data@.subrange(o as int, o + sbs));
    }
    let nb = &block[0..nul];
    proof {
        assert(nb@ =~= block@.take(nul as int));
    }
    let size = get_u32(data, o + sbs, false);
    match utf8_to_string(nb) {
        Ok(name) => Ok(NameEntry { name, size }),
        Err(e) => Err(RestblError::NonUtf8Name { index: i, source: e }),
    }
}

/// Once the name entries read so far fail, reading more fails the same way.
proof fn lemma_names_err_persists(b: Seq<u8>, base: int, sbs: int, k1: int, k2: int)
    requires
        0 <= k1 <= k2,
        spec_name_entries(b, base, sbs, k1) is Err,
    ensures
        spec_name_entries(b, base, sbs, k2) == spec_name_entries(b, base, sbs, k1),
    decreases k2 - k1,
{
    if k1 < k2 {
        lemma_names_err_persists(b, base, sbs, k1, k2 - 1);
    }
}

/// Parse a RESTBL from bytes.
pub fn read_restbl(data: &[u8]) -> (r: Result<Restbl, RestblError>)
    ensures
        restbl_result_view(r) == spec_parse_restbl(data@),
{
    let len = data.len();
    if len < HEADER_SIZE {
        return Err(RestblError::TooSmall(len));
    }
    let m = [data[0], data[1], data[2], data[3], data[4], data[5]];
    proof {
        assert(m@ =~= data@.subrange(0, 6));
    }
    if !(m[0] == 0x52 && m[1] == 0x45 && m[2] == 0x53 && m[3] == 0x54 && m[4] == 0x42 && m[5] == 0x4C) {
        proof {
            if data@.subrange(0, 6) == restbl_magic() {
                assert(m@[0] == 0x52 && m@[1] == 0x45 && m@[2] == 0x53 && m@[3] == 0x54 && m@[4] == 0x42
                    && m@[5] == 0x4C);
            }
        }
        return Err(RestblError::BadMagic(m));
    }
    proof {
        assert(data@.subrange(0, 6) =~= restbl_magic());
    }
    let version = get_u32(data, 6, false);
    let string_block_size = get_u32(data, 10, false);
    let crc_num = get_u32(data, 14, false) as usize;
    let name_num = get_u32(data, 18, false) as usize;
    let sbs = string_block_size as usize;
    assert(version == le32(data@, 6));
    assert(string_block_size == le32(data@, 10));
    assert(crc_num == le32(data@, 14));
    assert(name_num == le32(data@, 18));
    if sbs == 0 || sbs > 4096 {
        return Err(RestblError::BadStringBlockSize(string_block_size));
    }
    let name_entry_size = sbs + 4;
    let crc_bytes = crc_num.checked_mul(8);
    let name_bytes = name_num.checked_mul(name_entry_size);
    let total: Option<usize> = match crc_bytes {
        Some(c) => match name_bytes {
            Some(n) => match HEADER_SIZE.checked_add(c) {
                Some(x) => x.checked_add(n),
                None => None,
            },
            None => None,
        },
        None => None,
    };
    proof {
        assert(name_num * (sbs + 4) >= 0) by (nonlinear_arith)
            requires
                sbs >= 1,
        ;
    }
    let total = match total {
        Some(t) => t,
        None => {
            assert(22 + crc_num * 8 + name_num * (sbs + 4) > usize::MAX);
            return Err(RestblError::Truncated { offset: HEADER_SIZE, need: usize::MAX, len });
        },
    };
    assert(total == 22 + crc_num * 8 + name_num * (sbs + 4));
    if len < total {
        return Err(RestblError::Truncated { offset: HEADER_SIZE, need: total - HEADER_SIZE, len });
    }
    let mut crc_entries: Vec<CrcEntry> = Vec::new();
    let mut i: usize = 0;
    while i < crc_num
        invariant
            i <= crc_num,
            len == data@.len(),
            crc_entries@.len() == i,
            22 + crc_num * 8 <= data@.len(),
            crc_view(crc_entries@) == spec_crc_entries(data@, crc_num as int).subrange(0, i as int),
        decreases crc_num - i,
    {
        proof {
            assert(i * 8 + 8 <= crc_num * 8) by (nonlinear_arith)
                requires
                    i < crc_num,
            ;
        }
        let o = HEADER_SIZE + i * 8;
        let e = CrcEntry { hash: get_u32(data, o, false), size: get_u32(data, o + 4, false) };
        crc_entries.push(e);
        proof {
            assert(o == 22 + 8 * i);
            assert(e.hash == le32(data@, 22 + 8 * i));
            assert(e.size == le32(data@, 26 + 8 * i));
            assert(crc_entries@[i as int] == e);
            assert(spec_crc_entries(data@, crc_num as int)[i as int] == (e.hash, e.size));
            assert(crc_view(crc_entries@) =~= spec_crc_entries(data@, crc_num as int).subrange(0, i + 1));
        }
        i += 1;
    }
    proof {
        assert(spec_crc_entries(data@, crc_num as int).subrange(0, crc_num as int) =~= spec_crc_entries(
            data@,
            crc_num as int,
        ));
    }
    let name_base = HEADER_SIZE + crc_num * 8;
    assert(name_base + name_num * (sbs + 4) <= data@.len());
    let mut name_entries: Vec<NameEntry> = Vec::new();
    let mut j: usize = 0;
    let ghost whole = spec_name_entries(data@, name_base as int, sbs as int, name_num as int);
    proof {
        assert(names_view(name_entries@) =~= Seq::<NameModel>::empty());
    }
    while j < name_num
        invariant
            j <= name_num,
            len == data@.len(),
            1 <= sbs <= 4096,
            name_base + name_num * (sbs + 4) <= data@.len(),
            whole == spec_name_entries(data@, name_base as int, sbs as int, name_num as int),
            spec_parse_restbl(data@) == match whole {
                Ok(ns) => Ok::<RestblModel, RestblFault>(
                    (version, string_block_size, spec_crc_entries(data@, crc_num as int), ns),
                ),
                Err(i) => Err(RestblFault::NonUtf8Name { index: i }),
            },
            spec_name_entries(data@, name_base as int, sbs as int, j as int) == Ok::<Seq<NameModel>, int>(
                names_view(name_entries@),
            ),
        decreases name_num - j,
    {
        proof {
            assert((j + 1) * (sbs + 4) <= name_num * (sbs + 4)) by (nonlinear_arith)
                requires
                    j < name_num,
            ;
            assert(j * (sbs + 4) + (sbs + 4) == (j + 1) * (sbs + 4)) by (nonlinear_arith);
        }
        let e = match read_name_entry(data, name_base, sbs, j) {
            Ok(e) => e,
            Err(err) => {
                proof {
                    lemma_names_err_persists(data@, name_base as int, sbs as int, j + 1, name_num as int);
                    assert(whole == Err::<Seq<NameModel>, int>(j as int));
                }
                let r = Err(err);
                assert(restbl_result_view(r) == spec_parse_restbl(data@));
                return r;
            },
        };
        let ghost before = names_view(name_entries@);
        name_entries.push(e);
        proof {
            assert(names_view(name_entries@) =~= before.push(e@));
        }
        j += 1;
    }
    proof {
        assert(version == le32(data@, 6));
        assert(string_block_size == le32(data@, 10));
        assert(crc_num == le32(data@, 14));
        assert(name_num == le32(data@, 18));
        assert(crc_view(crc_entries@) == spec_crc_entries(data@, crc_num as int));
        assert(whole == Ok::<Seq<NameModel>, int>(names_view(name_entries@)));
    }
    let r = Ok(Restbl { version, string_block_size, crc_entries, name_entries });
    assert(restbl_result_view(r) == spec_parse_restbl(data@));
    r
}

/// The 22-byte header the writer emits.
pub open spec fn header_bytes(m: RestblModel) -> Seq<u8> {
    restbl_magic() + u32_bytes(m.0, false) + u32_bytes(m.1, false) + u32_bytes(m.2.len() as u32, false)
        + u32_bytes(m.3.len() as u32, false)
}

/// The 8 bytes of a CRC entry.
pub open spec fn crc_entry_bytes(c: CrcModel) -> Seq<u8> {
    u32_bytes(c.0, false) + u32_bytes(c.1, false)
}

/// The bytes of the first `k` CRC entries.
pub open spec fn crc_table_bytes(s: Seq<CrcModel>, k: int) -> Seq<u8>
    decreases k,
{
    if k <= 0 {
        Seq::empty()
    } else {
        crc_table_bytes(s, k - 1) + crc_entry_bytes(s[k - 1])
    }
}

/// `n` zero bytes.
pub open spec fn zero_bytes(n: int) -> Seq<u8> {
    Seq::new(n as nat, |i: int| 0u8)
}

/// The `sbs + 4` bytes of a name entry: the name, NUL padding, the size.
pub open spec fn name_entry_bytes(e: NameModel, sbs: int) -> Seq<u8> {
    encode_utf8(e.0) + zero_bytes(sbs - encode_utf8(e.0).len()) + u32_bytes(e.1, false)
}

/// The bytes of the first `k` name entries.
pub open spec fn name_table_bytes(s: Seq<NameModel>, sbs: int, k: int) -> Seq<u8>
    decreases k,
{
    if k <= 0 {
        Seq::empty()
    } else {
        name_table_bytes(s, sbs, k - 1) + name_entry_bytes(s[k - 1], sbs)
    }
}

/// Name `e` does not fit a block of `sbs` bytes with its NUL.
pub open spec fn name_too_long(e: NameModel, sbs: int) -> bool {
    encode_utf8(e.0).len() >= sbs
}

/// The first of the first `k` names that is too long, if any.
pub open spec fn first_long_name(s: Seq<NameModel>, sbs: int, k: int) -> Option<int>
    decreases k,
{
    if k <= 0 {
        None
    } else {
        match first_long_name(s, sbs, k - 1) {
            Some(i) => Some(i),
            None => if name_too_long(s[k - 1], sbs) {
                Some(k - 1)
            } else {
                None
            },
        }
    }
}

/// The bytes the writer emits for `m`, or the error for its first name that
/// does not fit a block.
pub open spec fn spec_write_restbl(m: RestblModel) -> Result<Seq<u8>, RestblFault> {
    match first_long_name(m.3, m.1 as int, m.3.len() as int) {
        Some(i) => Err(RestblFault::NameTooLong { name: m.3[i].0, max: m.1 as int }),
        None => Ok(header_bytes(m) + crc_table_bytes(m.2, m.2.len() as int) + name_table_bytes(
            m.3,
            m.1 as int,
            m.3.len() as int,
        )),
    }
}

/// A write result as a value.
pub open spec fn bytes_result_view(r: Result<Vec<u8>, RestblError>) -> Result<Seq<u8>, RestblFault> {
    match r {
        Ok(b) => Ok(b@),
        Err(e) => Err(e@),
    }
}

/// Serialize a RESTBL to bytes. Byte-identical to the source for an unmodified
/// [`Restbl`] (the format is fully deterministic).
pub fn write_restbl(r: &Restbl) -> (out: Result<Vec<u8>, RestblError>)
    ensures
        bytes_result_view(out) == spec_write_restbl(r@),
{
    let sbs = r.string_block_size as usize;
    let mut buf: Vec<u8> = Vec::new();
    buf.push(0x52u8);
    buf.push(0x45u8);
    buf.push(0x53u8);
    buf.push(0x54u8);
    buf.push(0x42u8);
    buf.push(0x4Cu8);
    push_u32(&mut buf, r.version, false);
    push_u32(&mut buf, r.string_block_size, false);
    push_u32(&mut buf, r.crc_entries.len() as u32, false);
    push_u32(&mut buf, r.name_entries.len() as u32, false);
    let ghost m = r@;
    proof {
        assert(buf@ =~= header_bytes(m));
    }
    let n = r.crc_entries.len();
    let mut i: usize = 0;
    while i < n
        invariant
            i <= n,
            n == r.crc_entries@.len(),
            m == r@,
            buf@ == header_bytes(m) + crc_table_bytes(m.2, i as int),
        decreases n - i,
    {
        let e = r.crc_entries[i];
        push_u32(&mut buf, e.hash, false);
        push_u32(&mut buf, e.size, false);
        proof {
            assert(m.2[i as int] == (e.hash, e.size));
            assert(buf@ =~= header_bytes(m) + crc_table_bytes(m.2, i + 1));
        }
        i += 1;
    }
    let ghost pre = buf@;
    let k = r.name_entries.len();
    let mut j: usize = 0;
    while j < k
        invariant
            j <= k,
            k == r.name_entries@.len(),
            m == r@,
            sbs == m.1,
            pre == header_bytes(m) + crc_table_bytes(m.2, m.2.len() as int),
            buf@ == pre + name_table_bytes(m.3, sbs as int, j as int),
            first_long_name(m.3, sbs as int, j as int) is None,
        decreases k - j,
    {
        let e = &r.name_entries[j];
        let nb = e.name.as_str().as_bytes();
        proof {
            assert(m.3[j as int] == e@);
        }
        if nb.len() >= sbs {
            proof {
                assert(first_long_name(m.3, sbs as int, j + 1) == Some(j as int));
                lemma_first_long_persists(m.3, sbs as int, j + 1, k as int);
            }
            return Err(RestblError::NameTooLong { name: e.name.clone(), max: sbs });
        }
        let ghost b0 = buf@;
        push_slice(&mut buf, nb);
        push_zeros(&mut buf, sbs - nb.len());
        push_u32(&mut buf, e.size, false);
        proof {
            assert(buf@ =~= b0 + name_entry_bytes(m.3[j as int], sbs as int));
            assert(buf@ =~= pre + name_table_bytes(m.3, sbs as int, j + 1));
        }
        j += 1;
    }
    Ok(buf)
}

/// Once a long name is found among the first `k1` names, it stays the first.
proof fn lemma_first_long_persists(s: Seq<NameModel>, sbs: int, k1: int, k2: int)
    requires
        0 <= k1 <= k2,
        first_long_name(s, sbs, k1) is Some,
    ensures
        first_long_name(s, sbs, k2) == first_long_name(s, sbs, k1),
    decreases k2 - k1,
{
    if k1 < k2 {
        lemma_first_long_persists(s, sbs, k1, k2 - 1);
    }
}

} // verus!
