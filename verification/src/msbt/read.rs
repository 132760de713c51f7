//! MSBT parser: header, section walk, `LBL1` and `TXT2` decoding. Every read
//! is bounds-checked and reports the failing offset; the whole file is kept
//! for the verbatim writer.
use vstd::prelude::*;
use vstd::utf8::{decode_utf8, valid_utf8};

use super::text::{utf8_lossy, utf8_lossy_string};
use super::{
    labels_view, messages_view, sections_view, spec_encoding, DocModel, Encoding, Label, LabelModel, Message,
    MsbtDocument, MsbtError, MsbtFault, Section, SectionData, SectionModel, SectionValue, HEADER_LEN,
};
use crate::bytes::{copy_bytes, get_u16, get_u32, spec_u16, spec_u32, utf8_to_string};

verus! {

/// An offset as the `usize` an error reports it as.
pub open spec fn as_offset(x: int) -> int {
    x as usize as int
}

/// The 32-bit field at `off` as a value.
pub open spec fn field32(b: Seq<u8>, off: int, be: bool) -> int {
    spec_u32(b, off, be)
}

/// `LBL1` label entries: `count` entries from offset `p` (each a length
/// byte, the name, a 32-bit message index), `done` labels read before them.
pub open spec fn spec_label_run(b: Seq<u8>, be: bool, p: int, count: int, done: int) -> Result<Seq<LabelModel>, MsbtFault>
    decreases count,
{
    if count <= 0 {
        Ok(Seq::empty())
    } else if p >= b.len() {
        Err(MsbtFault::OffsetOutOfRange { section: "LBL1"@, index: done, offset: as_offset(p), size: b.len() as int })
    } else {
        let ns = p + 1;
        let is = ns + b[p];
        if is + 4 > b.len() {
            Err(MsbtFault::OffsetOutOfRange { section: "LBL1"@, index: done, offset: p, size: b.len() as int })
        } else if !valid_utf8(b.subrange(ns, is)) {
            Err(MsbtFault::NonUtf8 { offset: ns })
        } else {
            let lab = (decode_utf8(b.subrange(ns, is)), field32(b, is, be) as u32);
            match spec_label_run(b, be, is + 4, count - 1, done + 1) {
                Ok(r) => Ok(seq![lab] + r),
                Err(e) => Err(e),
            }
        }
    }
}

/// `LBL1` group `g`: its count and offset fields, then its labels.
pub open spec fn spec_label_group(b: Seq<u8>, be: bool, g: int, done: int) -> Result<Seq<LabelModel>, MsbtFault> {
    let head = 4 + 8 * g;
    if head + 4 > b.len() {
        Err(MsbtFault::Truncated { offset: as_offset(head), need: 4, len: b.len() as int })
    } else if head + 8 > b.len() {
        Err(MsbtFault::Truncated { offset: head + 4, need: 4, len: b.len() as int })
    } else {
        spec_label_run(b, be, field32(b, head + 4, be), field32(b, head, be), done)
    }
}

/// The labels of the first `k` groups.
pub open spec fn spec_label_groups(b: Seq<u8>, be: bool, k: int) -> Result<Seq<LabelModel>, MsbtFault>
    decreases k,
{
    if k <= 0 {
        Ok(Seq::empty())
    } else {
        match spec_label_groups(b, be, k - 1) {
            Err(e) => Err(e),
            Ok(s) => match spec_label_group(b, be, k - 1, s.len() as int) {
                Ok(g) => Ok(s + g),
                Err(e) => Err(e),
            },
        }
    }
}

/// An `LBL1` body: its labels (group by group) and its group count.
pub open spec fn spec_lbl1(b: Seq<u8>, be: bool) -> Result<(Seq<LabelModel>, u32), MsbtFault> {
    if b.len() < 4 {
        Err(MsbtFault::Truncated { offset: 0, need: 4, len: b.len() as int })
    } else {
        match spec_label_groups(b, be, field32(b, 0, be)) {
            Ok(ls) => Ok((ls, field32(b, 0, be) as u32)),
            Err(e) => Err(e),
        }
    }
}

/// The offset of `TXT2` message `i`: table entry `i`, or the body's end for
/// the entry past the last.
pub open spec fn txt2_off(b: Seq<u8>, be: bool, count: int, i: int) -> int {
    if i < count {
        field32(b, 4 + 4 * i, be)
    } else {
        b.len() as int
    }
}

/// The first `k` messages of a `TXT2` body whose offset table is in range.
pub open spec fn spec_txt2_messages(b: Seq<u8>, be: bool, count: int, k: int) -> Result<Seq<Seq<u8>>, MsbtFault>
    decreases k,
{
    if k <= 0 {
        Ok(Seq::empty())
    } else {
        match spec_txt2_messages(b, be, count, k - 1) {
            Err(e) => Err(e),
            Ok(s) => {
                let start = txt2_off(b, be, count, k - 1);
                let end = txt2_off(b, be, count, k);
                if start > end || end > b.len() {
                    Err(MsbtFault::OffsetOutOfRange { section: "TXT2"@, index: k - 1, offset: start, size: b.len() as int })
                } else {
                    Ok(s.push(b.subrange(start, end)))
                }
            },
        }
    }
}

/// The first offset-table entry that runs past the body.
pub open spec fn txt2_first_short(len: int) -> int {
    if len < 8 {
        0
    } else {
        (len - 8) / 4 + 1
    }
}

/// A `TXT2` body: a count, an offset table, then the messages between
/// consecutive offsets (the last ending at the body's end).
pub open spec fn spec_txt2(b: Seq<u8>, be: bool) -> Result<Seq<Seq<u8>>, MsbtFault> {
    if b.len() < 4 {
        Err(MsbtFault::Truncated { offset: 0, need: 4, len: b.len() as int })
    } else {
        let count = field32(b, 0, be);
        if 4 + 4 * count > b.len() {
            Err(MsbtFault::Truncated { offset: as_offset(4 + 4 * txt2_first_short(b.len() as int)), need: 4, len: b.len() as int })
        } else {
            spec_txt2_messages(b, be, count, count)
        }
    }
}

/// `LBL1` as bytes.
pub open spec fn lbl1_magic() -> Seq<u8> {
    seq![0x4Cu8, 0x42u8, 0x4Cu8, 0x31u8]
}

/// `TXT2` as bytes.
pub open spec fn txt2_magic() -> Seq<u8> {
    seq![0x54u8, 0x58u8, 0x54u8, 0x32u8]
}

/// `x` rounded up to a multiple of 16.
pub open spec fn align16(x: int) -> int {
    ((x + 15) / 16) * 16
}

/// Section `index` at offset `off`: its value, the `LBL1` group count it
/// carries (0 for other sections), and the offset of the next section.
pub open spec fn spec_section(b: Seq<u8>, be: bool, index: int, off: int) -> Result<(SectionValue, u32, int), MsbtFault> {
    if off + 16 > b.len() {
        Err(MsbtFault::Truncated { offset: as_offset(off), need: 16, len: b.len() as int })
    } else {
        let magic = b.subrange(off, off + 4);
        let size = field32(b, off + 4, be);
        let body = off + 16;
        if body + size > b.len() {
            Err(MsbtFault::SectionOutOfRange { magic: utf8_lossy(magic), index, offset: off, size, len: b.len() as int })
        } else {
            let bb = b.subrange(body, body + size);
            let next = align16(body + size);
            if magic == lbl1_magic() {
                match spec_lbl1(bb, be) {
                    Ok((ls, g)) => Ok(((magic, SectionModel::Labels(ls)), g, next)),
                    Err(e) => Err(e),
                }
            } else if magic == txt2_magic() {
                match spec_txt2(bb, be) {
                    Ok(ms) => Ok(((magic, SectionModel::Text(ms)), 0, next)),
                    Err(e) => Err(e),
                }
            } else {
                Ok(((magic, SectionModel::Opaque(bb)), 0, next))
            }
        }
    }
}

/// The first `k` sections, the `LBL1` group count of the first `LBL1` that
/// has a nonzero one (0 if none), and the offset after them.
pub open spec fn spec_sections(b: Seq<u8>, be: bool, k: int) -> Result<(Seq<SectionValue>, u32, int), MsbtFault>
    decreases k,
{
    if k <= 0 {
        Ok((Seq::empty(), 0, 0x20))
    } else {
        match spec_sections(b, be, k - 1) {
            Err(e) => Err(e),
            Ok((s, g, off)) => match spec_section(b, be, k - 1, off) {
                Err(e) => Err(e),
                Ok((sv, grp, next)) => Ok((s.push(sv), if g == 0 && sv.0 == lbl1_magic() { grp } else { g }, next)),
            },
        }
    }
}

/// `MsgStdBn` as bytes.
pub open spec fn msbt_magic() -> Seq<u8> {
    seq![0x4Du8, 0x73u8, 0x67u8, 0x53u8, 0x74u8, 0x64u8, 0x42u8, 0x6Eu8]
}

/// The document `b` encodes, or the first fault a bounds-checked reading meets.
pub open spec fn spec_parse_msbt(b: Seq<u8>) -> Result<DocModel, MsbtFault> {
    if b.len() < 0x20 {
        Err(MsbtFault::TooSmall(b.len() as int))
    } else if b.subrange(0, 8) != msbt_magic() {
        Err(MsbtFault::BadMagic(b.subrange(0, 8)))
    } else if !((b[8] == 0xFE && b[9] == 0xFF) || (b[8] == 0xFF && b[9] == 0xFE)) {
        Err(MsbtFault::BadBom(seq![b[8], b[9]]))
    } else {
        let be = b[8] == 0xFE;
        match spec_encoding(b[0x0C]) {
            None => Err(MsbtFault::UnsupportedEncoding(b[0x0C])),
            Some(enc) => match spec_sections(b, be, spec_u16(b, 0x0E, be)) {
                Err(e) => Err(e),
                Ok((secs, g, off)) => Ok((be, enc, b[0x0D], secs, g, b)),
            },
        }
    }
}

/// A parse result as a value.
pub open spec fn doc_result_view(r: Result<MsbtDocument, MsbtError>) -> Result<DocModel, MsbtFault> {
    match r {
        Ok(d) => Ok(d@),
        Err(e) => Err(e@),
    }
}

/// Read the 32-bit field at `off` of a section body.
fn body_u32(b: &[u8], off: u128, be: bool) -> (r: u32)
    requires
        off + 4 <= b@.len(),
    ensures
        r == field32(b@, off as int, be),
{
    let n = b.len();
    get_u32(b, off as usize, be)
}

/// Decode `count` label entries starting at `p`.
fn read_label_run(body: &[u8], be: bool, p0: u128, count: u32, labels: &mut Vec<Label>) -> (r: Result<(), MsbtError>)
    requires
        p0 <= u64::MAX,
    ensures
        match r {
            Ok(_) => spec_label_run(body@, be, p0 as int, count as int, old(labels)@.len() as int) == Ok::<
                Seq<LabelModel>,
                MsbtFault,
            >(labels_view(final(labels)@.skip(old(labels)@.len() as int))) && final(labels)@.len() >= old(labels)@.len()
                && final(labels)@.take(old(labels)@.len() as int) == old(labels)@,
            Err(e) => spec_label_run(body@, be, p0 as int, count as int, old(labels)@.len() as int) == Err::<
                Seq<LabelModel>,
                MsbtFault,
            >(e@),
        },
{
    let len = body.len();
    let ghost base = old(labels)@;
    let ghost d0 = base.len() as int;
    let mut p: u128 = p0;
    let mut i: u32 = 0;
    proof {
        assert(labels@.skip(d0) =~= Seq::<Label>::empty());
        assert(labels_view(labels@.skip(d0)) =~= Seq::<LabelModel>::empty());
        assert(labels@.take(d0) =~= base);
    }
    while i < count
        invariant
            i <= count,
            len == body@.len(),
            p <= u64::MAX,
            labels@.len() == d0 + i,
            labels@.take(d0) == base,
            base.len() == d0,
            base == old(labels)@,
            spec_label_run(body@, be, p0 as int, count as int, d0) == match spec_label_run(
                body@,
                be,
                p as int,
                count - i,
                d0 + i,
            ) {
                Ok(r) => Ok::<Seq<LabelModel>, MsbtFault>(labels_view(labels@.skip(d0)) + r),
                Err(e) => Err(e),
            },
        decreases count - i,
    {
        if p >= len as u128 {
            let e = MsbtError::OffsetOutOfRange { section: "LBL1", index: labels.len(), offset: p as usize, size: len };
            assert(e@ == MsbtFault::OffsetOutOfRange { section: "LBL1"@, index: d0 + i, offset: as_offset(p as int), size: len as int });
            assert(spec_label_run(body@, be, p as int, count - i, d0 + i) == Err::<Seq<LabelModel>, MsbtFault>(e@));
            return Err(e);
        }
        let pu = p as usize;
        let name_len = body[pu];
        let ns = pu + 1;
        let is_wide: u128 = p + 1 + name_len as u128;
        if is_wide + 4 > len as u128 {
            return Err(MsbtError::OffsetOutOfRange { section: "LBL1", index: labels.len(), offset: pu, size: len });
        }
        let is = is_wide as usize;
        let name = match utf8_to_string(&body[ns..is]) {
            Ok(s) => s,
            Err(source) => {
                return Err(MsbtError::NonUtf8 { offset: ns, source });
            },
        };
        let index = get_u32(body, is, be);
        let ghost l0 = labels@;
        let ghost lab = (name@, index);
        labels.push(Label { name, index });
        proof {
            let v0 = labels_view(l0.skip(d0));
            assert(labels@.take(d0) =~= base);
            assert(labels_view(labels@.skip(d0)) =~= v0 + seq![lab]);
            assert(spec_label_run(body@, be, p as int, count - i, d0 + i) == match spec_label_run(
                body@,
                be,
                is + 4,
                count - i - 1,
                d0 + i + 1,
            ) {
                Ok(r) => Ok::<Seq<LabelModel>, MsbtFault>(seq![lab] + r),
                Err(e) => Err(e),
            });
            match spec_label_run(body@, be, is + 4, count - i - 1, d0 + i + 1) {
                Ok(r) => {
                    assert((v0 + seq![lab]) + r =~= v0 + (seq![lab] + r));
                },
                Err(_) => {},
            }
        }
        p = (is + 4) as u128;
        i += 1;
    }
    proof {
        assert(spec_label_run(body@, be, p as int, 0, d0 + count) == Ok::<Seq<LabelModel>, MsbtFault>(Seq::empty()));
        assert(labels_view(labels@.skip(d0)) + Seq::<LabelModel>::empty() =~= labels_view(labels@.skip(d0)));
    }
    Ok(())
}

/// Decode an `LBL1` section body: a hash table of groups, each
/// `{count, offset}`, with the label entries at the group offsets.
fn read_lbl1(body: &[u8], be: bool) -> (r: Result<(Vec<Label>, u32), MsbtError>)
    ensures
        match r {
            Ok((ls, g)) => spec_lbl1(body@, be) == Ok::<(Seq<LabelModel>, u32), MsbtFault>((labels_view(ls@), g)),
            Err(e) => spec_lbl1(body@, be) == Err::<(Seq<LabelModel>, u32), MsbtFault>(e@),
        },
{
    let len = body.len();
    if len < 4 {
        return Err(MsbtError::Truncated { offset: 0, need: 4, len });
    }
    let ngroups = get_u32(body, 0, be);
    let mut labels: Vec<Label> = Vec::new();
    let mut g: u32 = 0;
    proof {
        assert(labels_view(labels@) =~= Seq::<LabelModel>::empty());
    }
    while g < ngroups
        invariant
            g <= ngroups,
            len == body@.len(),
            len >= 4,
            ngroups == field32(body@, 0, be),
            spec_label_groups(body@, be, g as int) == Ok::<Seq<LabelModel>, MsbtFault>(labels_view(labels@)),
        decreases ngroups - g,
    {
        let head: u128 = 4 + (g as u128) * 8;
        if head + 4 > len as u128 {
            let e = MsbtError::Truncated { offset: head as usize, need: 4, len };
            proof {
                lemma_groups_err_persists(body@, be, g + 1, ngroups as int);
            }
            return Err(e);
        }
        if head + 8 > len as u128 {
            let e = MsbtError::Truncated { offset: (head + 4) as usize, need: 4, len };
            proof {
                lemma_groups_err_persists(body@, be, g + 1, ngroups as int);
            }
            return Err(e);
        }
        let count = body_u32(body, head, be);
        let p = body_u32(body, head + 4, be);
        let ghost before = labels_view(labels@);
        let ghost l0 = labels@;
        match read_label_run(body, be, p as u128, count, &mut labels) {
            Ok(()) => {
                proof {
                    assert(labels@.take(l0.len() as int) == l0);
                    assert(labels_view(labels@) =~= before + labels_view(labels@.skip(l0.len() as int))) by {
                        assert forall|k: int| 0 <= k < labels@.len() implies #[trigger] labels_view(labels@)[k]
                            == (before + labels_view(labels@.skip(l0.len() as int)))[k] by {
                            if k < l0.len() {
                                assert(labels@.take(l0.len() as int)[k] == labels@[k]);
                            }
                        }
                    }
                }
            },
            Err(e) => {
                proof {
                    lemma_groups_err_persists(body@, be, g + 1, ngroups as int);
                }
                return Err(e);
            },
        }
        g += 1;
    }
    Ok((labels, ngroups))
}

/// Once the groups read so far fail, reading more fails the same way.
proof fn lemma_groups_err_persists(b: Seq<u8>, be: bool, k1: int, k2: int)
    requires
        0 <= k1 <= k2,
        spec_label_groups(b, be, k1) is Err,
    ensures
        spec_label_groups(b, be, k2) == spec_label_groups(b, be, k1),
    decreases k2 - k1,
{
    if k1 < k2 {
        lemma_groups_err_persists(b, be, k1, k2 - 1);
    }
}

/// Once the messages read so far fail, reading more fails the same way.
proof fn lemma_messages_err_persists(b: Seq<u8>, be: bool, count: int, k1: int, k2: int)
    requires
        0 <= k1 <= k2,
        spec_txt2_messages(b, be, count, k1) is Err,
    ensures
        spec_txt2_messages(b, be, count, k2) == spec_txt2_messages(b, be, count, k1),
    decreases k2 - k1,
{
    if k1 < k2 {
        lemma_messages_err_persists(b, be, count, k1, k2 - 1);
    }
}

/// Decode a `TXT2` section body: a `u32` count, a table of `u32` offsets,
/// then the messages (the bytes between consecutive offsets).
fn read_txt2(body: &[u8], be: bool) -> (r: Result<Vec<Message>, MsbtError>)
    ensures
        match r {
            Ok(ms) => spec_txt2(body@, be) == Ok::<Seq<Seq<u8>>, MsbtFault>(messages_view(ms@)),
            Err(e) => spec_txt2(body@, be) == Err::<Seq<Seq<u8>>, MsbtFault>(e@),
        },
{
    let len = body.len();
    if len < 4 {
        return Err(MsbtError::Truncated { offset: 0, need: 4, len });
    }
    let count = get_u32(body, 0, be);
    let mut offsets: Vec<usize> = Vec::new();
    let mut i: u32 = 0;
    while i < count
        invariant
            i <= count,
            len == body@.len(),
            len >= 4,
            count == field32(body@, 0, be),
            8 + 4 * (i as int) <= len + 4,
            offsets@.len() == i,
            forall|j: int| 0 <= j < i ==> #[trigger] offsets@[j] == txt2_off(body@, be, count as int, j),
        decreases count - i,
    {
        let off: u128 = 4 + (i as u128) * 4;
        if off + 4 > len as u128 {
            proof {
                assert(4 + 4 * count > len);
                assert(i == txt2_first_short(len as int));
            }
            return Err(MsbtError::Truncated { offset: off as usize, need: 4, len });
        }
        let v = body_u32(body, off, be);
        offsets.push(v as usize);
        i += 1;
    }
    offsets.push(len);
    let mut messages: Vec<Message> = Vec::new();
    let mut k: usize = 0;
    proof {
        assert(messages_view(messages@) =~= Seq::<Seq<u8>>::empty());
    }
    while k < count as usize
        invariant
            k <= count,
            len == body@.len(),
            4 + 4 * count <= len,
            count == field32(body@, 0, be),
            offsets@.len() == count + 1,
            forall|j: int| 0 <= j <= count ==> #[trigger] offsets@[j] == txt2_off(body@, be, count as int, j),
            spec_txt2_messages(body@, be, count as int, k as int) == Ok::<Seq<Seq<u8>>, MsbtFault>(messages_view(messages@)),
        decreases count - k,
    {
        let start = offsets[k];
        let end = offsets[k + 1];
        if start > end || end > len {
            proof {
                lemma_messages_err_persists(body@, be, count as int, k + 1, count as int);
            }
            return Err(MsbtError::OffsetOutOfRange { section: "TXT2", index: k, offset: start, size: len });
        }
        let raw = copy_bytes(&body[start..end]);
        let ghost m0 = messages_view(messages@);
        messages.push(Message { raw });
        proof {
            assert(messages_view(messages@) =~= m0.push(body@.subrange(start as int, end as int)));
        }
        k += 1;
    }
    Ok(messages)
}

/// Once the sections read so far fail, reading more fails the same way.
proof fn lemma_sections_err_persists(b: Seq<u8>, be: bool, k1: int, k2: int)
    requires
        0 <= k1 <= k2,
        spec_sections(b, be, k1) is Err,
    ensures
        spec_sections(b, be, k2) == spec_sections(b, be, k1),
    decreases k2 - k1,
{
    if k1 < k2 {
        lemma_sections_err_persists(b, be, k1, k2 - 1);
    }
}

/// Read section `index` at offset `off`: the section, its `LBL1` group count
/// (0 for other sections) and the offset of the next section.
fn read_section(data: &[u8], be: bool, index: usize, off: u128) -> (r: Result<(Section, u32, u128), MsbtError>)
    requires
        off <= u64::MAX as u128 + 16,
    ensures
        match r {
            Ok((sec, g, next)) => spec_section(data@, be, index as int, off as int) == Ok::<
                (SectionValue, u32, int),
                MsbtFault,
            >((sec@, g, next as int)) && next <= u64::MAX as u128 + 16,
            Err(e) => spec_section(data@, be, index as int, off as int) == Err::<(SectionValue, u32, int), MsbtFault>(e@),
        },
{
    let len = data.len();
    if off + 16 > len as u128 {
        return Err(MsbtError::Truncated { offset: off as usize, need: 16, len });
    }
    let o = off as usize;
    let magic = [data[o], data[o + 1], data[o + 2], data[o + 3]];
    proof {
        assert(magic@ =~= data@.subrange(o as int, o + 4));
    }
    let size = get_u32(data, o + 4, be) as usize;
    let body = o + 16;
    if size > len - body {
        return Err(MsbtError::SectionOutOfRange {
            magic: utf8_lossy_string(&magic),
            index,
            offset: o,
            size,
            len,
        });
    }
    let bb = &data[body..body + size];
    let x: u128 = (body + size) as u128;
    let next: u128 = (x + 15) / 16 * 16;
    assert(next <= x + 15) by (nonlinear_arith)
        requires
            next == (x + 15) / 16 * 16,
    ;
    let is_lbl1 = magic[0] == 0x4C && magic[1] == 0x42 && magic[2] == 0x4C && magic[3] == 0x31;
    let is_txt2 = magic[0] == 0x54 && magic[1] == 0x58 && magic[2] == 0x54 && magic[3] == 0x32;
    proof {
        if is_lbl1 {
            assert(magic@ =~= lbl1_magic());
        } else {
            assert(magic@ != lbl1_magic()) by {
                if magic@ == lbl1_magic() {
                    assert(magic@[0] == 0x4C && magic@[1] == 0x42 && magic@[2] == 0x4C && magic@[3] == 0x31);
                }
            }
        }
        if is_txt2 {
            assert(magic@ =~= txt2_magic());
        } else {
            assert(magic@ != txt2_magic()) by {
                if magic@ == txt2_magic() {
                    assert(magic@[0] == 0x54 && magic@[1] == 0x58 && magic@[2] == 0x54 && magic@[3] == 0x32);
                }
            }
        }
    }
    if is_lbl1 {
        match read_lbl1(bb, be) {
            Ok((ls, g)) => Ok((Section { magic, data: SectionData::Labels(ls) }, g, next)),
            Err(e) => Err(e),
        }
    } else if is_txt2 {
        match read_txt2(bb, be) {
            Ok(ms) => Ok((Section { magic, data: SectionData::Text(ms) }, 0, next)),
            Err(e) => Err(e),
        }
    } else {
        Ok((Section { magic, data: SectionData::Opaque(copy_bytes(bb)) }, 0, next))
    }
}

/// Read the first `count` sections and the `LBL1` group count they carry.
#[verifier::rlimit(40)]
#[verifier::spinoff_prover]
fn read_sections(data: &[u8], big_endian: bool, section_count: usize) -> (r: Result<(Vec<Section>, u32), MsbtError>)
    ensures
        match r {
            Ok((secs, g)) => spec_sections(data@, big_endian, section_count as int) matches Ok((sv, g2, _)) && sv
                == sections_view(secs@) && g2 == g,
            Err(e) => spec_sections(data@, big_endian, section_count as int) == Err::<
                (Seq<SectionValue>, u32, int),
                MsbtFault,
            >(e@),
        },
{
    let len = data.len();
    let mut sections: Vec<Section> = Vec::new();
    let mut lbl1_groups: u32 = 0;
    let mut off: u128 = 0x20;
    let mut index: usize = 0;
    let ghost whole = spec_sections(data@, big_endian, section_count as int);
    proof {
        assert(sections_view(sections@) =~= Seq::<SectionValue>::empty());
    }
    while index < section_count
        invariant
            index <= section_count,
            len == data@.len(),
            off <= u64::MAX as u128 + 16,
            whole == spec_sections(data@, big_endian, section_count as int),
            spec_sections(data@, big_endian, index as int) == Ok::<(Seq<SectionValue>, u32, int), MsbtFault>(
                (sections_view(sections@), lbl1_groups, off as int),
            ),
        decreases section_count - index,
    {
        match read_section(data, big_endian, index, off) {
            Ok((sec, g, next)) => {
                let is_lbl1 = sec.magic[0] == 0x4C && sec.magic[1] == 0x42 && sec.magic[2] == 0x4C
                    && sec.magic[3] == 0x31;
                proof {
                    if is_lbl1 {
                        assert(sec.magic@ =~= lbl1_magic());
                    } else {
                        assert(sec.magic@ != lbl1_magic()) by {
                            if sec.magic@ == lbl1_magic() {
                                assert(sec.magic@[0] == 0x4C && sec.magic@[1] == 0x42 && sec.magic@[2] == 0x4C
                                    && sec.magic@[3] == 0x31);
                            }
                        }
                    }
                }
                if is_lbl1 && lbl1_groups == 0 {
                    lbl1_groups = g;
                }
                let ghost s0 = sections_view(sections@);
                let ghost sv = sec@;
                sections.push(sec);
                proof {
                    assert(sections_view(sections@) =~= s0.push(sv));
                }
                off = next;
            },
            Err(e) => {
                proof {
                    lemma_sections_err_persists(data@, big_endian, index + 1, section_count as int);
                }
                return Err(e);
            },
        }
        index += 1;
    }
    Ok((sections, lbl1_groups))
}


/// Parse an MSBT document, keeping the original bytes for the verbatim
/// round-trip.
#[verifier::rlimit(30)]
pub fn read_msbt(data: &[u8]) -> (r: Result<MsbtDocument, MsbtError>)
    ensures
        doc_result_view(r) == spec_parse_msbt(data@),
{
    let len = data.len();
    if len < HEADER_LEN {
        return Err(MsbtError::TooSmall(len));
    }
    let magic = [data[0], data[1], data[2], data[3], data[4], data[5], data[6], data[7]];
    proof {
        assert(magic@ =~= data@.subrange(0, 8));
    }
    if !(magic[0] == 0x4D && magic[1] == 0x73 && magic[2] == 0x67 && magic[3] == 0x53 && magic[4] == 0x74
        && magic[5] == 0x64 && magic[6] == 0x42 && magic[7] == 0x6E) {
        proof {
            if data@.subrange(0, 8) == msbt_magic() {
                assert(magic@[0] == 0x4D && magic@[1] == 0x73 && magic@[2] == 0x67 && magic@[3] == 0x53
                    && magic@[4] == 0x74 && magic@[5] == 0x64 && magic@[6] == 0x42 && magic@[7] == 0x6E);
            }
        }
        return Err(MsbtError::BadMagic(magic));
    }
    proof {
        assert(data@.subrange(0, 8) =~= msbt_magic());
    }
    let b8 = data[8];
    let b9 = data[9];
    let big_endian = if b8 == 0xFE && b9 == 0xFF {
        true
    } else if b8 == 0xFF && b9 == 0xFE {
        false
    } else {
        let bom = [b8, b9];
        proof {
            assert(bom@ =~= seq![b8, b9]);
        }
        return Err(MsbtError::BadBom(bom));
    };
    let encoding = match Encoding::from_u8(data[0x0C]) {
        Ok(e) => e,
        Err(e) => {
            return Err(e);
        },
    };
    let version = data[0x0D];
    let section_count = get_u16(data, 0x0E, big_endian) as usize;
    let (sections, lbl1_groups) = match read_sections(data, big_endian, section_count) {
        Ok(x) => x,
        Err(e) => {
            return Err(e);
        },
    };
    let raw = copy_bytes(data);
    Ok(MsbtDocument { big_endian, encoding, version, sections, lbl1_groups, raw })
}

} // verus!
