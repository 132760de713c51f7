//! MSBT writers: the verbatim writer re-emits the bytes captured at parse
//! time; the canonical writer rebuilds the file from the decoded sections.
use vstd::prelude::*;
use vstd::utf8::encode_utf8;

use super::{
    label_hash, labels_view, messages_view, sections_view, spec_encoding_byte, spec_label_hash, DocModel,
    Label, LabelModel, Message, MsbtDocument, MsbtError, MsbtFault, Section, SectionData, SectionModel,
    SectionValue, PAD_BYTE,
};
use crate::bytes::{push_slice, push_u16, push_u32, push_zeros, u16_bytes, u32_bytes};

verus! {

/// Serialize an MSBT document: the original bytes verbatim, byte-identical
/// to the input for an unmodified document.
pub fn write_msbt(doc: &MsbtDocument) -> (r: Result<Vec<u8>, MsbtError>)
    ensures
        r matches Ok(v) && v@ == doc.raw@,
{
    Ok(crate::bytes::copy_bytes(doc.raw.as_slice()))
}

/// The bucket of a label among `groups` buckets: its hash modulo the count.
pub open spec fn label_bucket(l: LabelModel, groups: u32) -> int {
    (spec_label_hash(encode_utf8(l.0)) as int) % (groups as int)
}

/// The bytes of one `LBL1` entry: name length, name, message index.
pub open spec fn label_entry_bytes(l: LabelModel, be: bool) -> Seq<u8> {
    seq![encode_utf8(l.0).len() as u8] + encode_utf8(l.0) + u32_bytes(l.1, be)
}

/// The entries of bucket `g` among the first `k` labels, in label order.
pub open spec fn bucket_blob(ls: Seq<LabelModel>, groups: u32, g: int, be: bool, k: int) -> Seq<u8>
    decreases k,
{
    if k <= 0 {
        Seq::empty()
    } else if label_bucket(ls[k - 1], groups) == g {
        bucket_blob(ls, groups, g, be, k - 1) + label_entry_bytes(ls[k - 1], be)
    } else {
        bucket_blob(ls, groups, g, be, k - 1)
    }
}

/// How many of the first `k` labels fall in bucket `g`.
pub open spec fn bucket_count(ls: Seq<LabelModel>, groups: u32, g: int, k: int) -> int
    decreases k,
{
    if k <= 0 {
        0
    } else if label_bucket(ls[k - 1], groups) == g {
        bucket_count(ls, groups, g, k - 1) + 1
    } else {
        bucket_count(ls, groups, g, k - 1)
    }
}

/// The entries of buckets `0..g`, one bucket after another.
pub open spec fn buckets_bytes(ls: Seq<LabelModel>, groups: u32, be: bool, g: int) -> Seq<u8>
    decreases g,
{
    if g <= 0 {
        Seq::empty()
    } else {
        buckets_bytes(ls, groups, be, g - 1) + bucket_blob(ls, groups, g - 1, be, ls.len() as int)
    }
}

/// The group table entries of buckets `0..g`: count and body offset.
pub open spec fn group_table(ls: Seq<LabelModel>, groups: u32, be: bool, g: int) -> Seq<u8>
    decreases g,
{
    if g <= 0 {
        Seq::empty()
    } else {
        group_table(ls, groups, be, g - 1) + u32_bytes(bucket_count(ls, groups, g - 1, ls.len() as int) as u32, be)
            + u32_bytes((4 + 8 * (groups as int) + buckets_bytes(ls, groups, be, g - 1).len()) as u32, be)
    }
}

/// An `LBL1` body with `groups` buckets.
pub open spec fn lbl1_body(ls: Seq<LabelModel>, groups: u32, be: bool) -> Seq<u8> {
    u32_bytes(groups, be) + group_table(ls, groups, be, groups as int) + buckets_bytes(ls, groups, be, groups as int)
}

/// The total length of the first `k` messages.
pub open spec fn messages_len(ms: Seq<Seq<u8>>, k: int) -> int
    decreases k,
{
    if k <= 0 {
        0
    } else {
        messages_len(ms, k - 1) + ms[k - 1].len()
    }
}

/// The offset table entries of the first `k` messages.
pub open spec fn txt2_table(ms: Seq<Seq<u8>>, be: bool, k: int) -> Seq<u8>
    decreases k,
{
    if k <= 0 {
        Seq::empty()
    } else {
        txt2_table(ms, be, k - 1) + u32_bytes((4 + 4 * ms.len() + messages_len(ms, k - 1)) as u32, be)
    }
}

/// The first `k` messages, concatenated.
pub open spec fn messages_bytes(ms: Seq<Seq<u8>>, k: int) -> Seq<u8>
    decreases k,
{
    if k <= 0 {
        Seq::empty()
    } else {
        messages_bytes(ms, k - 1) + ms[k - 1]
    }
}

/// A `TXT2` body: count, offset table, messages.
pub open spec fn txt2_body(ms: Seq<Seq<u8>>, be: bool) -> Seq<u8> {
    u32_bytes(ms.len() as u32, be) + txt2_table(ms, be, ms.len() as int) + messages_bytes(ms, ms.len() as int)
}

/// The `LBL1` bucket count the canonical writer uses: the document's, or
/// one when the document has none but its labels need a bucket.
pub open spec fn canonical_groups(doc: DocModel, ls: Seq<LabelModel>) -> u32 {
    if doc.4 == 0 && ls.len() > 0 {
        1
    } else {
        doc.4
    }
}

/// The body the canonical writer emits for a section.
pub open spec fn section_body(doc: DocModel, s: SectionValue) -> Seq<u8> {
    match s.1 {
        SectionModel::Labels(ls) => lbl1_body(ls, canonical_groups(doc, ls), doc.0),
        SectionModel::Text(ms) => txt2_body(ms, doc.0),
        SectionModel::Opaque(b) => b,
    }
}

/// `n` copies of the padding byte.
pub open spec fn pad_bytes(n: int) -> Seq<u8> {
    Seq::new(n as nat, |i: int| 0xABu8)
}

/// A section as the canonical writer emits it: magic, body size, eight zero
/// bytes, the body, then `0xAB` padding to a multiple of 16.
pub open spec fn section_bytes(doc: DocModel, s: SectionValue) -> Seq<u8> {
    let body = section_body(doc, s);
    s.0 + u32_bytes(body.len() as u32, doc.0) + Seq::new(8, |i: int| 0u8) + body + pad_bytes(
        (16 - body.len() % 16) % 16,
    )
}

/// The first `k` sections as the canonical writer emits them.
pub open spec fn sections_bytes(doc: DocModel, k: int) -> Seq<u8>
    decreases k,
{
    if k <= 0 {
        Seq::empty()
    } else {
        sections_bytes(doc, k - 1) + section_bytes(doc, doc.3[k - 1])
    }
}

/// The 0x20-byte header for a file of `size` bytes.
pub open spec fn header_bytes(doc: DocModel, size: int) -> Seq<u8> {
    seq![0x4Du8, 0x73u8, 0x67u8, 0x53u8, 0x74u8, 0x64u8, 0x42u8, 0x6Eu8] + (if doc.0 {
        seq![0xFEu8, 0xFFu8]
    } else {
        seq![0xFFu8, 0xFEu8]
    }) + seq![0u8, 0u8, spec_encoding_byte(doc.1), doc.2] + u16_bytes(doc.3.len() as u16, doc.0) + u16_bytes(0, doc.0)
        + u32_bytes(size as u32, doc.0) + Seq::new(10, |i: int| 0u8)
}

/// The bytes the canonical writer emits for a document.
pub open spec fn spec_canonical(doc: DocModel) -> Seq<u8> {
    let body = sections_bytes(doc, doc.3.len() as int);
    header_bytes(doc, 0x20 + (body.len() as int)) + body
}

/// Every label name of a section fits its one-byte length.
pub open spec fn section_names_fit(s: SectionValue) -> bool {
    match s.1 {
        SectionModel::Labels(ls) => forall|j: int| 0 <= j < ls.len() ==> encode_utf8(#[trigger] ls[j].0).len() <= 255,
        _ => true,
    }
}

/// The documents the canonical writer can encode: label names of at most
/// 255 bytes (their length is one byte), and every count, offset and size
/// within the 16- and 32-bit fields.
pub open spec fn canonical_writable(doc: DocModel) -> bool {
    &&& doc.3.len() <= u16::MAX
    &&& forall|k: int| 0 <= k < doc.3.len() ==> section_names_fit(#[trigger] doc.3[k])
    &&& 0x20 + sections_bytes(doc, doc.3.len() as int).len() <= u32::MAX
}

/// Append `n` padding bytes.
fn push_pad(out: &mut Vec<u8>, n: usize)
    ensures
        final(out)@ == old(out)@ + pad_bytes(n as int),
{
    let mut i: usize = 0;
    while i < n
        invariant
            i <= n,
            out@ == old(out)@ + pad_bytes(i as int),
        decreases n - i,
    {
        out.push(PAD_BYTE);
        i += 1;
        assert(out@ =~= old(out)@ + pad_bytes(i as int));
    }
}

/// The entries of bucket `g`, in label order, and how many there are.
#[verifier::rlimit(30)]
fn bucket_entries(labels: &[Label], groups: u32, g: u32, be: bool) -> (r: (Vec<u8>, u32))
    requires
        groups > 0,
    ensures
        r.0@ == bucket_blob(labels_view(labels@), groups, g as int, be, labels@.len() as int),
        r.1 == bucket_count(labels_view(labels@), groups, g as int, labels@.len() as int) as u32,
{
    let ghost ls = labels_view(labels@);
    let mut blob: Vec<u8> = Vec::new();
    let mut count: usize = 0;
    let mut k: usize = 0;
    while k < labels.len()
        invariant
            k <= labels@.len(),
            groups > 0,
            ls == labels_view(labels@),
            blob@ == bucket_blob(ls, groups, g as int, be, k as int),
            count == bucket_count(ls, groups, g as int, k as int),
            count <= k,
        decreases labels@.len() - k,
    {
        let l = &labels[k];
        let h = label_hash(l.name.as_str());
        let b = h % groups;
        proof {
            assert(ls[k as int] == l@);
            assert(b as int == label_bucket(ls[k as int], groups));
        }
        if b == g {
            let nb = l.name.as_str().as_bytes();
            let ghost b0 = blob@;
            blob.push(nb.len() as u8);
            push_slice(&mut blob, nb);
            push_u32(&mut blob, l.index, be);
            proof {
                assert(blob@ =~= b0 + label_entry_bytes(ls[k as int], be));
            }
            count = count + 1;
        }
        k += 1;
    }
    (blob, count as u32)
}

/// The `LBL1` body of `labels` in `groups` buckets.
fn lbl1_bytes(labels: &[Label], groups: u32, be: bool) -> (r: Vec<u8>)
    ensures
        r@ == lbl1_body(labels_view(labels@), groups, be),
{
    let ghost ls = labels_view(labels@);
    let mut blobs: Vec<Vec<u8>> = Vec::new();
    let mut table: Vec<u8> = Vec::new();
    let mut data: Vec<u8> = Vec::new();
    let mut g: u32 = 0;
    while g < groups
        invariant
            g <= groups,
            ls == labels_view(labels@),
            table@ == group_table(ls, groups, be, g as int),
            data@ == buckets_bytes(ls, groups, be, g as int),
        decreases groups - g,
    {
        let (blob, count) = bucket_entries(labels, groups, g, be);
        let off: u128 = 4 + 8 * (groups as u128) + data.len() as u128;
        push_u32(&mut table, count, be);
        push_u32(&mut table, off as u32, be);
        push_slice(&mut data, blob.as_slice());
        proof {
            assert(table@ =~= group_table(ls, groups, be, g + 1));
            assert(data@ =~= buckets_bytes(ls, groups, be, g + 1));
        }
        g += 1;
    }
    let mut out: Vec<u8> = Vec::new();
    push_u32(&mut out, groups, be);
    push_slice(&mut out, table.as_slice());
    push_slice(&mut out, data.as_slice());
    proof {
        assert(out@ =~= lbl1_body(ls, groups, be));
    }
    out
}

/// The `TXT2` body of `messages`.
fn txt2_bytes(messages: &[Message], be: bool) -> (r: Vec<u8>)
    ensures
        r@ == txt2_body(messages_view(messages@), be),
{
    let ghost ms = messages_view(messages@);
    let n = messages.len();
    let mut table: Vec<u8> = Vec::new();
    let mut data: Vec<u8> = Vec::new();
    let mut k: usize = 0;
    while k < n
        invariant
            k <= n,
            n == messages@.len(),
            ms == messages_view(messages@),
            table@ == txt2_table(ms, be, k as int),
            data@ == messages_bytes(ms, k as int),
            data@.len() == messages_len(ms, k as int),
        decreases n - k,
    {
        let off: u128 = 4 + 4 * (n as u128) + data.len() as u128;
        push_u32(&mut table, off as u32, be);
        push_slice(&mut data, messages[k].raw.as_slice());
        proof {
            assert(ms[k as int] == messages@[k as int].raw@);
            assert(table@ =~= txt2_table(ms, be, k + 1));
            assert(data@ =~= messages_bytes(ms, k + 1));
        }
        k += 1;
    }
    let mut out: Vec<u8> = Vec::new();
    push_u32(&mut out, n as u32, be);
    push_slice(&mut out, table.as_slice());
    push_slice(&mut out, data.as_slice());
    proof {
        assert(out@ =~= txt2_body(ms, be));
    }
    out
}

/// Rebuild an MSBT document from its decoded sections: a fresh header with
/// the file size, each section with its size, body and `0xAB` padding;
/// `LBL1` rehashed into the document's bucket count (one when it has none
/// but holds labels), `TXT2` with a fresh offset table, other sections
/// verbatim.
pub fn write_msbt_canonical(doc: &MsbtDocument) -> (r: Result<Vec<u8>, MsbtError>)
    ensures
        r matches Ok(v) && v@ == spec_canonical(doc@),
{
    let ghost d = doc@;
    let be = doc.big_endian;
    let mut body: Vec<u8> = Vec::new();
    let mut k: usize = 0;
    while k < doc.sections.len()
        invariant
            k <= doc.sections@.len(),
            d == doc@,
            be == d.0,
            body@ == sections_bytes(d, k as int),
        decreases doc.sections@.len() - k,
    {
        let sec = &doc.sections[k];
        let sb = match &sec.data {
            SectionData::Labels(ls) => {
                let groups: u32 = if doc.lbl1_groups == 0 && ls.len() > 0 {
                    1
                } else {
                    doc.lbl1_groups
                };
                if groups == 0 {
                    proof {
                        assert(lbl1_body(labels_view(ls@), 0, be) =~= u32_bytes(0, be));
                    }
                    let mut z: Vec<u8> = Vec::new();
                    push_u32(&mut z, 0, be);
                    z
                } else {
                    lbl1_bytes(ls.as_slice(), groups, be)
                }
            },
            SectionData::Text(ms) => txt2_bytes(ms.as_slice(), be),
            SectionData::Opaque(b) => crate::bytes::copy_bytes(b.as_slice()),
        };
        proof {
            assert(d.3[k as int] == sec@);
            assert(sb@ == section_body(d, sec@));
        }
        let ghost b0 = body@;
        push_slice(&mut body, &sec.magic);
        push_u32(&mut body, sb.len() as u32, be);
        push_zeros(&mut body, 8);
        push_slice(&mut body, sb.as_slice());
        push_pad(&mut body, (16 - sb.len() % 16) % 16);
        proof {
            assert(body@ =~= b0 + section_bytes(d, d.3[k as int]));
        }
        k += 1;
    }
    let total: u128 = 0x20 + body.len() as u128;
    let mut out: Vec<u8> = Vec::new();
    out.push(0x4Du8);
    out.push(0x73u8);
    out.push(0x67u8);
    out.push(0x53u8);
    out.push(0x74u8);
    out.push(0x64u8);
    out.push(0x42u8);
    out.push(0x6Eu8);
    if be {
        out.push(0xFEu8);
        out.push(0xFFu8);
    } else {
        out.push(0xFFu8);
        out.push(0xFEu8);
    }
    out.push(0u8);
    out.push(0u8);
    out.push(doc.encoding.to_u8());
    out.push(doc.version);
    push_u16(&mut out, doc.sections.len() as u16, be);
    push_u16(&mut out, 0, be);
    push_u32(&mut out, total as u32, be);
    push_zeros(&mut out, 10);
    proof {
        assert(out@ =~= header_bytes(d, 0x20 + (body@.len() as int)));
    }
    push_slice(&mut out, body.as_slice());
    Ok(out)
}

} // verus!
