//! Reading back what the canonical writer wrote gives the document's
//! sections again: messages and opaque sections as they were, labels
//! regrouped by hash bucket.
use vstd::prelude::*;
use vstd::utf8::{decode_utf8, encode_utf8, valid_utf8};

use super::read::{
    align16, field32, lbl1_magic, msbt_magic, spec_label_group, spec_label_groups, spec_label_run, spec_lbl1,
    spec_parse_msbt, spec_section, spec_sections, spec_txt2, spec_txt2_messages, txt2_magic, txt2_off,
};
use super::write::{
    bucket_blob, bucket_count, buckets_bytes, canonical_groups, canonical_writable, group_table, header_bytes,
    label_bucket, label_entry_bytes, lbl1_body, messages_bytes, messages_len, pad_bytes, section_body, section_bytes,
    section_names_fit, sections_bytes, spec_canonical, txt2_body, txt2_table,
};
use super::{spec_encoding, spec_encoding_byte, spec_label_hash, DocModel, LabelModel, MsbtFault, SectionModel, SectionValue};
use crate::bytes::{
    lemma_stands_at_split, lemma_u16_bytes_roundtrip, lemma_u32_bytes_roundtrip, spec_u16, spec_u32, stands_at,
    u16_bytes, u32_bytes,
};

verus! {

/// A 32-bit field reads back the value written there.
proof fn lemma_field32_at(b: Seq<u8>, off: int, v: u32, be: bool)
    requires
        stands_at(b, off, u32_bytes(v, be)),
    ensures
        field32(b, off, be) == v,
{
    let x = u32_bytes(v, be);
    lemma_u32_bytes_roundtrip(v, be);
    assert(b[off] == x[0] && b[off + 1] == x[1] && b[off + 2] == x[2] && b[off + 3] == x[3]) by {
        assert(b.subrange(off, off + 4)[0] == b[off]);
        assert(b.subrange(off, off + 4)[1] == b[off + 1]);
        assert(b.subrange(off, off + 4)[2] == b[off + 2]);
        assert(b.subrange(off, off + 4)[3] == b[off + 3]);
    }
}

/// A piece of a piece stands where it stands inside it.
pub proof fn lemma_stands_within(b: Seq<u8>, q: int, x: Seq<u8>, i: int, y: Seq<u8>)
    requires
        stands_at(b, q, x),
        stands_at(x, i, y),
    ensures
        stands_at(b, q + i, y),
{
    let bs = b.subrange(q + i, q + i + y.len());
    let xs = x.subrange(i, i + y.len());
    assert(bs =~= xs) by {
        assert forall|j: int| 0 <= j < y.len() implies #[trigger] bs[j] == xs[j] by {
            assert(b.subrange(q, q + x.len())[i + j] == x[i + j]);
        }
    }
}

/// The messages so far are `messages_len` long and begin the whole run.
proof fn lemma_messages_prefix(ms: Seq<Seq<u8>>, k: int, n: int)
    requires
        0 <= k <= n <= ms.len(),
    ensures
        messages_bytes(ms, k).len() == messages_len(ms, k),
        messages_len(ms, k) <= messages_len(ms, n),
        stands_at(messages_bytes(ms, n), 0, messages_bytes(ms, k)),
    decreases n - k,
{
    if k < n {
        lemma_messages_prefix(ms, k, n - 1);
        let a = messages_bytes(ms, n - 1);
        assert((a + ms[n - 1]).subrange(0, messages_bytes(ms, k).len() as int) =~= a.subrange(
            0,
            messages_bytes(ms, k).len() as int,
        ));
    } else {
        lemma_messages_len(ms, n);
        assert(messages_bytes(ms, n).subrange(0, messages_bytes(ms, n).len() as int) =~= messages_bytes(ms, n));
    }
}

/// The concatenated messages are `messages_len` long.
proof fn lemma_messages_len(ms: Seq<Seq<u8>>, k: int)
    requires
        0 <= k <= ms.len(),
    ensures
        messages_bytes(ms, k).len() == messages_len(ms, k),
        messages_len(ms, k) >= 0,
    decreases k,
{
    if k > 0 {
        lemma_messages_len(ms, k - 1);
    }
}

/// Message `k` stands after the ones before it.
proof fn lemma_message_at(ms: Seq<Seq<u8>>, k: int)
    requires
        0 <= k < ms.len(),
    ensures
        stands_at(messages_bytes(ms, ms.len() as int), messages_len(ms, k), ms[k]),
        messages_len(ms, k + 1) == messages_len(ms, k) + ms[k].len(),
{
    lemma_messages_prefix(ms, k + 1, ms.len() as int);
    lemma_messages_len(ms, k);
    let a = messages_bytes(ms, k);
    assert(messages_bytes(ms, k + 1).subrange(0, messages_bytes(ms, k + 1).len() as int) =~= messages_bytes(ms, k + 1));
    lemma_stands_at_split(messages_bytes(ms, k + 1), 0, a, ms[k]);
    lemma_stands_within(messages_bytes(ms, ms.len() as int), 0, messages_bytes(ms, k + 1), messages_len(ms, k), ms[k]);
}

/// The offset table has four bytes per message, entry `i` the offset of
/// message `i`.
proof fn lemma_txt2_table(ms: Seq<Seq<u8>>, be: bool, k: int, i: int)
    requires
        0 <= i < k <= ms.len(),
    ensures
        txt2_table(ms, be, k).len() == 4 * k,
        stands_at(txt2_table(ms, be, k), 4 * i, u32_bytes((4 + 4 * ms.len() + messages_len(ms, i)) as u32, be)),
    decreases k,
{
    lemma_u32_bytes_roundtrip(0, be);
    if i < k - 1 {
        lemma_txt2_table(ms, be, k - 1, i);
        let a = txt2_table(ms, be, k - 1);
        let e = u32_bytes((4 + 4 * ms.len() + messages_len(ms, k - 1)) as u32, be);
        lemma_u32_bytes_roundtrip((4 + 4 * ms.len() + messages_len(ms, k - 1)) as u32, be);
        assert(stands_at(a + e, 0, a)) by {
            assert((a + e).subrange(0, a.len() as int) =~= a);
        }
        lemma_stands_within(a + e, 0, a, 4 * i, u32_bytes((4 + 4 * ms.len() + messages_len(ms, i)) as u32, be));
    } else {
        if k > 1 {
            lemma_txt2_table(ms, be, k - 1, 0);
        } else {
            assert(txt2_table(ms, be, 0).len() == 0);
        }
        let a = txt2_table(ms, be, k - 1);
        let e = u32_bytes((4 + 4 * ms.len() + messages_len(ms, k - 1)) as u32, be);
        lemma_u32_bytes_roundtrip((4 + 4 * ms.len() + messages_len(ms, k - 1)) as u32, be);
        assert((a + e).subrange(a.len() as int, (a.len() + e.len()) as int) =~= e);
    }
}

/// Where the parts of a canonical `TXT2` body stand: the count, the offset
/// table after it, then the messages.
proof fn lemma_txt2_layout(ms: Seq<Seq<u8>>, be: bool)
    ensures
        ({
            let n = ms.len() as int;
            let b = txt2_body(ms, be);
            &&& b.len() == 4 + 4 * n + messages_len(ms, n)
            &&& stands_at(b, 0, u32_bytes(n as u32, be))
            &&& stands_at(b, 4, txt2_table(ms, be, n))
            &&& stands_at(b, 4 + 4 * n, messages_bytes(ms, n))
        }),
{
    let n = ms.len() as int;
    let b = txt2_body(ms, be);
    let head = u32_bytes(n as u32, be);
    let table = txt2_table(ms, be, n);
    let msgs = messages_bytes(ms, n);
    lemma_u32_bytes_roundtrip(n as u32, be);
    lemma_messages_len(ms, n);
    if n > 0 {
        lemma_txt2_table(ms, be, n, 0);
    } else {
        assert(table.len() == 0);
    }
    assert(b == head + table + msgs);
    assert(b.subrange(0, b.len() as int) =~= b);
    lemma_stands_at_split(b, 0, head + table, msgs);
    lemma_stands_at_split(b, 0, head, table);
}

/// A `TXT2` body the canonical writer built reads back as its messages.
pub proof fn lemma_txt2_round_trip(ms: Seq<Seq<u8>>, be: bool)
    requires
        txt2_body(ms, be).len() <= u32::MAX,
    ensures
        spec_txt2(txt2_body(ms, be), be) == Ok::<Seq<Seq<u8>>, crate::msbt::MsbtFault>(ms),
{
    let n = ms.len() as int;
    let b = txt2_body(ms, be);
    lemma_txt2_layout(ms, be);
    lemma_field32_at(b, 0, n as u32, be);
    assert(field32(b, 0, be) == n);
    lemma_txt2_messages(b, ms, be, n);
    assert(ms.subrange(0, n) =~= ms);
}

/// The first `k` messages read back from a body laid out as the canonical
/// writer lays it out.
#[verifier::rlimit(30)]
proof fn lemma_txt2_messages(b: Seq<u8>, ms: Seq<Seq<u8>>, be: bool, k: int)
    requires
        0 <= k <= ms.len(),
        b.len() <= u32::MAX,
        b.len() == 4 + 4 * ms.len() + messages_len(ms, ms.len() as int),
        stands_at(b, 4, txt2_table(ms, be, ms.len() as int)),
        stands_at(b, 4 + 4 * ms.len() as int, messages_bytes(ms, ms.len() as int)),
    ensures
        spec_txt2_messages(b, be, ms.len() as int, k) == Ok::<Seq<Seq<u8>>, crate::msbt::MsbtFault>(
            ms.subrange(0, k),
        ),
    decreases k,
{
    let n = ms.len() as int;
    if k > 0 {
        lemma_txt2_messages(b, ms, be, k - 1);
        let table = txt2_table(ms, be, n);
        let msgs = messages_bytes(ms, n);
        let base = 4 + 4 * n;
        lemma_message_at(ms, k - 1);
        lemma_messages_prefix(ms, k, n);
        let start = base + messages_len(ms, k - 1);
        lemma_txt2_table(ms, be, n, k - 1);
        lemma_stands_within(b, 4, table, 4 * (k - 1), u32_bytes((4 + 4 * n + messages_len(ms, k - 1)) as u32, be));
        lemma_field32_at(b, 4 + 4 * (k - 1), (4 + 4 * n + messages_len(ms, k - 1)) as u32, be);
        assert(txt2_off(b, be, n, k - 1) == start);
        if k < n {
            lemma_txt2_table(ms, be, n, k);
            lemma_stands_within(b, 4, table, 4 * k, u32_bytes((4 + 4 * n + messages_len(ms, k)) as u32, be));
            lemma_field32_at(b, 4 + 4 * k, (4 + 4 * n + messages_len(ms, k)) as u32, be);
        }
        assert(txt2_off(b, be, n, k) == base + messages_len(ms, k));
        lemma_stands_within(b, base, msgs, messages_len(ms, k - 1), ms[k - 1]);
        assert(b.subrange(start, start + ms[k - 1].len()) == ms[k - 1]);
        assert(ms.subrange(0, k - 1).push(ms[k - 1]) =~= ms.subrange(0, k));
    } else {
        assert(ms.subrange(0, 0) =~= Seq::<Seq<u8>>::empty());
    }
}

/// The labels of bucket `g` among the first `k`, in label order.
pub open spec fn bucket_labels(ls: Seq<LabelModel>, groups: u32, g: int, k: int) -> Seq<LabelModel>
    decreases k,
{
    if k <= 0 {
        Seq::empty()
    } else if label_bucket(ls[k - 1], groups) == g {
        bucket_labels(ls, groups, g, k - 1).push(ls[k - 1])
    } else {
        bucket_labels(ls, groups, g, k - 1)
    }
}

/// The labels of buckets `0..g`, bucket after bucket.
pub open spec fn bucketed_upto(ls: Seq<LabelModel>, groups: u32, g: int) -> Seq<LabelModel>
    decreases g,
{
    if g <= 0 {
        Seq::empty()
    } else {
        bucketed_upto(ls, groups, g - 1) + bucket_labels(ls, groups, g - 1, ls.len() as int)
    }
}

/// The labels regrouped by bucket, as `LBL1` stores them.
pub open spec fn bucketed(ls: Seq<LabelModel>, groups: u32) -> Seq<LabelModel> {
    bucketed_upto(ls, groups, groups as int)
}

/// The `LBL1` entries of a label list.
pub open spec fn entries(ls: Seq<LabelModel>, be: bool) -> Seq<u8>
    decreases ls.len(),
{
    if ls.len() == 0 {
        Seq::empty()
    } else {
        entries(ls.drop_last(), be) + label_entry_bytes(ls.last(), be)
    }
}

/// Every label name fits its one-byte length.
pub open spec fn names_fit(ls: Seq<LabelModel>) -> bool {
    forall|j: int| 0 <= j < ls.len() ==> encode_utf8(#[trigger] ls[j].0).len() <= 255
}

/// A bucket's entries are those of its labels, one per label.
proof fn lemma_bucket_blob(ls: Seq<LabelModel>, groups: u32, g: int, be: bool, k: int)
    requires
        0 <= k <= ls.len(),
    ensures
        bucket_blob(ls, groups, g, be, k) == entries(bucket_labels(ls, groups, g, k), be),
        bucket_count(ls, groups, g, k) == bucket_labels(ls, groups, g, k).len(),
        bucket_labels(ls, groups, g, k).len() <= entries(bucket_labels(ls, groups, g, k), be).len(),
        names_fit(ls) ==> names_fit(bucket_labels(ls, groups, g, k)),
    decreases k,
{
    if k > 0 {
        lemma_bucket_blob(ls, groups, g, be, k - 1);
        let prev = bucket_labels(ls, groups, g, k - 1);
        if label_bucket(ls[k - 1], groups) == g {
            assert(prev.push(ls[k - 1]).drop_last() =~= prev);
            if names_fit(ls) {
                assert forall|j: int| 0 <= j < prev.push(ls[k - 1]).len() implies encode_utf8(
                    #[trigger] prev.push(ls[k - 1])[j].0,
                ).len() <= 255 by {
                    if j < prev.len() {
                        assert(prev.push(ls[k - 1])[j] == prev[j]);
                    }
                }
            }
        }
    }
}

/// The entries of a label list begin with its first label's entry.
proof fn lemma_entries_front(ls: Seq<LabelModel>, be: bool)
    requires
        ls.len() > 0,
    ensures
        entries(ls, be) == label_entry_bytes(ls[0], be) + entries(ls.drop_first(), be),
    decreases ls.len(),
{
    let e0 = label_entry_bytes(ls[0], be);
    let el = label_entry_bytes(ls.last(), be);
    if ls.len() > 1 {
        lemma_entries_front(ls.drop_last(), be);
        assert(ls.drop_last().drop_first() =~= ls.drop_first().drop_last());
        assert(ls.drop_last()[0] == ls[0]);
        assert(ls.drop_first().last() == ls.last());
        let mid = entries(ls.drop_first().drop_last(), be);
        assert(entries(ls.drop_first(), be) == mid + el);
        assert(entries(ls.drop_last(), be) == e0 + mid);
        assert(entries(ls, be) == (e0 + mid) + el);
        assert((e0 + mid) + el =~= e0 + (mid + el));
    } else {
        assert(ls.drop_first().len() == 0);
        assert(ls.drop_last().len() == 0);
        assert(ls.last() == ls[0]);
        assert(entries(ls.drop_last(), be) =~= Seq::<u8>::empty());
        assert(entries(ls.drop_first(), be) =~= Seq::<u8>::empty());
        assert(entries(ls, be) =~= e0);
        assert(e0 + Seq::<u8>::empty() =~= e0);
    }
}

/// A run of entries reads back as its labels.
#[verifier::rlimit(30)]
proof fn lemma_label_run(b: Seq<u8>, be: bool, p: int, ls: Seq<LabelModel>, done: int)
    requires
        stands_at(b, p, entries(ls, be)),
        names_fit(ls),
    ensures
        spec_label_run(b, be, p, ls.len() as int, done) == Ok::<Seq<LabelModel>, MsbtFault>(ls),
    decreases ls.len(),
{
    if ls.len() > 0 {
        lemma_entries_front(ls, be);
        let l = ls[0];
        let name = encode_utf8(l.0);
        let e = label_entry_bytes(l, be);
        let rest = ls.drop_first();
        assert(name.len() <= 255);
        lemma_u32_bytes_roundtrip(l.1, be);
        assert(e == seq![name.len() as u8] + name + u32_bytes(l.1, be));
        lemma_stands_at_split(b, p, e, entries(rest, be));
        lemma_stands_at_split(b, p, seq![name.len() as u8] + name, u32_bytes(l.1, be));
        lemma_stands_at_split(b, p, seq![name.len() as u8], name);
        assert(b[p] == name.len()) by {
            assert(b.subrange(p, p + 1)[0] == b[p]);
        }
        let ns = p + 1;
        let is = ns + name.len();
        assert(b.subrange(ns, is) == name);
        vstd::utf8::encode_utf8_valid_utf8(l.0);
        vstd::utf8::encode_utf8_decode_utf8(l.0);
        lemma_field32_at(b, is, l.1, be);
        assert(names_fit(rest)) by {
            assert forall|j: int| 0 <= j < rest.len() implies encode_utf8(#[trigger] rest[j].0).len() <= 255 by {
                assert(rest[j] == ls[j + 1]);
            }
        }
        lemma_label_run(b, be, is + 4, rest, done + 1);
        assert(seq![(l.0, l.1)] + rest =~= ls);
    } else {
        assert(ls =~= Seq::<LabelModel>::empty());
    }
}

/// The bucket entries so far begin the whole run; bucket `g` follows the
/// buckets before it.
proof fn lemma_buckets_prefix(ls: Seq<LabelModel>, groups: u32, be: bool, g: int, m: int)
    requires
        0 <= g <= m,
    ensures
        buckets_bytes(ls, groups, be, g).len() <= buckets_bytes(ls, groups, be, m).len(),
        stands_at(buckets_bytes(ls, groups, be, m), 0, buckets_bytes(ls, groups, be, g)),
        g < m ==> stands_at(
            buckets_bytes(ls, groups, be, m),
            buckets_bytes(ls, groups, be, g).len() as int,
            bucket_blob(ls, groups, g, be, ls.len() as int),
        ),
    decreases m - g,
{
    let bm = buckets_bytes(ls, groups, be, m);
    if g < m {
        lemma_buckets_prefix(ls, groups, be, g, m - 1);
        lemma_buckets_prefix(ls, groups, be, g + 1, m);
        let a = buckets_bytes(ls, groups, be, m - 1);
        let last = bucket_blob(ls, groups, m - 1, be, ls.len() as int);
        assert(bm == a + last);
        assert((a + last).subrange(0, buckets_bytes(ls, groups, be, g).len() as int) =~= a.subrange(
            0,
            buckets_bytes(ls, groups, be, g).len() as int,
        ));
        let bg = buckets_bytes(ls, groups, be, g);
        let blob = bucket_blob(ls, groups, g, be, ls.len() as int);
        let bg1 = buckets_bytes(ls, groups, be, g + 1);
        assert(bg1 == bg + blob);
        assert(bg1.subrange(0, bg1.len() as int) =~= bg1);
        lemma_stands_at_split(bg1, 0, bg, blob);
        lemma_stands_within(bm, 0, bg1, bg.len() as int, blob);
    } else {
        assert(bm.subrange(0, bm.len() as int) =~= bm);
    }
}

/// The group table has eight bytes per bucket: its label count and the
/// offset of its entries.
proof fn lemma_group_table(ls: Seq<LabelModel>, groups: u32, be: bool, k: int, g: int)
    requires
        0 <= g < k,
    ensures
        group_table(ls, groups, be, k).len() == 8 * k,
        stands_at(
            group_table(ls, groups, be, k),
            8 * g,
            u32_bytes(bucket_count(ls, groups, g, ls.len() as int) as u32, be) + u32_bytes(
                (4 + 8 * (groups as int) + buckets_bytes(ls, groups, be, g).len()) as u32,
                be,
            ),
        ),
    decreases k,
{
    let e = |x: int|
        u32_bytes(bucket_count(ls, groups, x, ls.len() as int) as u32, be) + u32_bytes(
            (4 + 8 * (groups as int) + buckets_bytes(ls, groups, be, x).len()) as u32,
            be,
        );
    lemma_u32_bytes_roundtrip(bucket_count(ls, groups, k - 1, ls.len() as int) as u32, be);
    lemma_u32_bytes_roundtrip((4 + 8 * (groups as int) + buckets_bytes(ls, groups, be, k - 1).len()) as u32, be);
    let a = group_table(ls, groups, be, k - 1);
    assert(group_table(ls, groups, be, k) =~= a + e(k - 1));
    if g < k - 1 {
        lemma_group_table(ls, groups, be, k - 1, g);
        assert(stands_at(a + e(k - 1), 0, a)) by {
            assert((a + e(k - 1)).subrange(0, a.len() as int) =~= a);
        }
        lemma_stands_within(a + e(k - 1), 0, a, 8 * g, e(g));
    } else {
        if k > 1 {
            lemma_group_table(ls, groups, be, k - 1, 0);
        } else {
            assert(a.len() == 0);
        }
        assert((a + e(k - 1)).subrange(a.len() as int, (a.len() + e(k - 1).len()) as int) =~= e(k - 1));
    }
}

/// Where the parts of a canonical `LBL1` body stand: the bucket count, the
/// group table, then the buckets' entries.
proof fn lemma_lbl1_layout(ls: Seq<LabelModel>, groups: u32, be: bool)
    ensures
        ({
            let b = lbl1_body(ls, groups, be);
            let g = groups as int;
            &&& b.len() == 4 + 8 * g + buckets_bytes(ls, groups, be, g).len()
            &&& stands_at(b, 0, u32_bytes(groups, be))
            &&& stands_at(b, 4, group_table(ls, groups, be, g))
            &&& stands_at(b, 4 + 8 * g, buckets_bytes(ls, groups, be, g))
        }),
{
    let b = lbl1_body(ls, groups, be);
    let g = groups as int;
    let head = u32_bytes(groups, be);
    let table = group_table(ls, groups, be, g);
    let bk = buckets_bytes(ls, groups, be, g);
    lemma_u32_bytes_roundtrip(groups, be);
    if g > 0 {
        lemma_group_table(ls, groups, be, g, 0);
    } else {
        assert(table.len() == 0);
    }
    assert(b == head + table + bk);
    assert(b.subrange(0, b.len() as int) =~= b);
    lemma_stands_at_split(b, 0, head + table, bk);
    lemma_stands_at_split(b, 0, head, table);
}

/// Group `g` of a body laid out as the canonical writer lays it out reads
/// back as the labels of bucket `g`.
#[verifier::rlimit(40)]
proof fn lemma_label_group_at(b: Seq<u8>, ls: Seq<LabelModel>, groups: u32, be: bool, g: int)
    requires
        0 <= g < groups,
        names_fit(ls),
        b.len() <= u32::MAX,
        b.len() == 4 + 8 * (groups as int) + buckets_bytes(ls, groups, be, groups as int).len(),
        stands_at(b, 4, group_table(ls, groups, be, groups as int)),
        stands_at(b, 4 + 8 * (groups as int), buckets_bytes(ls, groups, be, groups as int)),
    ensures
        spec_label_group(b, be, g, bucketed_upto(ls, groups, g).len() as int) == Ok::<Seq<LabelModel>, MsbtFault>(
            bucket_labels(ls, groups, g, ls.len() as int),
        ),
{
    let gi = groups as int;
    let n = ls.len() as int;
    let cnt = bucket_count(ls, groups, g, n);
    let off = 4 + 8 * gi + buckets_bytes(ls, groups, be, g).len();
    lemma_group_table(ls, groups, be, gi, g);
    lemma_stands_within(
        b,
        4,
        group_table(ls, groups, be, gi),
        8 * g,
        u32_bytes(cnt as u32, be) + u32_bytes(off as u32, be),
    );
    lemma_stands_at_split(b, 4 + 8 * g, u32_bytes(cnt as u32, be), u32_bytes(off as u32, be));
    lemma_u32_bytes_roundtrip(cnt as u32, be);
    lemma_buckets_prefix(ls, groups, be, g, gi);
    lemma_bucket_blob(ls, groups, g, be, n);
    let blob = bucket_blob(ls, groups, g, be, n);
    lemma_stands_within(b, 4 + 8 * gi, buckets_bytes(ls, groups, be, gi), buckets_bytes(ls, groups, be, g).len() as int, blob);
    assert(cnt <= u32::MAX);
    assert(off <= u32::MAX);
    lemma_field32_at(b, 4 + 8 * g, cnt as u32, be);
    lemma_field32_at(b, 4 + 8 * g + 4, off as u32, be);
    let done = bucketed_upto(ls, groups, g).len() as int;
    lemma_label_run(b, be, off, bucket_labels(ls, groups, g, n), done);
}

/// The labels of the first `k` buckets read back from a body laid out as
/// the canonical writer lays it out.
proof fn lemma_label_groups(b: Seq<u8>, ls: Seq<LabelModel>, groups: u32, be: bool, k: int)
    requires
        0 <= k <= groups,
        names_fit(ls),
        b.len() <= u32::MAX,
        b.len() == 4 + 8 * (groups as int) + buckets_bytes(ls, groups, be, groups as int).len(),
        stands_at(b, 4, group_table(ls, groups, be, groups as int)),
        stands_at(b, 4 + 8 * (groups as int), buckets_bytes(ls, groups, be, groups as int)),
    ensures
        spec_label_groups(b, be, k) == Ok::<Seq<LabelModel>, MsbtFault>(bucketed_upto(ls, groups, k)),
    decreases k,
{
    if k > 0 {
        lemma_label_groups(b, ls, groups, be, k - 1);
        lemma_label_group_at(b, ls, groups, be, k - 1);
    }
}

/// The labels of bucket `g` among the first `k` are exactly those whose
/// name hash modulo the bucket count is `g`.
proof fn lemma_bucket_labels_by_hash(ls: Seq<LabelModel>, groups: u32, g: int, k: int)
    requires
        0 <= k <= ls.len(),
        groups > 0,
    ensures
        forall|j: int|
            0 <= j < bucket_labels(ls, groups, g, k).len() ==> (spec_label_hash(
                encode_utf8(#[trigger] bucket_labels(ls, groups, g, k)[j].0),
            ) as int) % (groups as int) == g,
        forall|i: int|
            0 <= i < k && (spec_label_hash(encode_utf8(#[trigger] ls[i].0)) as int) % (groups as int) == g
                ==> bucket_labels(ls, groups, g, k).contains(ls[i]),
    decreases k,
{
    if k > 0 {
        lemma_bucket_labels_by_hash(ls, groups, g, k - 1);
        let prev = bucket_labels(ls, groups, g, k - 1);
        let cur = bucket_labels(ls, groups, g, k);
        if label_bucket(ls[k - 1], groups) == g {
            assert(cur == prev.push(ls[k - 1]));
            assert forall|i: int|
                0 <= i < k && (spec_label_hash(encode_utf8(#[trigger] ls[i].0)) as int) % (groups as int) == g
                    implies cur.contains(ls[i]) by {
                if i < k - 1 {
                    let j = choose|j: int| 0 <= j < prev.len() && prev[j] == ls[i];
                    assert(cur[j] == ls[i]);
                } else {
                    assert(cur[prev.len() as int] == ls[i]);
                }
            }
        }
    }
}

/// Reading group `g` of the `LBL1` body the canonical writer builds gives
/// labels whose name hash modulo the group count is `g`, and every label
/// whose hash falls there: each label is stored in the group the game
/// looks it up in.
pub proof fn lemma_lbl1_groups_by_hash(ls: Seq<LabelModel>, groups: u32, be: bool, g: int)
    requires
        lbl1_body(ls, groups, be).len() <= u32::MAX,
        names_fit(ls),
        0 <= g < groups,
    ensures
        spec_label_group(lbl1_body(ls, groups, be), be, g, bucketed_upto(ls, groups, g).len() as int) matches Ok(grp)
            && (forall|j: int|
            0 <= j < grp.len() ==> (spec_label_hash(encode_utf8(#[trigger] grp[j].0)) as int) % (groups as int) == g)
            && (forall|i: int|
            0 <= i < ls.len() && (spec_label_hash(encode_utf8(#[trigger] ls[i].0)) as int) % (groups as int) == g
                ==> grp.contains(ls[i])),
{
    lemma_lbl1_layout(ls, groups, be);
    lemma_label_group_at(lbl1_body(ls, groups, be), ls, groups, be, g);
    lemma_bucket_labels_by_hash(ls, groups, g, ls.len() as int);
}

/// An `LBL1` body the canonical writer built reads back as its labels,
/// bucket by bucket, with its bucket count.
pub proof fn lemma_lbl1_round_trip(ls: Seq<LabelModel>, groups: u32, be: bool)
    requires
        lbl1_body(ls, groups, be).len() <= u32::MAX,
        names_fit(ls),
    ensures
        spec_lbl1(lbl1_body(ls, groups, be), be) == Ok::<(Seq<LabelModel>, u32), MsbtFault>(
            (bucketed(ls, groups), groups),
        ),
{
    let b = lbl1_body(ls, groups, be);
    lemma_lbl1_layout(ls, groups, be);
    lemma_field32_at(b, 0, groups, be);
    lemma_label_groups(b, ls, groups, be, groups as int);
}

/// A section whose magic is four bytes and names what it holds: `LBL1`
/// for labels, `TXT2` for messages, anything else for opaque bytes.
pub open spec fn consistent_section(s: SectionValue) -> bool {
    &&& s.0.len() == 4
    &&& match s.1 {
        SectionModel::Labels(ls) => s.0 == lbl1_magic(),
        SectionModel::Text(ms) => s.0 == txt2_magic(),
        SectionModel::Opaque(b) => s.0 != lbl1_magic() && s.0 != txt2_magic(),
    }
}

/// A section as reading the canonical bytes gives it back: labels
/// regrouped by bucket, everything else as it was.
pub open spec fn reread_section(doc: DocModel, s: SectionValue) -> SectionValue {
    match s.1 {
        SectionModel::Labels(ls) => (s.0, SectionModel::Labels(bucketed(ls, canonical_groups(doc, ls)))),
        _ => s,
    }
}

/// The bucket count a section's canonical bytes carry (0 for other
/// sections).
pub open spec fn section_groups(doc: DocModel, s: SectionValue) -> u32 {
    match s.1 {
        SectionModel::Labels(ls) => canonical_groups(doc, ls),
        _ => 0,
    }
}

/// The bucket count reading the first `k` canonical sections reports: that
/// of the first `LBL1` section carrying a nonzero one, else 0.
pub open spec fn reread_groups(doc: DocModel, k: int) -> u32
    decreases k,
{
    if k <= 0 {
        0
    } else {
        let g = reread_groups(doc, k - 1);
        if g == 0 && doc.3[k - 1].0 == lbl1_magic() {
            section_groups(doc, doc.3[k - 1])
        } else {
            g
        }
    }
}

/// A canonical section is a multiple of 16 bytes: its 16-byte header, its
/// body, and the padding.
proof fn lemma_section_len(doc: DocModel, s: SectionValue)
    requires
        s.0.len() == 4,
    ensures
        section_bytes(doc, s).len() == 16 + section_body(doc, s).len() + (16 - section_body(doc, s).len() % 16)
            % 16,
        section_bytes(doc, s).len() % 16 == 0,
        section_bytes(doc, s).len() == align16(16 + section_body(doc, s).len() as int),
{
    let l = section_body(doc, s).len() as int;
    lemma_u32_bytes_roundtrip(l as u32, doc.0);
    assert((16 + l + (16 - l % 16) % 16) % 16 == 0 && align16(16 + l) == 16 + l + (16 - l % 16) % 16) by (nonlinear_arith)
        requires
            l >= 0,
    {
        assert(l == 16 * (l / 16) + l % 16);
    }
}

/// A section the canonical writer wrote at a 16-byte boundary reads back.
#[verifier::rlimit(40)]
proof fn lemma_section(b: Seq<u8>, doc: DocModel, s: SectionValue, index: int, off: int)
    requires
        stands_at(b, off, section_bytes(doc, s)),
        off % 16 == 0,
        b.len() <= u32::MAX,
        consistent_section(s),
        section_names_fit(s),
    ensures
        spec_section(b, doc.0, index, off) == Ok::<(SectionValue, u32, int), MsbtFault>(
            (reread_section(doc, s), section_groups(doc, s), off + section_bytes(doc, s).len()),
        ),
{
    let be = doc.0;
    let body = section_body(doc, s);
    let l = body.len() as int;
    lemma_section_len(doc, s);
    lemma_u32_bytes_roundtrip(l as u32, be);
    let pad = pad_bytes((16 - l % 16) % 16);
    let sb = section_bytes(doc, s);
    assert(sb == s.0 + u32_bytes(l as u32, be) + Seq::new(8, |i: int| 0u8) + body + pad);
    lemma_stands_at_split(b, off, s.0 + u32_bytes(l as u32, be) + Seq::new(8, |i: int| 0u8) + body, pad);
    lemma_stands_at_split(b, off, s.0 + u32_bytes(l as u32, be) + Seq::new(8, |i: int| 0u8), body);
    lemma_stands_at_split(b, off, s.0 + u32_bytes(l as u32, be), Seq::new(8, |i: int| 0u8));
    lemma_stands_at_split(b, off, s.0, u32_bytes(l as u32, be));
    assert(l <= u32::MAX);
    lemma_field32_at(b, off + 4, l as u32, be);
    assert(align16(off + 16 + l) == off + sb.len()) by (nonlinear_arith)
        requires
            off % 16 == 0,
            sb.len() == align16(16 + l),
            l >= 0,
            off >= 0,
    {
        assert(off == 16 * (off / 16));
    }
    match s.1 {
        SectionModel::Labels(ls) => {
            assert(names_fit(ls));
            lemma_lbl1_round_trip(ls, canonical_groups(doc, ls), be);
        },
        SectionModel::Text(ms) => {
            lemma_txt2_round_trip(ms, be);
        },
        SectionModel::Opaque(o) => {},
    }
}

/// The canonical sections so far begin the whole run.
proof fn lemma_sections_prefix(doc: DocModel, k: int, m: int)
    requires
        0 <= k <= m <= doc.3.len(),
        forall|j: int| 0 <= j < doc.3.len() ==> (#[trigger] doc.3[j]).0.len() == 4,
    ensures
        sections_bytes(doc, k).len() <= sections_bytes(doc, m).len(),
        sections_bytes(doc, k).len() % 16 == 0,
        stands_at(sections_bytes(doc, m), 0, sections_bytes(doc, k)),
        k < m ==> stands_at(sections_bytes(doc, m), sections_bytes(doc, k).len() as int, section_bytes(doc, doc.3[k])),
    decreases m - k,
{
    let bm = sections_bytes(doc, m);
    if k < m {
        lemma_sections_prefix(doc, k, m - 1);
        lemma_sections_prefix(doc, k + 1, m);
        let a = sections_bytes(doc, m - 1);
        let last = section_bytes(doc, doc.3[m - 1]);
        assert(bm == a + last);
        let bk = sections_bytes(doc, k);
        assert((a + last).subrange(0, bk.len() as int) =~= a.subrange(0, bk.len() as int));
        let sk = section_bytes(doc, doc.3[k]);
        let bk1 = sections_bytes(doc, k + 1);
        assert(bk1 == bk + sk);
        assert(bk1.subrange(0, bk1.len() as int) =~= bk1);
        lemma_stands_at_split(bk1, 0, bk, sk);
        lemma_stands_within(bm, 0, bk1, bk.len() as int, sk);
    } else {
        assert(bm.subrange(0, bm.len() as int) =~= bm);
        lemma_sections_aligned(doc, k);
    }
}

/// The canonical sections so far fill a multiple of 16 bytes.
proof fn lemma_sections_aligned(doc: DocModel, k: int)
    requires
        0 <= k <= doc.3.len(),
        forall|j: int| 0 <= j < doc.3.len() ==> (#[trigger] doc.3[j]).0.len() == 4,
    ensures
        sections_bytes(doc, k).len() % 16 == 0,
    decreases k,
{
    if k > 0 {
        lemma_sections_aligned(doc, k - 1);
        let s = doc.3[k - 1];
        lemma_section_len(doc, s);
        let a = sections_bytes(doc, k - 1).len() as int;
        let c = section_bytes(doc, s).len() as int;
        assert(sections_bytes(doc, k).len() == a + c);
        assert((a + c) % 16 == 0) by (nonlinear_arith)
            requires
                a % 16 == 0,
                c % 16 == 0,
                a >= 0,
                c >= 0,
        {
            assert(a == 16 * (a / 16));
            assert(c == 16 * (c / 16));
        }
    }
}

/// The first `k` sections read back from canonical bytes `b`.
#[verifier::rlimit(100)]
#[verifier::spinoff_prover]
proof fn lemma_sections(b: Seq<u8>, doc: DocModel, k: int)
    requires
        0 <= k <= doc.3.len(),
        b.len() <= u32::MAX,
        stands_at(b, 0x20, sections_bytes(doc, doc.3.len() as int)),
        forall|j: int| 0 <= j < doc.3.len() ==> consistent_section(#[trigger] doc.3[j]),
        forall|j: int| 0 <= j < doc.3.len() ==> section_names_fit(#[trigger] doc.3[j]),
    ensures
        spec_sections(b, doc.0, k) == Ok::<(Seq<SectionValue>, u32, int), MsbtFault>(
            (
                Seq::new(k as nat, |j: int| reread_section(doc, doc.3[j])),
                reread_groups(doc, k),
                0x20 + sections_bytes(doc, k).len() as int,
            ),
        ),
    decreases k,
{
    assert forall|j: int| 0 <= j < doc.3.len() implies (#[trigger] doc.3[j]).0.len() == 4 by {
        assert(consistent_section(doc.3[j]));
    }
    if k > 0 {
        lemma_sections(b, doc, k - 1);
        let n = doc.3.len() as int;
        let s = doc.3[k - 1];
        lemma_sections_prefix(doc, k - 1, n);
        let off = 0x20 + sections_bytes(doc, k - 1).len() as int;
        lemma_stands_within(b, 0x20, sections_bytes(doc, n), sections_bytes(doc, k - 1).len() as int, section_bytes(doc, s));
        assert(consistent_section(s));
        assert(section_names_fit(s));
        lemma_section(b, doc, s, k - 1, off);
        assert(sections_bytes(doc, k).len() == sections_bytes(doc, k - 1).len() + section_bytes(doc, s).len());
        assert(Seq::new((k - 1) as nat, |j: int| reread_section(doc, doc.3[j])).push(reread_section(doc, s)) =~= Seq::new(
            k as nat,
            |j: int| reread_section(doc, doc.3[j]),
        ));
        assert(reread_section(doc, s).0 == s.0);
    } else {
        assert(Seq::new(0, |j: int| reread_section(doc, doc.3[j])) =~= Seq::<SectionValue>::empty());
    }
}

/// Reading the bytes the canonical writer wrote for a document gives back
/// its byte order, encoding, version and sections (labels regrouped by hash
/// bucket, messages and opaque sections unchanged), the bucket count of
/// its first `LBL1` section that carries one, and the bytes themselves.
/// It holds for documents the writer can encode whose section magics name
/// what they hold.
pub proof fn lemma_canonical_round_trip(doc: DocModel)
    requires
        canonical_writable(doc),
        forall|k: int| 0 <= k < doc.3.len() ==> consistent_section(#[trigger] doc.3[k]),
    ensures
        spec_parse_msbt(spec_canonical(doc)) == Ok::<DocModel, MsbtFault>(
            (
                doc.0,
                doc.1,
                doc.2,
                Seq::new(doc.3.len(), |k: int| reread_section(doc, doc.3[k])),
                reread_groups(doc, doc.3.len() as int),
                spec_canonical(doc),
            ),
        ),
{
    let n = doc.3.len() as int;
    let body = sections_bytes(doc, n);
    let b = spec_canonical(doc);
    let size = 0x20 + body.len() as int;
    let h = header_bytes(doc, size);
    lemma_u16_bytes_roundtrip(n as u16, doc.0);
    lemma_u16_bytes_roundtrip(0, doc.0);
    lemma_u32_bytes_roundtrip(size as u32, doc.0);
    assert(h.len() == 0x20);
    assert(b == h + body);
    assert(b.subrange(0, b.len() as int) =~= b);
    lemma_stands_at_split(b, 0, h, body);
    assert(b.subrange(0, 8) =~= msbt_magic()) by {
        assert forall|i: int| 0 <= i < 8 implies b.subrange(0, 8)[i] == msbt_magic()[i] by {
            assert(b[i] == h[i]);
        }
    }
    assert(b[8] == h[8] && b[9] == h[9] && b[12] == h[12] && b[13] == h[13] && b[14] == h[14] && b[15] == h[15]);
    assert(spec_encoding(spec_encoding_byte(doc.1)) == Some(doc.1));
    assert(spec_u16(b, 0x0E, doc.0) == n) by {
        let u = u16_bytes(n as u16, doc.0);
        assert(h[14] == u[0] && h[15] == u[1]);
    }
    assert forall|j: int| 0 <= j < n implies section_names_fit(#[trigger] doc.3[j]) by {
        assert(section_names_fit(doc.3[j]));
    }
    lemma_sections(b, doc, n);
}

/// With one bucket every label is in it.
proof fn lemma_one_bucket_labels(ls: Seq<LabelModel>, k: int)
    requires
        0 <= k <= ls.len(),
    ensures
        bucket_labels(ls, 1, 0, k) == ls.subrange(0, k),
    decreases k,
{
    if k > 0 {
        lemma_one_bucket_labels(ls, k - 1);
        assert(label_bucket(ls[k - 1], 1) == 0);
        assert(ls.subrange(0, k - 1).push(ls[k - 1]) =~= ls.subrange(0, k));
    } else {
        assert(ls.subrange(0, 0) =~= Seq::<LabelModel>::empty());
    }
}

/// With one bucket the labels read back in their own order.
pub proof fn lemma_one_bucket(ls: Seq<LabelModel>)
    ensures
        bucketed(ls, 1) == ls,
{
    lemma_one_bucket_labels(ls, ls.len() as int);
    assert(bucketed_upto(ls, 1, 0) =~= Seq::<LabelModel>::empty());
    assert(Seq::<LabelModel>::empty() + ls.subrange(0, ls.len() as int) =~= ls);
}

} // verus!
