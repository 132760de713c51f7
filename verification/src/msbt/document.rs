//! Queries and edits on a parsed MSBT document.
use vstd::prelude::*;
use vstd::utf8::encode_utf8;

use super::{
    labels_view, messages_view, sections_view, Label, LabelModel, Message, MsbtDocument, Section,
    SectionData, SectionModel, SectionValue,
};
use crate::bytes::{copy_bytes, str_equal};
use crate::order::{bytes_view, is_stable_order_bytes, lemma_indices_cover, names_index, reorder, stable_order_bytes};

verus! {

/// The labels of the first `LBL1` section among `secs`, if any.
pub open spec fn first_labels(secs: Seq<SectionValue>) -> Option<Seq<LabelModel>>
    decreases secs.len(),
{
    if secs.len() == 0 {
        None
    } else {
        match secs[0].1 {
            SectionModel::Labels(l) => Some(l),
            _ => first_labels(secs.drop_first()),
        }
    }
}

/// The messages of the first `TXT2` section among `secs`, if any.
pub open spec fn first_messages(secs: Seq<SectionValue>) -> Option<Seq<Seq<u8>>>
    decreases secs.len(),
{
    if secs.len() == 0 {
        None
    } else {
        match secs[0].1 {
            SectionModel::Text(t) => Some(t),
            _ => first_messages(secs.drop_first()),
        }
    }
}

/// The message index of the first label named `name`, if any.
pub open spec fn first_label_index(ls: Seq<LabelModel>, name: Seq<char>) -> Option<u32>
    decreases ls.len(),
{
    if ls.len() == 0 {
        None
    } else if ls[0].0 == name {
        Some(ls[0].1)
    } else {
        first_label_index(ls.drop_first(), name)
    }
}

/// The message index the first label named `name` (in the first `LBL1`)
/// points at, if any.
pub open spec fn label_target_index(secs: Seq<SectionValue>, name: Seq<char>) -> Option<u32> {
    match first_labels(secs) {
        Some(ls) => first_label_index(ls, name),
        None => None,
    }
}

/// The position of the first `TXT2` section holding more than `idx`
/// messages, if any.
pub open spec fn text_target(secs: Seq<SectionValue>, idx: int) -> Option<int>
    decreases secs.len(),
{
    if secs.len() == 0 {
        None
    } else {
        match secs[0].1 {
            SectionModel::Text(t) if idx < t.len() => Some(0),
            _ => match text_target(secs.drop_first(), idx) {
                Some(k) => Some(k + 1),
                None => None,
            },
        }
    }
}

/// The label/message pairs of a document, in label order: each label of the
/// first `LBL1` with the message of the first `TXT2` at its index, labels
/// whose index is out of range skipped.
pub open spec fn label_pairs(ls: Seq<LabelModel>, ms: Seq<Seq<u8>>) -> Seq<(Seq<char>, Seq<u8>)>
    decreases ls.len(),
{
    if ls.len() == 0 {
        Seq::empty()
    } else {
        let rest = label_pairs(ls.drop_last(), ms);
        let l = ls.last();
        if (l.1 as int) < ms.len() {
            rest.push((l.0, ms[l.1 as int]))
        } else {
            rest
        }
    }
}

/// `(name, m)` is a label of `ls` paired with the message of `ms` that its
/// stored index points at.
pub open spec fn from_label(ls: Seq<LabelModel>, ms: Seq<Seq<u8>>, name: Seq<char>, m: Seq<u8>) -> bool {
    exists|i: int| 0 <= i < ls.len() && (ls[i].1 as int) < ms.len() && ls[i].0 == name && ms[ls[i].1 as int] == m
}

/// `(name, m)` is one of the pairs `ps`.
pub open spec fn pair_listed(ps: Seq<(Seq<char>, Seq<u8>)>, name: Seq<char>, m: Seq<u8>) -> bool {
    exists|k: int| 0 <= k < ps.len() && ps[k] == (name, m)
}

/// Every pair comes from a label and the message at its index, and every
/// label whose index is in range gives a pair.
pub proof fn lemma_label_pairs_index(ls: Seq<LabelModel>, ms: Seq<Seq<u8>>)
    ensures
        forall|k: int|
            0 <= k < label_pairs(ls, ms).len() ==> #[trigger] from_label(
                ls,
                ms,
                label_pairs(ls, ms)[k].0,
                label_pairs(ls, ms)[k].1,
            ),
        forall|i: int|
            0 <= i < ls.len() && (ls[i].1 as int) < ms.len() ==> #[trigger] pair_listed(
                label_pairs(ls, ms),
                ls[i].0,
                ms[ls[i].1 as int],
            ),
    decreases ls.len(),
{
    if ls.len() > 0 {
        let l0 = ls.drop_last();
        lemma_label_pairs_index(l0, ms);
        let p0 = label_pairs(l0, ms);
        let p = label_pairs(ls, ms);
        let n = ls.len() - 1;
        assert forall|k: int| 0 <= k < p.len() implies #[trigger] from_label(ls, ms, p[k].0, p[k].1) by {
            if k < p0.len() {
                assert(p[k] == p0[k]);
                assert(from_label(l0, ms, p0[k].0, p0[k].1));
                let i = choose|i: int|
                    0 <= i < l0.len() && (l0[i].1 as int) < ms.len() && l0[i].0 == p0[k].0 && ms[l0[i].1 as int]
                        == p0[k].1;
                assert(ls[i] == l0[i]);
            } else {
                assert(ls[n] == ls.last());
            }
        }
        assert forall|i: int| 0 <= i < ls.len() && (ls[i].1 as int) < ms.len() implies #[trigger] pair_listed(
            p,
            ls[i].0,
            ms[ls[i].1 as int],
        ) by {
            if i < n {
                assert(ls[i] == l0[i]);
                assert(pair_listed(p0, l0[i].0, ms[l0[i].1 as int]));
                let k = choose|k: int| 0 <= k < p0.len() && p0[k] == (l0[i].0, ms[l0[i].1 as int]);
                assert(p[k] == p0[k]);
            } else {
                assert(p[p0.len() as int] == (ls[i].0, ms[ls[i].1 as int]));
            }
        }
    }
}

/// The entries of a document: each pair is a label of the first `LBL1`
/// with the message of the first `TXT2` at that label's stored index, and
/// every such label with an index in range is listed.
pub open spec fn entries_by_index(secs: Seq<SectionValue>, r: Seq<(Seq<char>, Seq<u8>)>) -> bool {
    match (first_labels(secs), first_messages(secs)) {
        (Some(ls), Some(ms)) => {
            &&& forall|k: int| 0 <= k < r.len() ==> #[trigger] from_label(ls, ms, r[k].0, r[k].1)
            &&& forall|i: int|
                0 <= i < ls.len() && (ls[i].1 as int) < ms.len() ==> #[trigger] pair_listed(r, ls[i].0, ms[ls[i].1 as int])
        },
        _ => r.len() == 0,
    }
}

/// The pairs before sorting, for a document's sections.
pub open spec fn doc_pairs(secs: Seq<SectionValue>) -> Seq<(Seq<char>, Seq<u8>)> {
    match (first_labels(secs), first_messages(secs)) {
        (Some(ls), Some(ms)) => label_pairs(ls, ms),
        _ => Seq::empty(),
    }
}

/// The sorting keys of pairs: their names' UTF-8 bytes.
pub open spec fn pair_keys(ps: Seq<(Seq<char>, Seq<u8>)>) -> Seq<Seq<u8>> {
    ps.map_values(|p: (Seq<char>, Seq<u8>)| encode_utf8(p.0))
}

/// Entries as values.
pub open spec fn entries_view(v: Seq<(&str, &Message)>) -> Seq<(Seq<char>, Seq<u8>)> {
    v.map_values(|e: (&str, &Message)| (e.0@, e.1@))
}

/// Sorting the pairs keeps them all: the sorted entries are listed by
/// index as the pairs are.
proof fn lemma_entries_by_index(secs: Seq<SectionValue>, order: Seq<usize>, r: Seq<(Seq<char>, Seq<u8>)>)
    requires
        is_stable_order_bytes(pair_keys(doc_pairs(secs)), order),
        r == reorder(doc_pairs(secs), order),
    ensures
        entries_by_index(secs, r),
{
    let ps = doc_pairs(secs);
    lemma_indices_cover(order, ps.len() as int);
    match (first_labels(secs), first_messages(secs)) {
        (Some(ls), Some(ms)) => {
            lemma_label_pairs_index(ls, ms);
            assert(ps == label_pairs(ls, ms));
            assert forall|k: int| 0 <= k < r.len() implies #[trigger] from_label(ls, ms, r[k].0, r[k].1) by {
                assert(r[k] == ps[order[k] as int]);
                assert(from_label(ls, ms, ps[order[k] as int].0, ps[order[k] as int].1));
            }
            assert forall|i: int| 0 <= i < ls.len() && (ls[i].1 as int) < ms.len() implies #[trigger] pair_listed(
                r,
                ls[i].0,
                ms[ls[i].1 as int],
            ) by {
                assert(pair_listed(ps, ls[i].0, ms[ls[i].1 as int]));
                let j = choose|j: int| 0 <= j < ps.len() && ps[j] == (ls[i].0, ms[ls[i].1 as int]);
                assert(names_index(order, j));
                let k = choose|k: int| 0 <= k < order.len() && order[k] == j;
                assert(r[k] == ps[j]);
            }
        },
        _ => {},
    }
}

impl MsbtDocument {
    /// The original bytes captured at parse time.
    pub fn raw(&self) -> (r: &[u8])
        ensures
            r@ == self.raw@,
    {
        self.raw.as_slice()
    }

    /// The labels from the first `LBL1` section, if present.
    pub fn labels(&self) -> (r: Option<&[Label]>)
        ensures
            match r {
                Some(l) => first_labels(sections_view(self.sections@)) == Some(labels_view(l@)),
                None => first_labels(sections_view(self.sections@)) is None,
            },
    {
        let ghost secs = sections_view(self.sections@);
        let mut i: usize = 0;
        proof {
            assert(secs.skip(0) =~= secs);
        }
        while i < self.sections.len()
            invariant
                i <= self.sections@.len(),
                secs == sections_view(self.sections@),
                first_labels(secs) == first_labels(secs.skip(i as int)),
            decreases self.sections@.len() - i,
        {
            proof {
                assert(secs.skip(i as int)[0] == self.sections@[i as int]@);
                assert(secs.skip(i as int).drop_first() =~= secs.skip(i + 1));
            }
            match &self.sections[i].data {
                SectionData::Labels(l) => {
                    return Some(l.as_slice());
                },
                _ => {},
            }
            i += 1;
        }
        proof {
            assert(secs.skip(i as int) =~= Seq::<SectionValue>::empty());
        }
        None
    }

    /// The messages from the first `TXT2` section, if present.
    pub fn messages(&self) -> (r: Option<&[Message]>)
        ensures
            match r {
                Some(m) => first_messages(sections_view(self.sections@)) == Some(messages_view(m@)),
                None => first_messages(sections_view(self.sections@)) is None,
            },
    {
        let ghost secs = sections_view(self.sections@);
        let mut i: usize = 0;
        proof {
            assert(secs.skip(0) =~= secs);
        }
        while i < self.sections.len()
            invariant
                i <= self.sections@.len(),
                secs == sections_view(self.sections@),
                first_messages(secs) == first_messages(secs.skip(i as int)),
            decreases self.sections@.len() - i,
        {
            proof {
                assert(secs.skip(i as int)[0] == self.sections@[i as int]@);
                assert(secs.skip(i as int).drop_first() =~= secs.skip(i + 1));
            }
            match &self.sections[i].data {
                SectionData::Text(t) => {
                    return Some(t.as_slice());
                },
                _ => {},
            }
            i += 1;
        }
        proof {
            assert(secs.skip(i as int) =~= Seq::<SectionValue>::empty());
        }
        None
    }

    /// Replace the message a label points at. Returns `false` if the label is
    /// unknown or its index is out of range (no change made).
    pub fn set_message_by_label(&mut self, label: &str, message: Message) -> (done: bool)
        ensures
            final(self).big_endian == old(self).big_endian,
            final(self).encoding == old(self).encoding,
            final(self).version == old(self).version,
            final(self).lbl1_groups == old(self).lbl1_groups,
            final(self).raw@ == old(self).raw@,
            ({
                let secs = sections_view(old(self).sections@);
                let target = match label_target_index(secs, label@) {
                    Some(idx) => match text_target(secs, idx as int) {
                        Some(k) => Some((k, idx as int)),
                        None => None,
                    },
                    None => None,
                };
                match target {
                    Some((k, idx)) => done && (secs[k].1 matches SectionModel::Text(ms) && sections_view(
                        final(self).sections@,
                    ) == secs.update(k, (secs[k].0, SectionModel::Text(ms.update(idx, message@))))),
                    None => !done && sections_view(final(self).sections@) == secs,
                }
            }),
    {
        let ghost secs = sections_view(self.sections@);
        let index: usize = match self.labels() {
            Some(ls) => {
                match find_label(ls, label) {
                    Some(i) => {
                        proof {
                            assert(first_labels(secs) == Some(labels_view(ls@)));
                            assert(first_label_index(labels_view(ls@), label@) == Some(ls@[i as int].index));
                        }
                        ls[i].index as usize
                    },
                    None => {
                        return false;
                    },
                }
            },
            None => {
                return false;
            },
        };
        let mut k: usize = 0;
        proof {
            assert(secs.skip(0) =~= secs);
        }
        while k < self.sections.len()
            invariant
                k <= self.sections@.len(),
                secs == sections_view(self.sections@),
                self.sections@ == old(self).sections@,
                self.big_endian == old(self).big_endian,
                self.encoding == old(self).encoding,
                self.version == old(self).version,
                self.lbl1_groups == old(self).lbl1_groups,
                self.raw@ == old(self).raw@,
                label_target_index(secs, label@) == Some(index as u32),
                index <= u32::MAX,
                text_target(secs, index as int) == match text_target(secs.skip(k as int), index as int) {
                    Some(j) => Some(j + k),
                    None => None::<int>,
                },
            decreases self.sections@.len() - k,
        {
            proof {
                assert(secs.skip(k as int)[0] == self.sections@[k as int]@);
                assert(secs.skip(k as int).drop_first() =~= secs.skip(k + 1));
            }
            let fits = match &self.sections[k].data {
                SectionData::Text(ms) => index < ms.len(),
                _ => false,
            };
            if fits {
                proof {
                    assert(text_target(secs.skip(k as int), index as int) == Some(0int));
                    assert(text_target(secs, index as int) == Some(k as int));
                }
                let sec = self.sections.remove(k);
                let magic = sec.magic;
                let ghost before = sec.data@;
                match sec.data {
                    SectionData::Text(mut ms) => {
                        let ghost mv = messages_view(ms@);
                        ms[index] = message;
                        proof {
                            assert(messages_view(ms@) =~= mv.update(index as int, message@));
                        }
                        self.sections.insert(k, Section { magic, data: SectionData::Text(ms) });
                    },
                    other => {
                        self.sections.insert(k, Section { magic, data: other });
                    },
                }
                proof {
                    assert(sections_view(self.sections@) =~= secs.update(
                        k as int,
                        (secs[k as int].0, SectionModel::Text(
                            match secs[k as int].1 {
                                SectionModel::Text(ms) => ms,
                                _ => Seq::empty(),
                            }.update(index as int, message@),
                        )),
                    ));
                }
                return true;
            }
            k += 1;
        }
        proof {
            assert(secs.skip(k as int) =~= Seq::<SectionValue>::empty());
        }
        false
    }

    /// Pair each label with the message it points at, sorted by label name
    /// (a stable sort by the names' bytes). Labels whose index is out of
    /// range are skipped.
    pub fn entries(&self) -> (r: Vec<(&str, &Message)>)
        ensures
            exists|order: Seq<usize>|
                #![trigger is_stable_order_bytes(pair_keys(doc_pairs(sections_view(self.sections@))), order)]
                is_stable_order_bytes(pair_keys(doc_pairs(sections_view(self.sections@))), order) && entries_view(r@)
                    == reorder(doc_pairs(sections_view(self.sections@)), order),
            entries_by_index(sections_view(self.sections@), entries_view(r@)),
    {
        let ghost ps = doc_pairs(sections_view(self.sections@));
        let mut pairs: Vec<(&str, &Message)> = Vec::new();
        match self.labels() {
            Some(labels) => match self.messages() {
                Some(messages) => {
                    let mut i: usize = 0;
                    while i < labels.len()
                        invariant
                            i <= labels@.len(),
                            entries_view(pairs@) == label_pairs(labels_view(labels@).take(i as int), messages_view(messages@)),
                        decreases labels@.len() - i,
                    {
                        let idx = labels[i].index as usize;
                        let ghost p0 = entries_view(pairs@);
                        proof {
                            assert(labels_view(labels@).take(i + 1).drop_last() =~= labels_view(labels@).take(i as int));
                            assert(labels_view(labels@).take(i + 1).last() == labels@[i as int]@);
                        }
                        if idx < messages.len() {
                            pairs.push((labels[i].name.as_str(), &messages[idx]));
                            proof {
                                assert(entries_view(pairs@) =~= p0.push((labels@[i as int].name@, messages@[idx as int]@)));
                            }
                        }
                        i += 1;
                    }
                    proof {
                        assert(labels_view(labels@).take(labels@.len() as int) =~= labels_view(labels@));
                    }
                },
                None => {},
            },
            None => {
                proof {
                    assert(entries_view(pairs@) =~= Seq::<(Seq<char>, Seq<u8>)>::empty());
                }
            },
        }
        assert(entries_view(pairs@) == ps);
        let mut keys: Vec<Vec<u8>> = Vec::new();
        let mut j: usize = 0;
        while j < pairs.len()
            invariant
                j <= pairs@.len(),
                entries_view(pairs@) == ps,
                bytes_view(keys@) == pair_keys(ps).take(j as int),
            decreases pairs@.len() - j,
        {
            assert(pair_keys(ps).len() == pairs@.len());
            assert(bytes_view(keys@).len() == j);
            assert(keys@.len() == j);
            let kb = copy_bytes(pairs[j].0.as_bytes());
            proof {
                assert(ps[j as int] == (pairs@[j as int].0@, pairs@[j as int].1@));
                assert(kb@ == encode_utf8(ps[j as int].0));
            }
            let ghost k0 = keys@;
            let ghost kbv = kb@;
            keys.push(kb);
            proof {
                assert(keys@ == k0.push(keys@[j as int]));
                assert(bytes_view(keys@).len() == j + 1);
                assert(bytes_view(keys@)[j as int] == kbv);
                assert(forall|i: int| 0 <= i < j ==> bytes_view(keys@)[i] == bytes_view(k0)[i]);
                assert(bytes_view(keys@) =~= pair_keys(ps).take(j + 1));
            }
            j += 1;
        }
        proof {
            assert(pair_keys(ps).take(pairs@.len() as int) =~= pair_keys(ps));
        }
        let order = stable_order_bytes(&keys);
        let mut out: Vec<(&str, &Message)> = Vec::new();
        let mut k: usize = 0;
        while k < order.len()
            invariant
                k <= order@.len(),
                entries_view(pairs@) == ps,
                is_stable_order_bytes(pair_keys(ps), order@),
                entries_view(out@) == reorder(ps, order@).take(k as int),
            decreases order@.len() - k,
        {
            proof {
                assert(pair_keys(ps).len() == pairs@.len());
                assert(order@[k as int] < pairs@.len());
                assert(reorder(ps, order@).len() == order@.len());
                assert(entries_view(out@).len() == k);
                assert(out@.len() == k);
            }
            let ghost o0 = out@;
            let e = pairs[order[k]];
            proof {
                assert(reorder(ps, order@)[k as int] == ps[order@[k as int] as int]);
                assert(ps[order@[k as int] as int] == (e.0@, e.1@));
            }
            out.push(e);
            proof {
                assert(out@ == o0.push(e));
                assert(entries_view(out@)[k as int] == (e.0@, e.1@));
                assert(entries_view(out@) =~= reorder(ps, order@).take(k + 1));
            }
            k += 1;
        }
        proof {
            assert(reorder(ps, order@).take(order@.len() as int) =~= reorder(ps, order@));
            lemma_entries_by_index(sections_view(self.sections@), order@, entries_view(out@));
        }
        out
    }
}

/// The position of the first label named `name`, if any.
fn find_label(ls: &[Label], name: &str) -> (r: Option<usize>)
    ensures
        match r {
            Some(i) => i < ls@.len() && first_label_index(labels_view(ls@), name@) == Some(ls@[i as int].index),
            None => first_label_index(labels_view(ls@), name@) is None,
        },
{
    let ghost lv = labels_view(ls@);
    let mut i: usize = 0;
    proof {
        assert(lv.skip(0) =~= lv);
    }
    while i < ls.len()
        invariant
            i <= ls@.len(),
            lv == labels_view(ls@),
            first_label_index(lv, name@) == first_label_index(lv.skip(i as int), name@),
        decreases ls@.len() - i,
    {
        proof {
            assert(lv.skip(i as int)[0] == ls@[i as int]@);
            assert(lv.skip(i as int).drop_first() =~= lv.skip(i + 1));
        }
        if str_equal(ls[i].name.as_str(), name) {
            return Some(i);
        }
        i += 1;
    }
    proof {
        assert(lv.skip(i as int) =~= Seq::<LabelModel>::empty());
    }
    None
}

} // verus!
