//! SARC writer with per-file alignment. Each file gets the alignment its
//! content requires instead of padding everything to `0x2000`.
use vstd::prelude::*;
use vstd::utf8::encode_utf8;

use super::read::sarc_magic;
use super::{entries_view, ArcEntry, ArcFile, EntryModel, SarcError, SFAT_HAS_NAME};
use crate::bytes::{
    lemma_u16_bytes_roundtrip, lemma_u32_bytes_roundtrip, push_slice, push_u16, push_u32, push_zeros,
    u16_bytes, u32_bytes,
};
use crate::order::{is_stable_order, reorder, stable_order};

verus! {

/// An entry as bytes: its name's UTF-8 encoding (if any) and its data.
pub type EntryBytes = (Option<Seq<u8>>, Seq<u8>);

/// The byte form of an entry model.
pub open spec fn entry_bytes(e: EntryModel) -> EntryBytes {
    (
        match e.0 {
            Some(c) => Some(encode_utf8(c)),
            None => None,
        },
        e.1,
    )
}

/// The byte form of a sequence of entry models.
pub open spec fn entries_bytes(s: Seq<EntryModel>) -> Seq<EntryBytes> {
    s.map_values(|e: EntryModel| entry_bytes(e))
}

/// The SFAT name hash: `h = h * 0x65 + byte` over the name's bytes, wrapping at 32 bits.
pub open spec fn spec_sarc_hash(s: Seq<u8>) -> u32
    decreases s.len(),
{
    if s.len() == 0 {
        0
    } else {
        vstd::wrapping::u32_specs::wrapping_add(
            vstd::wrapping::u32_specs::wrapping_mul(spec_sarc_hash(s.drop_last()), 0x65),
            s.last() as u32,
        )
    }
}

/// The SFAT key of an entry: its name hash, or 0 for a hash-only entry.
pub open spec fn entry_key(e: EntryBytes) -> u32 {
    match e.0 {
        Some(n) => spec_sarc_hash(n),
        None => 0,
    }
}

/// The SFAT keys of a sequence of entries.
pub open spec fn entry_keys(s: Seq<EntryBytes>) -> Seq<u32> {
    s.map_values(|e: EntryBytes| entry_key(e))
}

/// `Yaz0` as bytes.
pub open spec fn yaz0_magic() -> Seq<u8> {
    seq![0x59u8, 0x61u8, 0x7Au8, 0x30u8]
}

/// `Yaz1` as bytes.
pub open spec fn yaz1_magic() -> Seq<u8> {
    seq![0x59u8, 0x61u8, 0x7Au8, 0x31u8]
}

/// The alignment a file's data requires: `0x2000` for a nested SARC, `0x80`
/// for Yaz0/Yaz1, `1 << exponent` when a `nn::util::BinaryFileHeader`
/// byte-order mark sits at `0x0C` (exponent at `0x0E`, honored up to 13),
/// never below `0x08`, and clamped to `[0x08, 0x2000]`.
pub open spec fn spec_file_alignment(d: Seq<u8>) -> u32 {
    let magic_align: u32 = if d.len() >= 4 && d.subrange(0, 4) == sarc_magic() {
        0x2000
    } else if d.len() >= 4 && (d.subrange(0, 4) == yaz0_magic() || d.subrange(0, 4) == yaz1_magic()) {
        0x80
    } else {
        0x08
    };
    let has_header = d.len() > 0x20 && ((d[0x0C] == 0xFF && d[0x0D] == 0xFE) || (d[0x0C] == 0xFE
        && d[0x0D] == 0xFF)) && d[0x0E] <= 13;
    let a: u32 = if has_header && (1u32 << d[0x0E]) > magic_align {
        1u32 << d[0x0E]
    } else {
        magic_align
    };
    if a < 0x08 {
        0x08
    } else if a > 0x2000 {
        0x2000
    } else {
        a
    }
}

/// `v` rounded up to a multiple of `a` (of 1 when `a` is 0).
pub open spec fn spec_align_up(v: int, a: int) -> int {
    let a1 = if a < 1 {
        1
    } else {
        a
    };
    ((v + a1 - 1) / a1) * a1
}

/// `n` zero bytes.
pub open spec fn zeros(n: int) -> Seq<u8> {
    Seq::new(n as nat, |i: int| 0u8)
}

/// Zero bytes that pad a length of `x` to a multiple of 4.
pub open spec fn pad4(x: int) -> int {
    (4 - x % 4) % 4
}

/// The SFNT field of a name: its bytes, a NUL, then zero padding to a multiple of 4.
pub open spec fn name_field(n: Option<Seq<u8>>) -> Seq<u8> {
    match n {
        Some(s) => s.push(0) + zeros(pad4(s.len() + 1int)),
        None => Seq::empty(),
    }
}

/// The SFNT blob of the first `k` entries.
pub open spec fn names_blob(oe: Seq<EntryBytes>, k: int) -> Seq<u8>
    decreases k,
{
    if k <= 0 {
        Seq::empty()
    } else {
        names_blob(oe, k - 1) + name_field(oe[k - 1].0)
    }
}

/// The SFAT attributes of entry `k`: the has-name bit and the name's offset
/// in 4-byte units, or 0 for a hash-only entry.
pub open spec fn node_attrs(oe: Seq<EntryBytes>, k: int) -> u32 {
    if oe[k].0 is Some {
        SFAT_HAS_NAME | ((names_blob(oe, k).len() / 4) as u32)
    } else {
        0
    }
}

/// The alignment of entry `k`'s data.
pub open spec fn data_align(oe: Seq<EntryBytes>, k: int) -> u32 {
    spec_file_alignment(oe[k].1)
}

/// The end of the data of the first `k` entries, relative to the data section.
pub open spec fn data_cursor(oe: Seq<EntryBytes>, k: int) -> int
    decreases k,
{
    if k <= 0 {
        0
    } else {
        spec_align_up(data_cursor(oe, k - 1), data_align(oe, k - 1) as int) + oe[k - 1].1.len()
    }
}

/// The start of entry `k`'s data, relative to the data section.
pub open spec fn data_start(oe: Seq<EntryBytes>, k: int) -> int {
    spec_align_up(data_cursor(oe, k), data_align(oe, k) as int)
}

/// The largest alignment among the first `k` entries (at least `0x08`).
pub open spec fn max_align(oe: Seq<EntryBytes>, k: int) -> u32
    decreases k,
{
    if k <= 0 {
        0x08
    } else if data_align(oe, k - 1) > max_align(oe, k - 1) {
        data_align(oe, k - 1)
    } else {
        max_align(oe, k - 1)
    }
}

/// The length of everything before the data section.
pub open spec fn pre_data_len(oe: Seq<EntryBytes>) -> int {
    0x28 + 0x10 * (oe.len() as int) + (names_blob(oe, oe.len() as int).len() as int)
}

/// The offset of the data section.
pub open spec fn data_section_offset(oe: Seq<EntryBytes>) -> int {
    spec_align_up(pre_data_len(oe), max_align(oe, oe.len() as int) as int)
}

/// The 16-byte SFAT node of entry `k`.
pub open spec fn node_bytes(oe: Seq<EntryBytes>, k: int, be: bool) -> Seq<u8> {
    u32_bytes(entry_key(oe[k]), be) + u32_bytes(node_attrs(oe, k), be) + u32_bytes(
        data_start(oe, k) as u32,
        be,
    ) + u32_bytes((data_start(oe, k) + oe[k].1.len()) as u32, be)
}

/// The SFAT nodes of the first `k` entries.
pub open spec fn nodes_table(oe: Seq<EntryBytes>, k: int, be: bool) -> Seq<u8>
    decreases k,
{
    if k <= 0 {
        Seq::empty()
    } else {
        nodes_table(oe, k - 1, be) + node_bytes(oe, k - 1, be)
    }
}

/// The data section holding the first `k` entries, each at its aligned start.
pub open spec fn data_section(oe: Seq<EntryBytes>, k: int) -> Seq<u8>
    decreases k,
{
    if k <= 0 {
        Seq::empty()
    } else {
        data_section(oe, k - 1) + zeros(data_start(oe, k - 1) - data_cursor(oe, k - 1)) + oe[k
            - 1].1
    }
}

/// The 0x14-byte SARC header.
pub open spec fn sarc_header(oe: Seq<EntryBytes>, be: bool) -> Seq<u8> {
    sarc_magic() + u16_bytes(0x14, be) + u16_bytes(0xFEFF, be) + u32_bytes(
        (data_section_offset(oe) + data_cursor(oe, oe.len() as int)) as u32,
        be,
    ) + u32_bytes(data_section_offset(oe) as u32, be) + u16_bytes(0x0100, be) + u16_bytes(0, be)
}

/// `SFAT` as bytes.
pub open spec fn sfat_magic_bytes() -> Seq<u8> {
    seq![0x53u8, 0x46u8, 0x41u8, 0x54u8]
}

/// `SFNT` as bytes.
pub open spec fn sfnt_magic_bytes() -> Seq<u8> {
    seq![0x53u8, 0x46u8, 0x4Eu8, 0x54u8]
}

/// The archive that the writer emits for `oe` (entries already in SFAT
/// order): header, SFAT header and nodes, SFNT header and names, zero
/// padding up to the data offset, then the data section.
#[verifier::opaque]
pub open spec fn sarc_image(oe: Seq<EntryBytes>, be: bool) -> Seq<u8> {
    sarc_header(oe, be) + sfat_magic_bytes() + u16_bytes(0x0C, be) + u16_bytes(
        oe.len() as u16,
        be,
    ) + u32_bytes(0x65, be) + nodes_table(oe, oe.len() as int, be) + sfnt_magic_bytes()
        + u16_bytes(0x08, be) + u16_bytes(0, be) + names_blob(oe, oe.len() as int) + zeros(
        data_section_offset(oe) - pre_data_len(oe),
    ) + data_section(oe, oe.len() as int)
}

/// The weight an entry adds to the archive's size: name, data, and room for
/// the largest padding.
pub open spec fn entry_weight(e: EntryBytes) -> int {
    let name_len: int = match e.0 {
        Some(n) => n.len() + 4int,
        None => 0,
    };
    name_len + e.1.len() + 0x2010
}

/// The total weight of the entries.
pub open spec fn weight_sum(s: Seq<EntryBytes>) -> int
    decreases s.len(),
{
    if s.len() == 0 {
        0
    } else {
        weight_sum(s.drop_last()) + entry_weight(s.last())
    }
}

/// The entries fit in memory when written: four times their total weight,
/// and room for the fixed headers, stay within `usize`.
pub open spec fn sarc_writable(ev: Seq<EntryBytes>) -> bool {
    4 * weight_sum(ev) + 0x10000 <= usize::MAX
}

/// Taking one entry out of a list takes its weight out of the total.
proof fn lemma_weight_remove(t: Seq<EntryBytes>, j: int)
    requires
        0 <= j < t.len(),
    ensures
        weight_sum(t) == weight_sum(t.remove(j)) + entry_weight(t[j]),
    decreases t.len(),
{
    if j == t.len() - 1 {
        assert(t.remove(j) =~= t.drop_last());
    } else {
        lemma_weight_remove(t.drop_last(), j);
        assert(t.remove(j).drop_last() =~= t.drop_last().remove(j));
        assert(t.remove(j).last() == t.last());
    }
}

/// A total weight is never negative, and a prefix weighs no more.
proof fn lemma_weight_prefix(t: Seq<EntryBytes>, k: int)
    requires
        0 <= k <= t.len(),
    ensures
        0 <= weight_sum(t.take(k)) <= weight_sum(t),
        k < t.len() ==> weight_sum(t.take(k + 1)) == weight_sum(t.take(k)) + entry_weight(t[k]),
    decreases t.len(),
{
    if k < t.len() {
        assert(t.take(k + 1).drop_last() =~= t.take(k));
    }
    if t.len() > 0 {
        if k == t.len() {
            assert(t.take(k) =~= t);
            lemma_weight_prefix(t.drop_last(), k - 1);
            assert(t.drop_last().take(k - 1) =~= t.drop_last());
        } else {
            lemma_weight_prefix(t.drop_last(), k);
            assert(t.drop_last().take(k) =~= t.take(k));
        }
    } else {
        assert(t.take(k) =~= t);
    }
}

/// Entries picked at distinct indices below `m` weigh no more than the
/// first `m` entries.
proof fn lemma_weight_pick(s: Seq<EntryBytes>, p: Seq<usize>, m: int)
    requires
        0 <= m <= s.len(),
        forall|a: int| 0 <= a < p.len() ==> (#[trigger] p[a]) < m,
        forall|a: int, b: int| 0 <= a < b < p.len() ==> p[a] != p[b],
    ensures
        weight_sum(reorder(s, p)) <= weight_sum(s.take(m)),
    decreases m, p.len(),
{
    lemma_weight_prefix(s, m);
    if m == 0 {
        if p.len() > 0 {
            assert(p[0] < 0);
        }
        assert(reorder(s, p) =~= Seq::<EntryBytes>::empty());
    } else if exists|j: int| 0 <= j < p.len() && p[j] == m - 1 {
        let j = choose|j: int| 0 <= j < p.len() && p[j] == m - 1;
        let q = p.remove(j);
        assert(reorder(s, q) =~= reorder(s, p).remove(j));
        lemma_weight_remove(reorder(s, p), j);
        assert forall|a: int| 0 <= a < q.len() implies (#[trigger] q[a]) < m - 1 by {
            if a < j {
                assert(q[a] == p[a]);
                assert(p[a] != p[j]);
            } else {
                assert(q[a] == p[a + 1]);
                assert(p[j] != p[a + 1]);
            }
        }
        assert forall|a: int, b: int| 0 <= a < b < q.len() implies q[a] != q[b] by {
            let a2 = if a < j { a } else { a + 1 };
            let b2 = if b < j { b } else { b + 1 };
            assert(q[a] == p[a2] && q[b] == p[b2] && a2 < b2);
        }
        lemma_weight_pick(s, q, m - 1);
        lemma_weight_prefix(s, m - 1);
    } else {
        assert forall|a: int| 0 <= a < p.len() implies (#[trigger] p[a]) < m - 1 by {
            assert(p[a] != m - 1);
        }
        lemma_weight_pick(s, p, m - 1);
        lemma_weight_prefix(s, m - 1);
        assert(entry_weight(s[m - 1]) >= 0);
    }
}

/// SFAT name hash (the standard SARC multiply-add hash with key `0x65`).
pub fn sarc_hash(name: &str) -> (h: u32)
    ensures
        h == spec_sarc_hash(encode_utf8(name@)),
{
    let b = name.as_bytes();
    let mut h: u32 = 0;
    let mut i: usize = 0;
    while i < b.len()
        invariant
            i <= b@.len(),
            b@ == encode_utf8(name@),
            h == spec_sarc_hash(b@.subrange(0, i as int)),
        decreases b@.len() - i,
    {
        proof {
            assert(b@.subrange(0, i + 1).drop_last() =~= b@.subrange(0, i as int));
        }
        h = h.wrapping_mul(0x65).wrapping_add(b[i] as u32);
        i += 1;
    }
    proof {
        assert(b@.subrange(0, b@.len() as int) =~= b@);
    }
    h
}

/// `value` rounded up to a multiple of `align` (of 1 when `align` is 0).
fn align_up(value: usize, align: usize) -> (r: usize)
    requires
        value + align + 1 <= usize::MAX,
    ensures
        r == spec_align_up(value as int, align as int),
        value <= r < value + (if align < 1 {
            1
        } else {
            align as int
        }),
{
    let a = if align < 1 {
        1
    } else {
        align
    };
    let q = (value + a - 1) / a;
    proof {
        lemma_align_up_bounds(value as int, a as int);
    }
    q * a
}

/// `spec_align_up(v, a)` is the least multiple of `a` that is at least `v`.
pub proof fn lemma_align_up_bounds(v: int, a: int)
    requires
        v >= 0,
        a >= 1,
    ensures
        v <= spec_align_up(v, a) < v + a,
        spec_align_up(v, a) % a == 0,
        ((v + a - 1) / a) * a == spec_align_up(v, a),
{
    let q = (v + a - 1) / a;
    let r = (v + a - 1) % a;
    assert(v + a - 1 == q * a + r) by (nonlinear_arith)
        requires
            a >= 1,
            q == (v + a - 1) / a,
            r == (v + a - 1) % a,
    ;
    assert(0 <= r < a) by (nonlinear_arith)
        requires
            a >= 1,
            r == (v + a - 1) % a,
    ;
    assert((q * a) % a == 0) by (nonlinear_arith)
        requires
            a >= 1,
    ;
}

/// Derive the data alignment a file requires from its content (see
/// [`spec_file_alignment`]).
pub fn file_alignment(data: &[u8]) -> (a: u32)
    ensures
        a == spec_file_alignment(data@),
        0x08 <= a <= 0x2000,
{
    let len = data.len();
    let magic_align: u32 = if crate::bytes::magic4_at(data, 0, 0x53, 0x41, 0x52, 0x43) {
        0x2000
    } else if crate::bytes::magic4_at(data, 0, 0x59, 0x61, 0x7A, 0x30)
        || crate::bytes::magic4_at(data, 0, 0x59, 0x61, 0x7A, 0x31) {
        0x80
    } else {
        0x08
    };
    proof {
        if len >= 4 {
            assert(data@.subrange(0, 0int + 4) =~= data@.subrange(0, 4));
        }
    }
    let mut a = magic_align;
    if len > 0x20 {
        let b0 = data[0x0C];
        let b1 = data[0x0D];
        let has_bom = (b0 == 0xFF && b1 == 0xFE) || (b0 == 0xFE && b1 == 0xFF);
        if has_bom {
            let exponent = data[0x0E];
            if exponent <= 13 {
                let p = 1u32 << exponent;
                if p > a {
                    a = p;
                }
            }
        }
    }
    if a < 0x08 {
        0x08
    } else if a > 0x2000 {
        0x2000
    } else {
        a
    }
}

/// Serialize an [`ArcFile`] back to SARC bytes via [`write_sarc`].
pub fn write_arc(arc: &ArcFile) -> (r: Result<Vec<u8>, SarcError>)
    requires
        sarc_writable(entries_bytes(entries_view(arc.files@))),
    ensures
        match r {
            Ok(out) => sarc_written(out@, entries_view(arc.files@), arc.big_endian),
            Err(_) => false,
        },
{
    write_sarc(arc.files.as_slice(), arc.big_endian)
}

/// `out` is what the writer emits for `entries`: the archive image of the
/// entries stably sorted by SFAT key.
pub open spec fn sarc_written(out: Seq<u8>, entries: Seq<EntryModel>, be: bool) -> bool {
    exists|order: Seq<usize>|
        #![trigger is_stable_order(entry_keys(entries_bytes(entries)), order)]
        is_stable_order(entry_keys(entries_bytes(entries)), order) && out == sarc_image(
            reorder(entries_bytes(entries), order),
            be,
        )
}

/// Serialize SARC entries to an archive, giving each file the alignment
/// [`file_alignment`] derives. The SFAT is sorted by name hash (stable, so
/// hash-only entries keep their input order); hash-only entries are kept
/// with attrs `0`.
pub fn write_sarc(entries: &[ArcEntry], big_endian: bool) -> (r: Result<Vec<u8>, SarcError>)
    requires
        sarc_writable(entries_bytes(entries_view(entries@))),
    ensures
        match r {
            Ok(out) => sarc_written(out@, entries_view(entries@), big_endian),
            Err(_) => false,
        },
{
    let ghost ev = entries_bytes(entries_view(entries@));
    let n = entries.len();
    let mut keys: Vec<u32> = Vec::new();
    let mut i: usize = 0;
    while i < n
        invariant
            i <= n,
            n == entries@.len(),
            ev == entries_bytes(entries_view(entries@)),
            keys@ == entry_keys(ev).subrange(0, i as int),
        decreases n - i,
    {
        let k = match &entries[i].name {
            Some(s) => sarc_hash(s.as_str()),
            None => 0,
        };
        keys.push(k);
        proof {
            assert(keys@ =~= entry_keys(ev).subrange(0, i + 1));
        }
        i += 1;
    }
    proof {
        assert(keys@ =~= entry_keys(ev));
    }
    let order = stable_order(&keys);
    let ghost oe = reorder(ev, order@);
    let out = write_ordered(entries, &order, Ghost(oe), big_endian);
    proof {
        assert(is_stable_order(entry_keys(ev), order@));
    }
    Ok(out)
}

/// The SFNT blob's length is a multiple of 4.
proof fn lemma_names_blob_aligned(oe: Seq<EntryBytes>, k: int)
    ensures
        names_blob(oe, k).len() % 4 == 0,
    decreases k,
{
    if k > 0 {
        lemma_names_blob_aligned(oe, k - 1);
        match oe[k - 1].0 {
            Some(s) => {
                assert(name_field(oe[k - 1].0).len() == s.len() + 1 + pad4(s.len() + 1int));
            },
            None => {},
        }
    }
}

/// The data section of the first `k` entries ends at their data cursor.
proof fn lemma_data_section_len(oe: Seq<EntryBytes>, k: int)
    requires
        0 <= k,
    ensures
        data_section(oe, k).len() == data_cursor(oe, k),
        data_cursor(oe, k) >= 0,
    decreases k,
{
    if k > 0 {
        lemma_data_section_len(oe, k - 1);
        lemma_align_up_bounds(data_cursor(oe, k - 1), data_align(oe, k - 1) as int);
    }
}

/// Every entry weighs at least 0x2010.
proof fn lemma_weight_floor(t: Seq<EntryBytes>)
    ensures
        weight_sum(t) >= 0x2010 * t.len(),
    decreases t.len(),
{
    if t.len() > 0 {
        lemma_weight_floor(t.drop_last());
    }
}

/// The facts about the SFAT-ordered entries that the writer's steps share.
pub open spec fn ordered_entries(entries: Seq<ArcEntry>, order: Seq<usize>, oe: Seq<EntryBytes>) -> bool {
    &&& oe.len() == entries.len()
    &&& order.len() == entries.len()
    &&& forall|j: int| 0 <= j < order.len() ==> order[j] < entries.len()
    &&& forall|j: int| 0 <= j < oe.len() ==> #[trigger] oe[j] == entry_bytes(entries[order[j] as int]@)
    &&& 4 * weight_sum(oe) + 0x10000 <= usize::MAX
}

/// Every file alignment lies in `[0x08, 0x2000]`.
proof fn lemma_file_alignment_range(d: Seq<u8>)
    ensures
        0x08 <= spec_file_alignment(d) <= 0x2000,
{
}

/// Build the SFNT blob (names in SFAT order) and each node's name offset in 4-byte units.
#[verifier::spinoff_prover]
#[verifier::rlimit(50)]
fn build_names(entries: &[ArcEntry], order: &Vec<usize>, Ghost(oe): Ghost<Seq<EntryBytes>>) -> (r: (
    Vec<u8>,
    Vec<u32>,
))
    requires
        ordered_entries(entries@, order@, oe),
    ensures
        r.0@ == names_blob(oe, oe.len() as int),
        r.0@.len() <= weight_sum(oe),
        r.1@.len() == oe.len(),
        forall|j: int| 0 <= j < oe.len() ==> r.1@[j] == (names_blob(oe, j).len() / 4) as u32,
{
    let n = entries.len();
    let mut names: Vec<u8> = Vec::new();
    let mut units: Vec<u32> = Vec::new();
    let mut k: usize = 0;
    while k < n
        invariant
            k <= n,
            n == entries@.len(),
            ordered_entries(entries@, order@, oe),
            names@ == names_blob(oe, k as int),
            names@.len() <= weight_sum(oe.take(k as int)),
            units@.len() == k,
            forall|j: int| 0 <= j < k ==> units@[j] == (names_blob(oe, j).len() / 4) as u32,
        decreases n - k,
    {
        proof {
            lemma_weight_prefix(oe, k as int);
            lemma_weight_prefix(oe, k as int + 1);
            lemma_names_blob_aligned(oe, k as int);
        }
        let i = order[k];
        units.push((names.len() / 4) as u32);
        match &entries[i].name {
            Some(name) => {
                let nb = name.as_str().as_bytes();
                let ghost before = names@;
                push_slice(&mut names, nb);
                names.push(0u8);
                let pad = (4 - names.len() % 4) % 4;
                push_zeros(&mut names, pad);
                proof {
                    assert(oe[k as int].0 == Some(nb@));
                    assert(names@ =~= before + name_field(oe[k as int].0));
                }
            },
            None => {
                proof {
                    assert(names@ =~= names@ + name_field(oe[k as int].0));
                }
            },
        }
        k += 1;
    }
    proof {
        lemma_weight_prefix(oe, n as int);
        assert(oe.take(n as int) =~= oe);
    }
    (names, units)
}

/// Each node's data alignment, and the largest of them.
fn build_aligns(entries: &[ArcEntry], order: &Vec<usize>, Ghost(oe): Ghost<Seq<EntryBytes>>) -> (r: (
    Vec<u32>,
    u32,
))
    requires
        ordered_entries(entries@, order@, oe),
    ensures
        r.0@.len() == oe.len(),
        forall|j: int| 0 <= j < oe.len() ==> r.0@[j] == data_align(oe, j) && r.0@[j] <= 0x2000,
        r.1 == max_align(oe, oe.len() as int),
        0x08 <= r.1 <= 0x2000,
{
    let n = entries.len();
    let mut aligns: Vec<u32> = Vec::new();
    let mut max_alignment: u32 = 0x08;
    let mut k: usize = 0;
    while k < n
        invariant
            k <= n,
            n == entries@.len(),
            ordered_entries(entries@, order@, oe),
            aligns@.len() == k,
            forall|j: int| 0 <= j < k ==> aligns@[j] == data_align(oe, j) && aligns@[j] <= 0x2000,
            max_alignment == max_align(oe, k as int),
            0x08 <= max_alignment <= 0x2000,
        decreases n - k,
    {
        let a = file_alignment(entries[order[k]].data.as_slice());
        assert(oe[k as int] == entry_bytes(entries@[order@[k as int] as int]@));
        aligns.push(a);
        if a > max_alignment {
            max_alignment = a;
        }
        k += 1;
    }
    (aligns, max_alignment)
}

/// Each node's data start, and the end of the data section.
fn build_starts(
    entries: &[ArcEntry],
    order: &Vec<usize>,
    Ghost(oe): Ghost<Seq<EntryBytes>>,
    aligns: &Vec<u32>,
) -> (r: (Vec<usize>, usize))
    requires
        ordered_entries(entries@, order@, oe),
        aligns@.len() == oe.len(),
        forall|j: int| 0 <= j < oe.len() ==> #[trigger] aligns@[j] == data_align(oe, j) && aligns@[j] <= 0x2000,
    ensures
        r.0@.len() == oe.len(),
        forall|j: int| 0 <= j < oe.len() ==> r.0@[j] == data_start(oe, j),
        r.1 == data_cursor(oe, oe.len() as int),
        r.1 <= weight_sum(oe),
        forall|j: int| 0 <= j < oe.len() ==> r.0@[j] + oe[j].1.len() <= r.1,
{
    let n = entries.len();
    assert(n == oe.len());
    let mut starts: Vec<usize> = Vec::new();
    let mut cursor: usize = 0;
    let mut k: usize = 0;
    while k < n
        invariant
            k <= n,
            n == entries@.len(),
            ordered_entries(entries@, order@, oe),
            aligns@.len() == n,
            forall|j: int| 0 <= j < n ==> #[trigger] aligns@[j] == data_align(oe, j) && aligns@[j] <= 0x2000,
            cursor == data_cursor(oe, k as int),
            cursor <= weight_sum(oe.take(k as int)),
            starts@.len() == k,
            forall|j: int| 0 <= j < k ==> starts@[j] == data_start(oe, j),
            forall|j: int| 0 <= j < k ==> starts@[j] + oe[j].1.len() <= cursor,
        decreases n - k,
    {
        proof {
            lemma_weight_prefix(oe, k as int);
            lemma_weight_prefix(oe, k as int + 1);
        }
        let len = entries[order[k]].data.len();
        assert(len == oe[k as int].1.len());
        assert(aligns@[k as int] <= 0x2000);
        let start = align_up(cursor, aligns[k] as usize);
        starts.push(start);
        cursor = start + len;
        k += 1;
    }
    proof {
        lemma_weight_prefix(oe, n as int);
        assert(oe.take(n as int) =~= oe);
    }
    (starts, cursor)
}

/// Emit the archive for `entries` listed in SFAT order by `order`.
fn write_ordered(
    entries: &[ArcEntry],
    order: &Vec<usize>,
    Ghost(oe): Ghost<Seq<EntryBytes>>,
    big_endian: bool,
) -> (out: Vec<u8>)
    requires
        sarc_writable(entries_bytes(entries_view(entries@))),
        is_stable_order(entry_keys(entries_bytes(entries_view(entries@))), order@),
        oe == reorder(entries_bytes(entries_view(entries@)), order@),
    ensures
        out@ == sarc_image(oe, big_endian),
{
    let ghost ev = entries_bytes(entries_view(entries@));
    let n = entries.len();
    proof {
        lemma_weight_pick(ev, order@, n as int);
        assert(ev.take(n as int) =~= ev);
    }
    assert forall|k: int| 0 <= k < n implies #[trigger] oe[k] == entry_bytes(entries@[order@[k] as int]@) by {
        assert(order@[k] < n);
    }
    assert(ordered_entries(entries@, order@, oe));
    let (names, units) = build_names(entries, order, Ghost(oe));
    let (aligns, max_alignment) = build_aligns(entries, order, Ghost(oe));
    let (starts, cursor) = build_starts(entries, order, Ghost(oe), &aligns);
    proof {
        lemma_weight_floor(oe);
    }
    let pre_data = 0x28 + 16 * n + names.len();
    let data_offset = align_up(pre_data, max_alignment as usize);
    let file_size = data_offset + cursor;
    emit_sarc(
        entries,
        order,
        Ghost(oe),
        big_endian,
        &names,
        &units,
        &starts,
        data_offset,
        file_size,
    )
}

/// Emit the header, the SFAT and the SFNT once the layout is known.
fn emit_tables(
    entries: &[ArcEntry],
    order: &Vec<usize>,
    Ghost(oe): Ghost<Seq<EntryBytes>>,
    big_endian: bool,
    names: &Vec<u8>,
    units: &Vec<u32>,
    starts: &Vec<usize>,
    data_offset: usize,
    file_size: usize,
) -> (out: Vec<u8>)
    requires
        ordered_entries(entries@, order@, oe),
        names@ == names_blob(oe, oe.len() as int),
        units@.len() == oe.len(),
        forall|j: int| 0 <= j < oe.len() ==> units@[j] == (names_blob(oe, j).len() / 4) as u32,
        starts@.len() == oe.len(),
        forall|j: int| 0 <= j < oe.len() ==> starts@[j] == data_start(oe, j),
        forall|j: int| 0 <= j < oe.len() ==> starts@[j] + oe[j].1.len() <= data_cursor(
            oe,
            oe.len() as int,
        ),
        data_offset == data_section_offset(oe),
        file_size == data_offset + data_cursor(oe, oe.len() as int),
    ensures
        out@ == sfnt_end_image(oe, big_endian),
        out@.len() == pre_data_len(oe),
{
    let n = entries.len();
    let mut out = emit_head(Ghost(oe), big_endian, n, data_offset, file_size);
    let ghost head = sarc_header(oe, big_endian) + sfat_magic_bytes() + u16_bytes(0x0C, big_endian)
        + u16_bytes(oe.len() as u16, big_endian) + u32_bytes(0x65, big_endian);
    let mut k: usize = 0;
    while k < n
        invariant
            k <= n,
            n == entries@.len(),
            ordered_entries(entries@, order@, oe),
            units@.len() == n,
            forall|j: int| 0 <= j < n ==> units@[j] == (names_blob(oe, j).len() / 4) as u32,
            starts@.len() == n,
            forall|j: int| 0 <= j < n ==> starts@[j] == data_start(oe, j),
            forall|j: int| 0 <= j < n ==> starts@[j] + oe[j].1.len() <= data_cursor(oe, n as int),
            data_cursor(oe, n as int) <= file_size,
            out@ == head + nodes_table(oe, k as int, big_endian),
        decreases n - k,
    {
        let i = order[k];
        let e = &entries[i];
        let (hash, attrs) = match &e.name {
            Some(name) => (sarc_hash(name.as_str()), SFAT_HAS_NAME | units[k]),
            None => (0u32, 0u32),
        };
        let start = starts[k];
        let end = start + e.data.len();
        proof {
            assert(oe[k as int] == entry_bytes(entries@[i as int]@));
            assert(hash == entry_key(oe[k as int]));
            assert(attrs == node_attrs(oe, k as int));
            assert(start as u32 == data_start(oe, k as int) as u32);
            assert(end as u32 == (data_start(oe, k as int) + oe[k as int].1.len()) as u32);
        }
        push_node(&mut out, hash, attrs, start as u32, end as u32, big_endian);
        proof {
            assert(u32_bytes(hash, big_endian) + u32_bytes(attrs, big_endian) + u32_bytes(start as u32, big_endian)
                + u32_bytes(end as u32, big_endian) == node_bytes(oe, k as int, big_endian));
            assert(nodes_table(oe, k + 1, big_endian) == nodes_table(oe, k as int, big_endian) + node_bytes(oe, k as int, big_endian));
            assert(out@ =~= head + nodes_table(oe, k + 1, big_endian));
        }
        k += 1;
    }

    push_sfnt(&mut out, names, big_endian);
    proof {
        reveal(sfnt_end_image);
        assert(out@ =~= sfnt_end_image(oe, big_endian));
        lemma_sfnt_end_len(oe, big_endian);
    }
    out
}

/// Emit the SARC header and the SFAT header.
fn emit_head(Ghost(oe): Ghost<Seq<EntryBytes>>, big_endian: bool, n: usize, data_offset: usize, file_size: usize) -> (out: Vec<u8>)
    requires
        n == oe.len(),
        data_offset == data_section_offset(oe),
        file_size == data_offset + data_cursor(oe, oe.len() as int),
    ensures
        out@ == sarc_header(oe, big_endian) + sfat_magic_bytes() + u16_bytes(0x0C, big_endian)
            + u16_bytes(oe.len() as u16, big_endian) + u32_bytes(0x65, big_endian),
{
    let mut out: Vec<u8> = Vec::new();
    out.push(0x53u8);
    out.push(0x41u8);
    out.push(0x52u8);
    out.push(0x43u8);
    push_u16(&mut out, 0x14, big_endian);
    push_u16(&mut out, 0xFEFF, big_endian);
    push_u32(&mut out, file_size as u32, big_endian);
    push_u32(&mut out, data_offset as u32, big_endian);
    push_u16(&mut out, 0x0100, big_endian);
    push_u16(&mut out, 0, big_endian);
    proof {
        assert(out@ =~= sarc_header(oe, big_endian));
    }
    let ghost h = out@;
    out.push(0x53u8);
    out.push(0x46u8);
    out.push(0x41u8);
    out.push(0x54u8);
    push_u16(&mut out, 0x0C, big_endian);
    push_u16(&mut out, n as u16, big_endian);
    push_u32(&mut out, 0x65, big_endian);
    proof {
        assert(out@ =~= h + sfat_magic_bytes() + u16_bytes(0x0C, big_endian) + u16_bytes(
            oe.len() as u16,
            big_endian,
        ) + u32_bytes(0x65, big_endian));
    }
    out
}

/// Append the SFNT header and the name blob.
fn push_sfnt(out: &mut Vec<u8>, names: &Vec<u8>, be: bool)
    ensures
        final(out)@ == old(out)@ + sfnt_magic_bytes() + u16_bytes(0x08, be) + u16_bytes(0, be) + names@,
{
    out.push(0x53u8);
    out.push(0x46u8);
    out.push(0x4Eu8);
    out.push(0x54u8);
    push_u16(out, 0x08, be);
    push_u16(out, 0, be);
    push_slice(out, names.as_slice());
    assert(final(out)@ =~= old(out)@ + sfnt_magic_bytes() + u16_bytes(0x08, be) + u16_bytes(0, be) + names@);
}

/// The part before the data section is `pre_data_len` bytes long.
pub proof fn lemma_sfnt_end_len(oe: Seq<EntryBytes>, be: bool)
    ensures
        sfnt_end_image(oe, be).len() == pre_data_len(oe),
{
    lemma_nodes_table_len(oe, oe.len() as int, be);
    lemma_u16_bytes_roundtrip(0x0C, be);
    lemma_u16_bytes_roundtrip(0x08, be);
    lemma_u16_bytes_roundtrip(0, be);
    lemma_u16_bytes_roundtrip(0x14, be);
    lemma_u16_bytes_roundtrip(0xFEFF, be);
    lemma_u16_bytes_roundtrip(0x0100, be);
    lemma_u16_bytes_roundtrip(oe.len() as u16, be);
    lemma_u32_bytes_roundtrip(0x65, be);
    lemma_u32_bytes_roundtrip((data_section_offset(oe) + data_cursor(oe, oe.len() as int)) as u32, be);
    lemma_u32_bytes_roundtrip(data_section_offset(oe) as u32, be);
    assert(sarc_header(oe, be).len() == 0x14);
    assert(sfat_magic_bytes().len() == 4);
    assert(sfnt_magic_bytes().len() == 4);
    let a = sarc_header(oe, be) + sfat_magic_bytes() + u16_bytes(0x0C, be) + u16_bytes(oe.len() as u16, be)
        + u32_bytes(0x65, be);
    assert(a.len() == 0x20);
    let b = a + nodes_table(oe, oe.len() as int, be);
    assert(b.len() == 0x20 + 16 * oe.len());
    let c = b + sfnt_magic_bytes() + u16_bytes(0x08, be) + u16_bytes(0, be);
    assert(c.len() == 0x28 + 16 * oe.len());
    reveal(sfnt_end_image);
    assert(sfnt_end_image(oe, be) == c + names_blob(oe, oe.len() as int));
}

/// The image is the tables, then zero padding up to the data offset, then the data section.
pub proof fn lemma_image_split(oe: Seq<EntryBytes>, be: bool)
    ensures
        sarc_image(oe, be) == sfnt_end_image(oe, be) + zeros(data_section_offset(oe) - pre_data_len(oe))
            + data_section(oe, oe.len() as int),
{
    reveal(sarc_image);
    reveal(sfnt_end_image);
}

/// Append one SFAT node: hash, attributes, data start and data end.
fn push_node(out: &mut Vec<u8>, hash: u32, attrs: u32, start: u32, end: u32, be: bool)
    ensures
        final(out)@ == old(out)@ + (u32_bytes(hash, be) + u32_bytes(attrs, be) + u32_bytes(start, be)
            + u32_bytes(end, be)),
{
    push_u32(out, hash, be);
    push_u32(out, attrs, be);
    push_u32(out, start, be);
    push_u32(out, end, be);
    assert(final(out)@ =~= old(out)@ + (u32_bytes(hash, be) + u32_bytes(attrs, be) + u32_bytes(start, be)
        + u32_bytes(end, be)));
}

/// Everything the writer emits before the data-section padding.
#[verifier::opaque]
pub open spec fn sfnt_end_image(oe: Seq<EntryBytes>, be: bool) -> Seq<u8> {
    sarc_header(oe, be) + sfat_magic_bytes() + u16_bytes(0x0C, be) + u16_bytes(oe.len() as u16, be)
        + u32_bytes(0x65, be) + nodes_table(oe, oe.len() as int, be) + sfnt_magic_bytes() + u16_bytes(
        0x08,
        be,
    ) + u16_bytes(0, be) + names_blob(oe, oe.len() as int)
}

/// Emit the header, tables, names and data once the layout is known.
fn emit_sarc(
    entries: &[ArcEntry],
    order: &Vec<usize>,
    Ghost(oe): Ghost<Seq<EntryBytes>>,
    big_endian: bool,
    names: &Vec<u8>,
    units: &Vec<u32>,
    starts: &Vec<usize>,
    data_offset: usize,
    file_size: usize,
) -> (out: Vec<u8>)
    requires
        ordered_entries(entries@, order@, oe),
        names@ == names_blob(oe, oe.len() as int),
        units@.len() == oe.len(),
        forall|j: int| 0 <= j < oe.len() ==> units@[j] == (names_blob(oe, j).len() / 4) as u32,
        starts@.len() == oe.len(),
        forall|j: int| 0 <= j < oe.len() ==> starts@[j] == data_start(oe, j),
        forall|j: int| 0 <= j < oe.len() ==> starts@[j] + oe[j].1.len() <= data_cursor(
            oe,
            oe.len() as int,
        ),
        data_offset == data_section_offset(oe),
        file_size == data_offset + data_cursor(oe, oe.len() as int),
    ensures
        out@ == sarc_image(oe, big_endian),
{
    let mut out = emit_tables(
        entries,
        order,
        Ghost(oe),
        big_endian,
        names,
        units,
        starts,
        data_offset,
        file_size,
    );
    proof {
        lemma_align_up_bounds(pre_data_len(oe), max_align(oe, oe.len() as int) as int);
    }
    let cur = out.len();
    push_zeros(&mut out, data_offset - cur);
    let ghost pre2 = sfnt_end_image(oe, big_endian) + zeros(data_offset - pre_data_len(oe));
    proof {
        assert(out@ =~= pre2);
    }
    emit_data(entries, order, Ghost(oe), &mut out, starts, data_offset, file_size);
    proof {
        lemma_image_split(oe, big_endian);
        assert(out@ =~= sarc_image(oe, big_endian));
    }
    out
}

/// Append the data section: each entry's data at its aligned start.
fn emit_data(
    entries: &[ArcEntry],
    order: &Vec<usize>,
    Ghost(oe): Ghost<Seq<EntryBytes>>,
    out: &mut Vec<u8>,
    starts: &Vec<usize>,
    data_offset: usize,
    file_size: usize,
)
    requires
        ordered_entries(entries@, order@, oe),
        starts@.len() == oe.len(),
        forall|j: int| 0 <= j < oe.len() ==> starts@[j] == data_start(oe, j),
        forall|j: int| 0 <= j < oe.len() ==> starts@[j] + oe[j].1.len() <= data_cursor(
            oe,
            oe.len() as int,
        ),
        old(out)@.len() == data_offset,
        file_size == data_offset + data_cursor(oe, oe.len() as int),
    ensures
        final(out)@ == old(out)@ + data_section(oe, oe.len() as int),
{
    let n = entries.len();
    let ghost pre2 = out@;
    proof {
        assert(out@ =~= pre2 + data_section(oe, 0));
    }
    let mut k: usize = 0;
    while k < n
        invariant
            k <= n,
            n == entries@.len(),
            ordered_entries(entries@, order@, oe),
            starts@.len() == n,
            forall|j: int| 0 <= j < n ==> starts@[j] == data_start(oe, j),
            forall|j: int| 0 <= j < n ==> starts@[j] + oe[j].1.len() <= data_cursor(oe, n as int),
            pre2.len() == data_offset,
            data_offset + data_cursor(oe, n as int) == file_size,
            out@ == pre2 + data_section(oe, k as int),
        decreases n - k,
    {
        proof {
            lemma_data_section_len(oe, k as int);
            lemma_file_alignment_range(oe[k as int].1);
            lemma_align_up_bounds(data_cursor(oe, k as int), data_align(oe, k as int) as int);
        }
        let i = order[k];
        let d = entries[i].data.as_slice();
        let target = data_offset + starts[k];
        let cur = out.len();
        assert(cur == data_offset + data_cursor(oe, k as int));
        assert(starts@[k as int] == data_start(oe, k as int));
        assert(data_start(oe, k as int) >= data_cursor(oe, k as int));
        push_zeros(out, target - cur);
        push_slice(out, d);
        proof {
            assert(oe[k as int] == entry_bytes(entries@[i as int]@));
            assert(out@ =~= pre2 + data_section(oe, k + 1));
        }
        k += 1;
    }
}

/// The SFAT node table of `k` entries is `16 * k` bytes.
proof fn lemma_nodes_table_len(oe: Seq<EntryBytes>, k: int, be: bool)
    requires
        k >= 0,
    ensures
        nodes_table(oe, k, be).len() == 16 * k,
    decreases k,
{
    if k > 0 {
        lemma_nodes_table_len(oe, k - 1, be);
    }
}

/// The data cursor only grows.
proof fn lemma_data_cursor_mono(oe: Seq<EntryBytes>, k1: int, k2: int)
    requires
        0 <= k1 <= k2,
    ensures
        data_cursor(oe, k1) <= data_cursor(oe, k2),
    decreases k2 - k1,
{
    if k1 < k2 {
        lemma_data_cursor_mono(oe, k1, k2 - 1);
        lemma_data_section_len(oe, k2 - 1);
        lemma_align_up_bounds(data_cursor(oe, k2 - 1), data_align(oe, k2 - 1) as int);
    }
}

} // verus!
