//! What reading an archive gives back of what writing it stored.
use vstd::prelude::*;
use vstd::utf8::{decode_utf8, encode_utf8, valid_utf8};

use super::read::{
    first_nul_from, has_nul_from, is_first_nul, node_off, sarc_magic, sfat_magic, sfnt_magic,
    spec_c_string, spec_node, spec_nodes, spec_parse_sarc,
};
use super::write::{
    sarc_written,
    data_align, data_cursor, data_section, data_section_offset, data_start, entries_bytes,
    entry_bytes, entry_keys, lemma_align_up_bounds, lemma_image_split, lemma_sfnt_end_len, max_align, name_field, names_blob, node_attrs,
    node_bytes, nodes_table, pad4, pre_data_len, sarc_header, sarc_image, sfat_magic_bytes,
    sfnt_end_image, sfnt_magic_bytes, spec_file_alignment, zeros, EntryBytes,
};
use super::{EntryModel, SarcFault, SFAT_HAS_NAME};
use crate::bytes::{
    lemma_u16_bytes_roundtrip, lemma_u32_bytes_roundtrip, spec_u16, spec_u32, u16_bytes,
    u32_bytes,
};
use crate::order::{is_stable_order, reorder};

verus! {

/// The conditions under which an archive image reads back exactly: at most
/// 0xFFFF entries (the SFAT count is 16 bits), every offset fits the
/// 32-bit SFAT fields, every name offset fits the 24-bit attribute field,
/// and no name contains a NUL byte.
pub open spec fn sarc_image_exact(oe: Seq<EntryBytes>) -> bool {
    &&& oe.len() <= 0xFFFF
    &&& data_section_offset(oe) + data_cursor(oe, oe.len() as int) <= u32::MAX
    &&& names_blob(oe, oe.len() as int).len() < 0x400_0000
    &&& forall|k: int, i: int|
        0 <= k < oe.len() && oe[k].0 is Some && 0 <= i < oe[k].0->0.len() ==> #[trigger] oe[k].0->0[i]
            != 0
}

/// The entry a well-formed byte entry decodes to.
pub open spec fn decode_entry(e: EntryBytes) -> EntryModel {
    (
        match e.0 {
            Some(n) => Some(decode_utf8(n)),
            None => None,
        },
        e.1,
    )
}

/// Reading the bytes of a 32-bit field gives its value.
proof fn lemma_read_u32_at(img: Seq<u8>, off: int, v: u32, be: bool)
    requires
        0 <= off,
        off + 4 <= img.len(),
        img.subrange(off, off + 4) == u32_bytes(v, be),
    ensures
        spec_u32(img, off, be) == v,
{
    lemma_u32_bytes_roundtrip(v, be);
    let w = u32_bytes(v, be);
    assert(img[off] == w[0] && img[off + 1] == w[1] && img[off + 2] == w[2] && img[off + 3] == w[3])
        by {
        assert(img.subrange(off, off + 4)[0] == img[off]);
        assert(img.subrange(off, off + 4)[1] == img[off + 1]);
        assert(img.subrange(off, off + 4)[2] == img[off + 2]);
        assert(img.subrange(off, off + 4)[3] == img[off + 3]);
    }
}

/// Reading the bytes of a 16-bit field gives its value.
proof fn lemma_read_u16_at(img: Seq<u8>, off: int, v: u16, be: bool)
    requires
        0 <= off,
        off + 2 <= img.len(),
        img.subrange(off, off + 2) == u16_bytes(v, be),
    ensures
        spec_u16(img, off, be) == v,
{
    lemma_u16_bytes_roundtrip(v, be);
    let w = u16_bytes(v, be);
    assert(img[off] == w[0] && img[off + 1] == w[1]) by {
        assert(img.subrange(off, off + 2)[0] == img[off]);
        assert(img.subrange(off, off + 2)[1] == img[off + 1]);
    }
}

/// A longer SFNT blob starts with a shorter one.
proof fn lemma_names_blob_prefix(oe: Seq<EntryBytes>, k: int, m: int)
    requires
        0 <= k <= m,
    ensures
        names_blob(oe, m).len() >= names_blob(oe, k).len(),
        names_blob(oe, m).subrange(0, names_blob(oe, k).len() as int) == names_blob(oe, k),
    decreases m - k,
{
    if k < m {
        lemma_names_blob_prefix(oe, k, m - 1);
        let a = names_blob(oe, m - 1);
        let b = names_blob(oe, k);
        assert(names_blob(oe, m).subrange(0, b.len() as int) =~= a.subrange(0, b.len() as int));
    } else {
        assert(names_blob(oe, m).subrange(0, names_blob(oe, k).len() as int) =~= names_blob(oe, k));
    }
}

/// A longer SFAT node table starts with a shorter one.
proof fn lemma_nodes_prefix(oe: Seq<EntryBytes>, k: int, m: int, be: bool)
    requires
        0 <= k <= m,
    ensures
        nodes_table(oe, m, be).len() == 16 * m,
        nodes_table(oe, m, be).subrange(0, 16 * k) == nodes_table(oe, k, be),
    decreases m - k,
{
    lemma_nodes_len(oe, m, be);
    lemma_nodes_len(oe, k, be);
    if k < m {
        lemma_nodes_prefix(oe, k, m - 1, be);
        assert(nodes_table(oe, m, be).subrange(0, 16 * k) =~= nodes_table(oe, m - 1, be).subrange(
            0,
            16 * k,
        ));
    } else {
        assert(nodes_table(oe, m, be).subrange(0, 16 * k) =~= nodes_table(oe, k, be));
    }
}

proof fn lemma_nodes_len(oe: Seq<EntryBytes>, k: int, be: bool)
    requires
        0 <= k,
    ensures
        nodes_table(oe, k, be).len() == 16 * k,
    decreases k,
{
    if k > 0 {
        lemma_nodes_len(oe, k - 1, be);
        lemma_u32_bytes_roundtrip(0, be);
        let e = oe[k - 1];
        lemma_u32_bytes_roundtrip(node_attrs(oe, k - 1), be);
    }
}

/// A longer data section starts with a shorter one.
proof fn lemma_data_prefix(oe: Seq<EntryBytes>, k: int, m: int)
    requires
        0 <= k <= m,
    ensures
        data_section(oe, m).len() == data_cursor(oe, m),
        data_section(oe, k).len() == data_cursor(oe, k),
        data_section(oe, m).subrange(0, data_cursor(oe, k)) == data_section(oe, k),
    decreases m - k,
{
    lemma_data_len(oe, m);
    lemma_data_len(oe, k);
    if k < m {
        lemma_data_prefix(oe, k, m - 1);
        lemma_cursor_mono(oe, k, m - 1);
        assert(data_section(oe, m).subrange(0, data_cursor(oe, k)) =~= data_section(
            oe,
            m - 1,
        ).subrange(0, data_cursor(oe, k)));
    } else {
        assert(data_section(oe, m).subrange(0, data_cursor(oe, k)) =~= data_section(oe, k));
    }
}

proof fn lemma_data_len(oe: Seq<EntryBytes>, k: int)
    requires
        0 <= k,
    ensures
        data_section(oe, k).len() == data_cursor(oe, k),
        data_cursor(oe, k) >= 0,
    decreases k,
{
    if k > 0 {
        lemma_data_len(oe, k - 1);
        lemma_align_bounds_at(oe, k - 1);
    }
}

/// A data start lies at or after the cursor, within one alignment step.
proof fn lemma_align_bounds_at(oe: Seq<EntryBytes>, k: int)
    requires
        0 <= k,
        data_cursor(oe, k) >= 0,
    ensures
        data_cursor(oe, k) <= data_start(oe, k),
        data_cursor(oe, k + 1) == data_start(oe, k) + oe[k].1.len(),
{
    let a = spec_file_alignment(oe[k].1);
    assert(0x08 <= a <= 0x2000);
    lemma_align_up_bounds(data_cursor(oe, k), a as int);
}

/// The data cursor only grows.
proof fn lemma_cursor_mono(oe: Seq<EntryBytes>, k: int, m: int)
    requires
        0 <= k <= m,
    ensures
        data_cursor(oe, k) <= data_cursor(oe, m),
    decreases m - k,
{
    if k < m {
        lemma_cursor_mono(oe, k, m - 1);
        lemma_data_len(oe, m - 1);
        lemma_align_bounds_at(oe, m - 1);
    }
}

/// The SFNT blob's length is a multiple of 4.
proof fn lemma_blob_aligned(oe: Seq<EntryBytes>, k: int)
    ensures
        names_blob(oe, k).len() % 4 == 0,
    decreases k,
{
    if k > 0 {
        lemma_blob_aligned(oe, k - 1);
        match oe[k - 1].0 {
            Some(s) => {
                assert(name_field(oe[k - 1].0).len() == s.len() + 1 + pad4(s.len() + 1int));
            },
            None => {},
        }
    }
}

/// The SARC attribute bits of a named node.
proof fn lemma_attr_bits(u: u32)
    requires
        u < 0x100_0000,
    ensures
        (SFAT_HAS_NAME | u) & SFAT_HAS_NAME != 0,
        (SFAT_HAS_NAME | u) & 0x00FF_FFFFu32 == u,
        0u32 & SFAT_HAS_NAME == 0,
{
    assert((0x0100_0000u32 | u) & 0x0100_0000u32 != 0 && (0x0100_0000u32 | u) & 0x00FF_FFFFu32 == u && 0u32
        & 0x0100_0000u32 == 0) by (bit_vector)
        requires
            u < 0x100_0000u32,
    ;
}

/// The pieces of an archive image and where they start.
pub open spec fn sfnt_off(n: int) -> int {
    0x20 + 16 * n
}

/// A slice of `a + b` that lies within `a`.
proof fn lemma_sub_left(a: Seq<u8>, b: Seq<u8>, i: int, j: int)
    requires
        0 <= i <= j <= a.len(),
    ensures
        (a + b).subrange(i, j) == a.subrange(i, j),
{
    assert((a + b).subrange(i, j) =~= a.subrange(i, j));
}

/// A slice of `a + b` that lies within `b`.
proof fn lemma_sub_right(a: Seq<u8>, b: Seq<u8>, i: int, j: int)
    requires
        a.len() <= i <= j <= a.len() + b.len(),
    ensures
        (a + b).subrange(i, j) == b.subrange(i - a.len(), j - a.len()),
{
    assert((a + b).subrange(i, j) =~= b.subrange(i - a.len(), j - a.len()));
}

/// The first 0x20 bytes: the SARC header and the SFAT header.
pub open spec fn head_image(oe: Seq<EntryBytes>, be: bool) -> Seq<u8> {
    sarc_header(oe, be) + sfat_magic_bytes() + u16_bytes(0x0C, be) + u16_bytes(oe.len() as u16, be)
        + u32_bytes(0x65, be)
}

/// The SARC header and the SFAT header are 0x20 bytes, with the magic and
/// the node count where the reader looks.
proof fn lemma_head_layout(oe: Seq<EntryBytes>, be: bool)
    ensures
        ({
            let h = head_image(oe, be);
            let n = oe.len() as int;
            &&& h.len() == 0x20
            &&& h.subrange(0, 0x14) == sarc_header(oe, be)
            &&& h.subrange(0x14, 0x18) == sfat_magic_bytes()
            &&& h.subrange(0x1A, 0x1C) == u16_bytes(n as u16, be)
        }),
{
    let n = oe.len() as int;
    lemma_header_fields(oe, be);
    lemma_u16_bytes_roundtrip(0x0C, be);
    lemma_u16_bytes_roundtrip(n as u16, be);
    lemma_u32_bytes_roundtrip(0x65, be);
    let hdr = sarc_header(oe, be);
    let p1 = hdr + sfat_magic_bytes();
    let p2 = p1 + u16_bytes(0x0C, be);
    let p3 = p2 + u16_bytes(n as u16, be);
    let h = p3 + u32_bytes(0x65, be);
    assert(h == head_image(oe, be));
    lemma_sub_left(p3, u32_bytes(0x65, be), 0, 0x1C);
    lemma_sub_left(p2, u16_bytes(n as u16, be), 0, 0x18);
    lemma_sub_left(p1, u16_bytes(0x0C, be), 0, 0x18);
    lemma_sub_right(p2, u16_bytes(n as u16, be), 0x1A, 0x1C);
    assert(u16_bytes(n as u16, be).subrange(0, 2) =~= u16_bytes(n as u16, be));
    assert(h.subrange(0x1A, 0x1C) =~= p3.subrange(0x1A, 0x1C));
    assert(h.subrange(0, 0x18) =~= p3.subrange(0, 0x18));
    assert(p3.subrange(0, 0x18) =~= p1);
    assert(p1.subrange(0, 0x14) =~= hdr);
    assert(p1.subrange(0x14, 0x18) =~= sfat_magic_bytes());
    assert(h.subrange(0, 0x14) =~= h.subrange(0, 0x18).subrange(0, 0x14));
    assert(h.subrange(0x14, 0x18) =~= h.subrange(0, 0x18).subrange(0x14, 0x18));
}

/// Where the pieces of the tables sit.
#[verifier::rlimit(30)]
proof fn lemma_tables_layout(oe: Seq<EntryBytes>, be: bool)
    requires
        oe.len() <= 0xFFFF,
    ensures
        ({
            let t = sfnt_end_image(oe, be);
            let n = oe.len() as int;
            &&& t.len() == pre_data_len(oe)
            &&& sfnt_off(n) + 8 + names_blob(oe, n).len() == pre_data_len(oe)
            &&& t.subrange(0, 0x20) == head_image(oe, be)
            &&& t.subrange(0x20, sfnt_off(n)) == nodes_table(oe, n, be)
            &&& t.subrange(sfnt_off(n), sfnt_off(n) + 4) == sfnt_magic_bytes()
            &&& t.subrange(sfnt_off(n) + 8, pre_data_len(oe)) == names_blob(oe, n)
        }),
{
    let n = oe.len() as int;
    lemma_sfnt_end_len(oe, be);
    lemma_nodes_len(oe, n, be);
    lemma_head_layout(oe, be);
    lemma_u16_bytes_roundtrip(0x08, be);
    lemma_u16_bytes_roundtrip(0, be);
    let h = head_image(oe, be);
    let tab = nodes_table(oe, n, be);
    let p5 = h + tab;
    let p6 = p5 + sfnt_magic_bytes();
    let p7 = p6 + u16_bytes(0x08, be) + u16_bytes(0, be);
    let blob = names_blob(oe, n);
    let t = p7 + blob;
    assert(t == sfnt_end_image(oe, be)) by {
        reveal(sfnt_end_image);
    }
    assert(p5.len() == sfnt_off(n));
    assert(p7.len() == sfnt_off(n) + 8);
    assert(t.subrange(0, sfnt_off(n) + 4) =~= p6);
    assert(p6.subrange(0, sfnt_off(n)) =~= p5);
    assert(t.subrange(0, 0x20) =~= p5.subrange(0, 0x20));
    assert(p5.subrange(0, 0x20) =~= h);
    assert(t.subrange(0x20, sfnt_off(n)) =~= p5.subrange(0x20, sfnt_off(n)));
    assert(p5.subrange(0x20, sfnt_off(n)) =~= tab);
    assert(t.subrange(sfnt_off(n), sfnt_off(n) + 4) =~= sfnt_magic_bytes());
    assert(t.subrange(sfnt_off(n) + 8, pre_data_len(oe)) =~= blob);
}

/// The image's length, and where its tables and data section sit.
proof fn lemma_image_parts(oe: Seq<EntryBytes>, be: bool)
    requires
        oe.len() <= 0xFFFF,
    ensures
        ({
            let img = sarc_image(oe, be);
            let d = data_section_offset(oe);
            let c = data_cursor(oe, oe.len() as int);
            &&& pre_data_len(oe) <= d
            &&& c >= 0
            &&& img.len() == d + c
            &&& img.subrange(0, pre_data_len(oe)) == sfnt_end_image(oe, be)
            &&& img.subrange(d, d + c) == data_section(oe, oe.len() as int)
        }),
{
    let n = oe.len() as int;
    let d = data_section_offset(oe);
    let t = sfnt_end_image(oe, be);
    lemma_image_split(oe, be);
    lemma_sfnt_end_len(oe, be);
    lemma_data_len(oe, n);
    lemma_max_align_pos(oe, n);
    lemma_align_up_bounds(pre_data_len(oe), max_align(oe, n) as int);
    let z = zeros(d - pre_data_len(oe));
    let img = sarc_image(oe, be);
    assert(img == (t + z) + data_section(oe, n));
    lemma_sub_left(t + z, data_section(oe, n), 0, pre_data_len(oe));
    lemma_sub_left(t, z, 0, pre_data_len(oe));
    assert(t.subrange(0, pre_data_len(oe)) =~= t);
    lemma_sub_right(t + z, data_section(oe, n), d, d + data_cursor(oe, n));
    assert(data_section(oe, n).subrange(0, data_cursor(oe, n)) =~= data_section(oe, n));
}

/// A slice of the image within its tables.
proof fn lemma_image_table_slice(oe: Seq<EntryBytes>, be: bool, i: int, j: int)
    requires
        oe.len() <= 0xFFFF,
        0 <= i <= j <= pre_data_len(oe),
    ensures
        sarc_image(oe, be).subrange(i, j) == sfnt_end_image(oe, be).subrange(i, j),
{
    lemma_image_parts(oe, be);
    let img = sarc_image(oe, be);
    assert(img.subrange(i, j) =~= img.subrange(0, pre_data_len(oe)).subrange(i, j));
}

/// A slice of the image within its data section.
proof fn lemma_image_data_slice(oe: Seq<EntryBytes>, be: bool, i: int, j: int)
    requires
        oe.len() <= 0xFFFF,
        0 <= i <= j <= data_cursor(oe, oe.len() as int),
    ensures
        sarc_image(oe, be).subrange(data_section_offset(oe) + i, data_section_offset(oe) + j)
            == data_section(oe, oe.len() as int).subrange(i, j),
{
    lemma_image_parts(oe, be);
    let img = sarc_image(oe, be);
    let d = data_section_offset(oe);
    assert(img.subrange(d + i, d + j) =~= img.subrange(d, d + data_cursor(oe, oe.len() as int)).subrange(
        i,
        j,
    ));
}

/// The largest alignment is at least 1.
proof fn lemma_max_align_pos(oe: Seq<EntryBytes>, k: int)
    ensures
        max_align(oe, k) >= 8,
    decreases k,
{
    if k > 0 {
        lemma_max_align_pos(oe, k - 1);
    }
}

/// Node `k` of the image holds the SFAT fields the writer chose for entry `k`.
#[verifier::spinoff_prover]
#[verifier::rlimit(50)]
proof fn lemma_node_reads(oe: Seq<EntryBytes>, be: bool, k: int)
    requires
        sarc_image_exact(oe),
        0 <= k < oe.len(),
    ensures
        ({
            let img = sarc_image(oe, be);
            &&& spec_u32(img, node_off(k) + 4, be) == node_attrs(oe, k)
            &&& spec_u32(img, node_off(k) + 8, be) == data_start(oe, k)
            &&& spec_u32(img, node_off(k) + 12, be) == data_start(oe, k) + oe[k].1.len()
        }),
{
    let img = sarc_image(oe, be);
    let n = oe.len() as int;
    let t = sfnt_end_image(oe, be);
    lemma_tables_layout(oe, be);
    lemma_image_parts(oe, be);
    lemma_nodes_prefix(oe, k + 1, n, be);
    lemma_nodes_len(oe, k, be);
    let tab = nodes_table(oe, n, be);
    let nb = node_bytes(oe, k, be);
    lemma_node_bytes_len(oe, k, be);
    assert(nodes_table(oe, k + 1, be) == nodes_table(oe, k, be) + nb);
    assert(tab.subrange(16 * k, 16 * k + 16) == nb) by {
        assert(tab.subrange(16 * k, 16 * k + 16) =~= nodes_table(oe, k + 1, be).subrange(
            16 * k,
            16 * k + 16,
        ));
        lemma_sub_right(nodes_table(oe, k, be), nb, 16 * k, 16 * k + 16);
        assert(nb.subrange(0, 16) =~= nb);
    }
    assert(t.subrange(node_off(k), node_off(k) + 16) == nb) by {
        assert(t.subrange(node_off(k), node_off(k) + 16) =~= t.subrange(0x20, sfnt_off(n)).subrange(
            16 * k,
            16 * k + 16,
        ));
    }
    lemma_image_table_slice(oe, be, node_off(k), node_off(k) + 16);
    let w = img.subrange(node_off(k), node_off(k) + 16);
    assert(w == nb);
    lemma_data_len(oe, k);
    lemma_align_bounds_at(oe, k);
    lemma_cursor_mono(oe, k + 1, n);
    lemma_u32_bytes_roundtrip(node_attrs(oe, k), be);
    lemma_u32_bytes_roundtrip(data_start(oe, k) as u32, be);
    assert(img.subrange(node_off(k) + 4, node_off(k) + 8) =~= nb.subrange(4, 8));
    assert(img.subrange(node_off(k) + 8, node_off(k) + 12) =~= nb.subrange(8, 12));
    assert(img.subrange(node_off(k) + 12, node_off(k) + 16) =~= nb.subrange(12, 16));
    lemma_node_bytes_fields(oe, k, be);
    lemma_read_u32_at(img, node_off(k) + 4, node_attrs(oe, k), be);
    lemma_read_u32_at(img, node_off(k) + 8, data_start(oe, k) as u32, be);
    lemma_read_u32_at(img, node_off(k) + 12, (data_start(oe, k) + oe[k].1.len()) as u32, be);
}

/// A node is 16 bytes.
proof fn lemma_node_bytes_len(oe: Seq<EntryBytes>, k: int, be: bool)
    ensures
        node_bytes(oe, k, be).len() == 16,
{
    lemma_u32_bytes_roundtrip(crate::sarc::write::entry_key(oe[k]), be);
    lemma_u32_bytes_roundtrip(node_attrs(oe, k), be);
    lemma_u32_bytes_roundtrip(data_start(oe, k) as u32, be);
    lemma_u32_bytes_roundtrip((data_start(oe, k) + oe[k].1.len()) as u32, be);
}

/// The fields of a node's bytes.
proof fn lemma_node_bytes_fields(oe: Seq<EntryBytes>, k: int, be: bool)
    ensures
        node_bytes(oe, k, be).subrange(4, 8) == u32_bytes(node_attrs(oe, k), be),
        node_bytes(oe, k, be).subrange(8, 12) == u32_bytes(data_start(oe, k) as u32, be),
        node_bytes(oe, k, be).subrange(12, 16) == u32_bytes(
            (data_start(oe, k) + oe[k].1.len()) as u32,
            be,
        ),
{
    let h = u32_bytes(crate::sarc::write::entry_key(oe[k]), be);
    let a = u32_bytes(node_attrs(oe, k), be);
    let s = u32_bytes(data_start(oe, k) as u32, be);
    let e = u32_bytes((data_start(oe, k) + oe[k].1.len()) as u32, be);
    lemma_u32_bytes_roundtrip(crate::sarc::write::entry_key(oe[k]), be);
    lemma_u32_bytes_roundtrip(node_attrs(oe, k), be);
    lemma_u32_bytes_roundtrip(data_start(oe, k) as u32, be);
    lemma_u32_bytes_roundtrip((data_start(oe, k) + oe[k].1.len()) as u32, be);
    let nb = node_bytes(oe, k, be);
    assert(nb == h + a + s + e);
    assert(nb.subrange(4, 8) =~= a);
    assert(nb.subrange(8, 12) =~= s);
    assert(nb.subrange(12, 16) =~= e);
}

/// Entry `k`'s data sits in the image at the data offset plus its start.
proof fn lemma_data_reads(oe: Seq<EntryBytes>, be: bool, k: int)
    requires
        sarc_image_exact(oe),
        0 <= k < oe.len(),
    ensures
        ({
            let img = sarc_image(oe, be);
            let d = data_section_offset(oe);
            &&& d + data_start(oe, k) + oe[k].1.len() <= img.len()
            &&& img.subrange(d + data_start(oe, k), d + data_start(oe, k) + oe[k].1.len()) == oe[k].1
        }),
{
    let n = oe.len() as int;
    lemma_image_parts(oe, be);
    lemma_data_prefix(oe, k + 1, n);
    lemma_data_len(oe, k);
    lemma_align_bounds_at(oe, k);
    lemma_cursor_mono(oe, k + 1, n);
    let s = data_start(oe, k);
    let l = oe[k].1.len() as int;
    let ds = data_section(oe, n);
    let z = zeros(s - data_cursor(oe, k));
    assert(data_section(oe, k + 1) == data_section(oe, k) + z + oe[k].1);
    lemma_sub_right(data_section(oe, k) + z, oe[k].1, s, s + l);
    assert(oe[k].1.subrange(0, l) =~= oe[k].1);
    assert(ds.subrange(s, s + l) =~= data_section(oe, k + 1).subrange(s, s + l));
    lemma_image_data_slice(oe, be, s, s + l);
}

/// Entry `k`'s name sits in the SFNT blob at the offset its attributes record,
/// followed by a NUL.
proof fn lemma_name_reads(oe: Seq<EntryBytes>, be: bool, k: int)
    requires
        sarc_image_exact(oe),
        0 <= k < oe.len(),
        oe[k].0 is Some,
    ensures
        ({
            let img = sarc_image(oe, be);
            let off = sfnt_off(oe.len() as int) + 8 + names_blob(oe, k).len();
            let s = oe[k].0->0;
            &&& off + s.len() < img.len()
            &&& img.subrange(off, off + s.len()) == s
            &&& img[off + s.len()] == 0
        }),
{
    let img = sarc_image(oe, be);
    let n = oe.len() as int;
    let s = oe[k].0->0;
    let t = sfnt_end_image(oe, be);
    lemma_tables_layout(oe, be);
    lemma_image_parts(oe, be);
    lemma_names_blob_prefix(oe, k + 1, n);
    let bk = names_blob(oe, k);
    let blob = names_blob(oe, n);
    let f = name_field(oe[k].0);
    let bl: int = bk.len() as int;
    let sl: int = s.len() as int;
    assert(names_blob(oe, k + 1) == bk + f);
    assert(f.subrange(0, sl) =~= s);
    assert(f[sl] == 0);
    let base = sfnt_off(n) + 8;
    let w = blob.subrange(bl, bl + sl + 1);
    assert(w =~= names_blob(oe, k + 1).subrange(bl, bl + sl + 1));
    assert(w =~= s.push(0)) by {
        lemma_sub_right(bk, f, bl, bl + sl + 1);
        assert(f.subrange(0, sl + 1) =~= s.push(0));
    }
    assert(t.subrange(base + bl, base + bl + sl + 1) =~= w) by {
        assert(t.subrange(base + bl, base + bl + sl + 1) =~= t.subrange(base, pre_data_len(oe)).subrange(
            bl,
            bl + sl + 1,
        ));
    }
    lemma_image_table_slice(oe, be, base + bl, base + bl + sl + 1);
    let v = img.subrange(base + bl, base + bl + sl + 1);
    assert(v == s.push(0));
    assert(img.subrange(base + bl, base + bl + sl) =~= v.subrange(0, sl));
    assert(v[sl] == img[base + bl + sl]);
}

/// Reading node `k` of the image gives back entry `k`.
#[verifier::spinoff_prover]
#[verifier::rlimit(40)]
proof fn lemma_node_roundtrip(oe: Seq<EntryBytes>, be: bool, k: int)
    requires
        sarc_image_exact(oe),
        0 <= k < oe.len(),
        forall|j: int| 0 <= j < oe.len() && oe[j].0 is Some ==> valid_utf8(#[trigger] oe[j].0->0),
    ensures
        spec_node(
            sarc_image(oe, be),
            be,
            data_section_offset(oe),
            sfnt_off(oe.len() as int) + 8,
            k,
        ) == Ok::<EntryModel, SarcFault>(decode_entry(oe[k])),
{
    let img = sarc_image(oe, be);
    let n = oe.len() as int;
    let d = data_section_offset(oe);
    lemma_image_parts(oe, be);
    lemma_tables_layout(oe, be);
    lemma_node_reads(oe, be, k);
    lemma_data_reads(oe, be, k);
    lemma_data_len(oe, k);
    lemma_align_bounds_at(oe, k);
    lemma_cursor_mono(oe, k + 1, n);
    let attrs = node_attrs(oe, k);
    match oe[k].0 {
        Some(s) => {
            lemma_names_blob_prefix(oe, k, n);
            lemma_blob_aligned(oe, k);
            let u = names_blob(oe, k).len() / 4;
            assert(u < 0x100_0000);
            lemma_attr_bits(u as u32);
            lemma_name_reads(oe, be, k);
            let off = sfnt_off(n) + 8 + names_blob(oe, k).len();
            assert((sfnt_off(n) + 8 + (attrs & 0x00FF_FFFFu32) * 4) as usize as int == off);
            assert(is_first_nul(img, off, off + s.len())) by {
                assert forall|i: int| off <= i < off + s.len() implies img[i] != 0 by {
                    assert(img.subrange(off, off + s.len())[i - off] == img[i]);
                    assert(oe[k].0->0[i - off] != 0);
                }
            }
            assert(has_nul_from(img, off));
            let c = first_nul_from(img, off);
            assert(is_first_nul(img, off, c));
            if c < off + s.len() {
                assert(img[c] != 0);
            }
            if c > off + s.len() {
                assert(img[off + s.len()] != 0);
            }
            assert(c == off + s.len());
            assert(valid_utf8(s));
            assert(spec_c_string(img, off) == Ok::<Seq<char>, SarcFault>(decode_utf8(s)));
        },
        None => {
            lemma_attr_bits(0);
        },
    }
}

/// Reading the first `k` nodes of the image gives back the first `k` entries.
proof fn lemma_nodes_roundtrip(oe: Seq<EntryBytes>, be: bool, k: int)
    requires
        sarc_image_exact(oe),
        0 <= k <= oe.len(),
        forall|j: int| 0 <= j < oe.len() && oe[j].0 is Some ==> valid_utf8(#[trigger] oe[j].0->0),
    ensures
        spec_nodes(
            sarc_image(oe, be),
            be,
            data_section_offset(oe),
            sfnt_off(oe.len() as int) + 8,
            k,
        ) == Ok::<Seq<EntryModel>, SarcFault>(oe.subrange(0, k).map_values(|e: EntryBytes| decode_entry(e))),
    decreases k,
{
    if k > 0 {
        lemma_nodes_roundtrip(oe, be, k - 1);
        lemma_node_roundtrip(oe, be, k - 1);
        assert(oe.subrange(0, k).map_values(|e: EntryBytes| decode_entry(e)) =~= oe.subrange(
            0,
            k - 1,
        ).map_values(|e: EntryBytes| decode_entry(e)).push(decode_entry(oe[k - 1])));
    } else {
        assert(oe.subrange(0, 0).map_values(|e: EntryBytes| decode_entry(e)) =~= Seq::<
            EntryModel,
        >::empty());
    }
}

/// An archive image reads back as its entries, in order.
proof fn lemma_image_roundtrip(oe: Seq<EntryBytes>, be: bool)
    requires
        sarc_image_exact(oe),
        forall|j: int| 0 <= j < oe.len() && oe[j].0 is Some ==> valid_utf8(#[trigger] oe[j].0->0),
    ensures
        spec_parse_sarc(sarc_image(oe, be)) == Ok::<(bool, Seq<EntryModel>), SarcFault>(
            (be, oe.map_values(|e: EntryBytes| decode_entry(e))),
        ),
        spec_u32(sarc_image(oe, be), 0x0C, be) == data_section_offset(oe),
{
    let img = sarc_image(oe, be);
    let n = oe.len() as int;
    let t = sfnt_end_image(oe, be);
    lemma_image_parts(oe, be);
    lemma_tables_layout(oe, be);
    lemma_header_fields(oe, be);
    let hdr = sarc_header(oe, be);
    lemma_head_layout(oe, be);
    lemma_image_table_slice(oe, be, 0, 0x20);
    assert(img.subrange(0, 0x14) == hdr) by {
        assert(img.subrange(0, 0x14) =~= img.subrange(0, 0x20).subrange(0, 0x14));
        assert(t.subrange(0, 0x20).subrange(0, 0x14) =~= t.subrange(0, 0x14));
    }
    assert(img.subrange(0, 4) =~= hdr.subrange(0, 4));
    assert(img[6] == hdr[6] && img[7] == hdr[7]) by {
        assert(img.subrange(0, 0x14)[6] == img[6]);
        assert(img.subrange(0, 0x14)[7] == img[7]);
    }
    assert(img.subrange(0x0C, 0x10) =~= hdr.subrange(0x0C, 0x10));
    lemma_read_u32_at(img, 0x0C, data_section_offset(oe) as u32, be);
    assert(img.subrange(0x14, 0x18) == sfat_magic_bytes()) by {
        assert(img.subrange(0x14, 0x18) =~= img.subrange(0, 0x20).subrange(0x14, 0x18));
    }
    assert(img.subrange(0x1A, 0x1C) == u16_bytes(n as u16, be)) by {
        assert(img.subrange(0x1A, 0x1C) =~= img.subrange(0, 0x20).subrange(0x1A, 0x1C));
    }
    lemma_image_table_slice(oe, be, sfnt_off(n), sfnt_off(n) + 4);
    lemma_read_u16_at(img, 0x1A, n as u16, be);
    lemma_nodes_roundtrip(oe, be, n);
    assert(oe.subrange(0, n) =~= oe);
    assert(sfat_magic_bytes() =~= sfat_magic());
    assert(sfnt_magic_bytes() =~= sfnt_magic());
}

/// The header's magic, byte-order mark and data-offset field.
proof fn lemma_header_fields(oe: Seq<EntryBytes>, be: bool)
    ensures
        sarc_header(oe, be).len() == 0x14,
        sarc_header(oe, be).subrange(0, 4) == sarc_magic(),
        sarc_header(oe, be)[6] == (if be {
            0xFEu8
        } else {
            0xFFu8
        }),
        sarc_header(oe, be)[7] == (if be {
            0xFFu8
        } else {
            0xFEu8
        }),
        sarc_header(oe, be).subrange(0x0C, 0x10) == u32_bytes(data_section_offset(oe) as u32, be),
{
    let h = sarc_header(oe, be);
    lemma_u16_bytes_roundtrip(0x14, be);
    lemma_u16_bytes_roundtrip(0xFEFF, be);
    lemma_u16_bytes_roundtrip(0x0100, be);
    lemma_u16_bytes_roundtrip(0, be);
    lemma_u32_bytes_roundtrip((data_section_offset(oe) + data_cursor(oe, oe.len() as int)) as u32, be);
    lemma_u32_bytes_roundtrip(data_section_offset(oe) as u32, be);
    assert(h.subrange(0, 4) =~= sarc_magic());
    assert(h.subrange(0x0C, 0x10) =~= u32_bytes(data_section_offset(oe) as u32, be));
}

/// Reading what [`write_sarc`](super::write_sarc) emits gives back every
/// entry — named and hash-only, with its name and data — in the writer's
/// SFAT order (entries stably sorted by name hash), and the byte order it
/// was written with, provided the archive fits the format: at most 0xFFFF
/// entries, offsets within 32 bits, name offsets within 24 bits, and no NUL
/// byte inside a name.
proof fn lemma_sarc_write_read(entries: Seq<EntryModel>, order: Seq<usize>, be: bool)
    requires
        is_stable_order(entry_keys(entries_bytes(entries)), order),
        sarc_image_exact(reorder(entries_bytes(entries), order)),
    ensures
        spec_parse_sarc(sarc_image(reorder(entries_bytes(entries), order), be)) == Ok::<
            (bool, Seq<EntryModel>),
            SarcFault,
        >((be, reorder(entries, order))),
{
    let eb = entries_bytes(entries);
    let oe = reorder(eb, order);
    assert forall|j: int| 0 <= j < oe.len() && oe[j].0 is Some implies valid_utf8(#[trigger] oe[j].0->0) by {
        let c = entries[order[j] as int].0->0;
        assert(oe[j] == entry_bytes(entries[order[j] as int]));
        vstd::utf8::encode_utf8_valid_utf8(c);
    }
    lemma_image_roundtrip(oe, be);
    assert forall|j: int| 0 <= j < oe.len() implies #[trigger] decode_entry(oe[j]) == reorder(entries, order)[j] by {
        let e = entries[order[j] as int];
        assert(oe[j] == entry_bytes(e));
        match e.0 {
            Some(c) => {
                vstd::utf8::encode_utf8_decode_utf8(c);
            },
            None => {},
        }
    }
    assert(oe.map_values(|e: EntryBytes| decode_entry(e)) =~= reorder(entries, order));
}

/// The archive [`write_sarc`](super::write_sarc) emits fits the format when,
/// in the SFAT order the writer picks (the stable sort by name hash), it has
/// at most 0xFFFF entries, its offsets fit 32 bits, its name offsets fit the
/// 24-bit attribute field, and no name's UTF-8 encoding contains a NUL byte.
pub open spec fn sarc_fits(entries: Seq<EntryModel>) -> bool {
    forall|order: Seq<usize>|
        #![trigger is_stable_order(entry_keys(entries_bytes(entries)), order)]
        is_stable_order(entry_keys(entries_bytes(entries)), order) ==> sarc_image_exact(
            reorder(entries_bytes(entries), order),
        )
}

/// Write then read: reading the bytes that [`write_sarc`](super::write_sarc)
/// returned gives back the byte order it was written with and every entry,
/// named and hash-only, with its name and data, listed in SFAT order: the
/// entries stably sorted by name hash, so hash-only entries keep their input
/// order.
pub proof fn lemma_written_archive_reads_back(out: Seq<u8>, entries: Seq<EntryModel>, be: bool)
    requires
        sarc_written(out, entries, be),
        sarc_fits(entries),
    ensures
        exists|order: Seq<usize>|
            #![trigger is_stable_order(entry_keys(entries_bytes(entries)), order)]
            is_stable_order(entry_keys(entries_bytes(entries)), order) && spec_parse_sarc(out) == Ok::<
                (bool, Seq<EntryModel>),
                SarcFault,
            >((be, reorder(entries, order))),
{
    let order = choose|order: Seq<usize>|
        #![trigger is_stable_order(entry_keys(entries_bytes(entries)), order)]
        is_stable_order(entry_keys(entries_bytes(entries)), order) && out == sarc_image(
            reorder(entries_bytes(entries), order),
            be,
        );
    lemma_sarc_write_read(entries, order, be);
}

/// A file alignment: a power of two from 8 to 0x2000.
pub open spec fn is_file_alignment(a: int) -> bool {
    a == 8 || a == 16 || a == 32 || a == 64 || a == 128 || a == 256 || a == 512 || a == 1024 || a == 2048
        || a == 4096 || a == 8192
}

/// Every alignment the writer derives is a power of two from 8 to 0x2000.
proof fn lemma_file_alignment_pow2(d: Seq<u8>)
    ensures
        is_file_alignment(spec_file_alignment(d) as int),
{
    if d.len() > 0x20 && d[0x0E] <= 13 {
        let e = d[0x0E];
        assert((1u32 << e) == 1 || (1u32 << e) == 2 || (1u32 << e) == 4 || (1u32 << e) == 8 || (1u32 << e) == 16
            || (1u32 << e) == 32 || (1u32 << e) == 64 || (1u32 << e) == 128 || (1u32 << e) == 256 || (1u32 << e)
            == 512 || (1u32 << e) == 1024 || (1u32 << e) == 2048 || (1u32 << e) == 4096 || (1u32 << e) == 8192)
            by (bit_vector)
            requires
                e <= 13,
        ;
    }
}

/// Of two file alignments, the larger is a multiple of the smaller.
proof fn lemma_alignments_divide(a: int, b: int)
    requires
        is_file_alignment(a),
        is_file_alignment(b),
        a <= b,
    ensures
        b % a == 0,
{
    if a == 8 {
        assert(b % 8 == 0);
    } else if a == 16 {
        assert(b % 16 == 0);
    } else if a == 32 {
        assert(b % 32 == 0);
    } else if a == 64 {
        assert(b % 64 == 0);
    } else if a == 128 {
        assert(b % 128 == 0);
    } else if a == 256 {
        assert(b % 256 == 0);
    } else if a == 512 {
        assert(b % 512 == 0);
    } else if a == 1024 {
        assert(b % 1024 == 0);
    } else if a == 2048 {
        assert(b % 2048 == 0);
    } else if a == 4096 {
        assert(b % 4096 == 0);
    } else if a == 8192 {
        assert(b % 8192 == 0);
    }
}

/// A multiple of `m`, where `m` is a multiple of `a`, plus a multiple of
/// `a`, is a multiple of `a`.
proof fn lemma_multiple_sum(d: int, st: int, m: int, a: int)
    requires
        a > 0,
        m > 0,
        d % m == 0,
        m % a == 0,
        st % a == 0,
    ensures
        (d + st) % a == 0,
{
    vstd::arithmetic::div_mod::lemma_fundamental_div_mod(d, m);
    vstd::arithmetic::div_mod::lemma_fundamental_div_mod(m, a);
    vstd::arithmetic::div_mod::lemma_fundamental_div_mod(st, a);
    let x = d / m;
    let y = m / a;
    let z = st / a;
    vstd::arithmetic::mul::lemma_mul_is_associative(a, y, x);
    assert(d == a * (y * x));
    vstd::arithmetic::mul::lemma_mul_is_distributive_add(a, y * x, z);
    assert(d + st == a * (y * x + z));
    vstd::arithmetic::mul::lemma_mul_is_commutative(a, y * x + z);
    vstd::arithmetic::div_mod::lemma_mod_multiples_basic(y * x + z, a);
}

/// The largest alignment of the first `k` entries is a file alignment at
/// least as large as each of theirs.
proof fn lemma_max_align_is_alignment(oe: Seq<EntryBytes>, k: int)
    ensures
        is_file_alignment(max_align(oe, k) as int),
        forall|j: int| 0 <= j < k ==> data_align(oe, j) <= #[trigger] max_align(oe, k),
    decreases k,
{
    if k > 0 {
        lemma_max_align_is_alignment(oe, k - 1);
        lemma_file_alignment_pow2(oe[k - 1].1);
    }
}

/// Write then read, with the data placement: the archive reads back as in
/// `lemma_written_archive_reads_back`, and the absolute offset of every
/// file's data (the header's data offset plus the start in its SFAT node)
/// is a multiple of the alignment that [`file_alignment`](super::write::file_alignment)
/// derives from that data.
pub proof fn lemma_written_data_aligned(out: Seq<u8>, entries: Seq<EntryModel>, be: bool)
    requires
        sarc_written(out, entries, be),
        sarc_fits(entries),
    ensures
        exists|order: Seq<usize>|
            #![trigger is_stable_order(entry_keys(entries_bytes(entries)), order)]
            {
                &&& is_stable_order(entry_keys(entries_bytes(entries)), order)
                &&& spec_parse_sarc(out) == Ok::<(bool, Seq<EntryModel>), SarcFault>((be, reorder(entries, order)))
                &&& forall|k: int|
                    0 <= k < entries.len() ==> (spec_u32(out, 0x0C, be) + spec_u32(out, node_off(k) + 8, be))
                        % (spec_file_alignment(#[trigger] reorder(entries, order)[k].1) as int) == 0
            },
{
    let order = choose|order: Seq<usize>|
        #![trigger is_stable_order(entry_keys(entries_bytes(entries)), order)]
        is_stable_order(entry_keys(entries_bytes(entries)), order) && out == sarc_image(
            reorder(entries_bytes(entries), order),
            be,
        );
    let eb = entries_bytes(entries);
    let oe = reorder(eb, order);
    lemma_sarc_write_read(entries, order, be);
    assert forall|j: int| 0 <= j < oe.len() && oe[j].0 is Some implies valid_utf8(#[trigger] oe[j].0->0) by {
        let c = entries[order[j] as int].0->0;
        assert(oe[j] == entry_bytes(entries[order[j] as int]));
        vstd::utf8::encode_utf8_valid_utf8(c);
    }
    lemma_image_roundtrip(oe, be);
    assert forall|k: int| 0 <= k < entries.len() implies (spec_u32(out, 0x0C, be) + spec_u32(out, node_off(k) + 8, be))
        % (spec_file_alignment(#[trigger] reorder(entries, order)[k].1) as int) == 0 by {
        assert(oe[k] == entry_bytes(entries[order[k] as int]));
        assert(reorder(entries, order)[k].1 == oe[k].1);
        lemma_node_reads(oe, be, k);
        let n = oe.len() as int;
        let a = data_align(oe, k) as int;
        let m = max_align(oe, n) as int;
        lemma_file_alignment_pow2(oe[k].1);
        lemma_max_align_is_alignment(oe, n);
        assert(data_align(oe, k) <= max_align(oe, n));
        lemma_alignments_divide(a, m);
        lemma_cursor_mono(oe, 0, k);
        lemma_align_up_bounds(data_cursor(oe, k), a);
        lemma_align_up_bounds(pre_data_len(oe), m);
        let d = data_section_offset(oe);
        let st = data_start(oe, k);
        lemma_multiple_sum(d, st, m, a);
    }
}

} // verus!
