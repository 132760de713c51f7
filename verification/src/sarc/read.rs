//! SARC reader: parses the `0x14` header, the `SFAT` node table and the
//! `SFNT` name blob, slicing each node's data out of the data section. Every
//! access is bounds-checked, so a malformed archive yields an error.
use vstd::prelude::*;
use vstd::utf8::{decode_utf8, valid_utf8};

use super::{
    entries_view, ArcEntry, ArcFile, EntryModel, SarcError, SarcFault, UnpackedFile, SARC_HEADER_SIZE,
    SFAT_HAS_NAME, SFAT_NODE_SIZE, SFNT_HEADER_SIZE,
};
use crate::bytes::{copy_bytes, magic4_at, get_u16, get_u32, has_bytes_at, spec_u16, spec_u32, utf8_to_string};

verus! {

/// `SARC` as bytes.
pub open spec fn sarc_magic() -> Seq<u8> {
    seq![0x53u8, 0x41u8, 0x52u8, 0x43u8]
}

/// `SFAT` as bytes.
pub open spec fn sfat_magic() -> Seq<u8> {
    seq![0x53u8, 0x46u8, 0x41u8, 0x54u8]
}

/// `SFNT` as bytes.
pub open spec fn sfnt_magic() -> Seq<u8> {
    seq![0x53u8, 0x46u8, 0x4Eu8, 0x54u8]
}

/// `e` is the position of the first NUL byte at or after `off`.
pub open spec fn is_first_nul(b: Seq<u8>, off: int, e: int) -> bool {
    &&& off <= e < b.len()
    &&& b[e] == 0
    &&& forall|k: int| off <= k < e ==> b[k] != 0
}

/// Some byte at or after `off` is NUL.
pub open spec fn has_nul_from(b: Seq<u8>, off: int) -> bool {
    exists|e: int| off <= e < b.len() && b[e] == 0
}

/// The position of the first NUL byte at or after `off`.
pub open spec fn first_nul_from(b: Seq<u8>, off: int) -> int {
    choose|e: int| is_first_nul(b, off, e)
}

/// The NUL-terminated UTF-8 name starting at `off`.
pub open spec fn spec_c_string(b: Seq<u8>, off: int) -> Result<Seq<char>, SarcFault> {
    if off > b.len() {
        Err(SarcFault::NameOffsetOutOfBounds { offset: off })
    } else if !has_nul_from(b, off) {
        Err(SarcFault::UnterminatedName { offset: off })
    } else {
        let s = b.subrange(off, first_nul_from(b, off));
        if valid_utf8(s) {
            Ok(decode_utf8(s))
        } else {
            Err(SarcFault::NonUtf8Name { offset: off })
        }
    }
}

/// Offset of SFAT node `i`.
pub open spec fn node_off(i: int) -> int {
    0x20 + 0x10 * i
}

/// The entry described by SFAT node `i`.
pub open spec fn spec_node(b: Seq<u8>, be: bool, data_offset: int, names_off: int, i: int) -> Result<
    EntryModel,
    SarcFault,
> {
    let attrs = spec_u32(b, node_off(i) + 4, be) as u32;
    let start = spec_u32(b, node_off(i) + 8, be);
    let end = spec_u32(b, node_off(i) + 12, be);
    if end < start {
        Err(SarcFault::NodeBackwards { index: i, start, end })
    } else if data_offset + end > b.len() {
        Err(
            SarcFault::NodeOutOfBounds {
                index: i,
                start: (data_offset + start) as usize as int,
                end: (data_offset + end) as usize as int,
                len: b.len() as int,
            },
        )
    } else {
        let data = b.subrange(data_offset + start, data_offset + end);
        if attrs & SFAT_HAS_NAME != 0 {
            match spec_c_string(b, (names_off + (attrs & 0x00FF_FFFFu32) * 4) as usize as int) {
                Ok(n) => Ok((Some(n), data)),
                Err(e) => Err(e),
            }
        } else {
            Ok((None, data))
        }
    }
}

/// The entries of the first `k` nodes, or the first node's error.
pub open spec fn spec_nodes(b: Seq<u8>, be: bool, data_offset: int, names_off: int, k: int) -> Result<
    Seq<EntryModel>,
    SarcFault,
>
    decreases k,
{
    if k <= 0 {
        Ok(Seq::empty())
    } else {
        match spec_nodes(b, be, data_offset, names_off, k - 1) {
            Err(e) => Err(e),
            Ok(s) => match spec_node(b, be, data_offset, names_off, k - 1) {
                Err(e) => Err(e),
                Ok(n) => Ok(s.push(n)),
            },
        }
    }
}

/// Once the nodes read so far fail, reading more nodes fails the same way.
proof fn lemma_nodes_err_persists(
    b: Seq<u8>,
    be: bool,
    data_offset: int,
    names_off: int,
    k1: int,
    k2: int,
)
    requires
        0 <= k1 <= k2,
        spec_nodes(b, be, data_offset, names_off, k1) is Err,
    ensures
        spec_nodes(b, be, data_offset, names_off, k2) == spec_nodes(b, be, data_offset, names_off, k1),
    decreases k2 - k1,
{
    if k1 < k2 {
        lemma_nodes_err_persists(b, be, data_offset, names_off, k1, k2 - 1);
    }
}

/// The archive that `b` encodes — its byte order and its entries in SFAT
/// order — or the first fault a bounds-checked reading meets.
pub open spec fn spec_parse_sarc(b: Seq<u8>) -> Result<(bool, Seq<EntryModel>), SarcFault> {
    if b.len() < 0x14 {
        Err(SarcFault::TooSmall(b.len() as int))
    } else if b.subrange(0, 4) != sarc_magic() {
        Err(SarcFault::BadMagic(b.subrange(0, 4)))
    } else if !((b[6] == 0xFE && b[7] == 0xFF) || (b[6] == 0xFF && b[7] == 0xFE)) {
        Err(SarcFault::BadBom(seq![b[6], b[7]]))
    } else {
        let be = b[6] == 0xFE;
        let data_offset = spec_u32(b, 0x0C, be);
        if !has_bytes_at(b, 0x14, sfat_magic()) {
            Err(SarcFault::MissingSection("SFAT"@))
        } else if b.len() < 0x1C {
            Err(SarcFault::Truncated { offset: 0x1A, need: 2 })
        } else {
            let count = spec_u16(b, 0x1A, be);
            let nodes_end = node_off(count);
            if !has_bytes_at(b, nodes_end, sfnt_magic()) {
                Err(SarcFault::MissingSection("SFNT"@))
            } else {
                match spec_nodes(b, be, data_offset, nodes_end + 8, count) {
                    Ok(files) => Ok((be, files)),
                    Err(e) => Err(e),
                }
            }
        }
    }
}

/// A parse result as a mathematical value.
pub open spec fn parse_result_view(r: Result<ArcFile, SarcError>) -> Result<
    (bool, Seq<EntryModel>),
    SarcFault,
> {
    match r {
        Ok(a) => Ok(a@),
        Err(e) => Err(e@),
    }
}

/// Read the NUL-terminated UTF-8 name starting at `off`.
fn read_c_string(bytes: &[u8], off: usize) -> (r: Result<String, SarcError>)
    ensures
        match r {
            Ok(s) => spec_c_string(bytes@, off as int) == Ok::<Seq<char>, SarcFault>(s@),
            Err(e) => spec_c_string(bytes@, off as int) == Err::<Seq<char>, SarcFault>(e@),
        },
{
    if off > bytes.len() {
        return Err(SarcError::NameOffsetOutOfBounds { offset: off });
    }
    let mut e: usize = off;
    while e < bytes.len() && bytes[e] != 0
        invariant
            off <= e <= bytes@.len(),
            forall|k: int| off <= k < e ==> bytes@[k] != 0,
        decreases bytes@.len() - e,
    {
        e += 1;
    }
    if e == bytes.len() {
        return Err(SarcError::UnterminatedName { offset: off });
    }
    proof {
        assert(is_first_nul(bytes@, off as int, e as int));
        let c = first_nul_from(bytes@, off as int);
        assert(is_first_nul(bytes@, off as int, c));
        if c < e {
            assert(bytes@[c] != 0);
        }
        if e < c {
            assert(bytes@[e as int] != 0);
        }
    }
    let slice = &bytes[off..e];
    match utf8_to_string(slice) {
        Ok(s) => Ok(s),
        Err(_) => Err(SarcError::NonUtf8Name { offset: off }),
    }
}

/// Read SFAT node `i` and the data and name it points at.
fn read_node(bytes: &[u8], big_endian: bool, data_offset: u32, names_off: usize, i: usize) -> (r: Result<
    ArcEntry,
    SarcError,
>)
    requires
        node_off(i as int) + 16 <= bytes@.len(),
        names_off <= 0x20_0000,
    ensures
        match r {
            Ok(e) => spec_node(bytes@, big_endian, data_offset as int, names_off as int, i as int)
                == Ok::<EntryModel, SarcFault>(e@),
            Err(e) => spec_node(bytes@, big_endian, data_offset as int, names_off as int, i as int)
                == Err::<EntryModel, SarcFault>(e@),
        },
{
    let len = bytes.len();
    let node = 0x20 + i * SFAT_NODE_SIZE;
    let attrs = get_u32(bytes, node + 4, big_endian);
    let start = get_u32(bytes, node + 8, big_endian);
    let end = get_u32(bytes, node + 12, big_endian);
    if end < start {
        return Err(SarcError::NodeBackwards { index: i, start: start as usize, end: end as usize });
    }
    let abs_start = data_offset as u64 + start as u64;
    let abs_end = data_offset as u64 + end as u64;
    if abs_end > len as u64 {
        return Err(
            SarcError::NodeOutOfBounds {
                index: i,
                start: abs_start as usize,
                end: abs_end as usize,
                len,
            },
        );
    }
    let data = copy_bytes(&bytes[abs_start as usize..abs_end as usize]);
    let name = if attrs & SFAT_HAS_NAME != 0 {
        let name_off = names_off as u64 + ((attrs & 0x00FF_FFFF) as u64) * 4;
        match read_c_string(bytes, name_off as usize) {
            Ok(s) => Some(s),
            Err(e) => {
                return Err(e);
            },
        }
    } else {
        None
    };
    Ok(ArcEntry { name, data })
}

/// Parse a SARC archive into an [`ArcFile`], preserving every entry (named
/// and hash-only) and the byte order.
#[verifier::rlimit(40)]
#[verifier::spinoff_prover]
pub fn parse_sarc(bytes: &[u8]) -> (r: Result<ArcFile, SarcError>)
    ensures
        parse_result_view(r) == spec_parse_sarc(bytes@),
{
    let len = bytes.len();
    if len < SARC_HEADER_SIZE {
        return Err(SarcError::TooSmall(len));
    }
    if !magic4_at(bytes, 0, 0x53, 0x41, 0x52, 0x43) {
        let magic = [bytes[0], bytes[1], bytes[2], bytes[3]];
        proof {
            assert(magic@ =~= bytes@.subrange(0, 4));
        }
        return Err(SarcError::BadMagic(magic));
    }
    let b6 = bytes[6];
    let b7 = bytes[7];
    let big_endian = if b6 == 0xFE && b7 == 0xFF {
        true
    } else if b6 == 0xFF && b7 == 0xFE {
        false
    } else {
        let bom = [b6, b7];
        proof {
            assert(bom@ =~= seq![b6, b7]);
        }
        return Err(SarcError::BadBom(bom));
    };
    let data_offset = get_u32(bytes, 0x0C, big_endian);

    if !magic4_at(bytes, SARC_HEADER_SIZE, 0x53, 0x46, 0x41, 0x54) {
        return Err(SarcError::MissingSection("SFAT"));
    }
    if len < 0x1C {
        return Err(SarcError::Truncated { offset: 0x1A, need: 2 });
    }
    let node_count = get_u16(bytes, 0x1A, big_endian) as usize;
    let nodes_end = 0x20 + node_count * SFAT_NODE_SIZE;
    if !magic4_at(bytes, nodes_end, 0x53, 0x46, 0x4E, 0x54) {
        return Err(SarcError::MissingSection("SFNT"));
    }
    let names_off = nodes_end + SFNT_HEADER_SIZE;

    let mut files: Vec<ArcEntry> = Vec::new();
    let mut i: usize = 0;
    proof {
        assert(entries_view(files@) =~= Seq::<EntryModel>::empty());
        assert(big_endian == (bytes@[6] == 0xFE));
    }
    let ghost whole = spec_nodes(bytes@, big_endian, data_offset as int, names_off as int, node_count as int);
    assert(spec_parse_sarc(bytes@) == match whole {
        Ok(f) => Ok::<(bool, Seq<EntryModel>), SarcFault>((big_endian, f)),
        Err(e) => Err(e),
    });
    while i < node_count
        invariant
            i <= node_count,
            node_count == spec_u16(bytes@, 0x1A, big_endian),
            nodes_end == node_off(node_count as int),
            nodes_end + 4 <= bytes@.len(),
            names_off == nodes_end + 8,
            data_offset == spec_u32(bytes@, 0x0C, big_endian),
            files@.len() == i,
            spec_nodes(bytes@, big_endian, data_offset as int, names_off as int, i as int)
                == Ok::<Seq<EntryModel>, SarcFault>(entries_view(files@)),
            whole == spec_nodes(bytes@, big_endian, data_offset as int, names_off as int, node_count as int),
            spec_parse_sarc(bytes@) == match whole {
                Ok(f) => Ok::<(bool, Seq<EntryModel>), SarcFault>((big_endian, f)),
                Err(e) => Err(e),
            },
        decreases node_count - i,
    {
        let entry = match read_node(bytes, big_endian, data_offset, names_off, i) {
            Ok(e) => e,
            Err(e) => {
                proof {
                    lemma_nodes_err_persists(
                        bytes@,
                        big_endian,
                        data_offset as int,
                        names_off as int,
                        i + 1,
                        node_count as int,
                    );
                }
                return Err(e);
            },
        };
        let ghost before = entries_view(files@);
        files.push(entry);
        proof {
            assert(entries_view(files@) =~= before.push(files@[i as int]@));
        }
        i += 1;
    }
    Ok(ArcFile { big_endian, files })
}

/// Parse a SARC archive into an [`ArcFile`], preserving all entries (named
/// and hash-only) and the byte order.
pub fn read_arc(bytes: &[u8]) -> (r: Result<ArcFile, SarcError>)
    ensures
        parse_result_view(r) == spec_parse_sarc(bytes@),
{
    parse_sarc(bytes)
}

/// The named entries of `files`, in order, with hash-only entries dropped.
pub open spec fn named_only(files: Seq<EntryModel>) -> Seq<(Seq<char>, Seq<u8>)>
    decreases files.len(),
{
    if files.len() == 0 {
        Seq::empty()
    } else {
        let rest = named_only(files.drop_last());
        match files.last().0 {
            Some(n) => rest.push((n, files.last().1)),
            None => rest,
        }
    }
}

/// `out` lists exactly the named entries of `files`, in order, each with
/// its name and its data: `idx` picks, in increasing order, the positions
/// of `files` that carry a name, and entry `k` of `out` is the name and
/// data at position `idx[k]`.
pub open spec fn lists_named(files: Seq<EntryModel>, out: Seq<(Seq<char>, Seq<u8>)>, idx: Seq<int>) -> bool {
    &&& idx.len() == out.len()
    &&& forall|k: int| 0 <= k < idx.len() ==> 0 <= #[trigger] idx[k] < files.len()
    &&& forall|k: int, l: int| 0 <= k < l < idx.len() ==> #[trigger] idx[k] < #[trigger] idx[l]
    &&& forall|k: int|
        0 <= k < idx.len() ==> files[#[trigger] idx[k]].0 == Some(out[k].0) && files[idx[k]].1 == out[k].1
    &&& forall|j: int| 0 <= j < files.len() && (#[trigger] files[j].0) is Some ==> exists|k: int| 0 <= k < idx.len() && idx[k] == j
}

/// Unpacked files as names and data.
pub open spec fn unpacked_view(v: Seq<UnpackedFile>) -> Seq<(Seq<char>, Seq<u8>)> {
    v.map_values(|f: UnpackedFile| f@)
}

/// The positions of the named entries of `files`, in order.
pub open spec fn named_positions(files: Seq<EntryModel>) -> Seq<int>
    decreases files.len(),
{
    if files.len() == 0 {
        Seq::empty()
    } else {
        let rest = named_positions(files.drop_last());
        match files.last().0 {
            Some(_) => rest.push(files.len() - 1),
            None => rest,
        }
    }
}

/// The named entries are listed as `lists_named` says.
pub proof fn lemma_named_only_lists(files: Seq<EntryModel>)
    ensures
        lists_named(files, named_only(files), named_positions(files)),
    decreases files.len(),
{
    if files.len() > 0 {
        let f0 = files.drop_last();
        lemma_named_only_lists(f0);
        let idx0 = named_positions(f0);
        let out0 = named_only(f0);
        let idx = named_positions(files);
        let out = named_only(files);
        let n = files.len() - 1;
        assert forall|k: int| 0 <= k < idx0.len() implies files[idx0[k]] == f0[idx0[k]] by {}
        match files.last().0 {
            Some(_) => {
                assert(idx == idx0.push(n));
                assert(out == out0.push((files.last().0->0, files.last().1)));
                assert forall|j: int| 0 <= j < files.len() && (#[trigger] files[j].0) is Some implies exists|k: int|
                    0 <= k < idx.len() && idx[k] == j by {
                    if j == n {
                        assert(idx[idx0.len() as int] == j);
                    } else {
                        assert(f0[j].0 is Some);
                        let k = choose|k: int| 0 <= k < idx0.len() && idx0[k] == j;
                        assert(idx[k] == j);
                    }
                }
            },
            None => {
                assert forall|j: int| 0 <= j < files.len() && (#[trigger] files[j].0) is Some implies exists|k: int|
                    0 <= k < idx.len() && idx[k] == j by {
                    assert(j != n);
                    assert(f0[j].0 is Some);
                }
            },
        }
    }
}

/// Every file of a parsed archive holds the bytes its SFAT node points
/// at: from the header's data offset (at 0x0C) plus the node's start (at
/// node +8) to the data offset plus the node's end (at node +12).
pub proof fn lemma_parsed_file_data(b: Seq<u8>)
    ensures
        spec_parse_sarc(b) matches Ok((be, files)) ==> forall|j: int|
            0 <= j < files.len() ==> #[trigger] files[j].1 == b.subrange(
                spec_u32(b, 0x0C, be) + spec_u32(b, node_off(j) + 8, be),
                spec_u32(b, 0x0C, be) + spec_u32(b, node_off(j) + 12, be),
            ),
{
    if spec_parse_sarc(b) is Ok {
        let be = b[6] == 0xFE;
        let count = spec_u16(b, 0x1A, be);
        lemma_nodes_data(b, be, spec_u32(b, 0x0C, be), node_off(count) + 8, count);
    }
}

/// The data of the first `k` nodes read as their byte ranges.
proof fn lemma_nodes_data(b: Seq<u8>, be: bool, data_offset: int, names_off: int, k: int)
    ensures
        spec_nodes(b, be, data_offset, names_off, k) matches Ok(files) ==> files.len() == (if k < 0 { 0 } else { k })
            && forall|j: int|
            0 <= j < files.len() ==> #[trigger] files[j].1 == b.subrange(
                data_offset + spec_u32(b, node_off(j) + 8, be),
                data_offset + spec_u32(b, node_off(j) + 12, be),
            ),
    decreases k,
{
    if k > 0 {
        lemma_nodes_data(b, be, data_offset, names_off, k - 1);
        if let Ok(files) = spec_nodes(b, be, data_offset, names_off, k) {
            let prev = spec_nodes(b, be, data_offset, names_off, k - 1)->Ok_0;
            assert(files == prev.push(spec_node(b, be, data_offset, names_off, k - 1)->Ok_0));
            assert forall|j: int| 0 <= j < files.len() implies #[trigger] files[j].1 == b.subrange(
                data_offset + spec_u32(b, node_off(j) + 8, be),
                data_offset + spec_u32(b, node_off(j) + 12, be),
            ) by {
                if j < k - 1 {
                    assert(files[j] == prev[j]);
                }
            }
        }
    }
}

/// Parse a SARC archive into its named files. Hash-only entries (without a
/// stored name) are skipped.
pub fn unpack(bytes: &[u8]) -> (r: Result<Vec<UnpackedFile>, SarcError>)
    ensures
        match r {
            Ok(v) => spec_parse_sarc(bytes@) matches Ok((_, files)) && v@.map_values(
                |f: UnpackedFile| f@,
            ) == named_only(files) && exists|idx: Seq<int>| #[trigger] lists_named(files, unpacked_view(v@), idx),
            Err(e) => spec_parse_sarc(bytes@) == Err::<(bool, Seq<EntryModel>), SarcFault>(e@),
        },
{
    let arc = parse_sarc(bytes)?;
    let ghost files = entries_view(arc.files@);
    let mut out: Vec<UnpackedFile> = Vec::new();
    let n = arc.files.len();
    let mut i: usize = 0;
    while i < n
        invariant
            i <= n,
            n == arc.files@.len(),
            files == entries_view(arc.files@),
            out@.map_values(|f: UnpackedFile| f@) == named_only(files.subrange(0, i as int)),
        decreases n - i,
    {
        let ghost o0 = out@;
        proof {
            assert(files.subrange(0, i + 1).drop_last() =~= files.subrange(0, i as int));
        }
        match &arc.files[i].name {
            Some(name) => {
                out.push(UnpackedFile { name: name.clone(), data: copy_bytes(arc.files[i].data.as_slice()) });
                proof {
                    assert(out@.map_values(|f: UnpackedFile| f@) =~= o0.map_values(|f: UnpackedFile| f@).push(
                        out@.last()@,
                    ));
                }
            },
            None => {},
        }
        i += 1;
    }
    proof {
        assert(files.subrange(0, n as int) =~= files);
        lemma_named_only_lists(files);
        assert(unpacked_view(out@) == out@.map_values(|f: UnpackedFile| f@));
        assert(lists_named(files, unpacked_view(out@), named_positions(files)));
        assert(spec_parse_sarc(bytes@) == Ok::<(bool, Seq<EntryModel>), SarcFault>((arc.big_endian, files)));
        assert(exists|idx: Seq<int>| #[trigger] lists_named(files, unpacked_view(out@), idx));
    }
    Ok(out)
}

} // verus!
