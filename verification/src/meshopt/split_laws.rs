//! The split decode of a code stream and a data stream agrees with the
//! decode of the whole buffer that holds them behind a header byte and
//! before the standard table.
use vstd::prelude::*;
use crate::meshopt::index::{
    code_aux_table, idx_run, idx_step, index_buffer_result, split_result, split_used_result, IdxStep,
};
use crate::meshopt::MeshoptError;

verus! {

/// Each decoded triangle takes exactly one code byte.
pub proof fn lemma_run_code_use(code: Seq<u8>, data: Seq<u8>, table: Seq<u8>, fecmax: int, k: int)
    requires
        k >= 0,
    ensures
        idx_run(code, data, table, fecmax, k) matches Ok((s, _)) ==> s.cp == k,
    decreases k,
{
    if k > 0 {
        lemma_run_code_use(code, data, table, fecmax, k - 1);
        reveal(idx_step);
        match idx_run(code, data, table, fecmax, k - 1) {
            Ok((s, _)) => {
                match idx_step(s, code, data, table, fecmax) {
                    _ => {},
                }
            },
            Err(_) => {},
        }
    }
}

/// The whole index buffer `0xe0 | version`, `code`, `data`, standard table.
pub open spec fn whole_buffer(code: Seq<u8>, data: Seq<u8>, version: u8) -> Seq<u8> {
    seq![0xe0u8 | version] + code + data + code_aux_table()
}

/// Decoding the code and data streams apart gives what decoding the whole
/// buffer that holds them gives, and the split decode reports that it used
/// the whole code stream and the whole data stream: when `whole` is what
/// `decode_index_buffer` returns on `whole_buffer(code, data, version)`,
/// `used` what `decode_index_buffer_split_used` returns and `split` what
/// `decode_index_buffer_split` returns on the two streams, and the whole
/// decode succeeds, then all three give the same index bytes.
pub proof fn lemma_split_decode_matches_whole(
    index_count: usize,
    index_size: usize,
    code: Seq<u8>,
    data: Seq<u8>,
    version: u8,
    whole: Result<Vec<u8>, MeshoptError>,
    used: Result<(Vec<u8>, usize, usize), MeshoptError>,
    split: Result<Vec<u8>, MeshoptError>,
)
    requires
        version <= 1,
        code.len() == index_count / 3,
        index_buffer_result(index_count, index_size, whole_buffer(code, data, version), whole),
        split_used_result(index_count, index_size, code, data, version, used),
        split_result(index_count, index_size, code, data, version, split),
        whole is Ok,
    ensures
        whole matches Ok(x) && used matches Ok((y, cu, du)) && y@ == x@ && cu == index_count / 3 && du
            == data.len(),
        whole matches Ok(x) && split matches Ok(z) && z@ == x@,
{
    let b = whole_buffer(code, data, version);
    let n3 = index_count / 3;
    assert(b[0] == 0xe0u8 | version);
    assert(((0xe0u8 | version) & 0xf0u8) == 0xe0u8 && ((0xe0u8 | version) & 0x0fu8) == version) by (bit_vector)
        requires
            version <= 1,
    ;
    assert(b.subrange(1, 1 + n3) =~= code);
    assert(b.subrange(1 + n3, b.len() - 16) =~= data);
    assert(b.subrange(b.len() - 16, b.len() as int) =~= code_aux_table());
    lemma_run_code_use(code, data, code_aux_table(), if version >= 1 { 13 } else { 15 }, index_count as int / 3);
}

} // verus!
