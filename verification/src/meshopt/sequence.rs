//! The index sequence codec (`0xd0`): each index is a zig-zag delta against
//! one of two baselines, var-byte coded with the baseline's number in the
//! low bit. The encoder switches baseline when the delta against the
//! current one is 30 or more in magnitude.
use vstd::prelude::*;
use crate::meshopt::vbyte::{
    lemma_vbyte_len, lemma_vbyte_round_trip, lemma_zigzag_round_trip, decode_vbyte, encode_vbyte, unzigzag, unzigzag_exec, vbyte_at, vbyte_bytes, zigzag, zigzag_exec,
};
use crate::meshopt::{index_bytes, push_index, wrap_add, wrap_sub, MeshoptArgument, MeshoptError};

use crate::meshopt::message::{describe, message};

verus! {

/// The decoder after `n` indices of the stream `b` whose data ends at
/// `end`: the indices, the two baselines and the read position; or the
/// position at which the data ran out.
pub open spec fn seq_decode(b: Seq<u8>, end: int, n: int) -> Result<(Seq<u32>, u32, u32, int), int>
    decreases n,
{
    if n <= 0 {
        Ok((Seq::empty(), 0u32, 0u32, 1))
    } else {
        match seq_decode(b, end, n - 1) {
            Err(q) => Err(q),
            Ok((ix, l0, l1, p)) => if p >= end {
                Err(p)
            } else {
                let (v, p2) = vbyte_at(b, p);
                let d = unzigzag(v >> 1u32);
                if v & 1 == 0 {
                    let index = wrap_add(l0, d);
                    Ok((ix.push(index), index, l1, p2))
                } else {
                    let index = wrap_add(l1, d);
                    Ok((ix.push(index), l0, index, p2))
                }
            },
        }
    }
}

/// Once the data has run out, later indices leave the decode failed.
proof fn lemma_seq_decode_failed_stays(b: Seq<u8>, end: int, n1: int, n2: int)
    requires
        0 <= n1 <= n2,
        seq_decode(b, end, n1) is Err,
    ensures
        seq_decode(b, end, n2) == seq_decode(b, end, n1),
    decreases n2 - n1,
{
    if n1 < n2 {
        lemma_seq_decode_failed_stays(b, end, n1, n2 - 1);
    }
}

/// Whether a wrapping delta is 30 or more in magnitude as a signed value.
pub open spec fn far_delta(d: u32) -> bool {
    30 <= d && d <= 0xffff_ffe2
}

/// The encoder after the first `n` indices: the bytes so far, the two
/// baselines, the current baseline, and whether every delta so far kept
/// its top bit clear (so that the shifted var-byte value lost nothing).
pub open spec fn seq_encode(ix: Seq<u32>, n: int) -> (Seq<u8>, u32, u32, u32, bool)
    decreases n,
{
    if n <= 0 {
        (Seq::empty(), 0u32, 0u32, 0u32, true)
    } else {
        let (bytes, l0, l1, cur, exact) = seq_encode(ix, n - 1);
        let index = ix[n - 1];
        let before = if cur == 0 { l0 } else { l1 };
        let cur2 = if far_delta(wrap_sub(index, before)) { cur ^ 1u32 } else { cur };
        let base = if cur2 == 0 { l0 } else { l1 };
        let v = zigzag(wrap_sub(index, base));
        let w = ((v << 1u32) as u32) | cur2;
        (
            bytes + vbyte_bytes(w),
            if cur2 == 0 { index } else { l0 },
            if cur2 == 0 { l1 } else { index },
            cur2,
            exact && v < 0x8000_0000,
        )
    }
}

/// The index sequence stream of the first `n` indices of `ix` at `version`.
pub open spec fn seq_stream(ix: Seq<u32>, n: int, version: u8) -> Seq<u8> {
    seq![(0xd0u8 | version) as u8] + seq_encode(ix, n).0 + seq![0u8, 0u8, 0u8, 0u8]
}

/// Whether encoding the first `n` indices loses nothing.
pub open spec fn seq_exact(ix: Seq<u32>, n: int) -> bool {
    seq_encode(ix, n).4
}

/// The distance between two positions.
pub open spec fn abs_diff(a: int, b: int) -> int {
    if a >= b {
        a - b
    } else {
        b - a
    }
}

/// Decode an index sequence (`0xd0`) of `index_count` indices of
/// `index_size` (2 or 4) bytes. The stream is the header byte, the
/// var-byte values and four bytes of padding, which must be exactly what
/// is left after the last value.
pub fn decode_index_sequence(index_count: usize, index_size: usize, buffer: &[u8]) -> (r: Result<
    Vec<u8>,
    MeshoptError,
>)
    requires
        index_count + 5 <= usize::MAX,
        buffer@.len() < usize::MAX,
    ensures
        index_size != 2 && index_size != 4 ==> (r matches Err(MeshoptError::Invalid(a)) && a@
            == message(MeshoptArgument::IndexSize(index_size))),
        (index_size == 2 || index_size == 4) && buffer@.len() < index_count + 5 ==> (r matches Err(
            MeshoptError::Truncated { what, have, need },
        ) && what == "index sequence" && have == buffer@.len() && need == index_count + 5),
        (index_size == 2 || index_size == 4) && buffer@.len() >= index_count + 5 && ((buffer@[0] & 0xf0u8)
            != 0xd0u8 || (buffer@[0] & 0x0fu8) > 1) ==> (r matches Err(MeshoptError::BadHeader { what, byte })
            && what == "index sequence" && byte == buffer@[0]),
        (index_size == 2 || index_size == 4) && buffer@.len() >= index_count + 5 && (buffer@[0] & 0xf0u8)
            == 0xd0u8 && (buffer@[0] & 0x0fu8) <= 1 ==> match seq_decode(
            buffer@,
            buffer@.len() - 4,
            index_count as int,
        ) {
            Err(q) => r matches Err(MeshoptError::Truncated { what, have, need }) && what
                == "index sequence (data underrun)" && have == buffer@.len() - 4 && need == q + 1,
            Ok((ix, l0, l1, p)) => if p != buffer@.len() - 4 {
                r matches Err(MeshoptError::ExtraBytes { what, leftover }) && what == "index sequence"
                    && leftover == abs_diff(buffer@.len() - 4, p)
            } else {
                r matches Ok(out) && out@ == index_bytes(ix, index_size as int)
            },
        },
{
    if index_size != 2 && index_size != 4 {
        return Err(MeshoptError::Invalid(describe(MeshoptArgument::IndexSize(index_size))));
    }
    let need = 1 + index_count + 4;
    if buffer.len() < need {
        return Err(MeshoptError::Truncated { what: "index sequence", have: buffer.len(), need });
    }
    if (buffer[0] & 0xf0u8) != 0xd0u8 || (buffer[0] & 0x0fu8) > 1 {
        return Err(MeshoptError::BadHeader { what: "index sequence", byte: buffer[0] });
    }
    let end = buffer.len() - 4;
    let mut out: Vec<u8> = Vec::new();
    let mut l0: u32 = 0;
    let mut l1: u32 = 0;
    let mut p: usize = 1;
    let mut i: usize = 0;
    let ghost mut ix: Seq<u32> = Seq::empty();
    while i < index_count
        invariant
            i <= index_count,
            index_size == 2 || index_size == 4,
            end == buffer@.len() - 4,
            buffer@.len() < usize::MAX,
            buffer@.len() >= index_count + 5,
            (buffer@[0] & 0xf0u8) == 0xd0u8 && (buffer@[0] & 0x0fu8) <= 1,
            p <= buffer@.len(),
            seq_decode(buffer@, end as int, i as int) == Ok::<(Seq<u32>, u32, u32, int), int>(
                (ix, l0, l1, p as int),
            ),
            out@ == index_bytes(ix, index_size as int),
        decreases index_count - i,
    {
        if p >= end {
            proof {
                lemma_seq_decode_failed_stays(buffer@, end as int, i + 1, index_count as int);
            }
            return Err(MeshoptError::Truncated { what: "index sequence (data underrun)", have: end, need: p + 1 });
        }
        let v = decode_vbyte(buffer, &mut p);
        let d = unzigzag_exec(v >> 1u32);
        let index: u32;
        if v & 1 == 0 {
            index = l0.wrapping_add(d);
            l0 = index;
        } else {
            index = l1.wrapping_add(d);
            l1 = index;
        }
        push_index(&mut out, index, index_size);
        proof {
            let prev = ix;
            ix = ix.push(index);
            assert(ix.drop_last() =~= prev);
        }
        i += 1;
    }
    if p != end {
        let leftover = if end >= p { end - p } else { p - end };
        return Err(MeshoptError::ExtraBytes { what: "index sequence", leftover });
    }
    Ok(out)
}

/// Encode the first `index_count` indices as an index sequence at format
/// `version` (0 or 1): the header byte `0xd0 | version`, one var-byte
/// value per index, then four zero bytes.
pub fn encode_index_sequence(indices: &[u32], index_count: usize, version: u8) -> (r: Result<
    Vec<u8>,
    MeshoptError,
>)
    ensures
        version > 1 ==> (r matches Err(MeshoptError::Invalid(a)) && a@ == message(MeshoptArgument::SequenceVersion(
            version,
        ))),
        version <= 1 && indices@.len() < index_count ==> (r matches Err(
            MeshoptError::Truncated { what, have, need },
        ) && what == "index sequence source" && have == indices@.len() && need == index_count),
        version <= 1 && indices@.len() >= index_count ==> (r matches Ok(out) && out@ == seq_stream(
            indices@,
            index_count as int,
            version,
        )),
{
    if version > 1 {
        return Err(MeshoptError::Invalid(describe(MeshoptArgument::SequenceVersion(version))));
    }
    if indices.len() < index_count {
        return Err(MeshoptError::Truncated { what: "index sequence source", have: indices.len(), need: index_count });
    }
    let mut data: Vec<u8> = Vec::new();
    data.push(0xd0u8 | version);
    let ghost head = data@;
    let mut l0: u32 = 0;
    let mut l1: u32 = 0;
    let mut cur: u32 = 0;
    let mut i: usize = 0;
    while i < index_count
        invariant
            i <= index_count,
            index_count <= indices@.len(),
            head == seq![(0xd0u8 | version) as u8],
            ({
                let (bytes, e0, e1, c, x) = seq_encode(indices@, i as int);
                data@ == head + bytes && e0 == l0 && e1 == l1 && c == cur
            }),
            cur == 0 || cur == 1,
        decreases index_count - i,
    {
        let index = indices[i];
        let before = if cur == 0 { l0 } else { l1 };
        let cd = index.wrapping_sub(before);
        if 30 <= cd && cd <= 0xffff_ffe2 {
            cur = cur ^ 1;
            assert(cur == 0 || cur == 1) by (bit_vector)
                requires
                    cur == (0u32 ^ 1u32) || cur == (1u32 ^ 1u32),
            ;
        }
        let base = if cur == 0 { l0 } else { l1 };
        let v = zigzag_exec(index.wrapping_sub(base));
        let ghost prev = data@;
        encode_vbyte(&mut data, ((v << 1u32) as u32) | cur);
        if cur == 0 {
            l0 = index;
        } else {
            l1 = index;
        }
        assert(data@ =~= head + seq_encode(indices@, i + 1).0);
        i += 1;
    }
    data.push(0);
    data.push(0);
    data.push(0);
    data.push(0);
    assert(data@ =~= seq_stream(indices@, index_count as int, version));
    Ok(data)
}

/// The encoder's current baseline is 0 or 1.
proof fn lemma_seq_encode_cur(ix: Seq<u32>, n: int)
    ensures
        seq_encode(ix, n).3 == 0 || seq_encode(ix, n).3 == 1,
    decreases n,
{
    if n > 0 {
        lemma_seq_encode_cur(ix, n - 1);
        let c = seq_encode(ix, n - 1).3;
        assert((c ^ 1u32) == 0 || (c ^ 1u32) == 1) by (bit_vector)
            requires
                c == 0 || c == 1,
        ;
    }
}

/// The bytes for the first `k` indices begin the bytes for the first `n`,
/// each later index adds at least one byte, and exactness of the longer
/// list holds for the shorter.
proof fn lemma_seq_encode_prefix(ix: Seq<u32>, k: int, n: int)
    requires
        0 <= k <= n,
    ensures
        seq_encode(ix, k).0.len() + (n - k) <= seq_encode(ix, n).0.len(),
        seq_encode(ix, n).0.subrange(0, seq_encode(ix, k).0.len() as int) == seq_encode(ix, k).0,
        seq_exact(ix, n) ==> seq_exact(ix, k),
    decreases n - k,
{
    if k < n {
        lemma_seq_encode_prefix(ix, k, n - 1);
        let (bytes, l0, l1, cur, x) = seq_encode(ix, n - 1);
        let index = ix[n - 1];
        let before = if cur == 0 { l0 } else { l1 };
        let cur2 = if far_delta(wrap_sub(index, before)) { cur ^ 1u32 } else { cur };
        let base = if cur2 == 0 { l0 } else { l1 };
        let v = zigzag(wrap_sub(index, base));
        let w = ((v << 1u32) as u32) | cur2;
        lemma_vbyte_len(w);
        let kb = seq_encode(ix, k).0;
        assert((bytes + vbyte_bytes(w)).subrange(0, kb.len() as int) =~= bytes.subrange(0, kb.len() as int));
    } else {
        assert(seq_encode(ix, n).0.subrange(0, seq_encode(ix, n).0.len() as int) =~= seq_encode(ix, n).0);
    }
}

/// Decoding the first `k` values of the stream for `n` indices gives the
/// first `k` indices, the encoder's baselines after them, and the position
/// where the encoder's bytes for them end.
proof fn lemma_seq_decode_prefix(ix: Seq<u32>, n: int, version: u8, k: int)
    requires
        0 <= k <= n <= ix.len(),
        seq_exact(ix, n),
    ensures
        ({
            let b = seq_stream(ix, n, version);
            let e = seq_encode(ix, k);
            seq_decode(b, b.len() - 4, k) == Ok::<(Seq<u32>, u32, u32, int), int>(
                (ix.subrange(0, k), e.1, e.2, 1 + e.0.len() as int),
            )
        }),
    decreases k,
{
    let b = seq_stream(ix, n, version);
    let end = b.len() - 4;
    if k > 0 {
        lemma_seq_decode_prefix(ix, n, version, k - 1);
        lemma_seq_encode_prefix(ix, k, n);
        lemma_seq_encode_prefix(ix, k - 1, k);
        lemma_seq_encode_cur(ix, k - 1);
        let (bytes, l0, l1, cur, x) = seq_encode(ix, k - 1);
        let index = ix[k - 1];
        let before = if cur == 0 { l0 } else { l1 };
        let cur2 = if far_delta(wrap_sub(index, before)) { cur ^ 1u32 } else { cur };
        let base = if cur2 == 0 { l0 } else { l1 };
        let dd = wrap_sub(index, base);
        let v = zigzag(dd);
        let w = ((v << 1u32) as u32) | cur2;
        let all = seq_encode(ix, n).0;
        let kb = seq_encode(ix, k).0;
        assert(kb == bytes + vbyte_bytes(w));
        lemma_vbyte_len(w);
        let p: int = 1 + bytes.len() as int;
        assert(b.subrange(p, p + vbyte_bytes(w).len()) =~= vbyte_bytes(w)) by {
            assert forall|i: int| 0 <= i < vbyte_bytes(w).len() implies b[p + i] == vbyte_bytes(w)[i] by {
                assert(b[p + i] == all[bytes.len() + i]);
                assert(all.subrange(0, kb.len() as int)[bytes.len() + i] == kb[bytes.len() + i]);
            }
        }
        lemma_vbyte_round_trip(w, b, p);
        assert((cur2 == 0 || cur2 == 1)) by {
            assert((cur ^ 1u32) == 0 || (cur ^ 1u32) == 1) by (bit_vector)
                requires
                    cur == 0 || cur == 1,
            ;
        }
        assert(v < 0x8000_0000);
        assert((w >> 1u32) == v && (w & 1) == cur2) by (bit_vector)
            requires
                w == ((v << 1u32) as u32) | cur2,
                v < 0x8000_0000,
                cur2 == 0 || cur2 == 1,
        ;
        lemma_zigzag_round_trip(dd);
        assert(wrap_add(base, dd) == index);
        assert(ix.subrange(0, k - 1).push(index) =~= ix.subrange(0, k));
    } else {
        assert(ix.subrange(0, 0) =~= Seq::<u32>::empty());
    }
}

/// Decoding the index sequence written for the first `n` indices gives
/// back exactly those indices, and the values end exactly where the
/// padding starts, for every list on which the encoder loses nothing: each
/// zig-zag delta, taken against the baseline the encoder picked, keeps its
/// top bit clear. (A delta of 2^30 or more in magnitude sets that bit,
/// and the shift into the var-byte value drops it.)
pub proof fn lemma_sequence_round_trip(ix: Seq<u32>, n: int, version: u8)
    requires
        0 <= n <= ix.len(),
        version <= 1,
        seq_exact(ix, n),
    ensures
        ({
            let b = seq_stream(ix, n, version);
            &&& b.len() >= n + 5
            &&& (b[0] & 0xf0u8) == 0xd0u8 && (b[0] & 0x0fu8) <= 1
            &&& seq_decode(b, b.len() - 4, n) matches Ok((out, l0, l1, p)) && out == ix.subrange(0, n) && p
                == b.len() - 4
        }),
{
    let b = seq_stream(ix, n, version);
    lemma_seq_encode_prefix(ix, 0, n);
    lemma_seq_decode_prefix(ix, n, version, n);
    assert(b[0] == (0xd0u8 | version) as u8);
    assert(((0xd0u8 | version) as u8 & 0xf0u8) == 0xd0u8 && ((0xd0u8 | version) as u8 & 0x0fu8) <= 1)
        by (bit_vector)
        requires
            version <= 1,
    ;
}

/// A list whose indices are all below 2^30 encodes without loss.
pub proof fn lemma_small_indices_exact(ix: Seq<u32>, n: int)
    requires
        0 <= n <= ix.len(),
        forall|i: int| 0 <= i < n ==> #[trigger] ix[i] < 0x4000_0000,
    ensures
        seq_exact(ix, n),
        seq_encode(ix, n).1 < 0x4000_0000 && seq_encode(ix, n).2 < 0x4000_0000,
    decreases n,
{
    if n > 0 {
        lemma_small_indices_exact(ix, n - 1);
        let (bytes, l0, l1, cur, x) = seq_encode(ix, n - 1);
        let index = ix[n - 1];
        let before = if cur == 0 { l0 } else { l1 };
        let cur2 = if far_delta(wrap_sub(index, before)) { cur ^ 1u32 } else { cur };
        let base = if cur2 == 0 { l0 } else { l1 };
        let dd = wrap_sub(index, base);
        assert(base < 0x4000_0000 && index < 0x4000_0000);
        assert(dd < 0x4000_0000 || dd > 0xc000_0000);
        assert(zigzag(dd) < 0x8000_0000) by (bit_vector)
            requires
                dd < 0x4000_0000 || dd > 0xc000_0000,
        ;
    }
}

} // verus!
