//! Var-byte integers (7 bits per byte, low group first, high bit set on
//! every byte but the last, at most five bytes) and the zig-zag mapping of
//! signed deltas, shared by the index codecs.
use vstd::prelude::*;
use crate::meshopt::MeshoptError;

verus! {

/// Continue a var-byte decode at `p` with group `k` (shift `7 * k`) and the
/// bits gathered so far: the value and the position after it.
pub open spec fn vbyte_rest(data: Seq<u8>, p: int, k: int, acc: u32) -> (u32, int)
    decreases 5 - k,
{
    if k > 4 || k < 1 {
        (acc, p)
    } else {
        let g = data[p];
        let acc2 = acc | (((g & 127u8) as u32) << ((7 * k) as u32));
        if g < 128 {
            (acc2, p + 1)
        } else {
            vbyte_rest(data, p + 1, k + 1, acc2)
        }
    }
}

/// The var-byte value at `p` and the position after it.
pub open spec fn vbyte_at(data: Seq<u8>, p: int) -> (u32, int) {
    let lead = data[p];
    if lead < 128 {
        (lead as u32, p + 1)
    } else {
        vbyte_rest(data, p + 1, 1, (lead & 127u8) as u32)
    }
}

/// Where a var-byte read from `p` runs past the end of `data`, if it does.
pub open spec fn vbyte_overrun_rest(data: Seq<u8>, p: int, k: int) -> Option<int>
    decreases 5 - k,
{
    if k > 4 || k < 1 {
        None
    } else if p >= data.len() {
        Some(p)
    } else if data[p] < 128 {
        None
    } else {
        vbyte_overrun_rest(data, p + 1, k + 1)
    }
}

/// Where a var-byte read from `p` runs past the end of `data`, if it does.
pub open spec fn vbyte_overrun(data: Seq<u8>, p: int) -> Option<int> {
    if p >= data.len() {
        Some(p)
    } else if data[p] < 128 {
        None
    } else {
        vbyte_overrun_rest(data, p + 1, 1)
    }
}

/// A var-byte read runs out no earlier than where it starts.
pub proof fn lemma_vbyte_overrun_after(data: Seq<u8>, p: int, k: int)
    ensures
        vbyte_overrun_rest(data, p, k) matches Some(q) ==> q >= p,
        k == 1 ==> (vbyte_overrun(data, p - 1) matches Some(q) ==> q >= p - 1),
    decreases 5 - k,
{
    if 1 <= k <= 4 && p < data.len() && data[p] >= 128 {
        lemma_vbyte_overrun_after(data, p + 1, k + 1);
    }
}

/// The signed delta that zig-zag value `v` stands for, as a wrapping `u32`.
pub open spec fn unzigzag(v: u32) -> u32 {
    (v >> 1u32) ^ (if v & 1 == 1 { 0xffff_ffffu32 } else { 0u32 })
}

/// The zig-zag value of the wrapping delta `d`.
pub open spec fn zigzag(d: u32) -> u32 {
    ((d << 1u32) as u32) ^ (if d & 0x8000_0000 != 0 { 0xffff_ffffu32 } else { 0u32 })
}

/// The var-byte encoding of `v`.
pub open spec fn vbyte_bytes(v: u32) -> Seq<u8>
    decreases v,
{
    let b = ((v & 127) | (if v > 127 { 128u32 } else { 0u32 })) as u8;
    if v <= 127 {
        seq![b]
    } else {
        proof {
            assert(v > 127 ==> v >> 7u32 < v) by (bit_vector);
        }
        seq![b] + vbyte_bytes(v >> 7u32)
    }
}

/// Decode `unzigzag`.
pub fn unzigzag_exec(v: u32) -> (d: u32)
    ensures
        d == unzigzag(v),
{
    (v >> 1u32) ^ (if v & 1 == 1 { 0xffff_ffffu32 } else { 0u32 })
}

/// Encode `zigzag`.
pub fn zigzag_exec(d: u32) -> (v: u32)
    ensures
        v == zigzag(d),
{
    ((d << 1u32) as u32) ^ (if d & 0x8000_0000 != 0 { 0xffff_ffffu32 } else { 0u32 })
}

/// Read a var-byte value at `*p`, advancing `*p`; the caller guarantees
/// five readable bytes.
pub fn decode_vbyte(data: &[u8], p: &mut usize) -> (v: u32)
    requires
        *old(p) + 5 <= data@.len(),
    ensures
        (v, *final(p) as int) == vbyte_at(data@, *old(p) as int),
        *final(p) <= *old(p) + 5,
{
    let lead = data[*p];
    *p = *p + 1;
    if lead < 128 {
        return lead as u32;
    }
    let mut result: u32 = (lead & 127u8) as u32;
    let mut k: u32 = 1;
    while k <= 4
        invariant
            1 <= k <= 5,
            *p == *old(p) + k,
            *old(p) + 5 <= data@.len(),
            vbyte_at(data@, *old(p) as int) == vbyte_rest(data@, *p as int, k as int, result),
        decreases 5 - k,
    {
        let g = data[*p];
        *p = *p + 1;
        result = result | (((g & 127u8) as u32) << (7 * k));
        if g < 128 {
            return result;
        }
        k += 1;
    }
    result
}

/// Read a var-byte value at `*p` from a stream that may end early.
pub fn decode_vbyte_checked(data: &[u8], p: &mut usize) -> (r: Result<u32, MeshoptError>)
    requires
        *old(p) <= data@.len(),
        data@.len() < usize::MAX,
    ensures
        match vbyte_overrun(data@, *old(p) as int) {
            Some(q) => r matches Err(MeshoptError::Truncated { what, have, need }) && what == "index data stream"
                && have == data@.len() && need == q + 1,
            None => r matches Ok(v) && (v, *final(p) as int) == vbyte_at(data@, *old(p) as int),
        },
        r is Ok ==> *old(p) < *final(p) <= data@.len(),
{
    if *p >= data.len() {
        return Err(MeshoptError::Truncated { what: "index data stream", have: data.len(), need: *p + 1 });
    }
    let lead = data[*p];
    *p = *p + 1;
    if lead < 128 {
        return Ok(lead as u32);
    }
    let mut result: u32 = (lead & 127u8) as u32;
    let mut k: u32 = 1;
    let ghost p0 = *old(p);
    while k <= 4
        invariant
            1 <= k <= 5,
            data@.len() < usize::MAX,
            *p <= data@.len(),
            p0 == *old(p),
            *p == p0 + k,
            p0 < data@.len(),
            data@[p0 as int] >= 128,
            vbyte_at(data@, p0 as int) == vbyte_rest(data@, *p as int, k as int, result),
            vbyte_overrun(data@, p0 as int) == vbyte_overrun_rest(data@, *p as int, k as int),
        decreases 5 - k,
    {
        if *p >= data.len() {
            return Err(MeshoptError::Truncated { what: "index data stream", have: data.len(), need: *p + 1 });
        }
        let g = data[*p];
        *p = *p + 1;
        result = result | (((g & 127u8) as u32) << (7 * k));
        if g < 128 {
            return Ok(result);
        }
        k += 1;
    }
    Ok(result)
}

/// Append the var-byte encoding of `v`.
pub fn encode_vbyte(data: &mut Vec<u8>, v: u32)
    ensures
        final(data)@ == old(data)@ + vbyte_bytes(v),
{
    let ghost target = old(data)@ + vbyte_bytes(v);
    let mut v = v;
    loop
        invariant_except_break
            data@ + vbyte_bytes(v) == target,
        ensures
            data@ == target,
        decreases v,
    {
        let b: u8 = ((v & 127) | (if v > 127 { 128u32 } else { 0u32 })) as u8;
        data.push(b);
        proof {
            assert((v >> 7u32 == 0) == (v <= 127)) by (bit_vector);
            assert(v > 127 ==> v >> 7u32 < v) by (bit_vector);
        }
        let ghost before = v;
        v = v >> 7u32;
        if v == 0 {
            assert(data@ =~= target);
            break;
        }
        assert(data@ + vbyte_bytes(v) =~= target);
    }
}

/// The encoding of `v` is one to five bytes long.
pub proof fn lemma_vbyte_len(v: u32)
    ensures
        1 <= vbyte_bytes(v).len() <= 5,
{
    let u1 = v >> 7u32;
    let u2 = u1 >> 7u32;
    let u3 = u2 >> 7u32;
    let u4 = u3 >> 7u32;
    assert(u4 <= 127) by (bit_vector)
        requires
            u1 == v >> 7u32,
            u2 == u1 >> 7u32,
            u3 == u2 >> 7u32,
            u4 == u3 >> 7u32,
    ;
    assert(vbyte_bytes(u4).len() == 1);
    assert(vbyte_bytes(u3).len() <= 2);
    assert(vbyte_bytes(u2).len() <= 3);
    assert(vbyte_bytes(u1).len() <= 4);
    assert(vbyte_bytes(v).len() <= 5);
}

/// Decoding the groups from `q` on, after the low `7 * k` bits `acc` of
/// `w` were gathered, finishes the value `w` where its encoding ends.
proof fn lemma_vbyte_rest_of(w: u32, s: Seq<u8>, q: int, k: int, acc: u32)
    requires
        1 <= k <= 4,
        0 <= q,
        acc == w & (((1u32 << ((7 * k) as u32)) - 1) as u32),
        q + vbyte_bytes(w >> ((7 * k) as u32)).len() <= s.len(),
        s.subrange(q, q + vbyte_bytes(w >> ((7 * k) as u32)).len()) == vbyte_bytes(w >> ((7 * k) as u32)),
    ensures
        vbyte_rest(s, q, k, acc) == (w, q + vbyte_bytes(w >> ((7 * k) as u32)).len()),
    decreases 5 - k,
{
    let sh: u32 = (7 * k) as u32;
    let u = w >> sh;
    let vb = vbyte_bytes(u);
    assert(s[q] == vb[0]);
    let g = s[q];
    if u <= 127 {
        assert(g == ((u & 127) | 0u32) as u8);
        assert(g < 128 && (acc | (((g & 127u8) as u32) << sh)) == w) by (bit_vector)
            requires
                acc == w & (((1u32 << sh) - 1) as u32),
                u == w >> sh,
                u <= 127,
                7 <= sh <= 28,
                g == ((u & 127) | 0u32) as u8,
        ;
    } else {
        assert(g == ((u & 127) | 128u32) as u8);
        let acc2 = acc | (((g & 127u8) as u32) << sh);
        let sh2: u32 = (7 * (k + 1)) as u32;
        assert(g >= 128 && acc2 == w & (((1u32 << sh2) - 1) as u32) && (u >> 7u32) == w >> sh2 && sh < 28)
            by (bit_vector)
            requires
                acc == w & (((1u32 << sh) - 1) as u32),
                u == w >> sh,
                u > 127,
                7 <= sh <= 28,
                sh2 == sh + 7,
                g == ((u & 127) | 128u32) as u8,
                acc2 == acc | (((g & 127u8) as u32) << sh),
        ;
        assert(vb == seq![g] + vbyte_bytes(u >> 7u32));
        assert(s.subrange(q + 1, q + 1 + vbyte_bytes(u >> 7u32).len()) =~= vbyte_bytes(u >> 7u32)) by {
            assert forall|i: int| 0 <= i < vbyte_bytes(u >> 7u32).len() implies s[q + 1 + i] == vbyte_bytes(
                u >> 7u32,
            )[i] by {
                assert(s.subrange(q, q + vb.len())[1 + i] == vb[1 + i]);
            }
        }
        lemma_vbyte_rest_of(w, s, q + 1, k + 1, acc2);
    }
}

/// Reading a var-byte value where the encoding of `w` stands gives `w`
/// and the position after the encoding.
pub proof fn lemma_vbyte_round_trip(w: u32, s: Seq<u8>, p: int)
    requires
        0 <= p,
        p + vbyte_bytes(w).len() <= s.len(),
        s.subrange(p, p + vbyte_bytes(w).len()) == vbyte_bytes(w),
    ensures
        vbyte_at(s, p) == (w, p + vbyte_bytes(w).len()),
{
    let vb = vbyte_bytes(w);
    assert(s[p] == s.subrange(p, p + vb.len())[0]);
    let lead = s[p];
    if w <= 127 {
        assert(lead == ((w & 127) | 0u32) as u8);
        assert(lead < 128 && lead as u32 == w) by (bit_vector)
            requires
                w <= 127,
                lead == ((w & 127) | 0u32) as u8,
        ;
    } else {
        assert(lead == ((w & 127) | 128u32) as u8);
        let acc = (lead & 127u8) as u32;
        assert(lead >= 128 && acc == w & (((1u32 << 7u32) - 1) as u32)) by (bit_vector)
            requires
                w > 127,
                lead == ((w & 127) | 128u32) as u8,
                acc == (lead & 127u8) as u32,
        ;
        assert(vb == seq![lead] + vbyte_bytes(w >> 7u32));
        assert(s.subrange(p + 1, p + 1 + vbyte_bytes(w >> 7u32).len()) =~= vbyte_bytes(w >> 7u32)) by {
            assert forall|i: int| 0 <= i < vbyte_bytes(w >> 7u32).len() implies s[p + 1 + i] == vbyte_bytes(
                w >> 7u32,
            )[i] by {
                assert(s.subrange(p, p + vb.len())[1 + i] == vb[1 + i]);
            }
        }
        lemma_vbyte_rest_of(w, s, p + 1, 1, acc);
    }
}

/// A read of the groups from `q` on stays inside `s` where the rest of an
/// encoding stands.
proof fn lemma_vbyte_rest_in_bounds(w: u32, s: Seq<u8>, q: int, k: int)
    requires
        1 <= k <= 4,
        0 <= q,
        q + vbyte_bytes(w >> ((7 * k) as u32)).len() <= s.len(),
        s.subrange(q, q + vbyte_bytes(w >> ((7 * k) as u32)).len()) == vbyte_bytes(w >> ((7 * k) as u32)),
    ensures
        vbyte_overrun_rest(s, q, k) is None,
    decreases 5 - k,
{
    let sh: u32 = (7 * k) as u32;
    let u = w >> sh;
    let vb = vbyte_bytes(u);
    assert(s[q] == vb[0]);
    let g = s[q];
    if u <= 127 {
        assert(g == ((u & 127) | 0u32) as u8);
        assert(g < 128) by (bit_vector)
            requires
                u <= 127,
                g == ((u & 127) | 0u32) as u8,
        ;
    } else {
        assert(g == ((u & 127) | 128u32) as u8);
        let sh2: u32 = (7 * (k + 1)) as u32;
        assert(g >= 128 && (u >> 7u32) == w >> sh2 && sh < 28) by (bit_vector)
            requires
                u == w >> sh,
                u > 127,
                7 <= sh <= 28,
                sh2 == sh + 7,
                g == ((u & 127) | 128u32) as u8,
        ;
        assert(vb == seq![g] + vbyte_bytes(u >> 7u32));
        assert(s.subrange(q + 1, q + 1 + vbyte_bytes(u >> 7u32).len()) =~= vbyte_bytes(u >> 7u32)) by {
            assert forall|i: int| 0 <= i < vbyte_bytes(u >> 7u32).len() implies s[q + 1 + i] == vbyte_bytes(
                u >> 7u32,
            )[i] by {
                assert(s.subrange(q, q + vb.len())[1 + i] == vb[1 + i]);
            }
        }
        lemma_vbyte_rest_in_bounds(w, s, q + 1, k + 1);
    }
}

/// A read where the encoding of `w` stands does not run past the end.
pub proof fn lemma_vbyte_in_bounds(w: u32, s: Seq<u8>, p: int)
    requires
        0 <= p,
        p + vbyte_bytes(w).len() <= s.len(),
        s.subrange(p, p + vbyte_bytes(w).len()) == vbyte_bytes(w),
    ensures
        vbyte_overrun(s, p) is None,
{
    let vb = vbyte_bytes(w);
    assert(s[p] == s.subrange(p, p + vb.len())[0]);
    let lead = s[p];
    if w <= 127 {
        assert(lead == ((w & 127) | 0u32) as u8);
        assert(lead < 128) by (bit_vector)
            requires
                w <= 127,
                lead == ((w & 127) | 0u32) as u8,
        ;
    } else {
        assert(lead == ((w & 127) | 128u32) as u8);
        assert(lead >= 128 && (w >> 7u32) == w >> ((7 * 1) as u32)) by (bit_vector)
            requires
                w > 127,
                lead == ((w & 127) | 128u32) as u8,
        ;
        assert(vb == seq![lead] + vbyte_bytes(w >> 7u32));
        assert(s.subrange(p + 1, p + 1 + vbyte_bytes(w >> 7u32).len()) =~= vbyte_bytes(w >> 7u32)) by {
            assert forall|i: int| 0 <= i < vbyte_bytes(w >> 7u32).len() implies s[p + 1 + i] == vbyte_bytes(
                w >> 7u32,
            )[i] by {
                assert(s.subrange(p, p + vb.len())[1 + i] == vb[1 + i]);
            }
        }
        lemma_vbyte_rest_in_bounds(w, s, p + 1, 1);
    }
}

/// Zig-zag decoding undoes zig-zag encoding.
pub proof fn lemma_zigzag_round_trip(d: u32)
    ensures
        unzigzag(zigzag(d)) == d,
{
    assert(((((d << 1u32) as u32) ^ (if d & 0x8000_0000 != 0 { 0xffff_ffffu32 } else { 0u32 })) >> 1u32) ^ (if (
    (((d << 1u32) as u32) ^ (if d & 0x8000_0000 != 0 { 0xffff_ffffu32 } else { 0u32 }))) & 1 == 1 {
        0xffff_ffffu32
    } else {
        0u32
    }) == d) by (bit_vector);
}

} // verus!
