//! Little- and big-endian integer fields over byte sequences: the spec
//! reading of a field, checked exec readers, and exec writers whose output
//! is stated as the encoded bytes.
use vstd::prelude::*;
use vstd::utf8::{decode_utf8, encode_utf8, valid_utf8};

verus! {

/// The value of the unsigned 16-bit field at `off` (little-endian unless `be`).
pub open spec fn spec_u16(b: Seq<u8>, off: int, be: bool) -> int {
    if be {
        b[off] * 256 + b[off + 1]
    } else {
        b[off] + b[off + 1] * 256
    }
}

/// The value of the unsigned 32-bit field at `off` (little-endian unless `be`).
pub open spec fn spec_u32(b: Seq<u8>, off: int, be: bool) -> int {
    if be {
        b[off] * 16777216 + b[off + 1] * 65536 + b[off + 2] * 256 + b[off + 3]
    } else {
        b[off] + b[off + 1] * 256 + b[off + 2] * 65536 + b[off + 3] * 16777216
    }
}

/// The two bytes that encode `v` (little-endian unless `be`).
pub open spec fn u16_bytes(v: u16, be: bool) -> Seq<u8> {
    let lo = (v % 256) as u8;
    let hi = (v / 256) as u8;
    if be {
        seq![hi, lo]
    } else {
        seq![lo, hi]
    }
}

/// The four bytes that encode `v` (little-endian unless `be`).
pub open spec fn u32_bytes(v: u32, be: bool) -> Seq<u8> {
    let b0 = (v % 256) as u8;
    let b1 = ((v / 256) % 256) as u8;
    let b2 = ((v / 65536) % 256) as u8;
    let b3 = (v / 16777216) as u8;
    if be {
        seq![b3, b2, b1, b0]
    } else {
        seq![b0, b1, b2, b3]
    }
}

/// Reading back the encoding of a 16-bit value gives the value.
pub proof fn lemma_u16_bytes_roundtrip(v: u16, be: bool)
    ensures
        u16_bytes(v, be).len() == 2,
        spec_u16(u16_bytes(v, be), 0, be) == v,
{
}

/// Reading back the encoding of a 32-bit value gives the value.
pub proof fn lemma_u32_bytes_roundtrip(v: u32, be: bool)
    ensures
        u32_bytes(v, be).len() == 4,
        spec_u32(u32_bytes(v, be), 0, be) == v,
{
}

/// Read the 16-bit field at `off`; the caller has checked the bounds.
pub fn get_u16(b: &[u8], off: usize, be: bool) -> (v: u16)
    requires
        off + 2 <= b@.len(),
    ensures
        v == spec_u16(b@, off as int, be),
{
    let b0 = b[off] as u16;
    let b1 = b[off + 1] as u16;
    if be {
        b0 * 256 + b1
    } else {
        b0 + b1 * 256
    }
}

/// Read the 32-bit field at `off`; the caller has checked the bounds.
pub fn get_u32(b: &[u8], off: usize, be: bool) -> (v: u32)
    requires
        off + 4 <= b@.len(),
    ensures
        v == spec_u32(b@, off as int, be),
{
    let b0 = b[off] as u32;
    let b1 = b[off + 1] as u32;
    let b2 = b[off + 2] as u32;
    let b3 = b[off + 3] as u32;
    if be {
        b0 * 16777216 + b1 * 65536 + b2 * 256 + b3
    } else {
        b0 + b1 * 256 + b2 * 65536 + b3 * 16777216
    }
}

/// Append the encoding of `v` to `out`.
pub fn push_u16(out: &mut Vec<u8>, v: u16, be: bool)
    ensures
        final(out)@ == old(out)@ + u16_bytes(v, be),
{
    let lo = (v % 256) as u8;
    let hi = (v / 256) as u8;
    if be {
        out.push(hi);
        out.push(lo);
    } else {
        out.push(lo);
        out.push(hi);
    }
    assert(final(out)@ =~= old(out)@ + u16_bytes(v, be));
}

/// Append the encoding of `v` to `out`.
pub fn push_u32(out: &mut Vec<u8>, v: u32, be: bool)
    ensures
        final(out)@ == old(out)@ + u32_bytes(v, be),
{
    let b0 = (v % 256) as u8;
    let b1 = ((v / 256) % 256) as u8;
    let b2 = ((v / 65536) % 256) as u8;
    let b3 = (v / 16777216) as u8;
    if be {
        out.push(b3);
        out.push(b2);
        out.push(b1);
        out.push(b0);
    } else {
        out.push(b0);
        out.push(b1);
        out.push(b2);
        out.push(b3);
    }
    assert(final(out)@ =~= old(out)@ + u32_bytes(v, be));
}

/// Append every byte of `src` to `out`.
pub fn push_slice(out: &mut Vec<u8>, src: &[u8])
    ensures
        final(out)@ == old(out)@ + src@,
{
    let mut i: usize = 0;
    while i < src.len()
        invariant
            i <= src@.len(),
            out@ == old(out)@ + src@.subrange(0, i as int),
        decreases src@.len() - i,
    {
        out.push(src[i]);
        i += 1;
        assert(out@ =~= old(out)@ + src@.subrange(0, i as int));
    }
    assert(src@.subrange(0, src@.len() as int) =~= src@);
}

/// Append `n` zero bytes to `out`.
pub fn push_zeros(out: &mut Vec<u8>, n: usize)
    ensures
        final(out)@ == old(out)@ + Seq::new(n as nat, |i: int| 0u8),
{
    let mut i: usize = 0;
    while i < n
        invariant
            i <= n,
            out@ == old(out)@ + Seq::new(i as nat, |k: int| 0u8),
        decreases n - i,
    {
        out.push(0u8);
        i += 1;
        assert(out@ =~= old(out)@ + Seq::new(i as nat, |k: int| 0u8));
    }
}

/// A copy of `src` as an owned vector.
pub fn copy_bytes(src: &[u8]) -> (v: Vec<u8>)
    ensures
        v@ == src@,
{
    let mut v: Vec<u8> = Vec::new();
    push_slice(&mut v, src);
    assert(v@ =~= src@);
    v
}

/// Whether `b[off..off + m.len()]` holds exactly the bytes `m`.
pub open spec fn has_bytes_at(b: Seq<u8>, off: int, m: Seq<u8>) -> bool {
    0 <= off && off + m.len() <= b.len() && b.subrange(off, off + m.len()) == m
}

/// Compare `b[off..off + m.len()]` with `m`, returning `false` when the
/// range runs past the end of `b`.
pub fn bytes_at(b: &[u8], off: usize, m: &[u8]) -> (r: bool)
    ensures
        r == has_bytes_at(b@, off as int, m@),
{
    if off > b.len() || m.len() > b.len() - off {
        return false;
    }
    let mut i: usize = 0;
    while i < m.len()
        invariant
            off + m@.len() <= b@.len(),
            b@.len() == b.len(),
            i <= m@.len(),
            forall|k: int| 0 <= k < i ==> b@[off + k] == m@[k],
        decreases m@.len() - i,
    {
        let j = off + i;
        if b[j] != m[i] {
            assert(b@.subrange(off as int, off + m@.len())[i as int] != m@[i as int]);
            return false;
        }
        i += 1;
    }
    assert(b@.subrange(off as int, off + m@.len()) =~= m@);
    true
}

/// The error `std::str::from_utf8` reports for malformed UTF-8.
#[verifier::external_type_specification]
#[verifier::external_body]
pub struct ExUtf8Error(std::str::Utf8Error);

/// Decode `bytes` as UTF-8 into an owned string.
///
/// Calls `std::str::from_utf8`, whose documentation states that it succeeds
/// exactly when the bytes are well-formed UTF-8; the contract claims that
/// this agrees with vstd's `valid_utf8`, and that the resulting string's
/// characters are the UTF-8 decoding of the bytes. Nothing is stated of the
/// error value beyond its presence.
#[verifier::external_body]
pub fn utf8_to_string(bytes: &[u8]) -> (r: Result<String, std::str::Utf8Error>)
    ensures
        r is Ok <==> valid_utf8(bytes@),
        r matches Ok(s) ==> s@ == decode_utf8(bytes@),
{
    std::str::from_utf8(bytes).map(|s| s.to_owned())
}

/// Whether two strings hold the same characters, compared byte by byte.
pub fn str_equal(a: &str, b: &str) -> (r: bool)
    ensures
        r == (a@ == b@),
{
    let ab = a.as_bytes();
    let bb = b.as_bytes();
    let same = ab.len() == bb.len() && bytes_at(ab, 0, bb);
    proof {
        vstd::utf8::encode_utf8_decode_utf8(a@);
        vstd::utf8::encode_utf8_decode_utf8(b@);
        if same {
            assert(ab@.subrange(0, bb@.len() as int) =~= ab@);
        } else if a@ == b@ {
            assert(ab@.subrange(0, bb@.len() as int) =~= bb@);
        }
    }
    same
}

/// Whether the four bytes at `off` are `m0 m1 m2 m3` (false past the end).
pub fn magic4_at(b: &[u8], off: usize, m0: u8, m1: u8, m2: u8, m3: u8) -> (r: bool)
    ensures
        r == has_bytes_at(b@, off as int, seq![m0, m1, m2, m3]),
{
    if off > b.len() || 4 > b.len() - off {
        return false;
    }
    let r = b[off] == m0 && b[off + 1] == m1 && b[off + 2] == m2 && b[off + 3] == m3;
    proof {
        let m = seq![m0, m1, m2, m3];
        if r {
            assert(b@.subrange(off as int, off + 4) =~= m);
        } else {
            assert(b@.subrange(off as int, off + 4) != m) by {
                if b@.subrange(off as int, off + 4) == m {
                    assert(b@.subrange(off as int, off + 4)[0] == m[0]);
                    assert(b@.subrange(off as int, off + 4)[1] == m[1]);
                    assert(b@.subrange(off as int, off + 4)[2] == m[2]);
                    assert(b@.subrange(off as int, off + 4)[3] == m[3]);
                }
            }
        }
    }
    r
}

/// `x` stands in `data` at `q`.
pub open spec fn stands_at(data: Seq<u8>, q: int, x: Seq<u8>) -> bool {
    0 <= q && q + x.len() <= data.len() && data.subrange(q, q + x.len()) == x
}

/// Two pieces standing together stand one after the other.
pub proof fn lemma_stands_at_split(data: Seq<u8>, q: int, x: Seq<u8>, y: Seq<u8>)
    requires
        stands_at(data, q, x + y),
    ensures
        stands_at(data, q, x),
        stands_at(data, q + x.len(), y),
{
    let whole = data.subrange(q, q + (x + y).len());
    assert(whole == x + y);
    assert(data.subrange(q, q + x.len()) =~= whole.subrange(0, x.len() as int));
    assert(whole.subrange(0, x.len() as int) =~= x);
    assert(data.subrange(q + x.len(), q + x.len() + y.len()) =~= whole.subrange(
        x.len() as int,
        (x + y).len() as int,
    ));
    assert(whole.subrange(x.len() as int, (x + y).len() as int) =~= y);
}

} // verus!
