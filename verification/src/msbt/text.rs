//! Text helpers for MSBT messages: UTF-16 decoding with replacement of
//! unpaired surrogates, UTF-16 encoding, decimal rendering, and the
//! character-level conversions these build on.
use vstd::prelude::*;
use vstd::utf8::{decode_utf8, valid_utf8};

verus! {

/// Whether `c` is a Unicode scalar value (not a surrogate, at most 0x10FFFF).
pub open spec fn is_scalar(c: u32) -> bool {
    c < 0xD800 || (0xE000 <= c && c <= 0x10FFFF)
}

/// The character with scalar value `c`.
///
/// Calls `char::from_u32`, documented to return the character exactly when
/// `c` is a Unicode scalar value; the contract claims that.
#[verifier::external_body]
pub fn char_from_scalar(c: u32) -> (r: Option<char>)
    ensures
        r is Some <==> is_scalar(c),
        r matches Some(ch) ==> ch as u32 == c,
{
    char::from_u32(c)
}

/// A string holding the characters of `cs`, in order.
///
/// Collects the characters into a `String` (`FromIterator<char>`), which
/// appends each character in turn; the contract claims the string's
/// characters are `cs`.
#[verifier::external_body]
pub fn string_from_chars(cs: &Vec<char>) -> (s: String)
    ensures
        s@ == cs@,
{
    cs.iter().collect()
}

/// The characters of `s`, in order.
pub fn str_chars(s: &str) -> (v: Vec<char>)
    ensures
        v@ == s@,
{
    broadcast use vstd::string::axiom_spec_iter;
    let mut v: Vec<char> = Vec::new();
    for c in it: s.chars()
        invariant
            it.seq() == s@,
            v@ == it.seq().take(it.index() as int),
    {
        v.push(c);
        proof {
            assert(v@ =~= it.seq().take(it.index() + 1));
        }
    }
    proof {
        assert(v@ =~= s@);
    }
    v
}

/// What `String::from_utf8_lossy(bytes)` returns: the bytes decoded as
/// UTF-8 with each invalid sequence replaced by U+FFFD.
pub uninterp spec fn utf8_lossy(bytes: Seq<u8>) -> Seq<char>;

/// Decode bytes as UTF-8, replacing invalid sequences by U+FFFD.
///
/// Calls `String::from_utf8_lossy`. The contract names the result, and
/// states what its documentation promises for valid input: the ordinary
/// decoding. How invalid sequences are replaced is left unstated.
#[verifier::external_body]
pub fn utf8_lossy_string(bytes: &[u8]) -> (s: String)
    ensures
        s@ == utf8_lossy(bytes@),
        valid_utf8(bytes@) ==> s@ == decode_utf8(bytes@),
{
    String::from_utf8_lossy(bytes).into_owned()
}

/// The replacement character U+FFFD.
pub open spec fn replacement_char() -> char {
    0xFFFDu32 as char
}

/// Whether `u` is a high (leading) surrogate.
pub open spec fn is_high_surrogate(u: u16) -> bool {
    0xD800 <= u && u < 0xDC00
}

/// Whether `u` is a low (trailing) surrogate.
pub open spec fn is_low_surrogate(u: u16) -> bool {
    0xDC00 <= u && u < 0xE000
}

/// The scalar value a surrogate pair encodes.
pub open spec fn pair_scalar(hi: u16, lo: u16) -> u32 {
    (0x10000 + (hi - 0xD800) * 0x400 + (lo - 0xDC00)) as u32
}

/// UTF-16 decoding as `String::from_utf16_lossy` does it: each code unit
/// outside the surrogate range is its character, a high surrogate followed
/// by a low one is the character they encode, and every other surrogate is
/// U+FFFD.
pub open spec fn spec_utf16_lossy(u: Seq<u16>) -> Seq<char>
    decreases u.len(),
{
    if u.len() == 0 {
        Seq::empty()
    } else if !is_high_surrogate(u[0]) && !is_low_surrogate(u[0]) {
        seq![u[0] as u32 as char] + spec_utf16_lossy(u.drop_first())
    } else if is_high_surrogate(u[0]) && u.len() >= 2 && is_low_surrogate(u[1]) {
        seq![pair_scalar(u[0], u[1]) as char] + spec_utf16_lossy(u.skip(2))
    } else {
        seq![replacement_char()] + spec_utf16_lossy(u.drop_first())
    }
}

/// Decode UTF-16 code units into a string, replacing each unpaired
/// surrogate with U+FFFD.
pub fn utf16_lossy(units: &Vec<u16>) -> (s: String)
    ensures
        s@ == spec_utf16_lossy(units@),
{
    let mut out: Vec<char> = Vec::new();
    let n = units.len();
    let mut i: usize = 0;
    proof {
        assert(units@.skip(0) =~= units@);
    }
    while i < n
        invariant
            i <= n,
            n == units@.len(),
            out@ + spec_utf16_lossy(units@.skip(i as int)) == spec_utf16_lossy(units@),
        decreases n - i,
    {
        let ghost rest = units@.skip(i as int);
        let u = units[i];
        assert(rest[0] == u);
        if u < 0xD800 || u >= 0xE000 {
            let c = char_from_scalar(u as u32);
            match c {
                Some(ch) => {
                    proof {
                        assert(rest.drop_first() =~= units@.skip(i + 1));
                        vstd::utf8::char_u32_cast(ch, u as u32);
                        assert(ch == u as u32 as char);
                    }
                    let ghost o0 = out@;
                    out.push(ch);
                    proof {
                        assert(out@ + spec_utf16_lossy(units@.skip(i + 1)) =~= o0 + spec_utf16_lossy(rest));
                    }
                },
                None => {},
            }
            i += 1;
        } else if u < 0xDC00 && i + 1 < n && units[i + 1] >= 0xDC00 && units[i + 1] < 0xE000 {
            let lo = units[i + 1];
            let v: u32 = 0x10000 + ((u - 0xD800) as u32) * 0x400 + ((lo - 0xDC00) as u32);
            proof {
                assert(rest[1] == lo);
                assert(v == pair_scalar(u, lo));
                assert(rest.skip(2) =~= units@.skip(i + 2));
            }
            let c = char_from_scalar(v);
            match c {
                Some(ch) => {
                    proof {
                        vstd::utf8::char_u32_cast(ch, v);
                        assert(ch == pair_scalar(u, lo) as char);
                        assert(is_high_surrogate(rest[0]) && rest.len() >= 2 && is_low_surrogate(rest[1]));
                    }
                    let ghost o0 = out@;
                    out.push(ch);
                    proof {
                        assert(out@ + spec_utf16_lossy(units@.skip(i + 2)) =~= o0 + spec_utf16_lossy(rest));
                    }
                },
                None => {},
            }
            i += 2;
        } else {
            proof {
                assert(rest.drop_first() =~= units@.skip(i + 1));
                if is_high_surrogate(u) && rest.len() >= 2 {
                    assert(rest[1] == units@[i + 1]);
                }
            }
            let ghost o0 = out@;
            out.push('\u{FFFD}');
            proof {
                assert(out@ + spec_utf16_lossy(units@.skip(i + 1)) =~= o0 + spec_utf16_lossy(rest));
            }
            i += 1;
        }
    }
    proof {
        assert(units@.skip(n as int) =~= Seq::<u16>::empty());
        assert(out@ =~= spec_utf16_lossy(units@));
    }
    string_from_chars(&out)
}

/// The UTF-16 code units of one character: itself below 0x10000, else a
/// surrogate pair.
pub open spec fn char_utf16(c: char) -> Seq<u16> {
    let v = c as u32;
    if v < 0x10000 {
        seq![v as u16]
    } else {
        seq![(0xD800 + (v - 0x10000) / 0x400) as u16, (0xDC00 + (v - 0x10000) % 0x400) as u16]
    }
}

/// The UTF-16 encoding of a sequence of characters.
pub open spec fn spec_encode_utf16(cs: Seq<char>) -> Seq<u16>
    decreases cs.len(),
{
    if cs.len() == 0 {
        Seq::empty()
    } else {
        spec_encode_utf16(cs.drop_last()) + char_utf16(cs.last())
    }
}

/// The UTF-16 code units of a string.
pub fn encode_utf16(s: &str) -> (v: Vec<u16>)
    ensures
        v@ == spec_encode_utf16(s@),
{
    let cs = str_chars(s);
    let mut out: Vec<u16> = Vec::new();
    let mut i: usize = 0;
    while i < cs.len()
        invariant
            i <= cs@.len(),
            cs@ == s@,
            out@ == spec_encode_utf16(cs@.take(i as int)),
        decreases cs@.len() - i,
    {
        let c = cs[i];
        let v = c as u32;
        proof {
            assert(cs@.take(i + 1).drop_last() =~= cs@.take(i as int));
            assert(cs@.take(i + 1).last() == c);
        }
        proof {
            vstd::utf8::char_is_scalar(c);
        }
        if v < 0x10000 {
            out.push(v as u16);
        } else {
            assert(v <= 0x10FFFF);
            out.push((0xD800 + (v - 0x10000) / 0x400) as u16);
            out.push((0xDC00 + (v - 0x10000) % 0x400) as u16);
        }
        proof {
            assert(out@ =~= spec_encode_utf16(cs@.take(i + 1)));
        }
        i += 1;
    }
    proof {
        assert(cs@.take(cs@.len() as int) =~= cs@);
    }
    out
}

/// The decimal digit `d` as a character.
pub open spec fn digit_char(d: nat) -> char {
    (48 + d) as char
}

/// The decimal rendering of `n`, without leading zeros.
pub open spec fn spec_decimal(n: nat) -> Seq<char>
    decreases n,
{
    if n < 10 {
        seq![digit_char(n)]
    } else {
        spec_decimal(n / 10).push(digit_char(n % 10))
    }
}

/// The character of a decimal digit.
fn digit(d: u64) -> (c: char)
    requires
        d < 10,
    ensures
        c == digit_char(d as nat),
{
    match d {
        0 => '0',
        1 => '1',
        2 => '2',
        3 => '3',
        4 => '4',
        5 => '5',
        6 => '6',
        7 => '7',
        8 => '8',
        _ => '9',
    }
}

/// Append the decimal rendering of `n`.
pub fn push_decimal(out: &mut Vec<char>, n: u64)
    ensures
        final(out)@ == old(out)@ + spec_decimal(n as nat),
    decreases n,
{
    if n < 10 {
        out.push(digit(n));
        assert(final(out)@ =~= old(out)@ + spec_decimal(n as nat));
    } else {
        push_decimal(out, n / 10);
        let ghost mid = out@;
        out.push(digit(n % 10));
        assert(final(out)@ =~= old(out)@ + spec_decimal(n as nat));
    }
}

/// Append the characters of a string.
pub fn push_str_chars(out: &mut Vec<char>, s: &str)
    ensures
        final(out)@ == old(out)@ + s@,
{
    let cs = str_chars(s);
    let mut i: usize = 0;
    while i < cs.len()
        invariant
            i <= cs@.len(),
            cs@ == s@,
            out@ == old(out)@ + cs@.take(i as int),
        decreases cs@.len() - i,
    {
        out.push(cs[i]);
        proof {
            assert(out@ =~= old(out)@ + cs@.take(i + 1));
        }
        i += 1;
    }
    proof {
        assert(cs@.take(cs@.len() as int) =~= cs@);
    }
}

} // verus!
