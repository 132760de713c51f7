//! The text of an invalid-argument error: a fixed phrase with the offending
//! value written in decimal.
use vstd::prelude::*;
use vstd::string::*;
use crate::meshopt::MeshoptArgument;
use crate::msbt::text::string_from_chars;

verus! {

/// The decimal digit `d` as a character.
pub open spec fn digit_char(d: nat) -> char {
    (d + 48) as char
}

/// `n` written in decimal, most significant digit first, without leading
/// zeros.
pub open spec fn decimal(n: nat) -> Seq<char>
    decreases n,
{
    if n < 10 {
        seq![digit_char(n)]
    } else {
        decimal(n / 10).push(digit_char(n % 10))
    }
}

/// The message that names an invalid argument.
pub open spec fn message(a: MeshoptArgument) -> Seq<char> {
    match a {
        MeshoptArgument::IndexSize(n) => "index_size "@ + decimal(n as nat) + " must be 2 or 4"@,
        MeshoptArgument::IndexCount(n) => "index_count "@ + decimal(n as nat) + " must be a multiple of 3"@,
        MeshoptArgument::VertexSize(n) => "vertex_size "@ + decimal(n as nat)
            + " must be a non-zero multiple of 4, <= 256"@,
        MeshoptArgument::IndexVersion(v) => "index version "@ + decimal(v as nat) + " > 1"@,
        MeshoptArgument::SequenceVersion(v) => "sequence version "@ + decimal(v as nat) + " > 1"@,
        MeshoptArgument::AuxIndex { index, limit } => "aux index "@ + decimal(index as nat)
            + " outside table length "@ + decimal(limit as nat),
    }
}

fn push_decimal(n: usize, out: &mut Vec<char>)
    ensures
        final(out)@ == old(out)@ + decimal(n as nat),
    decreases n,
{
    if n >= 10 {
        push_decimal(n / 10, out);
    }
    let d: u8 = (n % 10) as u8;
    let c: char = (d + 48u8) as char;
    assert(c == digit_char((n % 10) as nat));
    out.push(c);
    proof {
        if n >= 10 {
            assert(decimal(n as nat) == decimal((n / 10) as nat).push(digit_char((n % 10) as nat)));
        } else {
            assert(decimal(n as nat) == seq![digit_char(n as nat)]);
        }
    }
}

/// `n` in decimal.
pub fn decimal_string(n: usize) -> (s: String)
    ensures
        s@ == decimal(n as nat),
{
    let mut v: Vec<char> = Vec::new();
    push_decimal(n, &mut v);
    assert(v@ == decimal(n as nat));
    string_from_chars(&v)
}

fn phrase(head: &str, n: usize, tail: &str) -> (s: String)
    ensures
        s@ == head@ + decimal(n as nat) + tail@,
{
    let mut s = String::from_str(head);
    let d = decimal_string(n);
    s.append(d.as_str());
    s.append(tail);
    s
}

/// The message for `a`.
pub fn describe(a: MeshoptArgument) -> (s: String)
    ensures
        s@ == message(a),
{
    match a {
        MeshoptArgument::IndexSize(n) => phrase("index_size ", n, " must be 2 or 4"),
        MeshoptArgument::IndexCount(n) => phrase("index_count ", n, " must be a multiple of 3"),
        MeshoptArgument::VertexSize(n) => phrase("vertex_size ", n, " must be a non-zero multiple of 4, <= 256"),
        MeshoptArgument::IndexVersion(v) => phrase("index version ", v as usize, " > 1"),
        MeshoptArgument::SequenceVersion(v) => phrase("sequence version ", v as usize, " > 1"),
        MeshoptArgument::AuxIndex { index, limit } => {
            let s = phrase("aux index ", index, " outside table length ");
            let d = decimal_string(limit);
            s.concat(d.as_str())
        },
    }
}

} // verus!
