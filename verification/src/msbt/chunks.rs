//! Messages as text runs and control tags: decoding, encoding and display.
use vstd::prelude::*;
use vstd::utf8::encode_utf8;

use super::text::{
    push_decimal, push_str_chars, spec_decimal, spec_encode_utf16, spec_utf16_lossy, string_from_chars,
    utf16_lossy, utf8_lossy, utf8_lossy_string, encode_utf16,
};
use super::{chunks_view, ChunkModel, Encoding, Message, TextChunk, TAG_CLOSE, TAG_OPEN};
use crate::bytes::{copy_bytes, get_u16, push_slice, push_u16, spec_u16, u16_bytes};

verus! {

/// A pending text run as chunks: nothing when empty, else one text chunk.
pub open spec fn flush(text: Seq<u16>) -> Seq<ChunkModel> {
    if text.len() == 0 {
        Seq::empty()
    } else {
        seq![ChunkModel::Text(spec_utf16_lossy(text))]
    }
}

/// The chunks of a UTF-16 message from byte `i` on, with the pending text
/// run `text`: code units accumulate into text runs; `0x000E` opens a tag
/// (group, type, size in bytes, payload), `0x000F` closes one (group, type);
/// a NUL unit, the end of the bytes, or a truncated tag ends the message.
pub open spec fn spec_utf16_chunks(raw: Seq<u8>, be: bool, i: int, text: Seq<u16>) -> Seq<ChunkModel>
    decreases raw.len() - i,
{
    if i < 0 || i + 2 > raw.len() {
        flush(text)
    } else {
        let c = spec_u16(raw, i, be) as u16;
        if c == 0 {
            flush(text)
        } else if c == 0x000E {
            if i + 8 > raw.len() {
                flush(text)
            } else {
                let size = spec_u16(raw, i + 6, be);
                let ds = i + 8;
                if ds + size > raw.len() {
                    flush(text)
                } else {
                    flush(text) + seq![
                        ChunkModel::Tag {
                            group: spec_u16(raw, i + 2, be) as u16,
                            ty: spec_u16(raw, i + 4, be) as u16,
                            data: raw.subrange(ds, ds + size),
                        },
                    ] + spec_utf16_chunks(raw, be, ds + size, Seq::empty())
                }
            }
        } else if c == 0x000F {
            if i + 6 > raw.len() {
                flush(text)
            } else {
                flush(text) + seq![
                    ChunkModel::TagClose {
                        group: spec_u16(raw, i + 2, be) as u16,
                        ty: spec_u16(raw, i + 4, be) as u16,
                    },
                ] + spec_utf16_chunks(raw, be, i + 6, Seq::empty())
            }
        } else {
            spec_utf16_chunks(raw, be, i + 2, text.push(c))
        }
    }
}

/// A tag chunk's payload fits its 16-bit size field.
pub open spec fn tag_payload_fits(c: TextChunk) -> bool {
    match c {
        TextChunk::Tag { data, .. } => data@.len() <= u16::MAX,
        _ => true,
    }
}

/// The bytes with a trailing NUL byte dropped.
pub open spec fn trim_nul(raw: Seq<u8>) -> Seq<u8> {
    if raw.len() > 0 && raw.last() == 0 {
        raw.drop_last()
    } else {
        raw
    }
}

/// The text `<utf-32 N bytes>`.
pub open spec fn utf32_placeholder(n: nat) -> Seq<char> {
    "<utf-32 "@ + spec_decimal(n) + " bytes>"@
}

/// The chunks of a message in an encoding: UTF-16 is tag-aware; UTF-8 is one
/// text chunk of the bytes before the terminator (none when empty); UTF-32 is
/// a placeholder text chunk.
pub open spec fn spec_chunks(raw: Seq<u8>, enc: Encoding, be: bool) -> Seq<ChunkModel> {
    match enc {
        Encoding::Utf16 => spec_utf16_chunks(raw, be, 0, Seq::empty()),
        Encoding::Utf8 => {
            let s = utf8_lossy(trim_nul(raw));
            if s.len() == 0 {
                Seq::empty()
            } else {
                seq![ChunkModel::Text(s)]
            }
        },
        Encoding::Utf32 => seq![ChunkModel::Text(utf32_placeholder(raw.len()))],
    }
}

/// The bytes of UTF-16 code units.
pub open spec fn units_bytes(u: Seq<u16>, be: bool) -> Seq<u8>
    decreases u.len(),
{
    if u.len() == 0 {
        Seq::empty()
    } else {
        units_bytes(u.drop_last(), be) + u16_bytes(u.last(), be)
    }
}

/// The UTF-16 bytes of one chunk.
pub open spec fn chunk_utf16_bytes(c: ChunkModel, be: bool) -> Seq<u8> {
    match c {
        ChunkModel::Text(t) => units_bytes(spec_encode_utf16(t), be),
        ChunkModel::Tag { group, ty, data } => u16_bytes(0x000E, be) + u16_bytes(group, be) + u16_bytes(ty, be)
            + u16_bytes(data.len() as u16, be) + data,
        ChunkModel::TagClose { group, ty } => u16_bytes(0x000F, be) + u16_bytes(group, be) + u16_bytes(ty, be),
    }
}

/// The UTF-8 bytes of one chunk: text as UTF-8, a tag's payload raw, nothing
/// for a closing tag.
pub open spec fn chunk_utf8_bytes(c: ChunkModel) -> Seq<u8> {
    match c {
        ChunkModel::Text(t) => encode_utf8(t),
        ChunkModel::Tag { group, ty, data } => data,
        ChunkModel::TagClose { group, ty } => Seq::empty(),
    }
}

/// The UTF-16 bytes of the first `k` chunks.
pub open spec fn chunks_utf16(cs: Seq<ChunkModel>, be: bool, k: int) -> Seq<u8>
    decreases k,
{
    if k <= 0 {
        Seq::empty()
    } else {
        chunks_utf16(cs, be, k - 1) + chunk_utf16_bytes(cs[k - 1], be)
    }
}

/// The UTF-8 bytes of the first `k` chunks.
pub open spec fn chunks_utf8(cs: Seq<ChunkModel>, k: int) -> Seq<u8>
    decreases k,
{
    if k <= 0 {
        Seq::empty()
    } else {
        chunks_utf8(cs, k - 1) + chunk_utf8_bytes(cs[k - 1])
    }
}

/// The message bytes that encode `cs`: UTF-16 chunks then a NUL unit; UTF-8
/// chunks then a NUL byte; nothing for UTF-32.
pub open spec fn spec_from_chunks(cs: Seq<ChunkModel>, enc: Encoding, be: bool) -> Seq<u8> {
    match enc {
        Encoding::Utf16 => chunks_utf16(cs, be, cs.len() as int) + u16_bytes(0, be),
        Encoding::Utf8 => chunks_utf8(cs, cs.len() as int).push(0),
        Encoding::Utf32 => Seq::empty(),
    }
}

/// How a chunk is displayed: text verbatim, tags as `[tag g=G t=T n=N]` and
/// `[/tag g=G t=T]`.
pub open spec fn chunk_display(c: ChunkModel) -> Seq<char> {
    match c {
        ChunkModel::Text(t) => t,
        ChunkModel::Tag { group, ty, data } => "[tag g="@ + spec_decimal(group as nat) + " t="@ + spec_decimal(
            ty as nat,
        ) + " n="@ + spec_decimal(data.len()) + "]"@,
        ChunkModel::TagClose { group, ty } => "[/tag g="@ + spec_decimal(group as nat) + " t="@ + spec_decimal(
            ty as nat,
        ) + "]"@,
    }
}

/// The display of the first `k` chunks.
pub open spec fn chunks_display(cs: Seq<ChunkModel>, k: int) -> Seq<char>
    decreases k,
{
    if k <= 0 {
        Seq::empty()
    } else {
        chunks_display(cs, k - 1) + chunk_display(cs[k - 1])
    }
}

/// Append a pending text run to the chunks, if it is not empty.
fn flush_text(text: &mut Vec<u16>, chunks: &mut Vec<TextChunk>)
    ensures
        final(text)@.len() == 0,
        chunks_view(final(chunks)@) == chunks_view(old(chunks)@) + flush(old(text)@),
{
    if text.len() > 0 {
        let s = utf16_lossy(text);
        let ghost c0 = chunks_view(chunks@);
        chunks.push(TextChunk::Text(s));
        *text = Vec::new();
        proof {
            assert(chunks_view(chunks@) =~= c0 + flush(old(text)@));
        }
    } else {
        assert(chunks_view(chunks@) =~= chunks_view(old(chunks)@) + flush(old(text)@));
    }
}

/// Decode a UTF-16 message body into text runs and control tags.
fn decode_utf16_chunks(raw: &[u8], big_endian: bool) -> (r: Vec<TextChunk>)
    ensures
        chunks_view(r@) == spec_utf16_chunks(raw@, big_endian, 0, Seq::empty()),
{
    let len = raw.len();
    let mut chunks: Vec<TextChunk> = Vec::new();
    let mut text: Vec<u16> = Vec::new();
    let mut i: usize = 0;
    proof {
        assert(chunks_view(chunks@) =~= Seq::<ChunkModel>::empty());
    }
    while i <= len && len - i >= 2
        invariant
            i <= len,
            len == raw@.len(),
            spec_utf16_chunks(raw@, big_endian, 0, Seq::empty()) == chunks_view(chunks@)
                + spec_utf16_chunks(raw@, big_endian, i as int, text@),
        ensures
            spec_utf16_chunks(raw@, big_endian, 0, Seq::empty()) == chunks_view(chunks@) + flush(text@),
        decreases len - i,
    {
        let c = get_u16(raw, i, big_endian);
        if c == 0 {
            break;
        }
        if c == TAG_OPEN {
            if len - i < 8 {
                break;
            }
            let group = get_u16(raw, i + 2, big_endian);
            let ty = get_u16(raw, i + 4, big_endian);
            let size = get_u16(raw, i + 6, big_endian) as usize;
            let ds = i + 8;
            if size > len - ds {
                break;
            }
            let ghost t0 = text@;
            let ghost c0 = chunks_view(chunks@);
            flush_text(&mut text, &mut chunks);
            let data = copy_bytes(&raw[ds..ds + size]);
            chunks.push(TextChunk::Tag { group, ty, data });
            proof {
                let tag = ChunkModel::Tag { group, ty, data: raw@.subrange(ds as int, ds + size) };
                assert(chunks_view(chunks@) =~= c0 + flush(t0) + seq![tag]);
                assert(text@ =~= Seq::<u16>::empty());
                assert(spec_utf16_chunks(raw@, big_endian, i as int, t0) == flush(t0) + seq![tag]
                    + spec_utf16_chunks(raw@, big_endian, ds + size, Seq::empty()));
                assert(c0 + (flush(t0) + seq![tag] + spec_utf16_chunks(raw@, big_endian, ds + size, Seq::empty()))
                    =~= chunks_view(chunks@) + spec_utf16_chunks(raw@, big_endian, ds + size, text@));
            }
            i = ds + size;
        } else if c == TAG_CLOSE {
            if len - i < 6 {
                break;
            }
            let group = get_u16(raw, i + 2, big_endian);
            let ty = get_u16(raw, i + 4, big_endian);
            let ghost t0 = text@;
            let ghost c0 = chunks_view(chunks@);
            flush_text(&mut text, &mut chunks);
            chunks.push(TextChunk::TagClose { group, ty });
            proof {
                let tag = ChunkModel::TagClose { group, ty };
                assert(chunks_view(chunks@) =~= c0 + flush(t0) + seq![tag]);
                assert(text@ =~= Seq::<u16>::empty());
                assert(spec_utf16_chunks(raw@, big_endian, i as int, t0) == flush(t0) + seq![tag]
                    + spec_utf16_chunks(raw@, big_endian, i + 6, Seq::empty()));
                assert(c0 + (flush(t0) + seq![tag] + spec_utf16_chunks(raw@, big_endian, i + 6, Seq::empty()))
                    =~= chunks_view(chunks@) + spec_utf16_chunks(raw@, big_endian, i + 6, text@));
            }
            i = i + 6;
        } else {
            text.push(c);
            i = i + 2;
        }
    }
    flush_text(&mut text, &mut chunks);
    chunks
}

/// Encode text chunks as a UTF-16 message body with its NUL terminator.
fn encode_utf16_chunks(chunks: &[TextChunk], big_endian: bool) -> (r: Vec<u8>)
    requires
        forall|k: int| 0 <= k < chunks@.len() ==> tag_payload_fits(#[trigger] chunks@[k]),
    ensures
        r@ == spec_from_chunks(chunks_view(chunks@), Encoding::Utf16, big_endian),
{
    let ghost cs = chunks_view(chunks@);
    let mut out: Vec<u8> = Vec::new();
    let mut k: usize = 0;
    while k < chunks.len()
        invariant
            k <= chunks@.len(),
            cs == chunks_view(chunks@),
            forall|j: int| 0 <= j < chunks@.len() ==> tag_payload_fits(#[trigger] chunks@[j]),
            out@ == chunks_utf16(cs, big_endian, k as int),
        decreases chunks@.len() - k,
    {
        let ghost o0 = out@;
        match &chunks[k] {
            TextChunk::Text(t) => {
                let units = encode_utf16(t.as_str());
                let mut j: usize = 0;
                while j < units.len()
                    invariant
                        j <= units@.len(),
                        out@ == o0 + units_bytes(units@.take(j as int), big_endian),
                    decreases units@.len() - j,
                {
                    push_u16(&mut out, units[j], big_endian);
                    proof {
                        assert(units@.take(j + 1).drop_last() =~= units@.take(j as int));
                        assert(out@ =~= o0 + units_bytes(units@.take(j + 1), big_endian));
                    }
                    j += 1;
                }
                proof {
                    assert(units@.take(units@.len() as int) =~= units@);
                }
            },
            TextChunk::Tag { group, ty, data } => {
                push_u16(&mut out, TAG_OPEN, big_endian);
                push_u16(&mut out, *group, big_endian);
                push_u16(&mut out, *ty, big_endian);
                push_u16(&mut out, data.len() as u16, big_endian);
                push_slice(&mut out, data.as_slice());
            },
            TextChunk::TagClose { group, ty } => {
                push_u16(&mut out, TAG_CLOSE, big_endian);
                push_u16(&mut out, *group, big_endian);
                push_u16(&mut out, *ty, big_endian);
            },
        }
        proof {
            assert(out@ =~= o0 + chunk_utf16_bytes(cs[k as int], big_endian));
        }
        k += 1;
    }
    push_u16(&mut out, 0, big_endian);
    out
}

/// Concatenate UTF-8 chunks (tag payloads raw) with a NUL terminator.
fn encode_utf8_chunks(chunks: &[TextChunk]) -> (r: Vec<u8>)
    ensures
        r@ == spec_from_chunks(chunks_view(chunks@), Encoding::Utf8, false),
{
    let ghost cs = chunks_view(chunks@);
    let mut out: Vec<u8> = Vec::new();
    let mut k: usize = 0;
    while k < chunks.len()
        invariant
            k <= chunks@.len(),
            cs == chunks_view(chunks@),
            out@ == chunks_utf8(cs, k as int),
        decreases chunks@.len() - k,
    {
        let ghost o0 = out@;
        match &chunks[k] {
            TextChunk::Text(t) => push_slice(&mut out, t.as_str().as_bytes()),
            TextChunk::Tag { data, .. } => push_slice(&mut out, data.as_slice()),
            TextChunk::TagClose { .. } => {},
        }
        proof {
            assert(out@ =~= o0 + chunk_utf8_bytes(cs[k as int]));
        }
        k += 1;
    }
    out.push(0u8);
    out
}

impl Message {
    /// Decode this message into text runs and control tags for the given
    /// encoding and byte order. UTF-16 is fully tag-aware; UTF-8 gives one
    /// text chunk; UTF-32 gives a placeholder text chunk.
    pub fn chunks(&self, encoding: Encoding, big_endian: bool) -> (r: Vec<TextChunk>)
        ensures
            chunks_view(r@) == spec_chunks(self.raw@, encoding, big_endian),
    {
        match encoding {
            Encoding::Utf16 => decode_utf16_chunks(self.raw.as_slice(), big_endian),
            Encoding::Utf8 => {
                let raw = self.raw.as_slice();
                let n = raw.len();
                let body = if n > 0 && raw[n - 1] == 0 {
                    &raw[0..n - 1]
                } else {
                    raw
                };
                proof {
                    if n > 0 && raw@[n - 1] == 0 {
                        assert(body@ =~= trim_nul(raw@));
                    }
                }
                let s = utf8_lossy_string(body);
                if s.as_str().is_empty() {
                    Vec::new()
                } else {
                    let ghost sv = s@;
                    let mut v: Vec<TextChunk> = Vec::new();
                    v.push(TextChunk::Text(s));
                    proof {
                        assert(chunks_view(v@) =~= seq![ChunkModel::Text(sv)]);
                    }
                    v
                }
            },
            Encoding::Utf32 => {
                let mut cs: Vec<char> = Vec::new();
                push_str_chars(&mut cs, "<utf-32 ");
                push_decimal(&mut cs, self.raw.len() as u64);
                push_str_chars(&mut cs, " bytes>");
                let s = string_from_chars(&cs);
                let mut v: Vec<TextChunk> = Vec::new();
                v.push(TextChunk::Text(s));
                proof {
                    assert(chunks_view(v@) =~= seq![ChunkModel::Text(utf32_placeholder(self.raw@.len()))]);
                }
                v
            },
        }
    }

    /// Build a message from text chunks for the given encoding and byte
    /// order, the inverse of [`Message::chunks`]: UTF-16 re-emits
    /// `0x000E`/`0x000F` markers and a NUL terminator; UTF-8 concatenates the
    /// text (tag payloads raw) with a NUL terminator; UTF-32 gives no bytes.
    /// A tag payload is at most 0xFFFF bytes (its size is a 16-bit field).
    pub fn from_chunks(chunks: &[TextChunk], encoding: Encoding, big_endian: bool) -> (m: Message)
        requires
            forall|k: int| 0 <= k < chunks@.len() ==> tag_payload_fits(#[trigger] chunks@[k]),
        ensures
            m.raw@ == spec_from_chunks(chunks_view(chunks@), encoding, big_endian),
    {
        let raw = match encoding {
            Encoding::Utf16 => encode_utf16_chunks(chunks, big_endian),
            Encoding::Utf8 => encode_utf8_chunks(chunks),
            Encoding::Utf32 => Vec::new(),
        };
        Message { raw }
    }

    /// A human-readable rendering: literal text with control tags shown as
    /// `[tag g=.. t=.. n=..]` / `[/tag g=.. t=..]`. Lossy, for display only.
    pub fn to_display(&self, encoding: Encoding, big_endian: bool) -> (s: String)
        ensures
            ({
                let cs = spec_chunks(self.raw@, encoding, big_endian);
                s@ == chunks_display(cs, cs.len() as int)
            }),
    {
        let chunks = self.chunks(encoding, big_endian);
        let ghost cs = chunks_view(chunks@);
        let mut out: Vec<char> = Vec::new();
        let mut k: usize = 0;
        while k < chunks.len()
            invariant
                k <= chunks@.len(),
                cs == chunks_view(chunks@),
                out@ == chunks_display(cs, k as int),
            decreases chunks@.len() - k,
        {
            let ghost o0 = out@;
            match &chunks[k] {
                TextChunk::Text(t) => push_str_chars(&mut out, t.as_str()),
                TextChunk::Tag { group, ty, data } => {
                    push_str_chars(&mut out, "[tag g=");
                    push_decimal(&mut out, *group as u64);
                    push_str_chars(&mut out, " t=");
                    push_decimal(&mut out, *ty as u64);
                    push_str_chars(&mut out, " n=");
                    push_decimal(&mut out, data.len() as u64);
                    push_str_chars(&mut out, "]");
                },
                TextChunk::TagClose { group, ty } => {
                    push_str_chars(&mut out, "[/tag g=");
                    push_decimal(&mut out, *group as u64);
                    push_str_chars(&mut out, " t=");
                    push_decimal(&mut out, *ty as u64);
                    push_str_chars(&mut out, "]");
                },
            }
            proof {
                assert(out@ =~= o0 + chunk_display(cs[k as int]));
            }
            k += 1;
        }
        string_from_chars(&out)
    }
}

} // verus!
