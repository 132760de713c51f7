//! The inner stream of an MC container: a zstd frame stored without its
//! 4-byte magic number. Decoding and encoding go through the `ruzstd` crate.
use vstd::prelude::*;

use super::McError;

verus! {

/// The zstd frame magic number, little-endian.
pub open spec fn zstd_magic() -> Seq<u8> {
    seq![0x28u8, 0xB5u8, 0x2Fu8, 0xFDu8]
}

/// What decoding the first zstd frame of `input` with `ruzstd` gives: the
/// frame's content and the number of input bytes the frame occupies, or
/// `None` when it does not decode.
pub uninterp spec fn zstd_frame_decoded(input: Seq<u8>) -> Option<(Seq<u8>, usize)>;

/// What compressing `data` into one zstd frame with `ruzstd` at its fastest
/// level gives.
pub uninterp spec fn zstd_compressed(data: Seq<u8>) -> Seq<u8>;

/// Decode the first zstd frame of `input`.
///
/// Calls `ruzstd::decoding::FrameDecoder` (`reset`, then `decode_blocks`
/// with `BlockDecodingStrategy::All`, then `collect`). The contract names the
/// result, and states what the source shows of the byte count
/// (`bytes_read_from_source`): it counts the frame header, magic included,
/// and every byte read after it, so it lies between 4 and the input length.
/// The error is handed back as its message, whose text is not stated.
#[verifier::external_body]
fn zstd_decode_frame(input: &[u8]) -> (r: Result<(Vec<u8>, usize), String>)
    ensures
        match r {
            Ok((v, n)) => zstd_frame_decoded(input@) == Some((v@, n)) && 4 <= n <= input@.len(),
            Err(_) => zstd_frame_decoded(input@) is None,
        },
{
    let mut src = input;
    let mut dec = ruzstd::decoding::FrameDecoder::new();
    dec.reset(&mut src).map_err(|e| e.to_string())?;
    dec.decode_blocks(&mut src, ruzstd::decoding::BlockDecodingStrategy::All).map_err(|e| e.to_string())?;
    Ok((dec.collect().unwrap_or_default(), dec.bytes_read_from_source() as usize))
}

/// Compress `data` into one zstd frame (magic included).
///
/// Calls `ruzstd::encoding::compress_to_vec` at `CompressionLevel::Fastest`.
/// The contract names the result.
#[verifier::external_body]
fn zstd_compress(data: &[u8]) -> (r: Vec<u8>)
    ensures
        r@ == zstd_compressed(data@),
{
    ruzstd::encoding::compress_to_vec(data, ruzstd::encoding::CompressionLevel::Fastest)
}

/// What follows decoding: the content is kept when it is within the size
/// the container declares, and the frame length is given without the magic.
pub open spec fn spec_first_frame(decoded: Option<(Seq<u8>, usize)>, max_size: usize) -> Option<(Seq<u8>, int)> {
    match decoded {
        None => None,
        Some((content, n)) => if content.len() > max_size || n < 4 {
            None
        } else {
            Some((content, n - 4))
        },
    }
}

/// Decode the leading magicless zstd frame of an MC inner stream: the
/// content (at most `max_size` bytes, the size the header declares) and the
/// number of stream bytes the frame occupies.
pub fn decompress_first_frame(stream: &[u8], max_size: usize) -> (r: Result<(Vec<u8>, usize), McError>)
    ensures
        match r {
            Ok((v, n)) => spec_first_frame(zstd_frame_decoded(zstd_magic() + stream@), max_size) == Some(
                (v@, n as int),
            ) && n <= stream@.len(),
            Err(e) => spec_first_frame(zstd_frame_decoded(zstd_magic() + stream@), max_size) is None && e matches McError::Decompress(_),
        },
{
    let mut framed: Vec<u8> = Vec::new();
    framed.push(0x28u8);
    framed.push(0xB5u8);
    framed.push(0x2Fu8);
    framed.push(0xFDu8);
    crate::bytes::push_slice(&mut framed, stream);
    assert(framed@ =~= zstd_magic() + stream@);
    match zstd_decode_frame(framed.as_slice()) {
        Ok((content, n)) => check_first_frame(content, n, max_size),
        Err(msg) => Err(McError::Decompress(msg)),
    }
}

/// Keep a decoded frame's content when it is within the declared size, and
/// give the frame's length without the magic.
pub fn check_first_frame(content: Vec<u8>, n: usize, max_size: usize) -> (r: Result<(Vec<u8>, usize), McError>)
    ensures
        match r {
            Ok((v, m)) => spec_first_frame(Some((content@, n)), max_size) == Some((v@, m as int)),
            Err(e) => spec_first_frame(Some((content@, n)), max_size) is None && e matches McError::Decompress(_),
        },
{
    if content.len() > max_size || n < 4 {
        let mut msg: Vec<char> = Vec::new();
        crate::msbt::text::push_str_chars(&mut msg, "zstd frame content exceeds the declared size");
        return Err(McError::Decompress(crate::msbt::text::string_from_chars(&msg)));
    }
    Ok((content, n - 4))
}

/// Compress a BFRES into a magicless zstd stream (one frame, its magic
/// removed). `level` is accepted for the caller's convenience; the bundled
/// encoder compresses at its fastest level.
pub fn compress_stream(data: &[u8], level: i32) -> (r: Result<Vec<u8>, McError>)
    ensures
        match r {
            Ok(v) => zstd_compressed(data@).len() >= 4 && zstd_compressed(data@).subrange(0, 4) == zstd_magic()
                && v@ == zstd_compressed(data@).skip(4),
            Err(_) => !(zstd_compressed(data@).len() >= 4 && zstd_compressed(data@).subrange(0, 4) == zstd_magic()),
        },
{
    let framed = zstd_compress(data);
    if framed.len() >= 4 && framed[0] == 0x28 && framed[1] == 0xB5 && framed[2] == 0x2F && framed[3] == 0xFD {
        proof {
            assert(framed@.subrange(0, 4) =~= zstd_magic());
        }
        let v = crate::bytes::copy_bytes(&framed.as_slice()[4..framed.len()]);
        assert(v@ =~= framed@.skip(4));
        Ok(v)
    } else {
        proof {
            if framed@.len() >= 4 && framed@.subrange(0, 4) == zstd_magic() {
                assert(framed@.subrange(0, 4)[0] == 0x28);
                assert(framed@.subrange(0, 4)[1] == 0xB5);
                assert(framed@.subrange(0, 4)[2] == 0x2F);
                assert(framed@.subrange(0, 4)[3] == 0xFD);
            }
        }
        let mut msg: Vec<char> = Vec::new();
        crate::msbt::text::push_str_chars(&mut msg, "zstd frame without its magic number");
        Err(McError::Decompress(crate::msbt::text::string_from_chars(&msg)))
    }
}

} // verus!
