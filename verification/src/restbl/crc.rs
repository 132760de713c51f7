//! The CRC-32 that BOTW/TotK use to hash resource paths.
use vstd::prelude::*;

verus! {

/// One bit step of the reflected CRC-32 with polynomial `0xEDB88320`.
pub open spec fn crc_step(c: u32) -> u32 {
    if c & 1 == 1 {
        (c >> 1) ^ 0xEDB8_8320u32
    } else {
        c >> 1
    }
}

/// `k` bit steps.
pub open spec fn crc_shift(c: u32, k: nat) -> u32
    decreases k,
{
    if k == 0 {
        c
    } else {
        crc_step(crc_shift(c, (k - 1) as nat))
    }
}

/// The CRC register after feeding the bytes of `s`, starting from all ones.
pub open spec fn crc_register(s: Seq<u8>) -> u32
    decreases s.len(),
{
    if s.len() == 0 {
        0xFFFF_FFFF
    } else {
        crc_shift(crc_register(s.drop_last()) ^ (s.last() as u32), 8)
    }
}

/// Standard CRC-32 (IEEE 802.3 / zlib: reflected, poly `0xEDB88320`,
/// init and final xor `0xFFFFFFFF`).
pub open spec fn spec_crc32(s: Seq<u8>) -> u32 {
    !crc_register(s)
}

/// The masked form of one bit step computes [`crc_step`].
proof fn lemma_masked_step(c: u32, mask: u32)
    requires
        mask == (if c & 1 == 1 {
            0xFFFF_FFFFu32
        } else {
            0u32
        }),
    ensures
        (c >> 1) ^ (0xEDB8_8320u32 & mask) == crc_step(c),
{
    assert((c >> 1) ^ (0xEDB8_8320u32 & mask) == crc_step(c)) by (bit_vector)
        requires
            mask == (if c & 1 == 1 {
                0xFFFF_FFFFu32
            } else {
                0u32
            }),
    ;
}

/// Standard CRC-32 (IEEE 802.3 / zlib: reflected, poly `0xEDB88320`, init/xor
/// `0xFFFFFFFF`), the hash BOTW/TotK use for resource paths.
pub fn crc32(data: &[u8]) -> (r: u32)
    ensures
        r == spec_crc32(data@),
{
    let mut crc: u32 = 0xFFFF_FFFF;
    let mut i: usize = 0;
    while i < data.len()
        invariant
            i <= data@.len(),
            crc == crc_register(data@.subrange(0, i as int)),
        decreases data@.len() - i,
    {
        proof {
            assert(data@.subrange(0, i + 1).drop_last() =~= data@.subrange(0, i as int));
        }
        crc = crc ^ (data[i] as u32);
        let ghost c0 = crc;
        let mut k: u32 = 0;
        while k < 8
            invariant
                k <= 8,
                crc == crc_shift(c0, k as nat),
            decreases 8 - k,
        {
            let low = crc & 1;
            assert(low == 0 || low == 1) by (bit_vector)
                requires
                    low == crc & 1,
            ;
            let mask = 0u32.wrapping_sub(low);
            proof {
                lemma_masked_step(crc, mask);
            }
            crc = (crc >> 1) ^ (0xEDB8_8320 & mask);
            k += 1;
        }
        i += 1;
    }
    proof {
        assert(data@.subrange(0, data@.len() as int) =~= data@);
    }
    !crc
}

} // verus!
