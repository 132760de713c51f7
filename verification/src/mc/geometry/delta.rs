//! The direct/delta transform tails: each literal either copies `w` bytes
//! from source stream 0 (match entry 0) or adds `w` source-1 bytes to the
//! value `(entry >> 3)` vertices back; copy runs clone earlier values.
use vstd::prelude::*;
use crate::mc::geometry::tails::{
    add_bytes, add_lanes, combine, delta_copies, late_cursor_check, signed_byte, signed_u16_lane, delta_error, direct_literal, direct_literals, direct_records, direct_result,
    emit_copies, spec_direct_tail, write_bytes, DeltaRun, TransformTailCopyError,
    TransformTailDelta1DirectSpec, TransformTailDelta2DirectSpec, TransformTailDelta3DirectSpec,
    TransformTailDelta4DirectSpec, TransformTailDeltaError, TransformTailI8x3DirectDeltaSpec, TransformTailU16x3DeltaSpec, TransformTailU16x2DeltaSpec,
    TransformTailU16x2DirectDeltaSpec, TransformTailU32x2DeltaSpec, TransformTailDeltaUsage, TransformTailRecord,
};

verus! {

/// The delta-tail error for a copy-step error.
pub(crate) fn to_delta_error(e: TransformTailCopyError) -> (d: TransformTailDeltaError)
    ensures
        d == delta_error(e),
{
    match e {
        TransformTailCopyError::ZeroStride => TransformTailDeltaError::ZeroStride,
        TransformTailCopyError::OutputTooSmall => TransformTailDeltaError::OutputTooSmall,
        TransformTailCopyError::SourceTooSmall => TransformTailDeltaError::Source0TooSmall,
        TransformTailCopyError::CopyBeforeOutput => TransformTailDeltaError::CopyBeforeOutput,
        TransformTailCopyError::ArithmeticOverflow => TransformTailDeltaError::ArithmeticOverflow,
        TransformTailCopyError::UnobservedRecordShape => TransformTailDeltaError::UnobservedRecordShape,
    }
}

/// Bytewise sum (mod 256) of two equally long byte strings.
fn add_byte_slices(delta: &[u8], base: &[u8]) -> (v: Vec<u8>)
    requires
        delta@.len() == base@.len(),
    ensures
        v@ == add_bytes(delta@, base@),
{
    let mut v: Vec<u8> = Vec::new();
    let mut j: usize = 0;
    while j < delta.len()
        invariant
            j <= delta@.len(),
            delta@.len() == base@.len(),
            v@.len() == j,
            forall|i: int| 0 <= i < j ==> #[trigger] v@[i] == ((delta@[i] + base@[i]) % 256) as u8,
        decreases delta@.len() - j,
    {
        let s: u16 = (delta[j] as u16 + base[j] as u16) % 256;
        v.push(s as u8);
        j += 1;
    }
    assert(v@ =~= add_bytes(delta@, base@));
    v
}

/// Append the wrapping sum of the 16-bit lanes at `off`.
fn push_u16_lane(v: &mut Vec<u8>, delta: &[u8], base: &[u8], off: usize)
    requires
        off + 2 <= delta@.len(),
        off + 2 <= base@.len(),
    ensures
        final(v)@ == old(v)@ + crate::mc::geometry::tails::add_u16_lane(delta@, base@, off as int),
{
    let x = crate::bytes::get_u16(delta, off, false);
    let y = crate::bytes::get_u16(base, off, false);
    let a = x.wrapping_add(y);
    assert(a == ((x as int + y as int) % 0x1_0000) as u16);
    crate::bytes::push_u16(v, a, false);
}

/// Append the wrapping sum of the 32-bit lanes at `off`.
fn push_u32_lane(v: &mut Vec<u8>, delta: &[u8], base: &[u8], off: usize)
    requires
        off + 4 <= delta@.len(),
        off + 4 <= base@.len(),
    ensures
        final(v)@ == old(v)@ + crate::mc::geometry::tails::add_u32_lane(delta@, base@, off as int),
{
    let x = crate::bytes::get_u32(delta, off, false);
    let y = crate::bytes::get_u32(base, off, false);
    let a = x.wrapping_add(y);
    assert(a == ((x as int + y as int) % 0x1_0000_0000) as u32);
    crate::bytes::push_u32(v, a, false);
}

/// `delta` added to `base` lane by lane (see `add_lanes`).
fn add_lanes_exec(delta: &[u8], base: &[u8], lw: usize) -> (v: Vec<u8>)
    requires
        delta@.len() == base@.len(),
        (lw != 2 && lw != 4) || (lw == 2 && delta@.len() == 4) || (lw == 4 && delta@.len() == 8),
    ensures
        v@ == add_lanes(delta@, base@, lw as int),
{
    if lw == 2 {
        let mut v: Vec<u8> = Vec::new();
        push_u16_lane(&mut v, delta, base, 0);
        push_u16_lane(&mut v, delta, base, 2);
        assert(v@ =~= add_lanes(delta@, base@, lw as int));
        v
    } else if lw == 4 {
        let mut v: Vec<u8> = Vec::new();
        push_u32_lane(&mut v, delta, base, 0);
        push_u32_lane(&mut v, delta, base, 4);
        assert(v@ =~= add_lanes(delta@, base@, lw as int));
        v
    } else {
        add_byte_slices(delta, base)
    }
}

/// Append matched signed u16 lane `k` (see `signed_u16_lane`).
fn push_signed_u16_lane(v: &mut Vec<u8>, delta: &[u8], base: &[u8], k: usize, m: u32)
    requires
        k < 3,
        2 * k + 2 <= delta@.len(),
        2 * k + 2 <= base@.len(),
    ensures
        final(v)@ == old(v)@ + signed_u16_lane(delta@, base@, k as int, m),
{
    let flip: u16 = if (m >> (k as u32)) & 1u32 != 0 { 0x8000 } else { 0 };
    let prev = crate::bytes::get_u16(base, 2 * k, false) ^ flip;
    let d = crate::bytes::get_u16(delta, 2 * k, false);
    let a = prev.wrapping_add(d);
    assert(a == ((prev as int + d as int) % 0x1_0000) as u16);
    crate::bytes::push_u16(v, a, false);
}

/// Matched signed byte `k` (see `signed_byte`).
fn signed_byte_exec(delta: &[u8], base: &[u8], k: usize, m: u32) -> (b: u8)
    requires
        k < 3,
        k < delta@.len(),
        k < base@.len(),
    ensures
        b == signed_byte(delta@, base@, k as int, m),
{
    let bit: u32 = (m >> (k as u32)) & 1u32;
    let mask: u8 = if bit != 0 { 0xff } else { 0 };
    assert(bit <= 1) by (bit_vector)
        requires
            bit == (m >> (k as u32)) & 1u32,
    ;
    let x: u16 = (base[k] ^ mask) as u16 + delta[k] as u16 + bit as u16;
    (x % 256) as u8
}

/// How a matched literal combines its delta with the earlier output (see
/// `combine`).
fn combine_exec(delta: &[u8], base: &[u8], lw: usize, m: u32) -> (v: Vec<u8>)
    requires
        delta@.len() == base@.len(),
        lw == 1 || (lw == 2 && delta@.len() == 4) || (lw == 4 && delta@.len() == 8) || (lw == 6 && delta@.len()
            == 6) || (lw == 3 && delta@.len() == 3),
    ensures
        v@ == combine(delta@, base@, lw as int, m),
{
    if lw == 6 {
        let mut v: Vec<u8> = Vec::new();
        push_signed_u16_lane(&mut v, delta, base, 0, m);
        push_signed_u16_lane(&mut v, delta, base, 1, m);
        push_signed_u16_lane(&mut v, delta, base, 2, m);
        assert(v@ =~= combine(delta@, base@, lw as int, m));
        v
    } else if lw == 3 {
        let mut v: Vec<u8> = Vec::new();
        v.push(signed_byte_exec(delta, base, 0, m));
        v.push(signed_byte_exec(delta, base, 1, m));
        v.push(signed_byte_exec(delta, base, 2, m));
        assert(v@ =~= combine(delta@, base@, lw as int, m));
        v
    } else {
        add_lanes_exec(delta, base, lw)
    }
}

/// One literal of a direct/delta tail.
fn direct_step(
    out: &mut [u8],
    cursor: &mut usize,
    p0: &mut usize,
    p1: &mut usize,
    mi: &mut usize,
    matches: &[u32],
    src0: &[u8],
    src1: &[u8],
    w: usize,
    lw: usize,
    seed: bool,
    stride: usize,
) -> (r: Result<(), TransformTailDeltaError>)
    requires
        (lw == 1 && 1 <= w <= 4) || (lw == 2 && w == 4) || (lw == 4 && w == 8) || (lw == 6 && w == 6) || (lw
            == 3 && w == 3),
        *old(p0) <= src0@.len(),
        *old(p1) <= src1@.len(),
        *old(mi) <= matches@.len(),
    ensures
        match direct_literal(
            old(out)@,
            *old(cursor) as int,
            *old(p0) as int,
            *old(p1) as int,
            *old(mi) as int,
            matches@,
            src0@,
            src1@,
            w as int,
            lw as int,
            seed,
            stride as int,
        ) {
            DeltaRun::Running(o, c, q0, q1, j) => r is Ok && final(out)@ == o && *final(cursor) == c
                && *final(p0) == q0 && *final(p1) == q1 && *final(mi) == j,
            DeltaRun::Failed(o, e) => r == Err::<(), TransformTailDeltaError>(e) && final(out)@ == o,
        },
        r is Ok ==> *final(p0) <= src0@.len() && *final(p1) <= src1@.len() && *final(mi) <= matches@.len(),
{
    if *mi >= matches.len() {
        return Err(TransformTailDeltaError::MatchTableTooSmall);
    }
    if w > 1 && lw != 3 && *cursor > usize::MAX - w {
        return Err(TransformTailDeltaError::ArithmeticOverflow);
    }
    let m = matches[*mi];
    if m == 0 {
        if w > 1 && *p0 > usize::MAX - w {
            return Err(TransformTailDeltaError::ArithmeticOverflow);
        }
        if src0.len() - *p0 < w {
            return Err(TransformTailDeltaError::Source0TooSmall);
        }
        if seed && *mi > 0 {
            if *cursor < stride {
                return Err(TransformTailDeltaError::MatchBeforeOutput);
            }
            let s = *cursor - stride;
            if w > 1 && s > usize::MAX - w {
                return Err(TransformTailDeltaError::ArithmeticOverflow);
            }
            if s > out.len() || out.len() - s < w {
                return Err(TransformTailDeltaError::MatchBeforeOutput);
            }
            let base = crate::bytes::copy_bytes(&out[s..s + w]);
            if *cursor > out.len() || out.len() - *cursor < w {
                return Err(TransformTailDeltaError::OutputTooSmall);
            }
            let sum = add_lanes_exec(&src0[*p0..*p0 + w], base.as_slice(), lw);
            write_bytes(out, *cursor, sum.as_slice());
        } else {
            if lw == 3 && *cursor > usize::MAX - w {
                return Err(TransformTailDeltaError::ArithmeticOverflow);
            }
            if *cursor > out.len() || out.len() - *cursor < w {
                return Err(TransformTailDeltaError::OutputTooSmall);
            }
            write_bytes(out, *cursor, &src0[*p0..*p0 + w]);
        }
        *p0 = *p0 + w;
    } else {
        let units: usize = (m >> 3u32) as usize;
        let dist = match units.checked_mul(stride) {
            Some(d) => d,
            None => {
                return Err(TransformTailDeltaError::ArithmeticOverflow);
            },
        };
        if *cursor < dist {
            return Err(TransformTailDeltaError::MatchBeforeOutput);
        }
        let s = *cursor - dist;
        if w > 1 && s > usize::MAX - w {
            return Err(TransformTailDeltaError::ArithmeticOverflow);
        }
        if s > out.len() || out.len() - s < w {
            return Err(TransformTailDeltaError::MatchBeforeOutput);
        }
        let base = crate::bytes::copy_bytes(&out[s..s + w]);
        if w > 1 && *p1 > usize::MAX - w {
            return Err(TransformTailDeltaError::ArithmeticOverflow);
        }
        if src1.len() - *p1 < w {
            return Err(TransformTailDeltaError::Source1TooSmall);
        }
        if lw == 3 && *cursor > usize::MAX - w {
            return Err(TransformTailDeltaError::ArithmeticOverflow);
        }
        if *cursor > out.len() || out.len() - *cursor < w {
            return Err(TransformTailDeltaError::OutputTooSmall);
        }
        let sum = combine_exec(&src1[*p1..*p1 + w], base.as_slice(), lw, m);
        write_bytes(out, *cursor, sum.as_slice());
        *p1 = *p1 + w;
    }
    if *cursor > usize::MAX - stride {
        return Err(TransformTailDeltaError::ArithmeticOverflow);
    }
    *cursor = *cursor + stride;
    *mi = *mi + 1;
    Ok(())
}

/// Once literals have failed, more literals leave the state failed.
proof fn lemma_direct_literals_failed_stays(
    st: DeltaRun,
    n1: int,
    n2: int,
    matches: Seq<u32>,
    src0: Seq<u8>,
    src1: Seq<u8>,
    w: int,
    lw: int,
    seed: bool,
    stride: int,
)
    requires
        0 <= n1 <= n2,
        direct_literals(st, n1, matches, src0, src1, w, lw, seed, stride) is Failed,
    ensures
        direct_literals(st, n2, matches, src0, src1, w, lw, seed, stride) == direct_literals(
            st,
            n1,
            matches,
            src0,
            src1,
            w,
            lw,
            seed,
            stride,
        ),
    decreases n2 - n1,
{
    if n1 < n2 {
        lemma_direct_literals_failed_stays(st, n1, n2 - 1, matches, src0, src1, w, lw, seed, stride);
    }
}

/// Once a tail has failed, later records leave it failed.
proof fn lemma_direct_records_failed_stays(
    st: DeltaRun,
    rs: Seq<TransformTailRecord>,
    k1: int,
    k2: int,
    matches: Seq<u32>,
    src0: Seq<u8>,
    src1: Seq<u8>,
    w: int,
    lw: int,
    seed: bool,
    stride: int,
)
    requires
        0 <= k1 <= k2,
        direct_records(st, rs, k1, matches, src0, src1, w, lw, seed, stride) is Failed,
    ensures
        direct_records(st, rs, k2, matches, src0, src1, w, lw, seed, stride) == direct_records(
            st,
            rs,
            k1,
            matches,
            src0,
            src1,
            w,
            lw,
            seed,
            stride,
        ),
    decreases k2 - k1,
{
    if k1 < k2 {
        lemma_direct_records_failed_stays(st, rs, k1, k2 - 1, matches, src0, src1, w, lw, seed, stride);
        let prev = direct_records(st, rs, k2 - 1, matches, src0, src1, w, lw, seed, stride);
        lemma_failed_literals_stay(prev, rs[k2 - 1].literal_count as int, matches, src0, src1, w, lw, seed, stride);
    }
}

/// Literals of a failed state leave it as it was.
proof fn lemma_failed_literals_stay(
    st: DeltaRun,
    n: int,
    matches: Seq<u32>,
    src0: Seq<u8>,
    src1: Seq<u8>,
    w: int,
    lw: int,
    seed: bool,
    stride: int,
)
    requires
        st is Failed,
    ensures
        direct_literals(st, n, matches, src0, src1, w, lw, seed, stride) == st,
    decreases n,
{
    if n > 0 {
        lemma_failed_literals_stay(st, n - 1, matches, src0, src1, w, lw, seed, stride);
    }
}

/// Emit `n` literals.
fn emit_direct_literals(
    out: &mut [u8],
    cursor: &mut usize,
    p0: &mut usize,
    p1: &mut usize,
    mi: &mut usize,
    n: u16,
    matches: &[u32],
    src0: &[u8],
    src1: &[u8],
    w: usize,
    lw: usize,
    seed: bool,
    stride: usize,
) -> (r: Result<(), TransformTailDeltaError>)
    requires
        (lw == 1 && 1 <= w <= 4) || (lw == 2 && w == 4) || (lw == 4 && w == 8) || (lw == 6 && w == 6) || (lw
            == 3 && w == 3),
        *old(p0) <= src0@.len(),
        *old(p1) <= src1@.len(),
        *old(mi) <= matches@.len(),
    ensures
        match direct_literals(
            DeltaRun::Running(
                old(out)@,
                *old(cursor) as int,
                *old(p0) as int,
                *old(p1) as int,
                *old(mi) as int,
            ),
            n as int,
            matches@,
            src0@,
            src1@,
            w as int,
            lw as int,
            seed,
            stride as int,
        ) {
            DeltaRun::Running(o, c, q0, q1, j) => r is Ok && final(out)@ == o && *final(cursor) == c
                && *final(p0) == q0 && *final(p1) == q1 && *final(mi) == j,
            DeltaRun::Failed(o, e) => r == Err::<(), TransformTailDeltaError>(e) && final(out)@ == o,
        },
        r is Ok ==> *final(p0) <= src0@.len() && *final(p1) <= src1@.len() && *final(mi) <= matches@.len(),
{
    let ghost s0 = DeltaRun::Running(out@, *cursor as int, *p0 as int, *p1 as int, *mi as int);
    let mut i: u16 = 0;
    while i < n
        invariant
            i <= n,
            (lw == 1 && 1 <= w <= 4) || (lw == 2 && w == 4) || (lw == 4 && w == 8) || (lw == 6 && w == 6) || (lw
            == 3 && w == 3),
            *p0 <= src0@.len(),
            *p1 <= src1@.len(),
            *mi <= matches@.len(),
            s0 == DeltaRun::Running(
                old(out)@,
                *old(cursor) as int,
                *old(p0) as int,
                *old(p1) as int,
                *old(mi) as int,
            ),
            direct_literals(s0, i as int, matches@, src0@, src1@, w as int, lw as int, seed, stride as int) == DeltaRun::Running(
                out@,
                *cursor as int,
                *p0 as int,
                *p1 as int,
                *mi as int,
            ),
        decreases n - i,
    {
        match direct_step(out, cursor, p0, p1, mi, matches, src0, src1, w, lw, seed, stride) {
            Ok(()) => {},
            Err(e) => {
                proof {
                    lemma_direct_literals_failed_stays(
                        s0,
                        i + 1,
                        n as int,
                        matches@,
                        src0@,
                        src1@,
                        w as int,
                        lw as int,
                        seed,
                        stride as int,
                    );
                }
                return Err(e);
            },
        }
        i += 1;
    }
    Ok(())
}

/// The shared direct/delta tail loop for values of `w` bytes.
fn direct_delta_into(
    out: &mut [u8],
    output_stride: usize,
    block_index: usize,
    out_offset: usize,
    records: &[TransformTailRecord],
    matches: &[u32],
    source0: &[u8],
    source1: &[u8],
    w: usize,
    lw: usize,
    seed: bool,
) -> (r: Result<TransformTailDeltaUsage, TransformTailDeltaError>)
    requires
        (lw == 1 && 1 <= w <= 4) || (lw == 2 && w == 4) || (lw == 4 && w == 8) || (lw == 6 && w == 6) || (lw
            == 3 && w == 3),
    ensures
        direct_result(
            final(out)@,
            r,
            spec_direct_tail(
                old(out)@,
                output_stride as int,
                block_index as int,
                out_offset as int,
                records@,
                matches@,
                source0@,
                source1@,
                w as int,
                lw as int,
                seed,
            ),
        ),
{
    if output_stride == 0 {
        return Err(TransformTailDeltaError::ZeroStride);
    }
    let start = match block_index.checked_mul(output_stride) {
        Some(x) => match x.checked_add(out_offset) {
            Some(y) => y,
            None => {
                return Err(TransformTailDeltaError::ArithmeticOverflow);
            },
        },
        None => {
            return Err(TransformTailDeltaError::ArithmeticOverflow);
        },
    };
    let mut cursor = start;
    let mut p0: usize = 0;
    let mut p1: usize = 0;
    let mut mi: usize = 0;
    let ghost st0 = DeltaRun::Running(old(out)@, start as int, 0, 0, 0);
    let ghost whole = spec_direct_tail(
        old(out)@,
        output_stride as int,
        block_index as int,
        out_offset as int,
        records@,
        matches@,
        source0@,
        source1@,
        w as int,
        lw as int,
        seed,
    );
    assert(whole == direct_records(
        st0,
        records@,
        records@.len() as int,
        matches@,
        source0@,
        source1@,
        w as int,
        lw as int,
        seed,
        output_stride as int,
    ));
    let mut k: usize = 0;
    while k < records.len()
        invariant
            k <= records@.len(),
            (lw == 1 && 1 <= w <= 4) || (lw == 2 && w == 4) || (lw == 4 && w == 8) || (lw == 6 && w == 6) || (lw
            == 3 && w == 3),
            p0 <= source0@.len(),
            p1 <= source1@.len(),
            mi <= matches@.len(),
            st0 == DeltaRun::Running(old(out)@, start as int, 0, 0, 0),
            whole == spec_direct_tail(
                old(out)@,
                output_stride as int,
                block_index as int,
                out_offset as int,
                records@,
                matches@,
                source0@,
                source1@,
                w as int,
                lw as int,
                seed,
            ),
            whole == direct_records(
                st0,
                records@,
                records@.len() as int,
                matches@,
                source0@,
                source1@,
                w as int,
                lw as int,
                seed,
                output_stride as int,
            ),
            direct_records(st0, records@, k as int, matches@, source0@, source1@, w as int, lw as int, seed, output_stride as int)
                == DeltaRun::Running(out@, cursor as int, p0 as int, p1 as int, mi as int),
        decreases records@.len() - k,
    {
        let rec = records[k];
        let ghost before = DeltaRun::Running(out@, cursor as int, p0 as int, p1 as int, mi as int);
        match emit_direct_literals(
            out,
            &mut cursor,
            &mut p0,
            &mut p1,
            &mut mi,
            rec.literal_count,
            matches,
            source0,
            source1,
            w,
            lw,
            seed,
            output_stride,
        ) {
            Ok(()) => {},
            Err(e) => {
                proof {
                    lemma_direct_records_failed_stays(
                        st0,
                        records@,
                        k + 1,
                        records@.len() as int,
                        matches@,
                        source0@,
                        source1@,
                        w as int,
                        lw as int,
                        seed,
                        output_stride as int,
                    );
                }
                return Err(e);
            },
        }
        let ghost lits = DeltaRun::Running(out@, cursor as int, p0 as int, p1 as int, mi as int);
        match emit_copies(out, &mut cursor, 0, rec.copy_count, rec.back_distance, w, output_stride) {
            Ok(()) => {},
            Err(e) => {
                proof {
                    lemma_direct_records_failed_stays(
                        st0,
                        records@,
                        k + 1,
                        records@.len() as int,
                        matches@,
                        source0@,
                        source1@,
                        w as int,
                        lw as int,
                        seed,
                        output_stride as int,
                    );
                }
                return Err(to_delta_error(e));
            },
        }
        let cc = rec.copy_count as usize;
        if mi > usize::MAX - cc {
            proof {
                lemma_direct_records_failed_stays(
                    st0,
                    records@,
                    k + 1,
                    records@.len() as int,
                    matches@,
                    source0@,
                    source1@,
                    w as int,
                    lw as int,
                    seed,
                    output_stride as int,
                );
            }
            return Err(TransformTailDeltaError::ArithmeticOverflow);
        }
        if mi + cc > matches.len() {
            proof {
                lemma_direct_records_failed_stays(
                    st0,
                    records@,
                    k + 1,
                    records@.len() as int,
                    matches@,
                    source0@,
                    source1@,
                    w as int,
                    lw as int,
                    seed,
                    output_stride as int,
                );
            }
            return Err(TransformTailDeltaError::MatchTableTooSmall);
        }
        mi = mi + cc;
        k += 1;
    }
    Ok(TransformTailDeltaUsage { source0: p0, source1: p1, source2: 0, match_entries: mi })
}

/// Apply the one-byte direct/delta transform tail. Match entry 0 copies
/// 1 byte(s) from source 0 to the cursor; another entry `m` adds 1
/// source-1 byte(s), mod 256, to the value `(m >> 3) * stride` bytes behind
/// the cursor. Each record's copies clone 1 byte(s) from `back_distance`
/// bytes behind the cursor and use match entries too. Returns how much of
/// each stream and of the match table was consumed. Its bounds are checked in the one-byte order: a value's end is never
/// computed, so no overflow error comes from it.
pub fn transform_tail_delta1_direct_into(out: &mut [u8], spec: TransformTailDelta1DirectSpec<'_>) -> (r: Result<
    TransformTailDeltaUsage,
    TransformTailDeltaError,
>)
    ensures
        direct_result(
            final(out)@,
            r,
            spec_direct_tail(
                old(out)@,
                spec.output_stride as int,
                spec.block_index as int,
                spec.out_offset as int,
                spec.records@,
                spec.matches@,
                spec.source0@,
                spec.source1@,
                1,
                1,
                false,
            ),
        ),
{
    direct_delta_into(
        out,
        spec.output_stride,
        spec.block_index,
        spec.out_offset,
        spec.records,
        spec.matches,
        spec.source0,
        spec.source1,
        1,
        1,
        false,
    )
}

/// Apply the two-byte direct/delta transform tail. Match entry 0 copies
/// 2 byte(s) from source 0 to the cursor; another entry `m` adds 2
/// source-1 byte(s), mod 256, to the value `(m >> 3) * stride` bytes behind
/// the cursor. Each record's copies clone 2 byte(s) from `back_distance`
/// bytes behind the cursor and use match entries too. Returns how much of
/// each stream and of the match table was consumed.
pub fn transform_tail_delta2_direct_into(out: &mut [u8], spec: TransformTailDelta2DirectSpec<'_>) -> (r: Result<
    TransformTailDeltaUsage,
    TransformTailDeltaError,
>)
    ensures
        direct_result(
            final(out)@,
            r,
            spec_direct_tail(
                old(out)@,
                spec.output_stride as int,
                spec.block_index as int,
                spec.out_offset as int,
                spec.records@,
                spec.matches@,
                spec.source0@,
                spec.source1@,
                2,
                1,
                false,
            ),
        ),
{
    direct_delta_into(
        out,
        spec.output_stride,
        spec.block_index,
        spec.out_offset,
        spec.records,
        spec.matches,
        spec.source0,
        spec.source1,
        2,
        1,
        false,
    )
}

/// Apply the three-byte direct/delta transform tail. Match entry 0 copies
/// 3 byte(s) from source 0 to the cursor; another entry `m` adds 3
/// source-1 byte(s), mod 256, to the value `(m >> 3) * stride` bytes behind
/// the cursor. Each record's copies clone 3 byte(s) from `back_distance`
/// bytes behind the cursor and use match entries too. Returns how much of
/// each stream and of the match table was consumed.
pub fn transform_tail_delta3_direct_into(out: &mut [u8], spec: TransformTailDelta3DirectSpec<'_>) -> (r: Result<
    TransformTailDeltaUsage,
    TransformTailDeltaError,
>)
    ensures
        direct_result(
            final(out)@,
            r,
            spec_direct_tail(
                old(out)@,
                spec.output_stride as int,
                spec.block_index as int,
                spec.out_offset as int,
                spec.records@,
                spec.matches@,
                spec.source0@,
                spec.source1@,
                3,
                1,
                false,
            ),
        ),
{
    direct_delta_into(
        out,
        spec.output_stride,
        spec.block_index,
        spec.out_offset,
        spec.records,
        spec.matches,
        spec.source0,
        spec.source1,
        3,
        1,
        false,
    )
}

/// Apply the four-byte direct/delta transform tail. Match entry 0 copies
/// 4 byte(s) from source 0 to the cursor; another entry `m` adds 4
/// source-1 byte(s), mod 256, to the value `(m >> 3) * stride` bytes behind
/// the cursor. Each record's copies clone 4 byte(s) from `back_distance`
/// bytes behind the cursor and use match entries too. Returns how much of
/// each stream and of the match table was consumed.
pub fn transform_tail_delta4_direct_into(out: &mut [u8], spec: TransformTailDelta4DirectSpec<'_>) -> (r: Result<
    TransformTailDeltaUsage,
    TransformTailDeltaError,
>)
    ensures
        direct_result(
            final(out)@,
            r,
            spec_direct_tail(
                old(out)@,
                spec.output_stride as int,
                spec.block_index as int,
                spec.out_offset as int,
                spec.records@,
                spec.matches@,
                spec.source0@,
                spec.source1@,
                4,
                1,
                false,
            ),
        ),
{
    direct_delta_into(
        out,
        spec.output_stride,
        spec.block_index,
        spec.out_offset,
        spec.records,
        spec.matches,
        spec.source0,
        spec.source1,
        4,
        1,
        false,
    )
}

/// Apply the two-u16 direct/matched delta tail. Match entry 0 copies four
/// source-0 bytes to the cursor; another entry `m` adds two little-endian
/// u16 deltas from source 1 (each wrapping) to the vertex `(m >> 3) *
/// stride` bytes behind the cursor. Each record's copies clone four bytes
/// from `back_distance` bytes behind the cursor and use match entries too.
pub fn transform_tail_u16x2_direct_delta_into(out: &mut [u8], spec: TransformTailU16x2DirectDeltaSpec<'_>) -> (r: Result<
    TransformTailDeltaUsage,
    TransformTailDeltaError,
>)
    ensures
        direct_result(
            final(out)@,
            r,
            spec_direct_tail(
                old(out)@,
                spec.output_stride as int,
                spec.block_index as int,
                spec.out_offset as int,
                spec.records@,
                spec.matches@,
                spec.source0@,
                spec.source1@,
                4,
                2,
                false,
            ),
        ),
{
    direct_delta_into(
        out,
        spec.output_stride,
        spec.block_index,
        spec.out_offset,
        spec.records,
        spec.matches,
        spec.source0,
        spec.source1,
        4,
        2,
        false,
    )
}

/// Apply the two-u32 direct/matched delta tail. Match entry 0 copies eight
/// source-0 bytes to the cursor; another entry `m` adds two little-endian
/// u32 deltas from source 1 (each wrapping) to the vertex `(m >> 3) *
/// stride` bytes behind the cursor. Each record's copies clone eight bytes
/// from `back_distance` bytes behind the cursor and use match entries too.
pub fn transform_tail_u32x2_delta_into(out: &mut [u8], spec: TransformTailU32x2DeltaSpec<'_>) -> (r: Result<
    TransformTailDeltaUsage,
    TransformTailDeltaError,
>)
    ensures
        direct_result(
            final(out)@,
            r,
            spec_direct_tail(
                old(out)@,
                spec.output_stride as int,
                spec.block_index as int,
                spec.out_offset as int,
                spec.records@,
                spec.matches@,
                spec.source0@,
                spec.source1@,
                8,
                4,
                false,
            ),
        ),
{
    direct_delta_into(
        out,
        spec.output_stride,
        spec.block_index,
        spec.out_offset,
        spec.records,
        spec.matches,
        spec.source0,
        spec.source1,
        8,
        4,
        false,
    )
}

/// Apply the two-u16 seed/previous/matched delta tail. The first value with
/// match entry 0 copies four source-0 bytes; later ones add two source-0
/// u16 deltas to the previous vertex (`stride` bytes back); another entry
/// `m` adds two source-1 u16 deltas to the vertex `(m >> 3) * stride` bytes
/// back. All u16 additions wrap. Copies clone four bytes from
/// `back_distance` bytes behind the cursor and use match entries too.
pub fn transform_tail_u16x2_delta_into(out: &mut [u8], spec: TransformTailU16x2DeltaSpec<'_>) -> (r: Result<
    TransformTailDeltaUsage,
    TransformTailDeltaError,
>)
    ensures
        direct_result(
            final(out)@,
            r,
            spec_direct_tail(
                old(out)@,
                spec.output_stride as int,
                spec.block_index as int,
                spec.out_offset as int,
                spec.records@,
                spec.matches@,
                spec.source0@,
                spec.source1@,
                4,
                2,
                true,
            ),
        ),
{
    direct_delta_into(
        out,
        spec.output_stride,
        spec.block_index,
        spec.out_offset,
        spec.records,
        spec.matches,
        spec.source0,
        spec.source1,
        4,
        2,
        true,
    )
}

/// Apply the three-u16 direct/signed-delta transform tail. Match entry 0
/// copies 6 bytes from source 0 to the cursor; another entry `m` takes the
/// three little-endian u16 lanes `(m >> 3) * stride` bytes behind the
/// cursor, flips the top bit of lane `k` when bit `k` of `m` is set, and
/// adds the three source-1 u16 deltas (wrapping). Each record's copies
/// clone 6 bytes from `back_distance` bytes behind the cursor and use match
/// entries too. Returns how much of each stream and of the match table was
/// consumed.
pub fn transform_tail_u16x3_delta_into(out: &mut [u8], spec: TransformTailU16x3DeltaSpec<'_>) -> (r: Result<
    TransformTailDeltaUsage,
    TransformTailDeltaError,
>)
    ensures
        direct_result(
            final(out)@,
            r,
            spec_direct_tail(
                old(out)@,
                spec.output_stride as int,
                spec.block_index as int,
                spec.out_offset as int,
                spec.records@,
                spec.matches@,
                spec.source0@,
                spec.source1@,
                6,
                6,
                false,
            ),
        ),
{
    direct_delta_into(
        out,
        spec.output_stride,
        spec.block_index,
        spec.out_offset,
        spec.records,
        spec.matches,
        spec.source0,
        spec.source1,
        6,
        6,
        false,
    )
}

/// Whether some record asks for copies.
pub open spec fn any_copies(rs: Seq<TransformTailRecord>) -> bool {
    exists|k: int| 0 <= k < rs.len() && #[trigger] rs[k].copy_count != 0
}

/// Apply the three-byte signed direct/delta transform tail. A record with
/// copies is rejected before anything is written. Match entry 0 copies 3
/// bytes from source 0 to the cursor; another entry `m` takes the 3 bytes
/// `(m >> 3) * stride` bytes behind the cursor and, for byte `k`, adds the
/// source-1 delta to it, complemented and plus one when bit `k` of `m` is
/// set (mod 256). Returns how much of each stream and of the match table
/// was consumed.
pub fn transform_tail_i8x3_direct_delta_into(out: &mut [u8], spec: TransformTailI8x3DirectDeltaSpec<'_>) -> (r:
    Result<TransformTailDeltaUsage, TransformTailDeltaError>)
    ensures
        any_copies(spec.records@) ==> final(out)@ == old(out)@ && r == Err::<
            TransformTailDeltaUsage,
            TransformTailDeltaError,
        >(TransformTailDeltaError::UnobservedRecordShape),
        !any_copies(spec.records@) ==> direct_result(
            final(out)@,
            r,
            spec_direct_tail(
                old(out)@,
                spec.output_stride as int,
                spec.block_index as int,
                spec.out_offset as int,
                spec.records@,
                spec.matches@,
                spec.source0@,
                spec.source1@,
                3,
                3,
                false,
            ),
        ),
{
    let mut k: usize = 0;
    while k < spec.records.len()
        invariant
            k <= spec.records@.len(),
            forall|j: int| 0 <= j < k ==> #[trigger] spec.records@[j].copy_count == 0,
        decreases spec.records@.len() - k,
    {
        if spec.records[k].copy_count != 0 {
            return Err(TransformTailDeltaError::UnobservedRecordShape);
        }
        k += 1;
    }
    direct_delta_into(
        out,
        spec.output_stride,
        spec.block_index,
        spec.out_offset,
        spec.records,
        spec.matches,
        spec.source0,
        spec.source1,
        3,
        3,
        false,
    )
}

} // verus!
