//! The row-based transform tails (see `rows` for what each computes): the
//! steps, the shared record loop, and the public tails.
use vstd::prelude::*;
use crate::mc::geometry::delta::to_delta_error;
use crate::mc::geometry::rows::{
    lane_delta, pack_add, pack_copy, pack_row, put_row, put_window, read_window, record_account, record_copies,
    row_copies, row_literals, row_records, row_step, spec_row_tail, three_direct, three_row, previous_row, tail_sum,
    window_copy, window_row, RowInput, RowRun, RowShape,
};
use crate::mc::geometry::tails::{
    add_bytes, add_lanes, copy_backs, emit_copies, write_bytes, CopyRun, TransformTailDelta2Spec, TransformTailDelta3Spec,
    TransformTailDelta4Spec, TransformTailDeltaError, TransformTailDeltaUsage, TransformTailPack10x3PreviousDeltaSpec,
    TransformTailRecord, TransformTailU16x2PreviousDeltaSpec, TransformTailU8PreviousDeltaSpec,
    TransformTailU8x2DeltaSpec, TransformTailU8x3DeltaSpec, TransformTailU8x3PreviousDeltaSpec,
};

verus! {

/// Write `v` at the cursor and step the cursor (see `put_row`).
fn put_row_exec(out: &mut [u8], cursor: &mut usize, v: &[u8], stride: usize) -> (r: Result<(), TransformTailDeltaError>)
    ensures
        match put_row(old(out)@, *old(cursor) as int, v@, 0, 0, 0, 0, stride as int) {
            RowRun::Running(o, c, q0, q1, q2, j) => r is Ok && final(out)@ == o && *final(cursor) == c,
            RowRun::Failed(o, e) => r == Err::<(), TransformTailDeltaError>(e) && final(out)@ == o,
        },
{
    if *cursor > out.len() || out.len() - *cursor < v.len() {
        return Err(TransformTailDeltaError::OutputTooSmall);
    }
    write_bytes(out, *cursor, v);
    if *cursor > usize::MAX - stride {
        return Err(TransformTailDeltaError::ArithmeticOverflow);
    }
    *cursor = *cursor + stride;
    Ok(())
}

/// The `w` bytes of the window at `s` (see `read_window`).
fn read_window_exec(out: &[u8], s: usize, w: usize, lo: usize, err: TransformTailDeltaError) -> (r: Result<
    Vec<u8>,
    TransformTailDeltaError,
>)
    requires
        lo <= 1,
        2 <= w <= 4,
    ensures
        match read_window(out@, s as int, w as int, lo as int, err) {
            Ok(v) => r matches Ok(x) && x@ == v,
            Err(e) => r == Err::<Vec<u8>, TransformTailDeltaError>(e),
        },
{
    if s < lo {
        return Err(err);
    }
    if s > usize::MAX - (w - lo) {
        return Err(TransformTailDeltaError::ArithmeticOverflow);
    }
    let a = s - lo;
    if a > out.len() || out.len() - a < w {
        return Err(err);
    }
    Ok(crate::bytes::copy_bytes(&out[a..a + w]))
}

/// Write `v` into the window at the cursor and step (see `put_window`).
fn put_window_exec(out: &mut [u8], cursor: &mut usize, v: &[u8], lo: usize, stride: usize) -> (r: Result<
    (),
    TransformTailDeltaError,
>)
    requires
        lo <= 1,
        2 <= v@.len() <= 4,
    ensures
        match put_window(old(out)@, *old(cursor) as int, v@, lo as int, 0, 0, 0, 0, stride as int) {
            RowRun::Running(o, c, q0, q1, q2, j) => r is Ok && final(out)@ == o && *final(cursor) == c,
            RowRun::Failed(o, e) => r == Err::<(), TransformTailDeltaError>(e) && final(out)@ == o,
        },
{
    if *cursor < lo {
        return Err(TransformTailDeltaError::OutputTooSmall);
    }
    if *cursor > usize::MAX - (v.len() - lo) {
        return Err(TransformTailDeltaError::ArithmeticOverflow);
    }
    let a = *cursor - lo;
    if a > out.len() || out.len() - a < v.len() {
        return Err(TransformTailDeltaError::OutputTooSmall);
    }
    write_bytes(out, a, v);
    if *cursor > usize::MAX - stride {
        return Err(TransformTailDeltaError::ArithmeticOverflow);
    }
    *cursor = *cursor + stride;
    Ok(())
}

/// Bytewise sum (mod 256) of two equally long byte strings.
fn add_rows(delta: &[u8], base: &[u8]) -> (v: Vec<u8>)
    requires
        delta@.len() == base@.len(),
    ensures
        v@ == add_bytes(delta@, base@),
{
    let mut v: Vec<u8> = Vec::new();
    let mut j: usize = 0;
    while j < delta.len()
        invariant
            j <= delta@.len(),
            delta@.len() == base@.len(),
            v@.len() == j,
            forall|i: int| 0 <= i < j ==> #[trigger] v@[i] == ((delta@[i] + base@[i]) % 256) as u8,
        decreases delta@.len() - j,
    {
        let s: u16 = (delta[j] as u16 + base[j] as u16) % 256;
        v.push(s as u8);
        j += 1;
    }
    assert(v@ =~= add_bytes(delta@, base@));
    v
}

/// A three-stream direct row (see `three_direct`).
fn three_direct_exec(b0: u8, t: &[u8]) -> (v: Vec<u8>)
    requires
        1 <= t@.len() <= 3,
    ensures
        v@ == three_direct(b0, t@),
{
    let mut acc: u32 = b0 as u32 + 1024 - t[0] as u32;
    if t.len() >= 2 {
        acc = acc - t[1] as u32;
    }
    if t.len() >= 3 {
        acc = acc - t[2] as u32;
    }
    acc = acc - 1;
    assert(acc == b0 + 1024 - tail_sum(t@) - 1);
    assert((b0 + 1024 - tail_sum(t@) - 1) % 256 == (b0 - tail_sum(t@) - 1) % 256);
    let mut v: Vec<u8> = Vec::new();
    v.push((acc % 256) as u8);
    crate::bytes::push_slice(&mut v, t);
    assert(v@ =~= three_direct(b0, t@));
    v
}

/// One three-stream row (see `three_row`).
fn three_row_exec(
    out: &mut [u8],
    cursor: &mut usize,
    p0: &mut usize,
    p1: &mut usize,
    p2: &mut usize,
    mi: &mut usize,
    matches: &[u32],
    s0: &[u8],
    s1: &[u8],
    s2: &[u8],
    w: usize,
    stride: usize,
) -> (r: Result<(), TransformTailDeltaError>)
    requires
        2 <= w <= 4,
        *old(p0) <= s0@.len(),
        *old(p1) <= s1@.len(),
        *old(p2) <= s2@.len(),
        *old(mi) <= matches@.len(),
    ensures
        match three_row(
            old(out)@,
            *old(cursor) as int,
            *old(p0) as int,
            *old(p1) as int,
            *old(p2) as int,
            *old(mi) as int,
            (RowInput { matches: matches@, s0: s0@, s1: s1@, s2: s2@ }),
            w as int,
            stride as int,
        ) {
            RowRun::Running(o, c, q0, q1, q2, j) => r is Ok && final(out)@ == o && *final(cursor) == c && *final(p0)
                == q0 && *final(p1) == q1 && *final(p2) == q2 && *final(mi) == j,
            RowRun::Failed(o, e) => r == Err::<(), TransformTailDeltaError>(e) && final(out)@ == o,
        },
        r is Ok ==> *final(p0) <= s0@.len() && *final(p1) <= s1@.len() && *final(p2) <= s2@.len() && *final(mi)
            <= matches@.len(),
{
    if *mi >= matches.len() {
        return Err(TransformTailDeltaError::MatchTableTooSmall);
    }
    if *cursor > usize::MAX - w {
        return Err(TransformTailDeltaError::ArithmeticOverflow);
    }
    let m = matches[*mi];
    if m == 0 {
        if w >= 3 && *p1 > usize::MAX - (w - 1) {
            return Err(TransformTailDeltaError::ArithmeticOverflow);
        }
        if s1.len() - *p1 < w - 1 {
            return Err(TransformTailDeltaError::Source1TooSmall);
        }
        if *p0 >= s0.len() {
            return Err(TransformTailDeltaError::Source0TooSmall);
        }
        let v = three_direct_exec(s0[*p0], &s1[*p1..*p1 + (w - 1)]);
        put_row_exec(out, cursor, v.as_slice(), stride)?;
        *p0 = *p0 + 1;
        *p1 = *p1 + (w - 1);
    } else {
        let units: usize = (m >> 3u32) as usize;
        let dist = match units.checked_mul(stride) {
            Some(d) => d,
            None => {
                return Err(TransformTailDeltaError::ArithmeticOverflow);
            },
        };
        if *cursor < dist {
            return Err(TransformTailDeltaError::MatchBeforeOutput);
        }
        let s = *cursor - dist;
        if s > usize::MAX - w {
            return Err(TransformTailDeltaError::ArithmeticOverflow);
        }
        if s > out.len() || out.len() - s < w {
            return Err(TransformTailDeltaError::MatchBeforeOutput);
        }
        let base = crate::bytes::copy_bytes(&out[s..s + w]);
        if *p2 > usize::MAX - w {
            return Err(TransformTailDeltaError::ArithmeticOverflow);
        }
        if s2.len() - *p2 < w {
            return Err(TransformTailDeltaError::Source2TooSmall);
        }
        let v = add_rows(&s2[*p2..*p2 + w], base.as_slice());
        put_row_exec(out, cursor, v.as_slice(), stride)?;
        *p2 = *p2 + w;
    }
    *mi = *mi + 1;
    Ok(())
}

/// One window row (see `window_row`).
fn window_row_exec(
    out: &mut [u8],
    cursor: &mut usize,
    p0: &mut usize,
    p1: &mut usize,
    p2: &mut usize,
    mi: &mut usize,
    matches: &[u32],
    s0: &[u8],
    s1: &[u8],
    s2: &[u8],
    w: usize,
    lo: usize,
    stride: usize,
) -> (r: Result<(), TransformTailDeltaError>)
    requires
        2 <= w <= 4,
        lo <= 1,
        *old(p0) <= s0@.len(),
        *old(p1) <= s1@.len(),
        *old(mi) <= matches@.len(),
    ensures
        match window_row(
            old(out)@,
            *old(cursor) as int,
            *old(p0) as int,
            *old(p1) as int,
            *old(p2) as int,
            *old(mi) as int,
            (RowInput { matches: matches@, s0: s0@, s1: s1@, s2: s2@ }),
            w as int,
            lo as int,
            stride as int,
        ) {
            RowRun::Running(o, c, q0, q1, q2, j) => r is Ok && final(out)@ == o && *final(cursor) == c && *final(p0)
                == q0 && *final(p1) == q1 && *final(p2) == q2 && *final(mi) == j,
            RowRun::Failed(o, e) => r == Err::<(), TransformTailDeltaError>(e) && final(out)@ == o,
        },
        r is Ok ==> *final(p0) <= s0@.len() && *final(p1) <= s1@.len() && *final(p2) == *old(p2) && *final(mi)
            <= matches@.len(),
{
    if *mi >= matches.len() {
        return Err(TransformTailDeltaError::MatchTableTooSmall);
    }
    let m = matches[*mi];
    if m != 0 {
        let units: usize = (m >> 3u32) as usize;
        let dist = match units.checked_mul(stride) {
            Some(d) => d,
            None => {
                return Err(TransformTailDeltaError::ArithmeticOverflow);
            },
        };
        if *cursor < dist {
            return Err(TransformTailDeltaError::MatchBeforeOutput);
        }
        let prev = read_window_exec(out, *cursor - dist, w, lo, TransformTailDeltaError::MatchBeforeOutput)?;
        if *p1 > usize::MAX - w {
            return Err(TransformTailDeltaError::ArithmeticOverflow);
        }
        if s1.len() - *p1 < w {
            return Err(TransformTailDeltaError::Source1TooSmall);
        }
        let v = add_rows(&s1[*p1..*p1 + w], prev.as_slice());
        put_window_exec(out, cursor, v.as_slice(), lo, stride)?;
        *p1 = *p1 + w;
    } else if *mi == 0 {
        if *p0 > usize::MAX - w {
            return Err(TransformTailDeltaError::ArithmeticOverflow);
        }
        if s0.len() - *p0 < w {
            return Err(TransformTailDeltaError::Source0TooSmall);
        }
        put_window_exec(out, cursor, &s0[*p0..*p0 + w], lo, stride)?;
        *p0 = *p0 + w;
    } else {
        if *cursor < stride {
            return Err(TransformTailDeltaError::MatchBeforeOutput);
        }
        let prev = read_window_exec(out, *cursor - stride, w, lo, TransformTailDeltaError::MatchBeforeOutput)?;
        if *p0 > usize::MAX - w {
            return Err(TransformTailDeltaError::ArithmeticOverflow);
        }
        if s0.len() - *p0 < w {
            return Err(TransformTailDeltaError::Source0TooSmall);
        }
        let v = add_rows(&s0[*p0..*p0 + w], prev.as_slice());
        put_window_exec(out, cursor, v.as_slice(), lo, stride)?;
        *p0 = *p0 + w;
    }
    *mi = *mi + 1;
    Ok(())
}

/// Append the wrapping sum of the 16-bit lanes at `off`.
fn push_lane16(v: &mut Vec<u8>, delta: &[u8], base: &[u8], off: usize)
    requires
        off + 2 <= delta@.len(),
        off + 2 <= base@.len(),
    ensures
        final(v)@ == old(v)@ + crate::mc::geometry::tails::add_u16_lane(delta@, base@, off as int),
{
    let x = crate::bytes::get_u16(delta, off, false);
    let y = crate::bytes::get_u16(base, off, false);
    let a = x.wrapping_add(y);
    assert(a == ((x as int + y as int) % 0x1_0000) as u16);
    crate::bytes::push_u16(v, a, false);
}

/// `delta` added to `base` in bytes (`lw` 1) or two 16-bit lanes (`lw` 2).
fn add_row_lanes(delta: &[u8], base: &[u8], lw: usize) -> (v: Vec<u8>)
    requires
        delta@.len() == base@.len(),
        lw == 1 || (lw == 2 && delta@.len() == 4),
    ensures
        v@ == add_lanes(delta@, base@, lw as int),
{
    if lw == 2 {
        let mut v: Vec<u8> = Vec::new();
        push_lane16(&mut v, delta, base, 0);
        push_lane16(&mut v, delta, base, 2);
        assert(v@ =~= add_lanes(delta@, base@, lw as int));
        v
    } else {
        add_rows(delta, base)
    }
}

/// One seed/previous row (see `previous_row`).
fn previous_row_exec(
    out: &mut [u8],
    cursor: &mut usize,
    p0: &mut usize,
    p1: &mut usize,
    p2: &mut usize,
    mi: &mut usize,
    matches: &[u32],
    s0: &[u8],
    s1: &[u8],
    s2: &[u8],
    w: usize,
    lw: usize,
    stride: usize,
) -> (r: Result<(), TransformTailDeltaError>)
    requires
        (w == 1 && lw == 1) || (w == 3 && lw == 1) || (w == 4 && lw == 2),
        *old(p0) <= s0@.len(),
    ensures
        match previous_row(
            old(out)@,
            *old(cursor) as int,
            *old(p0) as int,
            *old(p1) as int,
            *old(p2) as int,
            *old(mi) as int,
            (RowInput { matches: matches@, s0: s0@, s1: s1@, s2: s2@ }),
            w as int,
            lw as int,
            stride as int,
        ) {
            RowRun::Running(o, c, q0, q1, q2, j) => r is Ok && final(out)@ == o && *final(cursor) == c && *final(p0)
                == q0 && *final(p1) == q1 && *final(p2) == q2 && *final(mi) == j,
            RowRun::Failed(o, e) => r == Err::<(), TransformTailDeltaError>(e) && final(out)@ == o,
        },
        r is Ok ==> *final(p0) <= s0@.len() && *final(p1) == *old(p1) && *final(p2) == *old(p2),
{
    if w > 1 && *cursor > usize::MAX - w {
        return Err(TransformTailDeltaError::ArithmeticOverflow);
    }
    if w > 1 && *p0 > usize::MAX - w {
        return Err(TransformTailDeltaError::ArithmeticOverflow);
    }
    if s0.len() - *p0 < w {
        return Err(TransformTailDeltaError::Source0TooSmall);
    }
    if *mi == 0 {
        if *cursor > out.len() || out.len() - *cursor < w {
            return Err(TransformTailDeltaError::OutputTooSmall);
        }
        write_bytes(out, *cursor, &s0[*p0..*p0 + w]);
    } else {
        if *cursor < stride {
            return Err(TransformTailDeltaError::MatchBeforeOutput);
        }
        let s = *cursor - stride;
        if w > 1 && s > usize::MAX - w {
            return Err(TransformTailDeltaError::ArithmeticOverflow);
        }
        if s > out.len() || out.len() - s < w {
            return Err(TransformTailDeltaError::MatchBeforeOutput);
        }
        let base = crate::bytes::copy_bytes(&out[s..s + w]);
        if *cursor > out.len() || out.len() - *cursor < w {
            return Err(TransformTailDeltaError::OutputTooSmall);
        }
        let v = add_row_lanes(&s0[*p0..*p0 + w], base.as_slice(), lw);
        write_bytes(out, *cursor, v.as_slice());
    }
    if w == 1 && *p0 > usize::MAX - 1 {
        return Err(TransformTailDeltaError::ArithmeticOverflow);
    }
    if *cursor > usize::MAX - stride {
        return Err(TransformTailDeltaError::ArithmeticOverflow);
    }
    if *mi > usize::MAX - 1 {
        return Err(TransformTailDeltaError::ArithmeticOverflow);
    }
    *p0 = *p0 + w;
    *cursor = *cursor + stride;
    *mi = *mi + 1;
    Ok(())
}

/// The packed row with the lane deltas at `off` of `d` added (see
/// `pack_add`).
fn pack_add_exec(prev: u32, d: &[u8], off: usize) -> (v: u32)
    requires
        off + 6 <= d@.len(),
        off + 6 <= usize::MAX,
    ensures
        v == pack_add(prev, d@, off as int),
{
    let d0 = crate::bytes::get_u16(d, off, false);
    let d1 = crate::bytes::get_u16(d, off + 2, false);
    let d2 = crate::bytes::get_u16(d, off + 4, false);
    let a0 = prev & 0x3ffu32;
    let a1 = (prev >> 10u32) & 0x3ffu32;
    let a2 = (prev >> 20u32) & 0x3ffu32;
    let x0 = a0.wrapping_add(d0 as u32);
    let x1 = a1.wrapping_add(d1 as u32);
    let x2 = a2.wrapping_add(d2 as u32);
    assert(x0 == ((a0 + d0) % 0x1_0000_0000) as u32);
    assert(x1 == ((a1 + d1) % 0x1_0000_0000) as u32);
    assert(x2 == ((a2 + d2) % 0x1_0000_0000) as u32);
    let l0 = x0 & 0x3ffu32;
    let l1 = x1 & 0x3ffu32;
    let l2 = x2 & 0x3ffu32;
    assert(l0 == lane_delta(a0, d0));
    assert(l1 == lane_delta(a1, d1));
    assert(l2 == lane_delta(a2, d2));
    (l0 & 0x3ffu32) | ((l1 & 0x3ffu32) << 10u32) | ((l2 & 0x3ffu32) << 20u32)
}

/// One packed 10-10-10 row (see `pack_row`).
fn pack_row_exec(
    out: &mut [u8],
    cursor: &mut usize,
    p0: &mut usize,
    p1: &mut usize,
    p2: &mut usize,
    mi: &mut usize,
    matches: &[u32],
    s0: &[u8],
    s1: &[u8],
    s2: &[u8],
    stride: usize,
) -> (r: Result<(), TransformTailDeltaError>)
    requires
        *old(p0) <= s0@.len(),
        *old(p1) <= s1@.len(),
        *old(mi) <= matches@.len(),
    ensures
        match pack_row(
            old(out)@,
            *old(cursor) as int,
            *old(p0) as int,
            *old(p1) as int,
            *old(p2) as int,
            *old(mi) as int,
            (RowInput { matches: matches@, s0: s0@, s1: s1@, s2: s2@ }),
            stride as int,
        ) {
            RowRun::Running(o, c, q0, q1, q2, j) => r is Ok && final(out)@ == o && *final(cursor) == c && *final(p0)
                == q0 && *final(p1) == q1 && *final(p2) == q2 && *final(mi) == j,
            RowRun::Failed(o, e) => r == Err::<(), TransformTailDeltaError>(e) && final(out)@ == o,
        },
        r is Ok ==> *final(p0) <= s0@.len() && *final(p1) <= s1@.len() && *final(p2) == *old(p2) && *final(mi)
            <= matches@.len(),
{
    if *mi >= matches.len() {
        return Err(TransformTailDeltaError::MatchTableTooSmall);
    }
    if *cursor > usize::MAX - 4 {
        return Err(TransformTailDeltaError::ArithmeticOverflow);
    }
    let m = matches[*mi];
    if m == 0 {
        if *p0 > usize::MAX - 6 {
            return Err(TransformTailDeltaError::ArithmeticOverflow);
        }
        if s0.len() - *p0 < 6 {
            return Err(TransformTailDeltaError::Source0TooSmall);
        }
        let value: u32 = if *mi == 0 {
            let l0 = crate::bytes::get_u16(s0, *p0, false);
            let l1 = crate::bytes::get_u16(s0, *p0 + 2, false);
            let l2 = crate::bytes::get_u16(s0, *p0 + 4, false);
            (l0 as u32) | ((l1 as u32) << 10u32) | ((l2 as u32) << 20u32)
        } else {
            if *cursor < stride {
                return Err(TransformTailDeltaError::MatchBeforeOutput);
            }
            let s = *cursor - stride;
            if s > usize::MAX - 4 || s > out.len() || out.len() - s < 4 {
                return Err(TransformTailDeltaError::MatchBeforeOutput);
            }
            let prev = crate::bytes::get_u32(out, s, false);
            pack_add_exec(prev, s0, *p0)
        };
        let mut v: Vec<u8> = Vec::new();
        crate::bytes::push_u32(&mut v, value, false);
        put_row_exec(out, cursor, v.as_slice(), stride)?;
        *p0 = *p0 + 6;
    } else {
        let units: usize = (m >> 3u32) as usize;
        let dist = match units.checked_mul(stride) {
            Some(d) => d,
            None => {
                return Err(TransformTailDeltaError::ArithmeticOverflow);
            },
        };
        if *cursor < dist {
            return Err(TransformTailDeltaError::MatchBeforeOutput);
        }
        let s = *cursor - dist;
        if s > usize::MAX - 4 {
            return Err(TransformTailDeltaError::ArithmeticOverflow);
        }
        if s > out.len() || out.len() - s < 4 {
            return Err(TransformTailDeltaError::MatchBeforeOutput);
        }
        let prev = crate::bytes::get_u32(out, s, false);
        if *p1 > usize::MAX - 6 {
            return Err(TransformTailDeltaError::ArithmeticOverflow);
        }
        if s1.len() - *p1 < 6 {
            return Err(TransformTailDeltaError::Source1TooSmall);
        }
        let value = pack_add_exec(prev, s1, *p1);
        let mut v: Vec<u8> = Vec::new();
        crate::bytes::push_u32(&mut v, value, false);
        put_row_exec(out, cursor, v.as_slice(), stride)?;
        *p1 = *p1 + 6;
    }
    *mi = *mi + 1;
    Ok(())
}

/// The row tails there are: three-stream rows of 2 to 4 bytes; window rows
/// of 2 bytes around the cursor or 3 bytes at it; seed/previous rows of 1
/// or 3 bytes or two u16 lanes; packed 10-10-10 rows.
pub open spec fn shape_ok(kind: u8, w: usize, lo: usize, lw: usize) -> bool {
    ||| kind == 0 && 2 <= w <= 4 && lo == 0
    ||| kind == 1 && ((w == 2 && lo == 1) || (w == 3 && lo == 0))
    ||| kind == 2 && lo == 0 && ((w == 1 && lw == 1) || (w == 3 && lw == 1) || (w == 4 && lw == 2))
    ||| kind == 3 && w == 4 && lo == 0
}

/// The shape as a spec value.
pub open spec fn shape_of(kind: u8, w: usize, lo: usize, lw: usize) -> RowShape {
    RowShape { kind: kind as int, w: w as int, lo: lo as int, lw: lw as int }
}

/// The positions of a running row tail stay inside what they index.
pub open spec fn row_bounds(p0: usize, p1: usize, p2: usize, mi: usize, kind: u8, ins: RowInput) -> bool {
    p0 <= ins.s0.len() && p1 <= ins.s1.len() && p2 <= ins.s2.len() && (kind != 2 ==> mi <= ins.matches.len())
}

/// One literal row of any row tail (see `row_step`).
fn row_step_exec(
    out: &mut [u8],
    cursor: &mut usize,
    p0: &mut usize,
    p1: &mut usize,
    p2: &mut usize,
    mi: &mut usize,
    kind: u8,
    w: usize,
    lo: usize,
    lw: usize,
    matches: &[u32],
    s0: &[u8],
    s1: &[u8],
    s2: &[u8],
    stride: usize,
) -> (r: Result<(), TransformTailDeltaError>)
    requires
        shape_ok(kind, w, lo, lw),
        row_bounds(*old(p0), *old(p1), *old(p2), *old(mi), kind, (RowInput { matches: matches@, s0: s0@, s1: s1@, s2: s2@ })),
    ensures
        match row_step(
            RowRun::Running(
                old(out)@,
                *old(cursor) as int,
                *old(p0) as int,
                *old(p1) as int,
                *old(p2) as int,
                *old(mi) as int,
            ),
            shape_of(kind, w, lo, lw),
            (RowInput { matches: matches@, s0: s0@, s1: s1@, s2: s2@ }),
            stride as int,
        ) {
            RowRun::Running(o, c, q0, q1, q2, j) => r is Ok && final(out)@ == o && *final(cursor) == c && *final(p0)
                == q0 && *final(p1) == q1 && *final(p2) == q2 && *final(mi) == j,
            RowRun::Failed(o, e) => r == Err::<(), TransformTailDeltaError>(e) && final(out)@ == o,
        },
        r is Ok ==> row_bounds(*final(p0), *final(p1), *final(p2), *final(mi), kind, (RowInput { matches: matches@, s0: s0@, s1: s1@, s2: s2@ })),
{
    proof {
        reveal(row_step);
    }
    if kind == 0 {
        three_row_exec(out, cursor, p0, p1, p2, mi, matches, s0, s1, s2, w, stride)
    } else if kind == 1 {
        window_row_exec(out, cursor, p0, p1, p2, mi, matches, s0, s1, s2, w, lo, stride)
    } else if kind == 2 {
        previous_row_exec(out, cursor, p0, p1, p2, mi, matches, s0, s1, s2, w, lw, stride)
    } else {
        pack_row_exec(out, cursor, p0, p1, p2, mi, matches, s0, s1, s2, stride)
    }
}

/// Once literal rows have failed, more leave the state failed.
proof fn lemma_literals_failed_stays(st: RowRun, n1: int, n2: int, shape: RowShape, ins: RowInput, stride: int)
    requires
        0 <= n1 <= n2,
        row_literals(st, n1, shape, ins, stride) is Failed,
    ensures
        row_literals(st, n2, shape, ins, stride) == row_literals(st, n1, shape, ins, stride),
    decreases n2 - n1,
{
    reveal(row_step);
    if n1 < n2 {
        lemma_literals_failed_stays(st, n1, n2 - 1, shape, ins, stride);
    }
}

/// Literal rows of a failed state leave it as it was.
proof fn lemma_literals_of_failed(st: RowRun, n: int, shape: RowShape, ins: RowInput, stride: int)
    requires
        st is Failed,
    ensures
        row_literals(st, n, shape, ins, stride) == st,
    decreases n,
{
    reveal(row_step);
    if n > 0 {
        lemma_literals_of_failed(st, n - 1, shape, ins, stride);
    }
}

/// Once copied rows have failed, more leave the state failed.
proof fn lemma_copies_failed_stays(st: RowRun, n1: int, n2: int, back: int, shape: RowShape, stride: int)
    requires
        0 <= n1 <= n2,
        row_copies(st, n1, back, shape, stride) is Failed,
    ensures
        row_copies(st, n2, back, shape, stride) == row_copies(st, n1, back, shape, stride),
    decreases n2 - n1,
{
    if n1 < n2 {
        lemma_copies_failed_stays(st, n1, n2 - 1, back, shape, stride);
    }
}

/// Once a row tail has failed, later records leave it failed.
proof fn lemma_records_failed_stays(
    st: RowRun,
    rs: Seq<TransformTailRecord>,
    k1: int,
    k2: int,
    shape: RowShape,
    ins: RowInput,
    stride: int,
)
    requires
        0 <= k1 <= k2,
        row_records(st, rs, k1, shape, ins, stride) is Failed,
    ensures
        row_records(st, rs, k2, shape, ins, stride) == row_records(st, rs, k1, shape, ins, stride),
    decreases k2 - k1,
{
    if k1 < k2 {
        lemma_records_failed_stays(st, rs, k1, k2 - 1, shape, ins, stride);
        let prev = row_records(st, rs, k2 - 1, shape, ins, stride);
        lemma_literals_of_failed(prev, rs[k2 - 1].literal_count as int, shape, ins, stride);
    }
}

/// Emit `n` literal rows.
fn row_literals_exec(
    out: &mut [u8],
    cursor: &mut usize,
    p0: &mut usize,
    p1: &mut usize,
    p2: &mut usize,
    mi: &mut usize,
    n: u16,
    kind: u8,
    w: usize,
    lo: usize,
    lw: usize,
    matches: &[u32],
    s0: &[u8],
    s1: &[u8],
    s2: &[u8],
    stride: usize,
) -> (r: Result<(), TransformTailDeltaError>)
    requires
        shape_ok(kind, w, lo, lw),
        row_bounds(*old(p0), *old(p1), *old(p2), *old(mi), kind, (RowInput { matches: matches@, s0: s0@, s1: s1@, s2: s2@ })),
    ensures
        match row_literals(
            RowRun::Running(
                old(out)@,
                *old(cursor) as int,
                *old(p0) as int,
                *old(p1) as int,
                *old(p2) as int,
                *old(mi) as int,
            ),
            n as int,
            shape_of(kind, w, lo, lw),
            (RowInput { matches: matches@, s0: s0@, s1: s1@, s2: s2@ }),
            stride as int,
        ) {
            RowRun::Running(o, c, q0, q1, q2, j) => r is Ok && final(out)@ == o && *final(cursor) == c && *final(p0)
                == q0 && *final(p1) == q1 && *final(p2) == q2 && *final(mi) == j,
            RowRun::Failed(o, e) => r == Err::<(), TransformTailDeltaError>(e) && final(out)@ == o,
        },
        r is Ok ==> row_bounds(*final(p0), *final(p1), *final(p2), *final(mi), kind, (RowInput { matches: matches@, s0: s0@, s1: s1@, s2: s2@ })),
{
    let ghost ins = RowInput { matches: matches@, s0: s0@, s1: s1@, s2: s2@ };
    let ghost shape = shape_of(kind, w, lo, lw);
    let ghost st0 = RowRun::Running(out@, *cursor as int, *p0 as int, *p1 as int, *p2 as int, *mi as int);
    let mut i: u16 = 0;
    while i < n
        invariant
            i <= n,
            shape_ok(kind, w, lo, lw),
            ins == (RowInput { matches: matches@, s0: s0@, s1: s1@, s2: s2@ }),
            shape == shape_of(kind, w, lo, lw),
            row_bounds(*p0, *p1, *p2, *mi, kind, ins),
            st0 == RowRun::Running(
                old(out)@,
                *old(cursor) as int,
                *old(p0) as int,
                *old(p1) as int,
                *old(p2) as int,
                *old(mi) as int,
            ),
            row_literals(st0, i as int, shape, ins, stride as int) == RowRun::Running(
                out@,
                *cursor as int,
                *p0 as int,
                *p1 as int,
                *p2 as int,
                *mi as int,
            ),
        decreases n - i,
    {
        match row_step_exec(out, cursor, p0, p1, p2, mi, kind, w, lo, lw, matches, s0, s1, s2, stride) {
            Ok(()) => {},
            Err(e) => {
                proof {
                    lemma_literals_failed_stays(st0, i + 1, n as int, shape, ins, stride as int);
                }
                return Err(e);
            },
        }
        i += 1;
    }
    Ok(())
}

/// One copied row of a window or packed tail (see `window_copy` and
/// `pack_copy`).
fn row_copy_exec(
    out: &mut [u8],
    cursor: &mut usize,
    p0: usize,
    p1: usize,
    p2: usize,
    mi: usize,
    back: usize,
    kind: u8,
    w: usize,
    lo: usize,
    stride: usize,
) -> (r: Result<(), TransformTailDeltaError>)
    requires
        (kind == 1 && ((w == 2 && lo == 1) || (w == 3 && lo == 0))) || (kind == 3 && w == 4 && lo == 0),
    ensures
        match (if kind == 1 {
            window_copy(RowRun::Running(old(out)@, *old(cursor) as int, p0 as int, p1 as int, p2 as int, mi as int), back as int, w as int, lo as int, stride as int)
        } else {
            pack_copy(RowRun::Running(old(out)@, *old(cursor) as int, p0 as int, p1 as int, p2 as int, mi as int), back as int, stride as int)
        }) {
            RowRun::Running(o, c, q0, q1, q2, j) => r is Ok && final(out)@ == o && *final(cursor) == c && q0 == p0
                && q1 == p1 && q2 == p2 && j == mi,
            RowRun::Failed(o, e) => r == Err::<(), TransformTailDeltaError>(e) && final(out)@ == o,
        },
{
    if kind == 1 {
        if *cursor < back {
            return Err(TransformTailDeltaError::CopyBeforeOutput);
        }
        let v = match read_window_exec(out, *cursor - back, w, lo, TransformTailDeltaError::CopyBeforeOutput) {
            Err(_) => {
                return Err(TransformTailDeltaError::CopyBeforeOutput);
            },
            Ok(v) => v,
        };
        put_window_exec(out, cursor, v.as_slice(), lo, stride)
    } else {
        if back == 0 || *cursor < back {
            return Err(TransformTailDeltaError::CopyBeforeOutput);
        }
        let s = *cursor - back;
        if s > usize::MAX - 4 || *cursor > usize::MAX - 4 {
            return Err(TransformTailDeltaError::ArithmeticOverflow);
        }
        if s > out.len() || out.len() - s < 4 {
            return Err(TransformTailDeltaError::CopyBeforeOutput);
        }
        let value = crate::bytes::get_u32(out, s, false) & 0x3fff_ffffu32;
        let mut v: Vec<u8> = Vec::new();
        crate::bytes::push_u32(&mut v, value, false);
        put_row_exec(out, cursor, v.as_slice(), stride)
    }
}

/// Copy `n` rows of a window or packed tail (see `row_copies`).
fn row_copies_exec(
    out: &mut [u8],
    cursor: &mut usize,
    p0: usize,
    p1: usize,
    p2: usize,
    mi: usize,
    n: u16,
    back: usize,
    kind: u8,
    w: usize,
    lo: usize,
    lw: usize,
    stride: usize,
) -> (r: Result<(), TransformTailDeltaError>)
    requires
        (kind == 1 && ((w == 2 && lo == 1) || (w == 3 && lo == 0))) || (kind == 3 && w == 4 && lo == 0),
    ensures
        match row_copies(RowRun::Running(old(out)@, *old(cursor) as int, p0 as int, p1 as int, p2 as int, mi as int), n as int, back as int, shape_of(kind, w, lo, lw), stride as int) {
            RowRun::Running(o, c, q0, q1, q2, j) => r is Ok && final(out)@ == o && *final(cursor) == c && q0 == p0
                && q1 == p1 && q2 == p2 && j == mi,
            RowRun::Failed(o, e) => r == Err::<(), TransformTailDeltaError>(e) && final(out)@ == o,
        },
{
    let ghost shape = shape_of(kind, w, lo, lw);
    let ghost st0 = RowRun::Running(old(out)@, *old(cursor) as int, p0 as int, p1 as int, p2 as int, mi as int);
    let mut i: u16 = 0;
    while i < n
        invariant
            i <= n,
            (kind == 1 && ((w == 2 && lo == 1) || (w == 3 && lo == 0))) || (kind == 3 && w == 4 && lo == 0),
            shape == shape_of(kind, w, lo, lw),
            st0 == RowRun::Running(old(out)@, *old(cursor) as int, p0 as int, p1 as int, p2 as int, mi as int),
            row_copies(st0, i as int, back as int, shape, stride as int) == RowRun::Running(
                out@,
                *cursor as int,
                p0 as int,
                p1 as int,
                p2 as int,
                mi as int,
            ),
        decreases n - i,
    {
        match row_copy_exec(out, cursor, p0, p1, p2, mi, back, kind, w, lo, stride) {
            Ok(()) => {},
            Err(e) => {
                proof {
                    lemma_copies_failed_stays(st0, i + 1, n as int, back as int, shape, stride as int);
                }
                return Err(e);
            },
        }
        i += 1;
    }
    Ok(())
}

/// The copies of a record (see `record_copies`).
fn record_copies_exec(
    out: &mut [u8],
    cursor: &mut usize,
    p0: usize,
    p1: usize,
    p2: usize,
    mi: usize,
    rec: TransformTailRecord,
    kind: u8,
    w: usize,
    lo: usize,
    lw: usize,
    stride: usize,
) -> (r: Result<(), TransformTailDeltaError>)
    requires
        shape_ok(kind, w, lo, lw),
    ensures
        match record_copies(RowRun::Running(old(out)@, *old(cursor) as int, p0 as int, p1 as int, p2 as int, mi as int), rec, shape_of(kind, w, lo, lw), stride as int) {
            RowRun::Running(o, c, q0, q1, q2, j) => r is Ok && final(out)@ == o && *final(cursor) == c && q0 == p0
                && q1 == p1 && q2 == p2 && j == mi,
            RowRun::Failed(o, e) => r == Err::<(), TransformTailDeltaError>(e) && final(out)@ == o,
        },
{
    if kind == 0 || kind == 2 {
        match emit_copies(out, cursor, 0, rec.copy_count, rec.back_distance, w, stride) {
            Ok(()) => Ok(()),
            Err(e) => Err(to_delta_error(e)),
        }
    } else {
        row_copies_exec(out, cursor, p0, p1, p2, mi, rec.copy_count, rec.back_distance, kind, w, lo, lw, stride)
    }
}

/// A row tail's result against its spec: the output and the returned
/// positions or error.
pub open spec fn row_result(
    fin: Seq<u8>,
    r: Result<(usize, usize, usize, usize), TransformTailDeltaError>,
    run: RowRun,
) -> bool {
    match run {
        RowRun::Running(o, c, p0, p1, p2, mi) => fin == o && r == Ok::<
            (usize, usize, usize, usize),
            TransformTailDeltaError,
        >((p0 as usize, p1 as usize, p2 as usize, mi as usize)),
        RowRun::Failed(o, e) => fin == o && r == Err::<(usize, usize, usize, usize), TransformTailDeltaError>(e),
    }
}

/// The spec of one record of a row tail from a running state.
pub open spec fn one_record(st: RowRun, r: TransformTailRecord, shape: RowShape, ins: RowInput, stride: int) -> RowRun {
    record_account(record_copies(row_literals(st, r.literal_count as int, shape, ins, stride), r, shape, stride), r, shape, ins)
}

/// One record of a row tail: its literal rows, its copies, then the
/// match-table accounting.
#[verifier::rlimit(40)]
fn row_record_exec(
    out: &mut [u8],
    cursor: &mut usize,
    p0: &mut usize,
    p1: &mut usize,
    p2: &mut usize,
    mi: &mut usize,
    rec: TransformTailRecord,
    kind: u8,
    w: usize,
    lo: usize,
    lw: usize,
    matches: &[u32],
    s0: &[u8],
    s1: &[u8],
    s2: &[u8],
    stride: usize,
) -> (r: Result<(), TransformTailDeltaError>)
    requires
        shape_ok(kind, w, lo, lw),
        row_bounds(*old(p0), *old(p1), *old(p2), *old(mi), kind, (RowInput { matches: matches@, s0: s0@, s1: s1@, s2: s2@ })),
    ensures
        match one_record(
            RowRun::Running(
                old(out)@,
                *old(cursor) as int,
                *old(p0) as int,
                *old(p1) as int,
                *old(p2) as int,
                *old(mi) as int,
            ),
            rec,
            shape_of(kind, w, lo, lw),
            (RowInput { matches: matches@, s0: s0@, s1: s1@, s2: s2@ }),
            stride as int,
        ) {
            RowRun::Running(o, c, q0, q1, q2, j) => r is Ok && final(out)@ == o && *final(cursor) == c && *final(p0)
                == q0 && *final(p1) == q1 && *final(p2) == q2 && *final(mi) == j,
            RowRun::Failed(o, e) => r == Err::<(), TransformTailDeltaError>(e) && final(out)@ == o,
        },
        r is Ok ==> row_bounds(*final(p0), *final(p1), *final(p2), *final(mi), kind, (RowInput { matches: matches@, s0: s0@, s1: s1@, s2: s2@ })),
{
    let ghost ins = RowInput { matches: matches@, s0: s0@, s1: s1@, s2: s2@ };
    let ghost shape = shape_of(kind, w, lo, lw);
    let ghost before = RowRun::Running(out@, *cursor as int, *p0 as int, *p1 as int, *p2 as int, *mi as int);
    match row_literals_exec(out, cursor, p0, p1, p2, mi, rec.literal_count, kind, w, lo, lw, matches, s0, s1, s2, stride) {
        Ok(()) => {},
        Err(e) => {
            return Err(e);
        },
    }
    let ghost lits = RowRun::Running(out@, *cursor as int, *p0 as int, *p1 as int, *p2 as int, *mi as int);
    assert(row_literals(before, rec.literal_count as int, shape, ins, stride as int) == lits);
    match record_copies_exec(out, cursor, *p0, *p1, *p2, *mi, rec, kind, w, lo, lw, stride) {
        Ok(()) => {},
        Err(e) => {
            return Err(e);
        },
    }
    assert(record_copies(lits, rec, shape, stride as int) == RowRun::Running(
        out@,
        *cursor as int,
        *p0 as int,
        *p1 as int,
        *p2 as int,
        *mi as int,
    ));
    let cc = rec.copy_count as usize;
    if *mi > usize::MAX - cc {
        return Err(TransformTailDeltaError::ArithmeticOverflow);
    }
    if kind != 2 && *mi + cc > matches.len() {
        return Err(TransformTailDeltaError::MatchTableTooSmall);
    }
    *mi = *mi + cc;
    Ok(())
}

/// The shared row-tail loop.
#[verifier::rlimit(40)]
fn row_tail_into(
    out: &mut [u8],
    stride: usize,
    block_index: usize,
    out_offset: usize,
    records: &[TransformTailRecord],
    matches: &[u32],
    s0: &[u8],
    s1: &[u8],
    s2: &[u8],
    kind: u8,
    w: usize,
    lo: usize,
    lw: usize,
) -> (r: Result<(usize, usize, usize, usize), TransformTailDeltaError>)
    requires
        shape_ok(kind, w, lo, lw),
    ensures
        row_result(
            final(out)@,
            r,
            spec_row_tail(
                old(out)@,
                stride as int,
                block_index as int,
                out_offset as int,
                records@,
                shape_of(kind, w, lo, lw),
                (RowInput { matches: matches@, s0: s0@, s1: s1@, s2: s2@ }),
            ),
        ),
{
    if stride == 0 {
        return Err(TransformTailDeltaError::ZeroStride);
    }
    let start = match block_index.checked_mul(stride) {
        Some(x) => match x.checked_add(out_offset) {
            Some(y) => match y.checked_add(lo) {
                Some(z) => z,
                None => {
                    return Err(TransformTailDeltaError::ArithmeticOverflow);
                },
            },
            None => {
                return Err(TransformTailDeltaError::ArithmeticOverflow);
            },
        },
        None => {
            return Err(TransformTailDeltaError::ArithmeticOverflow);
        },
    };
    let ghost ins = RowInput { matches: matches@, s0: s0@, s1: s1@, s2: s2@ };
    let ghost shape = shape_of(kind, w, lo, lw);
    let ghost st0 = RowRun::Running(old(out)@, start as int, 0, 0, 0, 0);
    let mut cursor = start;
    let mut p0: usize = 0;
    let mut p1: usize = 0;
    let mut p2: usize = 0;
    let mut mi: usize = 0;
    let mut k: usize = 0;
    while k < records.len()
        invariant
            k <= records@.len(),
            shape_ok(kind, w, lo, lw),
            ins == (RowInput { matches: matches@, s0: s0@, s1: s1@, s2: s2@ }),
            shape == shape_of(kind, w, lo, lw),
            row_bounds(p0, p1, p2, mi, kind, ins),
            st0 == RowRun::Running(old(out)@, start as int, 0, 0, 0, 0),
            spec_row_tail(old(out)@, stride as int, block_index as int, out_offset as int, records@, shape, ins)
                == row_records(st0, records@, records@.len() as int, shape, ins, stride as int),
            row_records(st0, records@, k as int, shape, ins, stride as int) == RowRun::Running(
                out@,
                cursor as int,
                p0 as int,
                p1 as int,
                p2 as int,
                mi as int,
            ),
        decreases records@.len() - k,
    {
        let rec = records[k];
        let ghost before = RowRun::Running(out@, cursor as int, p0 as int, p1 as int, p2 as int, mi as int);
        assert(row_records(st0, records@, k + 1, shape, ins, stride as int) == one_record(before, rec, shape, ins, stride as int));
        match row_record_exec(out, &mut cursor, &mut p0, &mut p1, &mut p2, &mut mi, rec, kind, w, lo, lw, matches, s0, s1, s2, stride) {
            Ok(()) => {},
            Err(e) => {
                proof {
                    lemma_records_failed_stays(st0, records@, k + 1, records@.len() as int, shape, ins, stride as int);
                }
                return Err(e);
            },
        }
        k += 1;
    }
    Ok((p0, p1, p2, mi))
}

/// A row tail's result as usage: the stream positions, and the match-table
/// position (none for the seed/previous tails, which read no table).
pub open spec fn usage_result(
    fin: Seq<u8>,
    r: Result<TransformTailDeltaUsage, TransformTailDeltaError>,
    run: RowRun,
    kind: int,
) -> bool {
    match run {
        RowRun::Running(o, c, p0, p1, p2, mi) => fin == o && r == Ok::<TransformTailDeltaUsage, TransformTailDeltaError>(
            TransformTailDeltaUsage {
                source0: p0 as usize,
                source1: p1 as usize,
                source2: p2 as usize,
                match_entries: if kind == 2 { 0 } else { mi as usize },
            },
        ),
        RowRun::Failed(o, e) => fin == o && r == Err::<TransformTailDeltaUsage, TransformTailDeltaError>(e),
    }
}

/// Run a row tail and report its usage.
fn row_tail_usage(
    out: &mut [u8],
    stride: usize,
    block_index: usize,
    out_offset: usize,
    records: &[TransformTailRecord],
    matches: &[u32],
    s0: &[u8],
    s1: &[u8],
    s2: &[u8],
    kind: u8,
    w: usize,
    lo: usize,
    lw: usize,
) -> (r: Result<TransformTailDeltaUsage, TransformTailDeltaError>)
    requires
        shape_ok(kind, w, lo, lw),
    ensures
        usage_result(
            final(out)@,
            r,
            spec_row_tail(
                old(out)@,
                stride as int,
                block_index as int,
                out_offset as int,
                records@,
                shape_of(kind, w, lo, lw),
                (RowInput { matches: matches@, s0: s0@, s1: s1@, s2: s2@ }),
            ),
            kind as int,
        ),
{
    match row_tail_into(out, stride, block_index, out_offset, records, matches, s0, s1, s2, kind, w, lo, lw) {
        Ok((a, b, c, d)) => Ok(
            TransformTailDeltaUsage { source0: a, source1: b, source2: c, match_entries: if kind == 2 { 0 } else { d } },
        ),
        Err(e) => Err(e),
    }
}

/// Apply the two-byte delta-match transform tail. Match entry 0 takes
/// bytes 1..2 from source 1 and one source-0 byte, minus those bytes and
/// minus one (mod 256), as byte 0; another entry `m` adds 2 source-2 bytes,
/// mod 256, to the row `(m >> 3) * stride` bytes behind the cursor. Each
/// record's copies clone 2 bytes from `back_distance` bytes behind the
/// cursor and use match entries too. Returns how much of each stream and of
/// the match table was consumed.
pub fn transform_tail_delta2_into(out: &mut [u8], spec: TransformTailDelta2Spec<'_>) -> (r: Result<
    TransformTailDeltaUsage,
    TransformTailDeltaError,
>)
    ensures
        usage_result(
            final(out)@,
            r,
            spec_row_tail(
                old(out)@,
                spec.output_stride as int,
                spec.block_index as int,
                spec.out_offset as int,
                spec.records@,
                shape_of(0, 2, 0, 1),
                (RowInput { matches: spec.matches@, s0: spec.source0@, s1: spec.source1@, s2: spec.source2@ }),
            ),
            0,
        ),
{
    row_tail_usage(
        out,
        spec.output_stride,
        spec.block_index,
        spec.out_offset,
        spec.records,
        spec.matches,
        spec.source0,
        spec.source1,
        spec.source2,
        0,
        2,
        0,
        1,
    )
}

/// Apply the three-byte delta-match transform tail. Match entry 0 takes
/// bytes 1..3 from source 1 and one source-0 byte, minus those bytes and
/// minus one (mod 256), as byte 0; another entry `m` adds 3 source-2 bytes,
/// mod 256, to the row `(m >> 3) * stride` bytes behind the cursor. Each
/// record's copies clone 3 bytes from `back_distance` bytes behind the
/// cursor and use match entries too. Returns how much of each stream and of
/// the match table was consumed.
pub fn transform_tail_delta3_into(out: &mut [u8], spec: TransformTailDelta3Spec<'_>) -> (r: Result<
    TransformTailDeltaUsage,
    TransformTailDeltaError,
>)
    ensures
        usage_result(
            final(out)@,
            r,
            spec_row_tail(
                old(out)@,
                spec.output_stride as int,
                spec.block_index as int,
                spec.out_offset as int,
                spec.records@,
                shape_of(0, 3, 0, 1),
                (RowInput { matches: spec.matches@, s0: spec.source0@, s1: spec.source1@, s2: spec.source2@ }),
            ),
            0,
        ),
{
    row_tail_usage(
        out,
        spec.output_stride,
        spec.block_index,
        spec.out_offset,
        spec.records,
        spec.matches,
        spec.source0,
        spec.source1,
        spec.source2,
        0,
        3,
        0,
        1,
    )
}

/// Apply the four-byte delta-match transform tail. Match entry 0 takes
/// bytes 1..4 from source 1 and one source-0 byte, minus those bytes and
/// minus one (mod 256), as byte 0; another entry `m` adds 4 source-2 bytes,
/// mod 256, to the row `(m >> 3) * stride` bytes behind the cursor. Each
/// record's copies clone 4 bytes from `back_distance` bytes behind the
/// cursor and use match entries too. Returns how much of each stream and of
/// the match table was consumed.
pub fn transform_tail_delta4_into(out: &mut [u8], spec: TransformTailDelta4Spec<'_>) -> (r: Result<
    TransformTailDeltaUsage,
    TransformTailDeltaError,
>)
    ensures
        usage_result(
            final(out)@,
            r,
            spec_row_tail(
                old(out)@,
                spec.output_stride as int,
                spec.block_index as int,
                spec.out_offset as int,
                spec.records@,
                shape_of(0, 4, 0, 1),
                (RowInput { matches: spec.matches@, s0: spec.source0@, s1: spec.source1@, s2: spec.source2@ }),
            ),
            0,
        ),
{
    row_tail_usage(
        out,
        spec.output_stride,
        spec.block_index,
        spec.out_offset,
        spec.records,
        spec.matches,
        spec.source0,
        spec.source1,
        spec.source2,
        0,
        4,
        0,
        1,
    )
}

/// Apply the two-byte previous/matched delta transform tail, whose rows are
/// the 2 bytes from one byte before the cursor (which starts one byte in). A nonzero match entry `m` adds 2 source-1 bytes (mod
/// 256) to the row `(m >> 3) * stride` bytes back; match entry 0 takes 2
/// source-0 bytes for the first row and adds them to the row one stride
/// back for later rows. Each record's copies clone the row `back_distance`
/// bytes behind the cursor and use match entries too. Returns how much of
/// each stream and of the match table was consumed.
pub fn transform_tail_u8x2_delta_into(out: &mut [u8], spec: TransformTailU8x2DeltaSpec<'_>) -> (r: Result<
    TransformTailDeltaUsage,
    TransformTailDeltaError,
>)
    ensures
        usage_result(
            final(out)@,
            r,
            spec_row_tail(
                old(out)@,
                spec.output_stride as int,
                spec.block_index as int,
                spec.out_offset as int,
                spec.records@,
                shape_of(1, 2, 1, 1),
                (RowInput { matches: spec.matches@, s0: spec.source0@, s1: spec.source1@, s2: Seq::<u8>::empty() }),
            ),
            1,
        ),
{
    let none: Vec<u8> = Vec::new();
    proof {
        assert(none@ =~= Seq::<u8>::empty());
    }
    row_tail_usage(
        out,
        spec.output_stride,
        spec.block_index,
        spec.out_offset,
        spec.records,
        spec.matches,
        spec.source0,
        spec.source1,
        none.as_slice(),
        1,
        2,
        1,
        1,
    )
}

/// Apply the three-byte previous/matched delta transform tail, whose rows are
/// the 3 bytes at the cursor. A nonzero match entry `m` adds 3 source-1 bytes (mod
/// 256) to the row `(m >> 3) * stride` bytes back; match entry 0 takes 3
/// source-0 bytes for the first row and adds them to the row one stride
/// back for later rows. Each record's copies clone the row `back_distance`
/// bytes behind the cursor and use match entries too. Returns how much of
/// each stream and of the match table was consumed.
pub fn transform_tail_u8x3_delta_into(out: &mut [u8], spec: TransformTailU8x3DeltaSpec<'_>) -> (r: Result<
    TransformTailDeltaUsage,
    TransformTailDeltaError,
>)
    ensures
        usage_result(
            final(out)@,
            r,
            spec_row_tail(
                old(out)@,
                spec.output_stride as int,
                spec.block_index as int,
                spec.out_offset as int,
                spec.records@,
                shape_of(1, 3, 0, 1),
                (RowInput { matches: spec.matches@, s0: spec.source0@, s1: spec.source1@, s2: Seq::<u8>::empty() }),
            ),
            1,
        ),
{
    let none: Vec<u8> = Vec::new();
    proof {
        assert(none@ =~= Seq::<u8>::empty());
    }
    row_tail_usage(
        out,
        spec.output_stride,
        spec.block_index,
        spec.out_offset,
        spec.records,
        spec.matches,
        spec.source0,
        spec.source1,
        none.as_slice(),
        1,
        3,
        0,
        1,
    )
}

/// Apply the one-byte seed/previous delta transform tail. The first row
/// written copies 1 source-0 bytes; later rows add 1 source-0 bytes to
/// the row one stride back (bytewise, mod 256). Each record's copies clone 1
/// bytes from `back_distance` bytes behind the cursor and count as written
/// rows. No match table is read. Returns how much of source 0 was consumed.
pub fn transform_tail_u8_previous_delta_into(out: &mut [u8], spec: TransformTailU8PreviousDeltaSpec<'_>) -> (r: Result<
    TransformTailDeltaUsage,
    TransformTailDeltaError,
>)
    ensures
        usage_result(
            final(out)@,
            r,
            spec_row_tail(
                old(out)@,
                spec.output_stride as int,
                spec.block_index as int,
                spec.out_offset as int,
                spec.records@,
                shape_of(2, 1, 0, 1),
                (RowInput { matches: Seq::<u32>::empty(), s0: spec.source0@, s1: Seq::<u8>::empty(), s2: Seq::<u8>::empty() }),
            ),
            2,
        ),
{
    let no_matches: Vec<u32> = Vec::new();
    let none: Vec<u8> = Vec::new();
    proof {
        assert(no_matches@ =~= Seq::<u32>::empty());
        assert(none@ =~= Seq::<u8>::empty());
    }
    row_tail_usage(
        out,
        spec.output_stride,
        spec.block_index,
        spec.out_offset,
        spec.records,
        no_matches.as_slice(),
        spec.source0,
        none.as_slice(),
        none.as_slice(),
        2,
        1,
        0,
        1,
    )
}

/// Apply the three-byte seed/previous delta transform tail. The first row
/// written copies 3 source-0 bytes; later rows add 3 source-0 bytes to
/// the row one stride back (bytewise, mod 256). Each record's copies clone 3
/// bytes from `back_distance` bytes behind the cursor and count as written
/// rows. No match table is read. Returns how much of source 0 was consumed.
pub fn transform_tail_u8x3_previous_delta_into(out: &mut [u8], spec: TransformTailU8x3PreviousDeltaSpec<'_>) -> (r: Result<
    TransformTailDeltaUsage,
    TransformTailDeltaError,
>)
    ensures
        usage_result(
            final(out)@,
            r,
            spec_row_tail(
                old(out)@,
                spec.output_stride as int,
                spec.block_index as int,
                spec.out_offset as int,
                spec.records@,
                shape_of(2, 3, 0, 1),
                (RowInput { matches: Seq::<u32>::empty(), s0: spec.source0@, s1: Seq::<u8>::empty(), s2: Seq::<u8>::empty() }),
            ),
            2,
        ),
{
    let no_matches: Vec<u32> = Vec::new();
    let none: Vec<u8> = Vec::new();
    proof {
        assert(no_matches@ =~= Seq::<u32>::empty());
        assert(none@ =~= Seq::<u8>::empty());
    }
    row_tail_usage(
        out,
        spec.output_stride,
        spec.block_index,
        spec.out_offset,
        spec.records,
        no_matches.as_slice(),
        spec.source0,
        none.as_slice(),
        none.as_slice(),
        2,
        3,
        0,
        1,
    )
}

/// Apply the two-u16 seed/previous delta transform tail. The first row
/// written copies 4 source-0 bytes; later rows add 4 source-0 bytes to
/// the row one stride back (as two wrapping u16 lanes). Each record's copies clone 4
/// bytes from `back_distance` bytes behind the cursor and count as written
/// rows. No match table is read. Returns how much of source 0 was consumed.
pub fn transform_tail_u16x2_previous_delta_into(out: &mut [u8], spec: TransformTailU16x2PreviousDeltaSpec<'_>) -> (r: Result<
    TransformTailDeltaUsage,
    TransformTailDeltaError,
>)
    ensures
        usage_result(
            final(out)@,
            r,
            spec_row_tail(
                old(out)@,
                spec.output_stride as int,
                spec.block_index as int,
                spec.out_offset as int,
                spec.records@,
                shape_of(2, 4, 0, 2),
                (RowInput { matches: Seq::<u32>::empty(), s0: spec.source0@, s1: Seq::<u8>::empty(), s2: Seq::<u8>::empty() }),
            ),
            2,
        ),
{
    let no_matches: Vec<u32> = Vec::new();
    let none: Vec<u8> = Vec::new();
    proof {
        assert(no_matches@ =~= Seq::<u32>::empty());
        assert(none@ =~= Seq::<u8>::empty());
    }
    row_tail_usage(
        out,
        spec.output_stride,
        spec.block_index,
        spec.out_offset,
        spec.records,
        no_matches.as_slice(),
        spec.source0,
        none.as_slice(),
        none.as_slice(),
        2,
        4,
        0,
        2,
    )
}

/// Apply the packed 10-10-10 seed/previous/matched delta tail. Match entry
/// 0 reads three u16 lanes from six source-0 bytes: the first row packs
/// them as they are (`l0 | l1 << 10 | l2 << 20`); later rows add each lane
/// to the matching 10-bit lane of the packed row one stride back, keeping
/// 10 bits. Another entry `m` adds three u16 lanes from six source-1 bytes
/// to the lanes of the packed row `(m >> 3) * stride` bytes back. Copies
/// clone the packed row `back_distance` bytes back, kept to 30 bits, and
/// use match entries too. Returns how much of each stream and of the match
/// table was consumed.
pub fn transform_tail_pack10x3_previous_delta_into(out: &mut [u8], spec: TransformTailPack10x3PreviousDeltaSpec<'_>) -> (r:
    Result<TransformTailDeltaUsage, TransformTailDeltaError>)
    ensures
        usage_result(
            final(out)@,
            r,
            spec_row_tail(
                old(out)@,
                spec.output_stride as int,
                spec.block_index as int,
                spec.out_offset as int,
                spec.records@,
                shape_of(3, 4, 0, 1),
                (RowInput { matches: spec.matches@, s0: spec.source0@, s1: spec.source1@, s2: Seq::<u8>::empty() }),
            ),
            3,
        ),
{
    let none: Vec<u8> = Vec::new();
    proof {
        assert(none@ =~= Seq::<u8>::empty());
    }
    row_tail_usage(
        out,
        spec.output_stride,
        spec.block_index,
        spec.out_offset,
        spec.records,
        spec.matches,
        spec.source0,
        spec.source1,
        none.as_slice(),
        3,
        4,
        0,
        1,
    )
}

} // verus!
