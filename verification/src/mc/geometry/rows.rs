//! The row-based transform tails: three-stream byte rows, rows read through
//! a window around the cursor, seed/previous rows without a match table,
//! and packed 10-10-10 rows. Every value is one row at the strided cursor;
//! each tail checks its accesses in its own order, stated here step by
//! step.
use vstd::prelude::*;
use crate::mc::geometry::tails::{
    add_bytes, add_lanes, copy_backs, delta_error, splice, CopyRun, TransformTailDeltaError, TransformTailRecord,
};

verus! {

/// The state of a row tail: output, cursor, the three source positions,
/// and the match-table position (the count of written rows when the tail
/// has no table); or the output at the error and the error.
pub enum RowRun {
    Running(Seq<u8>, int, int, int, int, int),
    Failed(Seq<u8>, TransformTailDeltaError),
}

/// Which row tail: three-stream rows (0), window rows (1), seed/previous
/// rows (2), packed 10-10-10 seed/previous rows (3); `w` bytes per row,
/// the window starting `lo` bytes before the cursor, lanes of `lw` bytes.
pub struct RowShape {
    pub kind: int,
    pub w: int,
    pub lo: int,
    pub lw: int,
}

/// The streams a row tail reads.
pub struct RowInput {
    pub matches: Seq<u32>,
    pub s0: Seq<u8>,
    pub s1: Seq<u8>,
    pub s2: Seq<u8>,
}

/// The sum of up to three bytes.
pub open spec fn tail_sum(t: Seq<u8>) -> int {
    if t.len() == 1 {
        t[0] as int
    } else if t.len() == 2 {
        t[0] + t[1]
    } else {
        t[0] + t[1] + t[2]
    }
}

/// A three-stream direct row: bytes 1.. from stream 1, and byte 0 the
/// stream-0 byte minus them and minus one (mod 256).
pub open spec fn three_direct(b0: u8, t: Seq<u8>) -> Seq<u8> {
    seq![((b0 - tail_sum(t) - 1) % 256) as u8] + t
}

/// Write `v` at the cursor and step: the output must hold the row, then the
/// cursor moves on by the stride; the positions become `p0`..`mi`.
pub open spec fn put_row(out: Seq<u8>, cur: int, v: Seq<u8>, p0: int, p1: int, p2: int, mi: int, stride: int) -> RowRun {
    if cur + v.len() > out.len() {
        RowRun::Failed(out, TransformTailDeltaError::OutputTooSmall)
    } else {
        let o2 = splice(out, cur, v);
        if cur + stride > usize::MAX {
            RowRun::Failed(o2, TransformTailDeltaError::ArithmeticOverflow)
        } else {
            RowRun::Running(o2, cur + stride, p0, p1, p2, mi)
        }
    }
}

/// One three-stream row of `w` bytes (2 to 4). Match entry 0: stream 1
/// gives bytes 1.., stream 0 one byte; another entry `m` adds `w` stream-2
/// bytes to the row `(m >> 3) * stride` bytes back.
pub open spec fn three_row(
    out: Seq<u8>,
    cur: int,
    p0: int,
    p1: int,
    p2: int,
    mi: int,
    ins: RowInput,
    w: int,
    stride: int,
) -> RowRun {
    if mi >= ins.matches.len() {
        RowRun::Failed(out, TransformTailDeltaError::MatchTableTooSmall)
    } else if cur + w > usize::MAX {
        RowRun::Failed(out, TransformTailDeltaError::ArithmeticOverflow)
    } else {
        let m = ins.matches[mi];
        if m == 0 {
            if w >= 3 && p1 + (w - 1) > usize::MAX {
                RowRun::Failed(out, TransformTailDeltaError::ArithmeticOverflow)
            } else if p1 + (w - 1) > ins.s1.len() {
                RowRun::Failed(out, TransformTailDeltaError::Source1TooSmall)
            } else if p0 >= ins.s0.len() {
                RowRun::Failed(out, TransformTailDeltaError::Source0TooSmall)
            } else {
                put_row(out, cur, three_direct(ins.s0[p0], ins.s1.subrange(p1, p1 + w - 1)), p0 + 1, p1 + w - 1, p2, mi + 1, stride)
            }
        } else {
            let dist = (m >> 3u32) as int * stride;
            if dist > usize::MAX {
                RowRun::Failed(out, TransformTailDeltaError::ArithmeticOverflow)
            } else if cur < dist {
                RowRun::Failed(out, TransformTailDeltaError::MatchBeforeOutput)
            } else if cur - dist + w > usize::MAX {
                RowRun::Failed(out, TransformTailDeltaError::ArithmeticOverflow)
            } else if cur - dist + w > out.len() {
                RowRun::Failed(out, TransformTailDeltaError::MatchBeforeOutput)
            } else if p2 + w > usize::MAX {
                RowRun::Failed(out, TransformTailDeltaError::ArithmeticOverflow)
            } else if p2 + w > ins.s2.len() {
                RowRun::Failed(out, TransformTailDeltaError::Source2TooSmall)
            } else {
                put_row(
                    out,
                    cur,
                    add_bytes(ins.s2.subrange(p2, p2 + w), out.subrange(cur - dist, cur - dist + w)),
                    p0,
                    p1,
                    p2 + w,
                    mi + 1,
                    stride,
                )
            }
        }
    }
}

/// The `w` bytes of the window at `s`, which starts `lo` bytes before it;
/// `err` when the window starts before the output or ends past it.
pub open spec fn read_window(out: Seq<u8>, s: int, w: int, lo: int, err: TransformTailDeltaError) -> Result<
    Seq<u8>,
    TransformTailDeltaError,
> {
    if s < lo {
        Err(err)
    } else if s + (w - lo) > usize::MAX {
        Err(TransformTailDeltaError::ArithmeticOverflow)
    } else if s - lo + w > out.len() {
        Err(err)
    } else {
        Ok(out.subrange(s - lo, s - lo + w))
    }
}

/// Write `v` into the window at the cursor and step the cursor; the
/// positions become `p0`..`mi`.
pub open spec fn put_window(out: Seq<u8>, cur: int, v: Seq<u8>, lo: int, p0: int, p1: int, p2: int, mi: int, stride: int) -> RowRun {
    if cur < lo {
        RowRun::Failed(out, TransformTailDeltaError::OutputTooSmall)
    } else if cur + (v.len() - lo) > usize::MAX {
        RowRun::Failed(out, TransformTailDeltaError::ArithmeticOverflow)
    } else if cur - lo + v.len() > out.len() {
        RowRun::Failed(out, TransformTailDeltaError::OutputTooSmall)
    } else {
        let o2 = splice(out, cur - lo, v);
        if cur + stride > usize::MAX {
            RowRun::Failed(o2, TransformTailDeltaError::ArithmeticOverflow)
        } else {
            RowRun::Running(o2, cur + stride, p0, p1, p2, mi)
        }
    }
}

/// One window row of `w` bytes. A nonzero match entry `m` adds `w`
/// stream-1 bytes to the window `(m >> 3) * stride` bytes back; match entry
/// 0 takes `w` stream-0 bytes for the first row, and adds them to the
/// window one stride back for later rows.
pub open spec fn window_row(
    out: Seq<u8>,
    cur: int,
    p0: int,
    p1: int,
    p2: int,
    mi: int,
    ins: RowInput,
    w: int,
    lo: int,
    stride: int,
) -> RowRun {
    if mi >= ins.matches.len() {
        RowRun::Failed(out, TransformTailDeltaError::MatchTableTooSmall)
    } else {
        let m = ins.matches[mi];
        if m != 0 {
            let dist = (m >> 3u32) as int * stride;
            if dist > usize::MAX {
                RowRun::Failed(out, TransformTailDeltaError::ArithmeticOverflow)
            } else if cur < dist {
                RowRun::Failed(out, TransformTailDeltaError::MatchBeforeOutput)
            } else {
                match read_window(out, cur - dist, w, lo, TransformTailDeltaError::MatchBeforeOutput) {
                    Err(e) => RowRun::Failed(out, e),
                    Ok(prev) => if p1 + w > usize::MAX {
                        RowRun::Failed(out, TransformTailDeltaError::ArithmeticOverflow)
                    } else if p1 + w > ins.s1.len() {
                        RowRun::Failed(out, TransformTailDeltaError::Source1TooSmall)
                    } else {
                        put_window(out, cur, add_bytes(ins.s1.subrange(p1, p1 + w), prev), lo, p0, p1 + w, p2, mi + 1, stride)
                    },
                }
            }
        } else if mi == 0 {
            if p0 + w > usize::MAX {
                RowRun::Failed(out, TransformTailDeltaError::ArithmeticOverflow)
            } else if p0 + w > ins.s0.len() {
                RowRun::Failed(out, TransformTailDeltaError::Source0TooSmall)
            } else {
                put_window(out, cur, ins.s0.subrange(p0, p0 + w), lo, p0 + w, p1, p2, mi + 1, stride)
            }
        } else if cur < stride {
            RowRun::Failed(out, TransformTailDeltaError::MatchBeforeOutput)
        } else {
            match read_window(out, cur - stride, w, lo, TransformTailDeltaError::MatchBeforeOutput) {
                Err(e) => RowRun::Failed(out, e),
                Ok(prev) => if p0 + w > usize::MAX {
                    RowRun::Failed(out, TransformTailDeltaError::ArithmeticOverflow)
                } else if p0 + w > ins.s0.len() {
                    RowRun::Failed(out, TransformTailDeltaError::Source0TooSmall)
                } else {
                    put_window(out, cur, add_bytes(ins.s0.subrange(p0, p0 + w), prev), lo, p0 + w, p1, p2, mi + 1, stride)
                },
            }
        }
    }
}

/// One seed/previous row of `w` bytes (1, 3 or 4) with lanes of `lw`
/// bytes: `w` stream-0 bytes as they are for the first row written, added
/// lane by lane to the row one stride back for later rows. `mi` counts the
/// rows written.
pub open spec fn previous_row(
    out: Seq<u8>,
    cur: int,
    p0: int,
    p1: int,
    p2: int,
    mi: int,
    ins: RowInput,
    w: int,
    lw: int,
    stride: int,
) -> RowRun {
    if w > 1 && cur + w > usize::MAX {
        RowRun::Failed(out, TransformTailDeltaError::ArithmeticOverflow)
    } else if w > 1 && p0 + w > usize::MAX {
        RowRun::Failed(out, TransformTailDeltaError::ArithmeticOverflow)
    } else if p0 + w > ins.s0.len() {
        RowRun::Failed(out, TransformTailDeltaError::Source0TooSmall)
    } else {
        let step = if mi == 0 {
            if cur + w > out.len() {
                RowRun::Failed(out, TransformTailDeltaError::OutputTooSmall)
            } else {
                RowRun::Running(splice(out, cur, ins.s0.subrange(p0, p0 + w)), cur, p0, p1, p2, mi)
            }
        } else if cur < stride {
            RowRun::Failed(out, TransformTailDeltaError::MatchBeforeOutput)
        } else if w > 1 && cur - stride + w > usize::MAX {
            RowRun::Failed(out, TransformTailDeltaError::ArithmeticOverflow)
        } else if cur - stride + w > out.len() {
            RowRun::Failed(out, TransformTailDeltaError::MatchBeforeOutput)
        } else if cur + w > out.len() {
            RowRun::Failed(out, TransformTailDeltaError::OutputTooSmall)
        } else {
            RowRun::Running(
                splice(out, cur, add_lanes(ins.s0.subrange(p0, p0 + w), out.subrange(cur - stride, cur - stride + w), lw)),
                cur,
                p0,
                p1,
                p2,
                mi,
            )
        };
        match step {
            RowRun::Running(o, c, q0, q1, q2, j) => if w == 1 && q0 + 1 > usize::MAX {
                RowRun::Failed(o, TransformTailDeltaError::ArithmeticOverflow)
            } else if c + stride > usize::MAX {
                RowRun::Failed(o, TransformTailDeltaError::ArithmeticOverflow)
            } else if j + 1 > usize::MAX {
                RowRun::Failed(o, TransformTailDeltaError::ArithmeticOverflow)
            } else {
                RowRun::Running(o, c + stride, q0 + w, q1, q2, j + 1)
            },
            f => f,
        }
    }
}

/// Three u16 lanes packed 10 bits apart (the raw values, unmasked).
pub open spec fn pack_direct(l0: u16, l1: u16, l2: u16) -> u32 {
    (l0 as u32) | ((l1 as u32) << 10u32) | ((l2 as u32) << 20u32)
}

/// A 10-bit lane plus a delta, kept to 10 bits.
pub open spec fn lane_delta(prev: u32, d: u16) -> u32 {
    (((prev + d) % 0x1_0000_0000) as u32) & 0x3ffu32
}

/// Three 10-bit lanes packed.
pub open spec fn pack_lanes(a: u32, b: u32, c: u32) -> u32 {
    (a & 0x3ffu32) | ((b & 0x3ffu32) << 10u32) | ((c & 0x3ffu32) << 20u32)
}

/// A packed row with three u16 lane deltas at `off` of `d` added.
pub open spec fn pack_add(prev: u32, d: Seq<u8>, off: int) -> u32 {
    pack_lanes(
        lane_delta(prev & 0x3ffu32, crate::bytes::spec_u16(d, off, false) as u16),
        lane_delta((prev >> 10u32) & 0x3ffu32, crate::bytes::spec_u16(d, off + 2, false) as u16),
        lane_delta((prev >> 20u32) & 0x3ffu32, crate::bytes::spec_u16(d, off + 4, false) as u16),
    )
}

/// One packed 10-10-10 row. Match entry 0: six stream-0 bytes give three
/// u16 lanes, packed as they are for the first row and added to the row
/// one stride back for later rows; another entry `m` adds six stream-1
/// bytes of lanes to the row `(m >> 3) * stride` bytes back.
pub open spec fn pack_row(
    out: Seq<u8>,
    cur: int,
    p0: int,
    p1: int,
    p2: int,
    mi: int,
    ins: RowInput,
    stride: int,
) -> RowRun {
    if mi >= ins.matches.len() {
        RowRun::Failed(out, TransformTailDeltaError::MatchTableTooSmall)
    } else if cur + 4 > usize::MAX {
        RowRun::Failed(out, TransformTailDeltaError::ArithmeticOverflow)
    } else {
        let m = ins.matches[mi];
        if m == 0 {
            if p0 + 6 > usize::MAX {
                RowRun::Failed(out, TransformTailDeltaError::ArithmeticOverflow)
            } else if p0 + 6 > ins.s0.len() {
                RowRun::Failed(out, TransformTailDeltaError::Source0TooSmall)
            } else if mi == 0 {
                put_row(
                    out,
                    cur,
                    crate::bytes::u32_bytes(
                        pack_direct(
                            crate::bytes::spec_u16(ins.s0, p0, false) as u16,
                            crate::bytes::spec_u16(ins.s0, p0 + 2, false) as u16,
                            crate::bytes::spec_u16(ins.s0, p0 + 4, false) as u16,
                        ),
                        false,
                    ),
                    p0 + 6,
                    p1,
                    p2,
                    mi + 1,
                    stride,
                )
            } else if cur < stride || cur - stride + 4 > usize::MAX || cur - stride + 4 > out.len() {
                RowRun::Failed(out, TransformTailDeltaError::MatchBeforeOutput)
            } else {
                put_row(
                    out,
                    cur,
                    crate::bytes::u32_bytes(
                        pack_add(crate::bytes::spec_u32(out, cur - stride, false) as u32, ins.s0, p0),
                        false,
                    ),
                    p0 + 6,
                    p1,
                    p2,
                    mi + 1,
                    stride,
                )
            }
        } else {
            let dist = (m >> 3u32) as int * stride;
            if dist > usize::MAX {
                RowRun::Failed(out, TransformTailDeltaError::ArithmeticOverflow)
            } else if cur < dist {
                RowRun::Failed(out, TransformTailDeltaError::MatchBeforeOutput)
            } else if cur - dist + 4 > usize::MAX {
                RowRun::Failed(out, TransformTailDeltaError::ArithmeticOverflow)
            } else if cur - dist + 4 > out.len() {
                RowRun::Failed(out, TransformTailDeltaError::MatchBeforeOutput)
            } else if p1 + 6 > usize::MAX {
                RowRun::Failed(out, TransformTailDeltaError::ArithmeticOverflow)
            } else if p1 + 6 > ins.s1.len() {
                RowRun::Failed(out, TransformTailDeltaError::Source1TooSmall)
            } else {
                put_row(
                    out,
                    cur,
                    crate::bytes::u32_bytes(
                        pack_add(crate::bytes::spec_u32(out, cur - dist, false) as u32, ins.s1, p1),
                        false,
                    ),
                    p0,
                    p1 + 6,
                    p2,
                    mi + 1,
                    stride,
                )
            }
        }
    }
}

/// One row of a row tail.
#[verifier::opaque]
pub open spec fn row_step(st: RowRun, shape: RowShape, ins: RowInput, stride: int) -> RowRun {
    match st {
        RowRun::Running(o, c, p0, p1, p2, mi) => if shape.kind == 0 {
            three_row(o, c, p0, p1, p2, mi, ins, shape.w, stride)
        } else if shape.kind == 1 {
            window_row(o, c, p0, p1, p2, mi, ins, shape.w, shape.lo, stride)
        } else if shape.kind == 2 {
            previous_row(o, c, p0, p1, p2, mi, ins, shape.w, shape.lw, stride)
        } else {
            pack_row(o, c, p0, p1, p2, mi, ins, stride)
        },
        f => f,
    }
}

/// `n` literal rows.
pub open spec fn row_literals(st: RowRun, n: int, shape: RowShape, ins: RowInput, stride: int) -> RowRun
    decreases n,
{
    if n <= 0 {
        st
    } else {
        row_step(row_literals(st, n - 1, shape, ins, stride), shape, ins, stride)
    }
}

/// One copied window row: the window `back` bytes behind the cursor (any
/// failure to read it is a copy before the output) written at the cursor.
pub open spec fn window_copy(st: RowRun, back: int, w: int, lo: int, stride: int) -> RowRun {
    match st {
        RowRun::Running(o, c, p0, p1, p2, mi) => if c < back {
            RowRun::Failed(o, TransformTailDeltaError::CopyBeforeOutput)
        } else {
            match read_window(o, c - back, w, lo, TransformTailDeltaError::CopyBeforeOutput) {
                Err(e) => RowRun::Failed(o, TransformTailDeltaError::CopyBeforeOutput),
                Ok(v) => put_window(o, c, v, lo, p0, p1, p2, mi, stride),
            }
        },
        f => f,
    }
}

/// One copied packed row: the packed value `back` bytes behind the cursor,
/// kept to 30 bits, written at the cursor.
pub open spec fn pack_copy(st: RowRun, back: int, stride: int) -> RowRun {
    match st {
        RowRun::Running(o, c, p0, p1, p2, mi) => if back == 0 || c < back {
            RowRun::Failed(o, TransformTailDeltaError::CopyBeforeOutput)
        } else if c - back + 4 > usize::MAX || c + 4 > usize::MAX {
            RowRun::Failed(o, TransformTailDeltaError::ArithmeticOverflow)
        } else if c - back + 4 > o.len() {
            RowRun::Failed(o, TransformTailDeltaError::CopyBeforeOutput)
        } else {
            put_row(
                o,
                c,
                crate::bytes::u32_bytes((crate::bytes::spec_u32(o, c - back, false) as u32) & 0x3fff_ffffu32, false),
                p0,
                p1,
                p2,
                mi,
                stride,
            )
        },
        f => f,
    }
}

/// `n` copied rows of a window or packed tail.
pub open spec fn row_copies(st: RowRun, n: int, back: int, shape: RowShape, stride: int) -> RowRun
    decreases n,
{
    if n <= 0 {
        st
    } else {
        let prev = row_copies(st, n - 1, back, shape, stride);
        if shape.kind == 1 {
            window_copy(prev, back, shape.w, shape.lo, stride)
        } else {
            pack_copy(prev, back, stride)
        }
    }
}

/// The copies of a record: plain byte copies for three-stream and
/// seed/previous tails, else row copies.
pub open spec fn record_copies(st: RowRun, r: TransformTailRecord, shape: RowShape, stride: int) -> RowRun {
    match st {
        RowRun::Running(o, c, p0, p1, p2, mi) => if shape.kind == 0 || shape.kind == 2 {
            match copy_backs(CopyRun::Running(o, c, 0), r.copy_count as int, r.back_distance as int, shape.w, stride) {
                CopyRun::Failed(o2, e) => RowRun::Failed(o2, delta_error(e)),
                CopyRun::Running(o2, c2, q) => RowRun::Running(o2, c2, p0, p1, p2, mi),
            }
        } else {
            row_copies(st, r.copy_count as int, r.back_distance as int, shape, stride)
        },
        f => f,
    }
}

/// The match-table accounting after a record's copies: they use match
/// entries too (or count as written rows), and the table must hold them.
pub open spec fn record_account(st: RowRun, r: TransformTailRecord, shape: RowShape, ins: RowInput) -> RowRun {
    match st {
        RowRun::Running(o, c, p0, p1, p2, mi) => if mi + r.copy_count > usize::MAX {
            RowRun::Failed(o, TransformTailDeltaError::ArithmeticOverflow)
        } else if shape.kind != 2 && mi + r.copy_count > ins.matches.len() {
            RowRun::Failed(o, TransformTailDeltaError::MatchTableTooSmall)
        } else {
            RowRun::Running(o, c, p0, p1, p2, mi + r.copy_count)
        },
        f => f,
    }
}

/// The first `k` records of a row tail.
pub open spec fn row_records(st: RowRun, rs: Seq<TransformTailRecord>, k: int, shape: RowShape, ins: RowInput, stride: int) -> RowRun
    decreases k,
{
    if k <= 0 {
        st
    } else {
        let prev = row_records(st, rs, k - 1, shape, ins, stride);
        record_account(
            record_copies(row_literals(prev, rs[k - 1].literal_count as int, shape, ins, stride), rs[k - 1], shape, stride),
            rs[k - 1],
            shape,
            ins,
        )
    }
}

/// A row tail over `out`: zero stride and an overflowing start fail at
/// once; otherwise the records run from cursor `block_index * stride +
/// out_offset + lo`.
pub open spec fn spec_row_tail(
    out: Seq<u8>,
    stride: int,
    block_index: int,
    out_offset: int,
    rs: Seq<TransformTailRecord>,
    shape: RowShape,
    ins: RowInput,
) -> RowRun {
    if stride == 0 {
        RowRun::Failed(out, TransformTailDeltaError::ZeroStride)
    } else if block_index * stride > usize::MAX || block_index * stride + out_offset > usize::MAX
        || block_index * stride + out_offset + shape.lo > usize::MAX {
        RowRun::Failed(out, TransformTailDeltaError::ArithmeticOverflow)
    } else {
        row_records(RowRun::Running(out, block_index * stride + out_offset + shape.lo, 0, 0, 0, 0), rs, rs.len() as int, shape, ins, stride)
    }
}

} // verus!
