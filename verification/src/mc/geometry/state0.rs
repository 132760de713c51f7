//! State 0 of the mesh decoder: the forward var-int `w8`, the
//! canonical-Huffman symbol table read from the reverse bit reader (a 4-bit
//! symbol count, then 11 bits per symbol with a forward byte pair per long
//! symbol), and one direction bit. Arithmetic wraps and shift amounts wrap
//! at the register width, as the decoder's machine code does.
use vstd::prelude::*;
use vstd::wrapping::u32_specs::{wrapping_add as add32, wrapping_mul as mul32, wrapping_sub as sub32};
use vstd::wrapping::u64_specs::wrapping_shr as shr64;
use vstd::wrapping::usize_specs::{wrapping_add as addsz, wrapping_sub as subsz};
use crate::mc::geometry::transport::{byte_or_zero, spec_u64_le, spec_varint, u64_le, ForwardReader, TableBuild};

verus! {

/// The builder's registers between symbols: the reverse pointer `x11`, the
/// forward position `x12`, the bit accumulator `x14` and its position
/// `w10`, the running offsets and counters, and the table built so far.
pub struct S0Regs {
    pub x11: usize,
    pub x12: usize,
    pub x14: u64,
    pub w10: u32,
    pub w16: u32,
    pub w1: u32,
    pub w18: u32,
    pub w5: u32,
    pub w7: u32,
    pub w4: u32,
    pub max_prod: u32,
    pub entries: Seq<u32>,
    pub offsets: Seq<u32>,
    pub cols: Seq<u8>,
    pub longs: Seq<u32>,
}

/// The payload byte at `p` as a register value, zero past the end.
pub open spec fn byte32(b: Seq<u8>, p: usize) -> u32 {
    byte_or_zero(b, p as int) as u32
}

/// One symbol: 11 bits from the reverse reader give its packing, widths
/// and flags; a long symbol (flag bit 1) records a marker, advances the
/// running offset and reads the next forward byte pair; a short one grows
/// the packed width.
pub open spec fn s0_step(b: Seq<u8>, r: S0Regs, w8: u32, w13: u32) -> S0Regs {
    let w0 = !w13;
    let x14 = r.x14 | shr64(spec_u64_le(b, r.x11 as int), r.w10);
    let w19p = ((x14 >> 0x3eu64) & 3) as u32;
    let w19b = ((x14 >> 0x37u64) & 0x1ff) as u32;
    let x24 = ((x14 >> 0x39u64) & 0x1f) as u32;
    let x26 = ((x14 >> 0x35u64) & 3) as u32;
    let w23m = sub32(0, 8) << w19p;
    let w24 = (x24 + 1) as u32;
    let w26 = (x26 + 1) as u32;
    let bic = r.w7 & !w23m;
    let w23 = add32(r.w4, (((w23m & r.w7) as i32) >> 3i32) as u32);
    let w25 = (bic << 16u32) | (w24 << 8u32) | (w19p << 3u32) | (r.w18 << 24u32) | w26;
    let w28 = add32(w23, r.w16);
    let wmul = mul32(w24, w26);
    let max_prod = if wmul > r.max_prod { wmul } else { r.max_prod };
    let long = w19b & 2 != 0;
    let w5a = add32(r.w5, w13);
    let w18a = mul32(r.w18, w8);
    let w18b = add32(w18a, w5a) & w0;
    let w7s = add32(wmul, r.w7);
    let bias: u32 = if (w7s as i32) < 0 { 14 } else { 7 };
    let w23s = add32(r.w4, ((add32(w7s, bias) as i32) >> 3i32) as u32);
    S0Regs {
        x11: subsz(r.x11, ((r.w10 >> 3u32) ^ 7) as usize),
        x12: if long { addsz(r.x12, 2) } else { r.x12 },
        x14: x14 << 11u64,
        w10: sub32(r.w10 | 0x38, 11),
        w16: if long { add32(r.w16, w18b) } else { r.w16 },
        w1: add32(r.w1, 0x10000),
        w18: if long { byte32(b, r.x12) } else { r.w18 },
        w5: if long { byte32(b, addsz(r.x12, 1)) } else { r.w5 },
        w7: if long { 0 } else if w19b & 1 != 0 { 0 } else { w7s },
        w4: if long { 0 } else if w19b & 1 != 0 { w23s } else { r.w4 },
        max_prod,
        entries: r.entries.push(w25),
        offsets: r.offsets.push(w28),
        cols: r.cols.push(w23 as u8),
        longs: if long { r.longs.push(r.w1 | (r.w5 << 8u32) | r.w18) } else { r.longs },
    }
}

/// The registers after the first `k` symbols.
pub open spec fn s0_loop(b: Seq<u8>, r: S0Regs, k: int, w8: u32, w13: u32) -> S0Regs
    decreases k,
{
    if k <= 0 {
        r
    } else {
        s0_step(b, s0_loop(b, r, k - 1, w8, w13), w8, w13)
    }
}

/// Each symbol adds one entry, one offset and one column.
pub proof fn lemma_s0_loop_lengths(b: Seq<u8>, r: S0Regs, k: int, w8: u32, w13: u32)
    requires
        k >= 0,
    ensures
        s0_loop(b, r, k, w8, w13).entries.len() == r.entries.len() + k,
        s0_loop(b, r, k, w8, w13).offsets.len() == r.offsets.len() + k,
        s0_loop(b, r, k, w8, w13).cols.len() == r.cols.len() + k,
        s0_loop(b, r, k, w8, w13).longs.len() <= r.longs.len() + k,
    decreases k,
{
    if k > 0 {
        lemma_s0_loop_lengths(b, r, k - 1, w8, w13);
    }
}

/// A table build as values.
pub struct TableModel {
    pub fwd: usize,
    pub rev_ptr: usize,
    pub rev_acc: u64,
    pub rev_bitpos: u32,
    pub w8: u32,
    pub symbols: u32,
    pub dir_bit: u32,
    pub entries: Seq<u32>,
    pub offsets: Seq<u32>,
    pub cols: Seq<u8>,
    pub longs: Seq<u32>,
    pub byte_group_total: u32,
    pub max_prod: u32,
}

impl View for TableBuild {
    type V = TableModel;

    open spec fn view(&self) -> TableModel {
        TableModel {
            fwd: self.fwd,
            rev_ptr: self.rev_ptr,
            rev_acc: self.rev_acc,
            rev_bitpos: self.rev_bitpos,
            w8: self.w8,
            symbols: self.symbols,
            dir_bit: self.dir_bit,
            entries: self.entries@,
            offsets: self.offsets@,
            cols: self.cols@,
            longs: self.longs@,
            byte_group_total: self.byte_group_total,
            max_prod: self.max_prod,
        }
    }
}

/// The registers before the first symbol.
pub open spec fn s0_start(b: Seq<u8>, x11: usize, x12: usize, x14: u64, w10: u32) -> S0Regs {
    S0Regs {
        x11,
        x12: addsz(x12, 2),
        x14,
        w10,
        w16: 0,
        w1: 0,
        w18: byte32(b, x12),
        w5: byte32(b, addsz(x12, 1)),
        w7: 0,
        w4: 0,
        max_prod: 0,
        entries: Seq::empty(),
        offsets: Seq::empty(),
        cols: Seq::empty(),
        longs: Seq::empty(),
    }
}

/// What state 0 builds from the payload, the forward position, the reverse
/// reader (`rev_ptr`, `rev_acc`, `rev_bitpos`) and `w13`.
pub open spec fn spec_table_build(b: Seq<u8>, fwd: usize, rev_ptr: usize, rev_acc: u64, rev_bitpos: u32, w13: u32) -> TableModel {
    let w12 = rev_bitpos;
    let x15 = shr64(spec_u64_le(b, rev_ptr as int), w12);
    let w14 = (w12 >> 3u32) ^ 7;
    let (w8, p) = spec_varint(b, fwd as int, 0);
    let x12 = p as usize;
    let x9 = x15 | rev_acc;
    let w15 = w12 | 0x38;
    let x11 = subsz(rev_ptr, w14 as usize);
    let symbols = ((x9 >> 0x3bu64) & 0xf) as u32;
    let x14 = x9 << 5u64;
    let w10 = sub32(w15, 5);
    let (r, fwd2) = if symbols != 0 {
        let r = s0_loop(b, s0_start(b, x11, x12, x14, w10), symbols as int, w8, w13);
        (r, r.x12)
    } else {
        (s0_start(b, x11, x12, x14, w10), x12)
    };
    let w0 = !w13;
    let longs = if symbols != 0 {
        r.longs.push(sub32(symbols << 16u32, 0x10000) | (r.w5 << 8u32) | r.w18)
    } else {
        Seq::empty()
    };
    let total = if symbols != 0 {
        add32(r.w16, add32(mul32(r.w18, w8), add32(r.w5, w13)) & w0)
    } else {
        0
    };
    let xe = if symbols != 0 { r.x14 } else { x14 };
    let we = if symbols != 0 { r.w10 } else { w10 };
    TableModel {
        fwd: fwd2,
        rev_ptr: if symbols != 0 { r.x11 } else { x11 },
        rev_acc: xe << 1u64,
        rev_bitpos: sub32(we, 1),
        w8,
        symbols,
        dir_bit: ((xe >> 63u64) as u32) & 1,
        entries: if symbols != 0 { r.entries } else { Seq::empty() },
        offsets: if symbols != 0 { r.offsets } else { Seq::empty() },
        cols: if symbols != 0 { r.cols } else { Seq::empty() },
        longs,
        byte_group_total: total,
        max_prod: if symbols != 0 { r.max_prod } else { 0 },
    }
}

/// One symbol of the table loop (see `s0_step`).
fn s0_step_exec(
    payload: &[u8],
    x11: &mut usize,
    x12: &mut usize,
    x14: &mut u64,
    w10: &mut u32,
    w16: &mut u32,
    w1: &mut u32,
    w18: &mut u32,
    w5: &mut u32,
    w7: &mut u32,
    w4: &mut u32,
    max_prod: &mut u32,
    entries: &mut Vec<u32>,
    offsets: &mut Vec<u32>,
    cols: &mut Vec<u8>,
    longs: &mut Vec<u32>,
    w8: u32,
    w13: u32,
)
    ensures
        s0_step(
            payload@,
            S0Regs {
                x11: *old(x11),
                x12: *old(x12),
                x14: *old(x14),
                w10: *old(w10),
                w16: *old(w16),
                w1: *old(w1),
                w18: *old(w18),
                w5: *old(w5),
                w7: *old(w7),
                w4: *old(w4),
                max_prod: *old(max_prod),
                entries: old(entries)@,
                offsets: old(offsets)@,
                cols: old(cols)@,
                longs: old(longs)@,
            },
            w8,
            w13,
        ) == (S0Regs {
            x11: *final(x11),
            x12: *final(x12),
            x14: *final(x14),
            w10: *final(w10),
            w16: *final(w16),
            w1: *final(w1),
            w18: *final(w18),
            w5: *final(w5),
            w7: *final(w7),
            w4: *final(w4),
            max_prod: *final(max_prod),
            entries: final(entries)@,
            offsets: final(offsets)@,
            cols: final(cols)@,
            longs: final(longs)@,
        }),
{
    let w0 = !w13;
    let x = *x14 | u64_le(payload, *x11).wrapping_shr(*w10);
    let w19p = ((x >> 0x3eu64) & 3) as u32;
    let w19b = ((x >> 0x37u64) & 0x1ff) as u32;
    let x24 = ((x >> 0x39u64) & 0x1f) as u32;
    let x26 = ((x >> 0x35u64) & 3) as u32;
    let a = (x >> 0x3eu64) & 3;
    let c = (x >> 0x39u64) & 0x1f;
    let d = (x >> 0x35u64) & 3;
    assert(a <= 3 && c <= 31 && d <= 3) by (bit_vector)
        requires
            a == (x >> 0x3eu64) & 3,
            c == (x >> 0x39u64) & 0x1f,
            d == (x >> 0x35u64) & 3,
    ;
    let w23m = 0u32.wrapping_sub(8) << w19p;
    let w24 = x24 + 1;
    let w26 = x26 + 1;
    let bic = *w7 & !w23m;
    let w23 = w4.wrapping_add((((w23m & *w7) as i32) >> 3i32) as u32);
    let w25 = (bic << 16u32) | (w24 << 8u32) | (w19p << 3u32) | (*w18 << 24u32) | w26;
    let w28 = w23.wrapping_add(*w16);
    entries.push(w25);
    cols.push(w23 as u8);
    offsets.push(w28);
    let wmul = w24.wrapping_mul(w26);
    if wmul > *max_prod {
        *max_prod = wmul;
    }
    if w19b & 2 != 0 {
        longs.push(*w1 | (*w5 << 8u32) | *w18);
        let w5a = w5.wrapping_add(w13);
        let w18b = (w18.wrapping_mul(w8).wrapping_add(w5a)) & w0;
        *w16 = w16.wrapping_add(w18b);
        *w18 = if *x12 < payload.len() { payload[*x12] as u32 } else { 0 };
        let n1 = x12.wrapping_add(1);
        *w5 = if n1 < payload.len() { payload[n1] as u32 } else { 0 };
        *x12 = x12.wrapping_add(2);
        *w4 = 0;
        *w7 = 0;
    } else {
        let w7s = wmul.wrapping_add(*w7);
        let bias: u32 = if (w7s as i32) < 0 { 14 } else { 7 };
        let w23s = w4.wrapping_add(((w7s.wrapping_add(bias) as i32) >> 3i32) as u32);
        if w19b & 1 != 0 {
            *w7 = 0;
            *w4 = w23s;
        } else {
            *w7 = w7s;
        }
    }
    let pre = *w10;
    *w10 = (*w10 | 0x38).wrapping_sub(11);
    *x14 = x << 11u64;
    *x11 = x11.wrapping_sub(((pre >> 3u32) ^ 7) as usize);
    *w1 = w1.wrapping_add(0x10000);
}

/// Run state 0 on the payload from forward position `fwd` with the reverse
/// reader at `rev_ptr` (accumulator `rev_acc`, bit position `rev_bitpos`):
/// read the forward var-int `w8`, then, when the 4-bit symbol count is
/// nonzero, build the symbol table (entries, offsets, columns, long-symbol
/// markers, the byte-group total and the largest width product), then take
/// the direction bit. Returns the advanced cursors and the table. The
/// reverse bit position is a bit index within a 64-bit word.
pub fn state0_table_builder(payload: &[u8], fwd: usize, rev_ptr: usize, rev_acc: u64, rev_bitpos: u32, w13: u32) -> (r:
    TableBuild)
    requires
        rev_bitpos < 64,
    ensures
        r@ == spec_table_build(payload@, fwd, rev_ptr, rev_acc, rev_bitpos, w13),
        r.symbols < 16,
        r.entries@.len() == r.symbols,
        r.offsets@.len() == r.symbols,
        r.cols@.len() == r.symbols,
        r.symbols == 0 ==> r.longs@.len() == 0,
        r.symbols != 0 ==> 1 <= r.longs@.len() <= r.symbols + 1,
{
    let w12 = rev_bitpos;
    let x15 = u64_le(payload, rev_ptr).wrapping_shr(w12);
    let w14 = (w12 >> 3u32) ^ 7;
    let mut f = ForwardReader::new(payload, fwd);
    let w8 = f.varint();
    let mut x12 = f.pos;
    let x9 = x15 | rev_acc;
    let w15 = w12 | 0x38;
    let mut x11 = rev_ptr.wrapping_sub(w14 as usize);
    let symbols = ((x9 >> 0x3bu64) & 0xf) as u32;
    let mut x14 = x9 << 5u64;
    let mut w10 = w15.wrapping_sub(5);
    let mut entries: Vec<u32> = Vec::new();
    let mut offsets: Vec<u32> = Vec::new();
    let mut cols: Vec<u8> = Vec::new();
    let mut longs: Vec<u32> = Vec::new();
    let mut byte_group_total = 0u32;
    let mut max_prod = 0u32;
    let ghost b = payload@;
    if symbols != 0 {
        let w0 = !w13;
        let mut w16 = 0u32;
        let mut w1 = 0u32;
        let mut w18: u32 = if x12 < payload.len() { payload[x12] as u32 } else { 0 };
        let n1 = x12.wrapping_add(1);
        let mut w5: u32 = if n1 < payload.len() { payload[n1] as u32 } else { 0 };
        let ghost start = s0_start(b, x11, x12, x14, w10);
        x12 = x12.wrapping_add(2);
        let mut w7 = 0u32;
        let mut w4 = 0u32;
        assert(start == (S0Regs {
            x11,
            x12,
            x14,
            w10,
            w16,
            w1,
            w18,
            w5,
            w7,
            w4,
            max_prod,
            entries: entries@,
            offsets: offsets@,
            cols: cols@,
            longs: longs@,
        }));
        let mut i: u32 = 0;
        while i < symbols
            invariant
                i <= symbols,
                b == payload@,
                s0_loop(b, start, i as int, w8, w13) == (S0Regs {
                x11,
                x12,
                x14,
                w10,
                w16,
                w1,
                w18,
                w5,
                w7,
                w4,
                max_prod,
                entries: entries@,
                offsets: offsets@,
                cols: cols@,
                longs: longs@,
            }),
            decreases symbols - i,
        {
            s0_step_exec(
                payload,
                &mut x11,
                &mut x12,
                &mut x14,
                &mut w10,
                &mut w16,
                &mut w1,
                &mut w18,
                &mut w5,
                &mut w7,
                &mut w4,
                &mut max_prod,
                &mut entries,
                &mut offsets,
                &mut cols,
                &mut longs,
                w8,
                w13,
            );
            i += 1;
        }
        proof {
            lemma_s0_loop_lengths(b, start, symbols as int, w8, w13);
        }
        longs.push(((symbols << 16u32).wrapping_sub(0x10000)) | (w5 << 8u32) | w18);
        let w13f = ((w18.wrapping_mul(w8)).wrapping_add(w5.wrapping_add(w13))) & w0;
        byte_group_total = w16.wrapping_add(w13f);
    }
    let dir_bit = ((x14 >> 63u64) as u32) & 1;
    x14 = x14 << 1u64;
    w10 = w10.wrapping_sub(1);
    let r = TableBuild {
        fwd: x12,
        rev_ptr: x11,
        rev_acc: x14,
        rev_bitpos: w10,
        w8,
        symbols,
        dir_bit,
        entries,
        offsets,
        cols,
        longs,
        byte_group_total,
        max_prod,
    };
    assert(r@ =~= spec_table_build(payload@, fwd, rev_ptr, rev_acc, rev_bitpos, w13));
    proof {
        assert(((x9 >> 0x3bu64) & 0xf) < 16) by (bit_vector);
    }
    r
}

} // verus!
