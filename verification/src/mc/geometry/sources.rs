//! The source setup of the vertex attribute driver: a seven-bit dispatch key
//! picks the writer that rebuilds an attribute, and the source descriptors
//! (element shift, group stride, group count) of the byte-group streams
//! that writer reads. Some writers split their vertex count between two
//! sources with a setup var-int read from the forward stream.
use vstd::prelude::*;

verus! {

/// The writer that the dispatch key selects.
#[derive(Debug, Clone, Copy, PartialEq, Eq, Structural)]
pub enum VertexAttributeWriterTarget {
    Copy1,
    Copy2,
    Copy4,
    Delta2,
    Delta3,
    Delta2Direct,
    Delta3Direct,
    Delta4Direct,
    U16x3Delta,
    U16x2DirectDelta,
    U16x2PreviousDelta,
    U8x2Delta,
    U16x2Delta,
    I8x2Normal,
    I8x3NormalDelta,
    Pack10x3Delta,
}

/// One source stream to read: element-size shift, byte or element group
/// stride, and group count.
#[derive(Debug, Clone, Copy, PartialEq, Eq, Structural)]
pub struct VertexAttributeSourceDescriptor {
    pub element_shift: u32,
    pub group_stride: usize,
    pub count: usize,
}

/// Why the source setup refused its input.
#[derive(Debug, Clone, Copy, PartialEq, Eq, Structural)]
pub enum VertexAttributeInterstageError {
    /// The shared reverse reader tried to load outside the payload.
    PayloadTooSmall,
    /// A setup var-int ran past the payload.
    StreamTooShort,
    /// A setup var-int was longer than five bytes or above `u32::MAX`.
    VarintTooLong,
    /// Descriptor arithmetic overflowed.
    ArithmeticOverflow,
    /// The dispatch key names no known writer.
    UnobservedDispatch(u8),
    /// The table entry's byte count was zero.
    UnobservedZeroTableByteCount,
    /// The table entry's group width was zero.
    UnobservedZeroTableGroupWidth,
    /// A descriptor would have a zero stride.
    UnobservedZeroDescriptorStride { dispatch: u8, index: usize },
    /// A descriptor would have a zero count.
    UnobservedZeroSourceCount { dispatch: u8, index: usize },
    /// The setup split was above the wrapper's vertex count.
    SplitExceedsWrapperReturn { dispatch: u8, split: usize, wrapper_ret: u32 },
    /// The normal-delta writer takes byte-sized components only.
    UnobservedNormalElementShift { dispatch: u8, element_shift: u32 },
}

/// The setup var-int (MSB-first base 128, at most five bytes, at most
/// `u32::MAX`) after `k` bytes read with value `value`, from byte `pos`.
pub open spec fn spec_setup_varint(b: Seq<u8>, pos: int, value: usize, k: int) -> Result<
    (usize, int),
    VertexAttributeInterstageError,
>
    decreases 5 - k,
{
    if k >= 5 {
        Err(VertexAttributeInterstageError::VarintTooLong)
    } else if pos < 0 || pos >= b.len() {
        Err(VertexAttributeInterstageError::StreamTooShort)
    } else {
        let x = b[pos];
        let sh = value << 7usize;
        if sh + (x & 0x7f) > usize::MAX {
            Err(VertexAttributeInterstageError::VarintTooLong)
        } else {
            let v = (sh + (x & 0x7f)) as usize;
            if v > u32::MAX {
                Err(VertexAttributeInterstageError::VarintTooLong)
            } else if x & 0x80 == 0 {
                Ok((v, pos + 1))
            } else {
                spec_setup_varint(b, pos + 1, v, k + 1)
            }
        }
    }
}

/// Read the setup var-int at `pos`; returns it and the position after it.
fn read_setup_varint(payload: &[u8], pos: usize) -> (r: Result<(usize, usize), VertexAttributeInterstageError>)
    ensures
        match spec_setup_varint(payload@, pos as int, 0, 0) {
            Ok((v, p)) => r matches Ok((v2, p2)) && v2 == v && p2 == p,
            Err(e) => r == Err::<(usize, usize), VertexAttributeInterstageError>(e),
        },
{
    let mut value: usize = 0;
    let mut p = pos;
    let mut k: usize = 0;
    while k < 5
        invariant
            k <= 5,
            p == pos + k,
            spec_setup_varint(payload@, pos as int, 0, 0) == spec_setup_varint(payload@, p as int, value, k as int),
        decreases 5 - k,
    {
        if p >= payload.len() {
            return Err(VertexAttributeInterstageError::StreamTooShort);
        }
        let x = payload[p];
        let sh = value << 7usize;
        let low = (x & 0x7f) as usize;
        if sh > usize::MAX - low {
            return Err(VertexAttributeInterstageError::VarintTooLong);
        }
        let v = sh + low;
        if v > 0xffff_ffffusize {
            return Err(VertexAttributeInterstageError::VarintTooLong);
        }
        if x & 0x80 == 0 {
            return Ok((v, p + 1));
        }
        value = v;
        p = p + 1;
        k = k + 1;
    }
    Err(VertexAttributeInterstageError::VarintTooLong)
}

/// One descriptor, refused when its stride or count is zero.
pub open spec fn spec_descriptor(dispatch: u8, index: int, d: (u32, int, int)) -> Result<
    VertexAttributeSourceDescriptor,
    VertexAttributeInterstageError,
> {
    if d.1 == 0 {
        Err(VertexAttributeInterstageError::UnobservedZeroDescriptorStride { dispatch, index: index as usize })
    } else if d.2 == 0 {
        Err(VertexAttributeInterstageError::UnobservedZeroSourceCount { dispatch, index: index as usize })
    } else {
        Ok(VertexAttributeSourceDescriptor { element_shift: d.0, group_stride: d.1 as usize, count: d.2 as usize })
    }
}

/// The first `k` descriptors in order, or the first refusal among them.
pub open spec fn spec_descriptors(dispatch: u8, ds: Seq<(u32, int, int)>, k: int) -> Result<
    Seq<VertexAttributeSourceDescriptor>,
    VertexAttributeInterstageError,
>
    decreases k,
{
    if k <= 0 {
        Ok(Seq::empty())
    } else {
        match spec_descriptors(dispatch, ds, k - 1) {
            Err(e) => Err(e),
            Ok(v) => match spec_descriptor(dispatch, k - 1, ds[k - 1]) {
                Err(e) => Err(e),
                Ok(x) => Ok(v.push(x)),
            },
        }
    }
}

/// A writer with its descriptors, at stream position `pos`.
pub open spec fn with_target(
    t: VertexAttributeWriterTarget,
    dispatch: u8,
    ds: Seq<(u32, int, int)>,
    pos: int,
) -> Result<(VertexAttributeWriterTarget, Seq<VertexAttributeSourceDescriptor>, int), VertexAttributeInterstageError> {
    match spec_descriptors(dispatch, ds, ds.len() as int) {
        Err(e) => Err(e),
        Ok(v) => Ok((t, v, pos)),
    }
}

/// The writer of a dispatch key that reads one split var-int, with its
/// descriptors built from the split and the remainder.
pub open spec fn with_split(
    t: VertexAttributeWriterTarget,
    dispatch: u8,
    ret: u32,
    b: Seq<u8>,
    pos: int,
    ds: spec_fn(int, int) -> Seq<(u32, int, int)>,
) -> Result<(VertexAttributeWriterTarget, Seq<VertexAttributeSourceDescriptor>, int), VertexAttributeInterstageError> {
    match spec_setup_varint(b, pos, 0, 0) {
        Err(e) => Err(e),
        Ok((split, p)) => if split > ret {
            Err(VertexAttributeInterstageError::SplitExceedsWrapperReturn { dispatch, split, wrapper_ret: ret })
        } else {
            with_target(t, dispatch, ds(split as int, ret - split), p)
        },
    }
}

/// The source setup of dispatch key `dispatch` for a table entry of
/// `byte_count` bytes and group width `group_width`, with the wrapper's
/// vertex count `ret`, reading any split var-int at `pos`: the writer, its
/// descriptors, and the stream position after the setup.
pub open spec fn spec_source_descriptors(
    dispatch: u8,
    byte_count: u32,
    group_width: u32,
    ret: u32,
    b: Seq<u8>,
    pos: int,
) -> Result<(VertexAttributeWriterTarget, Seq<VertexAttributeSourceDescriptor>, int), VertexAttributeInterstageError> {
    if byte_count == 0 {
        Err(VertexAttributeInterstageError::UnobservedZeroTableByteCount)
    } else if byte_count + 7 > u32::MAX {
        Err(VertexAttributeInterstageError::ArithmeticOverflow)
    } else if group_width == 0 {
        Err(VertexAttributeInterstageError::UnobservedZeroTableGroupWidth)
    } else {
        let rounded = (byte_count + 7) / 8;
        let gw = group_width as int;
        if rounded * gw > usize::MAX {
            Err(VertexAttributeInterstageError::ArithmeticOverflow)
        } else {
            let stride = rounded * gw;
            let sh = (rounded - 1) as u32;
            let r = ret as int;
            if dispatch == 15 || dispatch == 16 || dispatch == 18 {
                let t = if dispatch == 15 {
                    VertexAttributeWriterTarget::Copy1
                } else if dispatch == 16 {
                    VertexAttributeWriterTarget::Copy2
                } else {
                    VertexAttributeWriterTarget::Copy4
                };
                with_target(t, dispatch, seq![(0u32, stride, r)], pos)
            } else if dispatch == 30 || dispatch == 31 || dispatch == 32 || dispatch == 35 || dispatch == 58 {
                let t = if dispatch == 30 {
                    VertexAttributeWriterTarget::Delta2Direct
                } else if dispatch == 31 {
                    VertexAttributeWriterTarget::Delta3Direct
                } else if dispatch == 32 {
                    VertexAttributeWriterTarget::Delta4Direct
                } else if dispatch == 35 {
                    VertexAttributeWriterTarget::U16x2DirectDelta
                } else {
                    VertexAttributeWriterTarget::U16x3Delta
                };
                with_split(t, dispatch, ret, b, pos, |s: int, m: int| seq![(0u32, stride, s), (0u32, stride, m)])
            } else if dispatch == 7 || dispatch == 8 {
                let t = if dispatch == 7 {
                    VertexAttributeWriterTarget::Delta2
                } else {
                    VertexAttributeWriterTarget::Delta3
                };
                with_split(t, dispatch, ret, b, pos, |s: int, m: int| seq![(sh, 1int, s), (sh, gw - 1, s), (sh, gw, m)])
            } else if dispatch == 67 {
                with_target(VertexAttributeWriterTarget::U16x2PreviousDelta, dispatch, seq![(sh, gw, r)], pos)
            } else if dispatch == 76 || dispatch == 81 {
                let t = if dispatch == 76 {
                    VertexAttributeWriterTarget::U8x2Delta
                } else {
                    VertexAttributeWriterTarget::U16x2Delta
                };
                with_split(t, dispatch, ret, b, pos, |s: int, m: int| seq![(sh, gw, s), (sh, gw, m)])
            } else if dispatch == 107 {
                with_target(
                    VertexAttributeWriterTarget::I8x2Normal,
                    dispatch,
                    seq![(sh, 2int, r), (0u32, 1int, r), (0u32, 1int, r)],
                    pos,
                )
            } else if dispatch == 110 || dispatch == 111 {
                match spec_setup_varint(b, pos, 0, 0) {
                    Err(e) => Err(e),
                    Ok((split, p)) => if split > ret {
                        Err(
                            VertexAttributeInterstageError::SplitExceedsWrapperReturn {
                                dispatch,
                                split,
                                wrapper_ret: ret,
                            },
                        )
                    } else if dispatch == 110 && sh != 0 {
                        Err(VertexAttributeInterstageError::UnobservedNormalElementShift { dispatch, element_shift: sh })
                    } else {
                        let t = if dispatch == 110 {
                            VertexAttributeWriterTarget::I8x3NormalDelta
                        } else {
                            VertexAttributeWriterTarget::Pack10x3Delta
                        };
                        let s = split as int;
                        with_target(
                            t,
                            dispatch,
                            seq![(sh, 2int, s), (sh, 1int, s), (0u32, 1int, s), (sh, 3int, r - s)],
                            p,
                        )
                    },
                }
            } else {
                Err(VertexAttributeInterstageError::UnobservedDispatch(dispatch))
            }
        }
    }
}

/// Descriptor triples as integers.
pub open spec fn widen(ds: Seq<(u32, usize, usize)>) -> Seq<(u32, int, int)> {
    ds.map_values(|d: (u32, usize, usize)| (d.0, d.1 as int, d.2 as int))
}

/// Build the descriptors in order (see `spec_descriptors`).
fn build_descriptors(dispatch: u8, ds: Vec<(u32, usize, usize)>) -> (r: Result<
    Vec<VertexAttributeSourceDescriptor>,
    VertexAttributeInterstageError,
>)
    ensures
        match spec_descriptors(dispatch, widen(ds@), ds@.len() as int) {
            Ok(v) => r matches Ok(x) && x@ == v,
            Err(e) => r matches Err(e2) && e2 == e,
        },
{
    let mut out: Vec<VertexAttributeSourceDescriptor> = Vec::new();
    let mut i: usize = 0;
    while i < ds.len()
        invariant
            i <= ds@.len(),
            spec_descriptors(dispatch, widen(ds@), i as int) == Ok::<
                Seq<VertexAttributeSourceDescriptor>,
                VertexAttributeInterstageError,
            >(out@),
        decreases ds@.len() - i,
    {
        let (sh, stride, count) = ds[i];
        assert(widen(ds@)[i as int] == (sh, stride as int, count as int));
        if stride == 0 {
            proof {
                lemma_descriptors_stop(dispatch, widen(ds@), i as int + 1, ds@.len() as int);
            }
            return Err(VertexAttributeInterstageError::UnobservedZeroDescriptorStride { dispatch, index: i });
        }
        if count == 0 {
            proof {
                lemma_descriptors_stop(dispatch, widen(ds@), i as int + 1, ds@.len() as int);
            }
            return Err(VertexAttributeInterstageError::UnobservedZeroSourceCount { dispatch, index: i });
        }
        out.push(VertexAttributeSourceDescriptor { element_shift: sh, group_stride: stride, count });
        i = i + 1;
    }
    Ok(out)
}

/// Once a descriptor is refused, the refusal stands.
proof fn lemma_descriptors_stop(dispatch: u8, ds: Seq<(u32, int, int)>, k: int, n: int)
    requires
        0 < k <= n,
        spec_descriptors(dispatch, ds, k) is Err,
    ensures
        spec_descriptors(dispatch, ds, n) == spec_descriptors(dispatch, ds, k),
    decreases n - k,
{
    if k < n {
        lemma_descriptors_stop(dispatch, ds, k, n - 1);
    }
}

/// The writer, its descriptors, and the stream position after them.
fn finish(
    t: VertexAttributeWriterTarget,
    dispatch: u8,
    ds: Vec<(u32, usize, usize)>,
    pos: usize,
) -> (r: Result<(VertexAttributeWriterTarget, Vec<VertexAttributeSourceDescriptor>, usize), VertexAttributeInterstageError>)
    ensures
        match with_target(t, dispatch, widen(ds@), pos as int) {
            Ok((t1, v, p)) => r matches Ok((t2, v2, p2)) && t2 == t1 && v2@ == v && p2 == p,
            Err(e) => r matches Err(e2) && e2 == e,
        },
{
    match build_descriptors(dispatch, ds) {
        Ok(v) => Ok((t, v, pos)),
        Err(e) => Err(e),
    }
}

/// The source setup of the vertex attribute driver for dispatch key
/// `dispatch`: from the table entry's byte count and group width, the
/// wrapper's vertex count `wrapper_ret`, and (for the writers that split
/// their count) a setup var-int read from `payload` at `stream_pos`, pick
/// the writer and build its source descriptors. Returns them with the
/// stream position after the setup.
pub fn vertex_attribute_source_descriptors(
    dispatch: u8,
    byte_count: u32,
    group_width: u32,
    wrapper_ret: u32,
    payload: &[u8],
    stream_pos: usize,
) -> (r: Result<(VertexAttributeWriterTarget, Vec<VertexAttributeSourceDescriptor>, usize), VertexAttributeInterstageError>)
    ensures
        match spec_source_descriptors(dispatch, byte_count, group_width, wrapper_ret, payload@, stream_pos as int) {
            Ok((t, v, p)) => r matches Ok((t2, v2, p2)) && t2 == t && v2@ == v && p2 == p,
            Err(e) => r matches Err(e2) && e2 == e,
        },
{
    if byte_count == 0 {
        return Err(VertexAttributeInterstageError::UnobservedZeroTableByteCount);
    }
    if byte_count > u32::MAX - 7 {
        return Err(VertexAttributeInterstageError::ArithmeticOverflow);
    }
    if group_width == 0 {
        return Err(VertexAttributeInterstageError::UnobservedZeroTableGroupWidth);
    }
    let rounded = ((byte_count + 7) / 8) as usize;
    let gw = group_width as usize;
    if rounded > usize::MAX / gw {
        proof {
            assert(rounded * gw > usize::MAX) by (nonlinear_arith)
                requires
                    rounded > usize::MAX / gw,
                    gw > 0,
            ;
        }
        return Err(VertexAttributeInterstageError::ArithmeticOverflow);
    }
    proof {
        assert(rounded * gw <= usize::MAX) by (nonlinear_arith)
            requires
                rounded <= usize::MAX / gw,
                gw > 0,
        ;
    }
    let stride = rounded * gw;
    let sh = (rounded - 1) as u32;
    let ret = wrapper_ret as usize;
    if dispatch == 15 || dispatch == 16 || dispatch == 18 {
        let t = if dispatch == 15 {
            VertexAttributeWriterTarget::Copy1
        } else if dispatch == 16 {
            VertexAttributeWriterTarget::Copy2
        } else {
            VertexAttributeWriterTarget::Copy4
        };
        let ds = vec![(0u32, stride, ret)];
        assert(widen(ds@) =~= seq![(0u32, stride as int, ret as int)]);
        return finish(t, dispatch, ds, stream_pos);
    }
    if dispatch == 67 {
        let ds = vec![(sh, gw, ret)];
        assert(widen(ds@) =~= seq![(sh, gw as int, ret as int)]);
        return finish(VertexAttributeWriterTarget::U16x2PreviousDelta, dispatch, ds, stream_pos);
    }
    if dispatch == 107 {
        let ds = vec![(sh, 2usize, ret), (0u32, 1usize, ret), (0u32, 1usize, ret)];
        assert(widen(ds@) =~= seq![(sh, 2int, ret as int), (0u32, 1int, ret as int), (0u32, 1int, ret as int)]);
        return finish(VertexAttributeWriterTarget::I8x2Normal, dispatch, ds, stream_pos);
    }
    let splits = dispatch == 30 || dispatch == 31 || dispatch == 32 || dispatch == 35 || dispatch == 58 || dispatch
        == 7 || dispatch == 8 || dispatch == 76 || dispatch == 81 || dispatch == 110 || dispatch == 111;
    if !splits {
        return Err(VertexAttributeInterstageError::UnobservedDispatch(dispatch));
    }
    let (split, p) = match read_setup_varint(payload, stream_pos) {
        Ok(x) => x,
        Err(e) => return Err(e),
    };
    if split > ret {
        return Err(
            VertexAttributeInterstageError::SplitExceedsWrapperReturn { dispatch, split, wrapper_ret },
        );
    }
    let m = ret - split;
    if dispatch == 7 || dispatch == 8 {
        let t = if dispatch == 7 {
            VertexAttributeWriterTarget::Delta2
        } else {
            VertexAttributeWriterTarget::Delta3
        };
        let ds = vec![(sh, 1usize, split), (sh, gw - 1, split), (sh, gw, m)];
        assert(widen(ds@) =~= seq![(sh, 1int, split as int), (sh, gw - 1, split as int), (sh, gw as int, m as int)]);
        return finish(t, dispatch, ds, p);
    }
    if dispatch == 76 || dispatch == 81 {
        let t = if dispatch == 76 {
            VertexAttributeWriterTarget::U8x2Delta
        } else {
            VertexAttributeWriterTarget::U16x2Delta
        };
        let ds = vec![(sh, gw, split), (sh, gw, m)];
        assert(widen(ds@) =~= seq![(sh, gw as int, split as int), (sh, gw as int, m as int)]);
        return finish(t, dispatch, ds, p);
    }
    if dispatch == 110 || dispatch == 111 {
        if dispatch == 110 && sh != 0 {
            return Err(VertexAttributeInterstageError::UnobservedNormalElementShift { dispatch, element_shift: sh });
        }
        let t = if dispatch == 110 {
            VertexAttributeWriterTarget::I8x3NormalDelta
        } else {
            VertexAttributeWriterTarget::Pack10x3Delta
        };
        let ds = vec![(sh, 2usize, split), (sh, 1usize, split), (0u32, 1usize, split), (sh, 3usize, m)];
        assert(widen(ds@) =~= seq![
            (sh, 2int, split as int),
            (sh, 1int, split as int),
            (0u32, 1int, split as int),
            (sh, 3int, m as int),
        ]);
        return finish(t, dispatch, ds, p);
    }
    let t = if dispatch == 30 {
        VertexAttributeWriterTarget::Delta2Direct
    } else if dispatch == 31 {
        VertexAttributeWriterTarget::Delta3Direct
    } else if dispatch == 32 {
        VertexAttributeWriterTarget::Delta4Direct
    } else if dispatch == 35 {
        VertexAttributeWriterTarget::U16x2DirectDelta
    } else {
        VertexAttributeWriterTarget::U16x3Delta
    };
    let ds = vec![(0u32, stride, split), (0u32, stride, m)];
    assert(widen(ds@) =~= seq![(0u32, stride as int, split as int), (0u32, stride as int, m as int)]);
    finish(t, dispatch, ds, p)
}

} // verus!
