//! Row-pair kernel for bi-planar (NV12/NV21) 4:2:0 output at 13-bit precision.

use super::arith::{sat_u8, signed16};
use super::rgba_to_yuv420::y13_row;
use super::utils::{
    bias_fits, blocks_end, cb13_at, cr13_at, lemma_overwritten_joins, lemma_store_overwrites,
    lsx_chroma_to_u8, lsx_encode_block16, lsx_interleave_lo, lsx_store16, lsx_store_y, overwritten,
    LSX_BLOCK,
};
use super::{has_lasx, has_lsx, simd_applies, CpuFeatures};
use crate::internals::ProcessedOffset;
use crate::yuv_support::{CbCrForwardTransform, YuvChromaRange, YuvNVOrder, YuvSourceChannels};
use vstd::prelude::*;

verus! {

/// The interleaved chroma bytes of a row pair, by position, where position
/// `start_ux` is the first byte of the pair of the quad at column `start_cx`.
pub open spec fn uv13_row(
    sc: YuvSourceChannels,
    order: YuvNVOrder,
    row0: Seq<u8>,
    row1: Seq<u8>,
    start_cx: int,
    start_ux: int,
    range: YuvChromaRange,
    t: CbCrForwardTransform<i32>,
) -> spec_fn(int) -> u8 {
    |k: int|
        {
            let x = start_cx + 2 * ((k - start_ux) / 2);
            sat_u8(
                if (k - start_ux) % 2 == order.u_position() {
                    cb13_at(sc, row0, row1, x, range, t)
                } else {
                    cr13_at(sc, row0, row1, x, range, t)
                },
            ) as u8
        }
}

/// Where the kernel stops.
pub open spec fn nv420_end(start_cx: int, start_ux: int, width: int) -> (int, int) {
    let end = blocks_end(start_cx, width);
    (end, start_ux + (end - start_cx))
}

/// The output rows of a row pair.
pub struct RowsNv {
    pub y0: Seq<u8>,
    pub y1: Seq<u8>,
    pub uv: Seq<u8>,
}

/// Whether the codes name a layout and an order and, where there is a block
/// between `start_cx` and `width`, the biases fit 32 bits and the rows hold every
/// block.
pub open spec fn nv420_rows_ok(
    code: u8,
    order: u8,
    range: YuvChromaRange,
    rows: RowsNv,
    rgba0: Seq<u8>,
    rgba1: Seq<u8>,
    start_cx: int,
    start_ux: int,
    width: int,
) -> bool {
    &&& YuvSourceChannels::is_code(code)
    &&& YuvNVOrder::is_code(order)
    &&& start_cx + 16 <= width ==> {
        let (cx, ux) = nv420_end(start_cx, start_ux, width);
        let sc = YuvSourceChannels::decoded(code);
        &&& bias_fits(range.bias_y, 13)
        &&& bias_fits(range.bias_uv, 13)
        &&& sc.pixel(cx) <= rgba0.len()
        &&& sc.pixel(cx) <= rgba1.len()
        &&& cx <= rows.y0.len()
        &&& cx <= rows.y1.len()
        &&& ux <= rows.uv.len()
    }
}

/// `new` is `old` with the luma columns from `start_cx` to `cx` and the chroma
/// positions from `start_ux` to `ux` encoded from the two source rows.
pub open spec fn nv420_encoded(
    new: RowsNv,
    old: RowsNv,
    code: u8,
    order: u8,
    t: CbCrForwardTransform<i32>,
    range: YuvChromaRange,
    rgba0: Seq<u8>,
    rgba1: Seq<u8>,
    start_cx: int,
    start_ux: int,
    cx: int,
    ux: int,
) -> bool {
    let sc = YuvSourceChannels::decoded(code);
    let ord = YuvNVOrder::decoded(order);
    &&& overwritten(new.y0, old.y0, start_cx, cx, y13_row(sc, rgba0, range, t))
    &&& overwritten(new.y1, old.y1, start_cx, cx, y13_row(sc, rgba1, range, t))
    &&& overwritten(
        new.uv,
        old.uv,
        start_ux,
        ux,
        uv13_row(sc, ord, rgba0, rgba1, start_cx, start_ux, range, t),
    )
}

/// Encodes the whole blocks of a row pair with the widest kernel that the CPU
/// has. Without a vector unit, or at another precision than 13, nothing is
/// written and the offsets are handed back.
pub fn loongarch64_rgba_to_nv420<
    const ORIGIN_CHANNELS: u8,
    const UV_ORDER: u8,
    const PRECISION: u32,
>(
    cpu: &CpuFeatures,
    y_plane0: &mut [u8],
    y_plane1: &mut [u8],
    uv_plane: &mut [u8],
    rgba0: &[u8],
    rgba1: &[u8],
    width: u32,
    range: &YuvChromaRange,
    transform: &CbCrForwardTransform<i32>,
    start_cx: usize,
    start_ux: usize,
) -> (r: ProcessedOffset)
    requires
        simd_applies::<PRECISION>(*cpu) ==> nv420_rows_ok(
            ORIGIN_CHANNELS,
            UV_ORDER,
            *range,
            (RowsNv {
                y0: old(y_plane0)@,
                y1: old(y_plane1)@,
                uv: old(uv_plane)@,
            }),
            rgba0@,
            rgba1@,
            start_cx as int,
            start_ux as int,
            width as int,
        ),
    ensures
        (r.cx as int, r.ux as int) == (if simd_applies::<PRECISION>(*cpu) {
            nv420_end(start_cx as int, start_ux as int, width as int)
        } else {
            (start_cx as int, start_ux as int)
        }),
        nv420_encoded(
            (RowsNv {
                y0: final(y_plane0)@,
                y1: final(y_plane1)@,
                uv: final(uv_plane)@,
            }),
            (RowsNv {
                y0: old(y_plane0)@,
                y1: old(y_plane1)@,
                uv: old(uv_plane)@,
            }),
            ORIGIN_CHANNELS,
            UV_ORDER,
            *transform,
            *range,
            rgba0@,
            rgba1@,
            start_cx as int,
            start_ux as int,
            r.cx as int,
            r.ux as int,
        ),
{
    if PRECISION != 13 {
        return ProcessedOffset { cx: start_cx, ux: start_ux };
    }
    if has_lasx(cpu) {
        return lasx_rgba_to_nv420::<ORIGIN_CHANNELS, UV_ORDER, PRECISION>(
            y_plane0,
            y_plane1,
            uv_plane,
            rgba0,
            rgba1,
            width,
            range,
            transform,
            start_cx,
            start_ux,
        );
    }
    if has_lsx(cpu) {
        return lsx_rgba_to_nv420::<ORIGIN_CHANNELS, UV_ORDER, PRECISION>(
            y_plane0,
            y_plane1,
            uv_plane,
            rgba0,
            rgba1,
            width,
            range,
            transform,
            start_cx,
            start_ux,
        );
    }
    ProcessedOffset { cx: start_cx, ux: start_ux }
}

/// The kernel for CPUs with LSX.
pub fn lsx_rgba_to_nv420<const ORIGIN_CHANNELS: u8, const UV_ORDER: u8, const PRECISION: u32>(
    y_plane0: &mut [u8],
    y_plane1: &mut [u8],
    uv_plane: &mut [u8],
    rgba0: &[u8],
    rgba1: &[u8],
    width: u32,
    range: &YuvChromaRange,
    transform: &CbCrForwardTransform<i32>,
    start_cx: usize,
    start_ux: usize,
) -> (r: ProcessedOffset)
    requires
        PRECISION == 13,
        nv420_rows_ok(
            ORIGIN_CHANNELS,
            UV_ORDER,
            *range,
            (RowsNv {
                y0: old(y_plane0)@,
                y1: old(y_plane1)@,
                uv: old(uv_plane)@,
            }),
            rgba0@,
            rgba1@,
            start_cx as int,
            start_ux as int,
            width as int,
        ),
    ensures
        (r.cx as int, r.ux as int) == nv420_end(start_cx as int, start_ux as int, width as int),
        nv420_encoded(
            (RowsNv {
                y0: final(y_plane0)@,
                y1: final(y_plane1)@,
                uv: final(uv_plane)@,
            }),
            (RowsNv {
                y0: old(y_plane0)@,
                y1: old(y_plane1)@,
                uv: old(uv_plane)@,
            }),
            ORIGIN_CHANNELS,
            UV_ORDER,
            *transform,
            *range,
            rgba0@,
            rgba1@,
            start_cx as int,
            start_ux as int,
            r.cx as int,
            r.ux as int,
        ),
{
    rgba_to_nv420_impl::<ORIGIN_CHANNELS, UV_ORDER, PRECISION>(
        y_plane0,
        y_plane1,
        uv_plane,
        rgba0,
        rgba1,
        width as usize,
        range,
        transform,
        start_cx,
        start_ux,
    )
}

/// The kernel for CPUs with LASX.
pub fn lasx_rgba_to_nv420<const ORIGIN_CHANNELS: u8, const UV_ORDER: u8, const PRECISION: u32>(
    y_plane0: &mut [u8],
    y_plane1: &mut [u8],
    uv_plane: &mut [u8],
    rgba0: &[u8],
    rgba1: &[u8],
    width: u32,
    range: &YuvChromaRange,
    transform: &CbCrForwardTransform<i32>,
    start_cx: usize,
    start_ux: usize,
) -> (r: ProcessedOffset)
    requires
        PRECISION == 13,
        nv420_rows_ok(
            ORIGIN_CHANNELS,
            UV_ORDER,
            *range,
            (RowsNv {
                y0: old(y_plane0)@,
                y1: old(y_plane1)@,
                uv: old(uv_plane)@,
            }),
            rgba0@,
            rgba1@,
            start_cx as int,
            start_ux as int,
            width as int,
        ),
    ensures
        (r.cx as int, r.ux as int) == nv420_end(start_cx as int, start_ux as int, width as int),
        nv420_encoded(
            (RowsNv {
                y0: final(y_plane0)@,
                y1: final(y_plane1)@,
                uv: final(uv_plane)@,
            }),
            (RowsNv {
                y0: old(y_plane0)@,
                y1: old(y_plane1)@,
                uv: old(uv_plane)@,
            }),
            ORIGIN_CHANNELS,
            UV_ORDER,
            *transform,
            *range,
            rgba0@,
            rgba1@,
            start_cx as int,
            start_ux as int,
            r.cx as int,
            r.ux as int,
        ),
{
    rgba_to_nv420_impl::<ORIGIN_CHANNELS, UV_ORDER, PRECISION>(
        y_plane0,
        y_plane1,
        uv_plane,
        rgba0,
        rgba1,
        width as usize,
        range,
        transform,
        start_cx,
        start_ux,
    )
}

/// Encode the block at column `cx` and store its chroma pairs at `uv_x`.
fn store_block_nv<const ORIGIN_CHANNELS: u8, const UV_ORDER: u8, const PRECISION: u32>(
    y_plane0: &mut [u8],
    y_plane1: &mut [u8],
    uv_plane: &mut [u8],
    rgba0: &[u8],
    rgba1: &[u8],
    range: &YuvChromaRange,
    transform: &CbCrForwardTransform<i32>,
    cx: usize,
    uv_x: usize,
)
    requires
        PRECISION == 13,
        YuvSourceChannels::is_code(ORIGIN_CHANNELS),
        YuvNVOrder::is_code(UV_ORDER),
        bias_fits(range.bias_y, 13),
        bias_fits(range.bias_uv, 13),
        YuvSourceChannels::decoded(ORIGIN_CHANNELS).pixel(cx + 16) <= rgba0@.len(),
        YuvSourceChannels::decoded(ORIGIN_CHANNELS).pixel(cx + 16) <= rgba1@.len(),
        cx + 16 <= old(y_plane0)@.len(),
        cx + 16 <= old(y_plane1)@.len(),
        uv_x + 16 <= old(uv_plane)@.len(),
    ensures
        nv420_encoded(
            (RowsNv {
                y0: final(y_plane0)@,
                y1: final(y_plane1)@,
                uv: final(uv_plane)@,
            }),
            (RowsNv {
                y0: old(y_plane0)@,
                y1: old(y_plane1)@,
                uv: old(uv_plane)@,
            }),
            ORIGIN_CHANNELS,
            UV_ORDER,
            *transform,
            *range,
            rgba0@,
            rgba1@,
            cx as int,
            uv_x as int,
            cx + 16,
            uv_x + 16,
        ),
{
    let u_first = YuvNVOrder::from(UV_ORDER).get_u_position() == 0;
    let blk = lsx_encode_block16::<ORIGIN_CHANNELS, PRECISION>(rgba0, rgba1, cx, range, transform);
    lsx_store_y(y_plane0, cx, blk.y0);
    lsx_store_y(y_plane1, cx, blk.y1);

    let cb = lsx_chroma_to_u8(blk.cb);
    let cr = lsx_chroma_to_u8(blk.cr);
    // For UV order the first byte of each pair is Cb; for VU it is Cr.
    let uv = if u_first {
        lsx_interleave_lo(cb, cr)
    } else {
        lsx_interleave_lo(cr, cb)
    };
    lsx_store16(uv_plane, uv_x, uv);
    proof {
        let sc = YuvSourceChannels::decoded(ORIGIN_CHANNELS);
        let ord = YuvNVOrder::decoded(UV_ORDER);
        let (x, ux) = (cx as int, uv_x as int);
        let (t, rg) = (*transform, *range);
        let fy0 = y13_row(sc, rgba0@, rg, t);
        let fy1 = y13_row(sc, rgba1@, rg, t);
        let fuv = uv13_row(sc, ord, rgba0@, rgba1@, x, ux, rg, t);
        assert forall|i: int| 0 <= i < 16 implies #[trigger] uv.b(i) == fuv(ux + i) by {
            assert(cb.b(i / 2) == sat_u8(signed16(blk.cb.h(i / 2))));
            assert(cr.b(i / 2) == sat_u8(signed16(blk.cr.h(i / 2))));
        }
        lemma_store_overwrites(y_plane0@, old(y_plane0)@, x, blk.y0, 0, 16, fy0);
        lemma_store_overwrites(y_plane1@, old(y_plane1)@, x, blk.y1, 0, 16, fy1);
        lemma_store_overwrites(uv_plane@, old(uv_plane)@, ux, uv, 0, 16, fuv);
    }
}

/// A kernel may take up where one has stopped: two encoded stretches, the second
/// started at the offsets that the first handed back, are what a single kernel over
/// both would have written.
pub proof fn law_nv420_resumes(
    new: RowsNv,
    mid: RowsNv,
    old: RowsNv,
    code: u8,
    order: u8,
    t: CbCrForwardTransform<i32>,
    range: YuvChromaRange,
    rgba0: Seq<u8>,
    rgba1: Seq<u8>,
    start_cx: int,
    start_ux: int,
    cx: int,
    ux: int,
    end_cx: int,
    end_ux: int,
)
    requires
        start_cx <= cx <= end_cx,
        start_ux <= ux <= end_ux,
        (cx - start_cx) % 2 == 0,
        ux - start_ux == cx - start_cx,
        nv420_encoded(mid, old, code, order, t, range, rgba0, rgba1, start_cx, start_ux, cx, ux),
        nv420_encoded(new, mid, code, order, t, range, rgba0, rgba1, cx, ux, end_cx, end_ux),
    ensures
        nv420_encoded(
            new,
            old,
            code,
            order,
            t,
            range,
            rgba0,
            rgba1,
            start_cx,
            start_ux,
            end_cx,
            end_ux,
        ),
{
    let sc = YuvSourceChannels::decoded(code);
    let ord = YuvNVOrder::decoded(order);
    let fy0 = y13_row(sc, rgba0, range, t);
    let fy1 = y13_row(sc, rgba1, range, t);
    let fuv = uv13_row(sc, ord, rgba0, rgba1, start_cx, start_ux, range, t);
    // Both anchors put the same quad at the same position.
    assert(uv13_row(sc, ord, rgba0, rgba1, cx, ux, range, t) =~= fuv);
    lemma_overwritten_joins(new.y0, mid.y0, old.y0, start_cx, cx, end_cx, fy0);
    lemma_overwritten_joins(new.y1, mid.y1, old.y1, start_cx, cx, end_cx, fy1);
    lemma_overwritten_joins(new.uv, mid.uv, old.uv, start_ux, ux, end_ux, fuv);
}

/// Process all full 16-pixel-wide, 2-row blocks. The trailing columns
/// (`width % 16`) and an odd final row are left to the caller.
fn rgba_to_nv420_impl<const ORIGIN_CHANNELS: u8, const UV_ORDER: u8, const PRECISION: u32>(
    y_plane0: &mut [u8],
    y_plane1: &mut [u8],
    uv_plane: &mut [u8],
    rgba0: &[u8],
    rgba1: &[u8],
    width: usize,
    range: &YuvChromaRange,
    transform: &CbCrForwardTransform<i32>,
    start_cx: usize,
    start_ux: usize,
) -> (r: ProcessedOffset)
    requires
        PRECISION == 13,
        nv420_rows_ok(
            ORIGIN_CHANNELS,
            UV_ORDER,
            *range,
            (RowsNv {
                y0: old(y_plane0)@,
                y1: old(y_plane1)@,
                uv: old(uv_plane)@,
            }),
            rgba0@,
            rgba1@,
            start_cx as int,
            start_ux as int,
            width as int,
        ),
    ensures
        (r.cx as int, r.ux as int) == nv420_end(start_cx as int, start_ux as int, width as int),
        nv420_encoded(
            (RowsNv {
                y0: final(y_plane0)@,
                y1: final(y_plane1)@,
                uv: final(uv_plane)@,
            }),
            (RowsNv {
                y0: old(y_plane0)@,
                y1: old(y_plane1)@,
                uv: old(uv_plane)@,
            }),
            ORIGIN_CHANNELS,
            UV_ORDER,
            *transform,
            *range,
            rgba0@,
            rgba1@,
            start_cx as int,
            start_ux as int,
            r.cx as int,
            r.ux as int,
        ),
{
    let mut cx = start_cx;
    let mut uv_x = start_ux;
    proof {
        assert(y_plane0@.len() == y_plane0.len());
        assert(uv_plane@.len() == uv_plane.len());
    }

    while cx <= width && width - cx >= LSX_BLOCK
        invariant
            PRECISION == 13,
            nv420_rows_ok(
                ORIGIN_CHANNELS,
                UV_ORDER,
                *range,
                RowsNv {
                    y0: old(y_plane0)@,
                    y1: old(y_plane1)@,
                    uv: old(uv_plane)@,
                },
                rgba0@,
                rgba1@,
                start_cx as int,
                start_ux as int,
                width as int,
            ),
            old(y_plane0)@.len() <= usize::MAX,
            old(uv_plane)@.len() <= usize::MAX,
            start_cx <= cx,
            (cx - start_cx) % 16 == 0,
            cx == start_cx || cx <= width,
            uv_x - start_ux == cx - start_cx,
            nv420_encoded(
                RowsNv {
                    y0: y_plane0@,
                    y1: y_plane1@,
                    uv: uv_plane@,
                },
                RowsNv {
                    y0: old(y_plane0)@,
                    y1: old(y_plane1)@,
                    uv: old(uv_plane)@,
                },
                ORIGIN_CHANNELS,
                UV_ORDER,
                *transform,
                *range,
                rgba0@,
                rgba1@,
                start_cx as int,
                start_ux as int,
                cx as int,
                uv_x as int,
            ),
        decreases width - cx,
    {
        let ghost mid = RowsNv {
            y0: y_plane0@,
            y1: y_plane1@,
            uv: uv_plane@,
        };
        store_block_nv::<ORIGIN_CHANNELS, UV_ORDER, PRECISION>(
            y_plane0,
            y_plane1,
            uv_plane,
            rgba0,
            rgba1,
            range,
            transform,
            cx,
            uv_x,
        );
        proof {
            law_nv420_resumes(
                RowsNv {
                    y0: y_plane0@,
                    y1: y_plane1@,
                    uv: uv_plane@,
                },
                mid,
                RowsNv {
                    y0: old(y_plane0)@,
                    y1: old(y_plane1)@,
                    uv: old(uv_plane)@,
                },
                ORIGIN_CHANNELS,
                UV_ORDER,
                *transform,
                *range,
                rgba0@,
                rgba1@,
                start_cx as int,
                start_ux as int,
                cx as int,
                uv_x as int,
                cx + 16,
                uv_x + 16,
            );
        }
        uv_x += LSX_BLOCK;
        cx += LSX_BLOCK;
    }
    ProcessedOffset { cx, ux: uv_x }
}

} // verus!
