//! Row-pair kernel for planar 4:2:0 output at 13-bit precision.

use super::arith::{sat_u8, signed16};
use super::utils::{
    bias_fits, blocks_end, cb13_at, cr13_at, lemma_overwritten_joins, lemma_store_overwrites,
    lsx_chroma_to_u8, lsx_encode_block16, lsx_store8, lsx_store_y, overwritten, y13_at, LSX_BLOCK,
};
use super::{has_lasx, has_lsx, simd_applies, CpuFeatures};
use crate::internals::ProcessedOffset;
use crate::yuv_support::{CbCrForwardTransform, YuvChromaRange, YuvSourceChannels};
use vstd::prelude::*;

verus! {

/// The luma row of `row`, by column.
pub open spec fn y13_row(
    sc: YuvSourceChannels,
    row: Seq<u8>,
    range: YuvChromaRange,
    t: CbCrForwardTransform<i32>,
) -> spec_fn(int) -> u8 {
    |x: int| y13_at(sc, row, x, range, t)
}

/// The Cb bytes of a row pair, by position, where position `start_ux` belongs to
/// the quad at column `start_cx`.
pub open spec fn cb13_row(
    sc: YuvSourceChannels,
    row0: Seq<u8>,
    row1: Seq<u8>,
    start_cx: int,
    start_ux: int,
    range: YuvChromaRange,
    t: CbCrForwardTransform<i32>,
) -> spec_fn(int) -> u8 {
    |k: int| sat_u8(cb13_at(sc, row0, row1, start_cx + 2 * (k - start_ux), range, t)) as u8
}

/// The Cr bytes of a row pair, by position.
pub open spec fn cr13_row(
    sc: YuvSourceChannels,
    row0: Seq<u8>,
    row1: Seq<u8>,
    start_cx: int,
    start_ux: int,
    range: YuvChromaRange,
    t: CbCrForwardTransform<i32>,
) -> spec_fn(int) -> u8 {
    |k: int| sat_u8(cr13_at(sc, row0, row1, start_cx + 2 * (k - start_ux), range, t)) as u8
}

/// Where the kernel stops.
pub open spec fn yuv420_end(start_cx: int, start_ux: int, width: int) -> (int, int) {
    let end = blocks_end(start_cx, width);
    (end, start_ux + (end - start_cx) / 2)
}

/// The output rows of a row pair.
pub struct Rows420 {
    pub y0: Seq<u8>,
    pub y1: Seq<u8>,
    pub u: Seq<u8>,
    pub v: Seq<u8>,
}

/// Whether `code` names a layout and, where there is a block between `start_cx`
/// and `width`, the biases fit 32 bits and the rows hold every block.
pub open spec fn yuv420_rows_ok(
    code: u8,
    range: YuvChromaRange,
    rows: Rows420,
    rgba0: Seq<u8>,
    rgba1: Seq<u8>,
    start_cx: int,
    start_ux: int,
    width: int,
) -> bool {
    &&& YuvSourceChannels::is_code(code)
    &&& start_cx + 16 <= width ==> {
        let (cx, ux) = yuv420_end(start_cx, start_ux, width);
        let sc = YuvSourceChannels::decoded(code);
        &&& bias_fits(range.bias_y, 13)
        &&& bias_fits(range.bias_uv, 13)
        &&& sc.pixel(cx) <= rgba0.len()
        &&& sc.pixel(cx) <= rgba1.len()
        &&& cx <= rows.y0.len()
        &&& cx <= rows.y1.len()
        &&& ux <= rows.u.len()
        &&& ux <= rows.v.len()
    }
}

/// `new` is `old` with the luma columns from `start_cx` to `cx` and the chroma
/// positions from `start_ux` to `ux` encoded from the two source rows.
pub open spec fn yuv420_encoded(
    new: Rows420,
    old: Rows420,
    code: u8,
    t: CbCrForwardTransform<i32>,
    range: YuvChromaRange,
    rgba0: Seq<u8>,
    rgba1: Seq<u8>,
    start_cx: int,
    start_ux: int,
    cx: int,
    ux: int,
) -> bool {
    let sc = YuvSourceChannels::decoded(code);
    &&& overwritten(new.y0, old.y0, start_cx, cx, y13_row(sc, rgba0, range, t))
    &&& overwritten(new.y1, old.y1, start_cx, cx, y13_row(sc, rgba1, range, t))
    &&& overwritten(
        new.u,
        old.u,
        start_ux,
        ux,
        cb13_row(sc, rgba0, rgba1, start_cx, start_ux, range, t),
    )
    &&& overwritten(
        new.v,
        old.v,
        start_ux,
        ux,
        cr13_row(sc, rgba0, rgba1, start_cx, start_ux, range, t),
    )
}

/// Encodes the whole blocks of a row pair with the widest kernel that the CPU
/// has. Without a vector unit, or at another precision than 13, nothing is
/// written and the offsets are handed back.
pub fn loongarch64_rgba_to_yuv420<const ORIGIN_CHANNELS: u8, const PRECISION: u32>(
    cpu: &CpuFeatures,
    transform: &CbCrForwardTransform<i32>,
    range: &YuvChromaRange,
    y_plane0: &mut [u8],
    y_plane1: &mut [u8],
    u_plane: &mut [u8],
    v_plane: &mut [u8],
    rgba0: &[u8],
    rgba1: &[u8],
    start_cx: usize,
    start_ux: usize,
    width: usize,
) -> (r: ProcessedOffset)
    requires
        simd_applies::<PRECISION>(*cpu) ==> yuv420_rows_ok(
            ORIGIN_CHANNELS,
            *range,
            (Rows420 {
                y0: old(y_plane0)@,
                y1: old(y_plane1)@,
                u: old(u_plane)@,
                v: old(v_plane)@,
            }),
            rgba0@,
            rgba1@,
            start_cx as int,
            start_ux as int,
            width as int,
        ),
    ensures
        (r.cx as int, r.ux as int) == (if simd_applies::<PRECISION>(*cpu) {
            yuv420_end(start_cx as int, start_ux as int, width as int)
        } else {
            (start_cx as int, start_ux as int)
        }),
        yuv420_encoded(
            (Rows420 {
                y0: final(y_plane0)@,
                y1: final(y_plane1)@,
                u: final(u_plane)@,
                v: final(v_plane)@,
            }),
            (Rows420 {
                y0: old(y_plane0)@,
                y1: old(y_plane1)@,
                u: old(u_plane)@,
                v: old(v_plane)@,
            }),
            ORIGIN_CHANNELS,
            *transform,
            *range,
            rgba0@,
            rgba1@,
            start_cx as int,
            start_ux as int,
            r.cx as int,
            r.ux as int,
        ),
{
    if PRECISION != 13 {
        return ProcessedOffset { cx: start_cx, ux: start_ux };
    }
    // LASX implies LSX; both feature levels use the LSX path.

    if has_lasx(cpu) {
        return lasx_rgba_to_yuv420::<ORIGIN_CHANNELS, PRECISION>(
            transform,
            range,
            y_plane0,
            y_plane1,
            u_plane,
            v_plane,
            rgba0,
            rgba1,
            start_cx,
            start_ux,
            width,
        );
    }
    if has_lsx(cpu) {
        return lsx_rgba_to_yuv420::<ORIGIN_CHANNELS, PRECISION>(
            transform,
            range,
            y_plane0,
            y_plane1,
            u_plane,
            v_plane,
            rgba0,
            rgba1,
            start_cx,
            start_ux,
            width,
        );
    }
    ProcessedOffset { cx: start_cx, ux: start_ux }
}

/// The kernel for CPUs with LSX.
pub fn lsx_rgba_to_yuv420<const ORIGIN_CHANNELS: u8, const PRECISION: u32>(
    transform: &CbCrForwardTransform<i32>,
    range: &YuvChromaRange,
    y_plane0: &mut [u8],
    y_plane1: &mut [u8],
    u_plane: &mut [u8],
    v_plane: &mut [u8],
    rgba0: &[u8],
    rgba1: &[u8],
    start_cx: usize,
    start_ux: usize,
    width: usize,
) -> (r: ProcessedOffset)
    requires
        PRECISION == 13,
        yuv420_rows_ok(
            ORIGIN_CHANNELS,
            *range,
            (Rows420 {
                y0: old(y_plane0)@,
                y1: old(y_plane1)@,
                u: old(u_plane)@,
                v: old(v_plane)@,
            }),
            rgba0@,
            rgba1@,
            start_cx as int,
            start_ux as int,
            width as int,
        ),
    ensures
        (r.cx as int, r.ux as int) == yuv420_end(start_cx as int, start_ux as int, width as int),
        yuv420_encoded(
            (Rows420 {
                y0: final(y_plane0)@,
                y1: final(y_plane1)@,
                u: final(u_plane)@,
                v: final(v_plane)@,
            }),
            (Rows420 {
                y0: old(y_plane0)@,
                y1: old(y_plane1)@,
                u: old(u_plane)@,
                v: old(v_plane)@,
            }),
            ORIGIN_CHANNELS,
            *transform,
            *range,
            rgba0@,
            rgba1@,
            start_cx as int,
            start_ux as int,
            r.cx as int,
            r.ux as int,
        ),
{
    rgba_to_yuv420_impl::<ORIGIN_CHANNELS, PRECISION>(
        transform,
        range,
        y_plane0,
        y_plane1,
        u_plane,
        v_plane,
        rgba0,
        rgba1,
        start_cx,
        start_ux,
        width,
    )
}

/// The kernel for CPUs with LASX.
pub fn lasx_rgba_to_yuv420<const ORIGIN_CHANNELS: u8, const PRECISION: u32>(
    transform: &CbCrForwardTransform<i32>,
    range: &YuvChromaRange,
    y_plane0: &mut [u8],
    y_plane1: &mut [u8],
    u_plane: &mut [u8],
    v_plane: &mut [u8],
    rgba0: &[u8],
    rgba1: &[u8],
    start_cx: usize,
    start_ux: usize,
    width: usize,
) -> (r: ProcessedOffset)
    requires
        PRECISION == 13,
        yuv420_rows_ok(
            ORIGIN_CHANNELS,
            *range,
            (Rows420 {
                y0: old(y_plane0)@,
                y1: old(y_plane1)@,
                u: old(u_plane)@,
                v: old(v_plane)@,
            }),
            rgba0@,
            rgba1@,
            start_cx as int,
            start_ux as int,
            width as int,
        ),
    ensures
        (r.cx as int, r.ux as int) == yuv420_end(start_cx as int, start_ux as int, width as int),
        yuv420_encoded(
            (Rows420 {
                y0: final(y_plane0)@,
                y1: final(y_plane1)@,
                u: final(u_plane)@,
                v: final(v_plane)@,
            }),
            (Rows420 {
                y0: old(y_plane0)@,
                y1: old(y_plane1)@,
                u: old(u_plane)@,
                v: old(v_plane)@,
            }),
            ORIGIN_CHANNELS,
            *transform,
            *range,
            rgba0@,
            rgba1@,
            start_cx as int,
            start_ux as int,
            r.cx as int,
            r.ux as int,
        ),
{
    rgba_to_yuv420_impl::<ORIGIN_CHANNELS, PRECISION>(
        transform,
        range,
        y_plane0,
        y_plane1,
        u_plane,
        v_plane,
        rgba0,
        rgba1,
        start_cx,
        start_ux,
        width,
    )
}

/// Encode the block at column `cx` and store its chroma at `uv_x`.
fn store_block420<const ORIGIN_CHANNELS: u8, const PRECISION: u32>(
    transform: &CbCrForwardTransform<i32>,
    range: &YuvChromaRange,
    y_plane0: &mut [u8],
    y_plane1: &mut [u8],
    u_plane: &mut [u8],
    v_plane: &mut [u8],
    rgba0: &[u8],
    rgba1: &[u8],
    cx: usize,
    uv_x: usize,
)
    requires
        PRECISION == 13,
        YuvSourceChannels::is_code(ORIGIN_CHANNELS),
        bias_fits(range.bias_y, 13),
        bias_fits(range.bias_uv, 13),
        YuvSourceChannels::decoded(ORIGIN_CHANNELS).pixel(cx + 16) <= rgba0@.len(),
        YuvSourceChannels::decoded(ORIGIN_CHANNELS).pixel(cx + 16) <= rgba1@.len(),
        cx + 16 <= old(y_plane0)@.len(),
        cx + 16 <= old(y_plane1)@.len(),
        uv_x + 8 <= old(u_plane)@.len(),
        uv_x + 8 <= old(v_plane)@.len(),
    ensures
        yuv420_encoded(
            (Rows420 {
                y0: final(y_plane0)@,
                y1: final(y_plane1)@,
                u: final(u_plane)@,
                v: final(v_plane)@,
            }),
            (Rows420 {
                y0: old(y_plane0)@,
                y1: old(y_plane1)@,
                u: old(u_plane)@,
                v: old(v_plane)@,
            }),
            ORIGIN_CHANNELS,
            *transform,
            *range,
            rgba0@,
            rgba1@,
            cx as int,
            uv_x as int,
            cx + 16,
            uv_x + 8,
        ),
{
    let blk = lsx_encode_block16::<ORIGIN_CHANNELS, PRECISION>(rgba0, rgba1, cx, range, transform);
    let u = lsx_chroma_to_u8(blk.cb);
    let v = lsx_chroma_to_u8(blk.cr);
    lsx_store_y(y_plane0, cx, blk.y0);
    lsx_store_y(y_plane1, cx, blk.y1);
    lsx_store8(u_plane, uv_x, u);
    lsx_store8(v_plane, uv_x, v);
    proof {
        let sc = YuvSourceChannels::decoded(ORIGIN_CHANNELS);
        let (x, ux) = (cx as int, uv_x as int);
        let (t, rg) = (*transform, *range);
        let fy0 = y13_row(sc, rgba0@, rg, t);
        let fy1 = y13_row(sc, rgba1@, rg, t);
        let fu = cb13_row(sc, rgba0@, rgba1@, x, ux, rg, t);
        let fv = cr13_row(sc, rgba0@, rgba1@, x, ux, rg, t);
        assert forall|i: int| 0 <= i < 8 implies #[trigger] u.b(i) == fu(ux + i) by {
            assert(u.b(i) == sat_u8(signed16(blk.cb.h(i))));
        }
        assert forall|i: int| 0 <= i < 8 implies #[trigger] v.b(i) == fv(ux + i) by {
            assert(v.b(i) == sat_u8(signed16(blk.cr.h(i))));
        }
        lemma_store_overwrites(y_plane0@, old(y_plane0)@, x, blk.y0, 0, 16, fy0);
        lemma_store_overwrites(y_plane1@, old(y_plane1)@, x, blk.y1, 0, 16, fy1);
        lemma_store_overwrites(u_plane@, old(u_plane)@, ux, u, 0, 8, fu);
        lemma_store_overwrites(v_plane@, old(v_plane)@, ux, v, 0, 8, fv);
    }
}

/// A kernel may take up where one has stopped: two encoded stretches, the second
/// started at the offsets that the first handed back, are what a single kernel over
/// both would have written.
pub proof fn law_yuv420_resumes(
    new: Rows420,
    mid: Rows420,
    old: Rows420,
    code: u8,
    t: CbCrForwardTransform<i32>,
    range: YuvChromaRange,
    rgba0: Seq<u8>,
    rgba1: Seq<u8>,
    start_cx: int,
    start_ux: int,
    cx: int,
    ux: int,
    end_cx: int,
    end_ux: int,
)
    requires
        start_cx <= cx <= end_cx,
        start_ux <= ux <= end_ux,
        2 * (ux - start_ux) == cx - start_cx,
        yuv420_encoded(mid, old, code, t, range, rgba0, rgba1, start_cx, start_ux, cx, ux),
        yuv420_encoded(new, mid, code, t, range, rgba0, rgba1, cx, ux, end_cx, end_ux),
    ensures
        yuv420_encoded(
            new,
            old,
            code,
            t,
            range,
            rgba0,
            rgba1,
            start_cx,
            start_ux,
            end_cx,
            end_ux,
        ),
{
    let sc = YuvSourceChannels::decoded(code);
    let fy0 = y13_row(sc, rgba0, range, t);
    let fy1 = y13_row(sc, rgba1, range, t);
    let fu = cb13_row(sc, rgba0, rgba1, start_cx, start_ux, range, t);
    let fv = cr13_row(sc, rgba0, rgba1, start_cx, start_ux, range, t);
    // Both anchors put the same quad at the same position.
    assert(cb13_row(sc, rgba0, rgba1, cx, ux, range, t) =~= fu);
    assert(cr13_row(sc, rgba0, rgba1, cx, ux, range, t) =~= fv);
    lemma_overwritten_joins(new.y0, mid.y0, old.y0, start_cx, cx, end_cx, fy0);
    lemma_overwritten_joins(new.y1, mid.y1, old.y1, start_cx, cx, end_cx, fy1);
    lemma_overwritten_joins(new.u, mid.u, old.u, start_ux, ux, end_ux, fu);
    lemma_overwritten_joins(new.v, mid.v, old.v, start_ux, ux, end_ux, fv);
}

/// Process all full 16-pixel-wide, 2-row blocks. The trailing columns
/// (`width % 16`) and an odd final row are left to the caller.
fn rgba_to_yuv420_impl<const ORIGIN_CHANNELS: u8, const PRECISION: u32>(
    transform: &CbCrForwardTransform<i32>,
    range: &YuvChromaRange,
    y_plane0: &mut [u8],
    y_plane1: &mut [u8],
    u_plane: &mut [u8],
    v_plane: &mut [u8],
    rgba0: &[u8],
    rgba1: &[u8],
    start_cx: usize,
    start_ux: usize,
    width: usize,
) -> (r: ProcessedOffset)
    requires
        PRECISION == 13,
        yuv420_rows_ok(
            ORIGIN_CHANNELS,
            *range,
            (Rows420 {
                y0: old(y_plane0)@,
                y1: old(y_plane1)@,
                u: old(u_plane)@,
                v: old(v_plane)@,
            }),
            rgba0@,
            rgba1@,
            start_cx as int,
            start_ux as int,
            width as int,
        ),
    ensures
        (r.cx as int, r.ux as int) == yuv420_end(start_cx as int, start_ux as int, width as int),
        yuv420_encoded(
            (Rows420 {
                y0: final(y_plane0)@,
                y1: final(y_plane1)@,
                u: final(u_plane)@,
                v: final(v_plane)@,
            }),
            (Rows420 {
                y0: old(y_plane0)@,
                y1: old(y_plane1)@,
                u: old(u_plane)@,
                v: old(v_plane)@,
            }),
            ORIGIN_CHANNELS,
            *transform,
            *range,
            rgba0@,
            rgba1@,
            start_cx as int,
            start_ux as int,
            r.cx as int,
            r.ux as int,
        ),
{
    let mut cx = start_cx;
    let mut uv_x = start_ux;
    proof {
        assert(y_plane0@.len() == y_plane0.len());
        assert(u_plane@.len() == u_plane.len());
    }

    while cx <= width && width - cx >= LSX_BLOCK
        invariant
            PRECISION == 13,
            yuv420_rows_ok(
                ORIGIN_CHANNELS,
                *range,
                Rows420 {
                    y0: old(y_plane0)@,
                    y1: old(y_plane1)@,
                    u: old(u_plane)@,
                    v: old(v_plane)@,
                },
                rgba0@,
                rgba1@,
                start_cx as int,
                start_ux as int,
                width as int,
            ),
            old(y_plane0)@.len() <= usize::MAX,
            old(u_plane)@.len() <= usize::MAX,
            start_cx <= cx,
            (cx - start_cx) % 16 == 0,
            cx == start_cx || cx <= width,
            2 * (uv_x - start_ux) == cx - start_cx,
            yuv420_encoded(
                Rows420 {
                    y0: y_plane0@,
                    y1: y_plane1@,
                    u: u_plane@,
                    v: v_plane@,
                },
                Rows420 {
                    y0: old(y_plane0)@,
                    y1: old(y_plane1)@,
                    u: old(u_plane)@,
                    v: old(v_plane)@,
                },
                ORIGIN_CHANNELS,
                *transform,
                *range,
                rgba0@,
                rgba1@,
                start_cx as int,
                start_ux as int,
                cx as int,
                uv_x as int,
            ),
        decreases width - cx,
    {
        let ghost mid = Rows420 {
            y0: y_plane0@,
            y1: y_plane1@,
            u: u_plane@,
            v: v_plane@,
        };
        store_block420::<ORIGIN_CHANNELS, PRECISION>(
            transform,
            range,
            y_plane0,
            y_plane1,
            u_plane,
            v_plane,
            rgba0,
            rgba1,
            cx,
            uv_x,
        );
        proof {
            law_yuv420_resumes(
                Rows420 {
                    y0: y_plane0@,
                    y1: y_plane1@,
                    u: u_plane@,
                    v: v_plane@,
                },
                mid,
                Rows420 {
                    y0: old(y_plane0)@,
                    y1: old(y_plane1)@,
                    u: old(u_plane)@,
                    v: old(v_plane)@,
                },
                ORIGIN_CHANNELS,
                *transform,
                *range,
                rgba0@,
                rgba1@,
                start_cx as int,
                start_ux as int,
                cx as int,
                uv_x as int,
                cx + 16,
                uv_x + 8,
            );
        }
        uv_x += LSX_BLOCK / 2;
        cx += LSX_BLOCK;
    }
    ProcessedOffset { cx, ux: uv_x }
}

} // verus!
