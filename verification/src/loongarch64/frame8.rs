//! Whole-frame conversion at 8-bit precision.

use super::convert8::{
    i420_encoded, i420_rows_ok, lasx_i420_rowpair, lasx_nv12_rowpair, lemma_i420_joins,
    lemma_nv12_joins, lsx_i420_rowpair, lsx_nv12_rowpair, nv12_encoded, nv12_rows_ok,
    scalar_chroma_tail, scalar_y_tail, u8_at, u8_row, uv8_at, uv8_row, v8_at, v8_row, y8_at,
    y8_row, Coeffs8,
};
use super::rgba_to_nv420::RowsNv;
use super::rgba_to_yuv420::Rows420;
use super::utils::overwritten;
use super::{has_lasx, has_lsx, CpuFeatures};
use crate::images::{
    half_up, lemma_pitch, pitch, plane_ok, YuvBiPlanarImageMut, YuvPlanarImageMut,
};
use crate::yuv_support::{YuvNVOrder, YuvSourceChannels};
use vstd::arithmetic::div_mod::lemma_fundamental_div_mod;
use vstd::prelude::*;

verus! {

// ---------------------------------------------------------------------------
// Planes
// ---------------------------------------------------------------------------

/// `new` is `old` with `f(row, x)` at every column `x < width` of the rows
/// `lo..hi`, which lie `stride` apart.
pub open spec fn plane_filled(
    new: Seq<u8>,
    old: Seq<u8>,
    stride: int,
    width: int,
    lo: int,
    hi: int,
    f: spec_fn(int, int) -> u8,
) -> bool {
    &&& new.len() == old.len()
    &&& forall|k: int|
        0 <= k < old.len() ==> #[trigger] new[k] == (if lo <= k / stride < hi && 0 <= k % stride
            < width {
            f(k / stride, k % stride)
        } else {
            old[k]
        })
}

/// Overwriting one row fills it.
proof fn lemma_row_fills(
    new: Seq<u8>,
    old: Seq<u8>,
    stride: int,
    width: int,
    row: int,
    f: spec_fn(int, int) -> u8,
)
    requires
        0 <= row,
        0 <= width <= stride,
        overwritten(
            new,
            old,
            row * stride,
            row * stride + width,
            |k: int| f(row, k - row * stride),
        ),
    ensures
        plane_filled(new, old, stride, width, row, row + 1, f),
{
    assert forall|k: int| 0 <= k < old.len() implies #[trigger] new[k] == (if row <= k / stride
        < row + 1 && 0 <= k % stride < width {
        f(k / stride, k % stride)
    } else {
        old[k]
    }) by {
        if stride > 0 {
            let (q, x) = (k / stride, k % stride);
            lemma_fundamental_div_mod(k, stride);
            if q < row {
                assert(k < row * stride) by (nonlinear_arith)
                    requires
                        k == stride * q + x,
                        x < stride,
                        q < row,
                        0 < stride,
                ;
            } else if q > row {
                assert(k >= row * stride + stride) by (nonlinear_arith)
                    requires
                        k == stride * q + x,
                        0 <= x,
                        q > row,
                        0 < stride,
                ;
            } else {
                assert(k == row * stride + x) by (nonlinear_arith)
                    requires
                        k == stride * q + x,
                        q == row,
                ;
            }
        }
    }
}

/// Filled rows that follow each other are one stretch.
proof fn lemma_rows_join(
    new: Seq<u8>,
    mid: Seq<u8>,
    old: Seq<u8>,
    stride: int,
    width: int,
    lo: int,
    at: int,
    hi: int,
    f: spec_fn(int, int) -> u8,
)
    requires
        lo <= at <= hi,
        plane_filled(mid, old, stride, width, lo, at, f),
        plane_filled(new, mid, stride, width, at, hi, f),
    ensures
        plane_filled(new, old, stride, width, lo, hi, f),
{
    assert forall|k: int| 0 <= k < old.len() implies #[trigger] new[k] == (if lo <= k / stride < hi
        && 0 <= k % stride < width {
        f(k / stride, k % stride)
    } else {
        old[k]
    }) by {
        assert(mid[k] == (if lo <= k / stride < at && 0 <= k % stride < width {
            f(k / stride, k % stride)
        } else {
            old[k]
        }));
    }
}

/// Where a row of a plane lies.
proof fn lemma_row_base(len: nat, stride: int, width: int, rows: int, row: int)
    requires
        plane_ok(len, stride, width, rows),
        0 <= width,
        0 <= stride,
        0 <= row < rows,
    ensures
        0 <= row * stride,
        row * stride + width <= len,
        (row + 1) * stride == row * stride + stride,
        row + 1 < rows ==> row * stride + stride + width <= len,
        width <= pitch(stride, width, rows),
        row * pitch(stride, width, rows) == row * stride,
{
    lemma_pitch(len, stride, width, rows, row);
    assert(0 <= row * stride <= (rows - 1) * stride) by (nonlinear_arith)
        requires
            0 <= row < rows,
            0 <= stride,
    ;
    assert((row + 1) * stride == row * stride + stride) by (nonlinear_arith);
    if row + 1 < rows {
        assert((row + 1) * stride <= (rows - 1) * stride) by (nonlinear_arith)
            requires
                row + 1 < rows,
                0 <= stride,
        ;
    }
}

// ---------------------------------------------------------------------------
// Frames
// ---------------------------------------------------------------------------

/// The source from row `row` on.
pub open spec fn source_row(rgba: Seq<u8>, stride: int, row: int) -> Seq<u8> {
    rgba.subrange(row * stride, rgba.len() as int)
}

/// Whether `rgba` holds `height` rows of `width` pixels.
pub open spec fn source_ok(
    rgba: Seq<u8>,
    stride: int,
    sc: YuvSourceChannels,
    width: int,
    height: int,
) -> bool {
    height > 0 ==> (height - 1) * stride + sc.pixel(width) <= rgba.len()
}

/// The luma plane of a frame, by row and column.
pub open spec fn y8_frame(
    c: Coeffs8,
    sc: YuvSourceChannels,
    rgba: Seq<u8>,
    stride: int,
) -> spec_fn(int, int) -> u8 {
    |row: int, x: int| y8_at(c, sc, source_row(rgba, stride, row), x)
}

/// The U plane of a frame, by chroma row and column.
pub open spec fn u8_frame(
    c: Coeffs8,
    sc: YuvSourceChannels,
    rgba: Seq<u8>,
    stride: int,
    width: int,
    height: int,
) -> spec_fn(int, int) -> u8 {
    |row: int, j: int|
        u8_at(
            c,
            sc,
            source_row(rgba, stride, 2 * row),
            source_row(rgba, stride, 2 * row + 1),
            2 * j,
            width,
            2 * row + 1 < height,
        )
}

/// The V plane of a frame, by chroma row and column.
pub open spec fn v8_frame(
    c: Coeffs8,
    sc: YuvSourceChannels,
    rgba: Seq<u8>,
    stride: int,
    width: int,
    height: int,
) -> spec_fn(int, int) -> u8 {
    |row: int, j: int|
        v8_at(
            c,
            sc,
            source_row(rgba, stride, 2 * row),
            source_row(rgba, stride, 2 * row + 1),
            2 * j,
            width,
            2 * row + 1 < height,
        )
}

/// The interleaved chroma plane of a frame, by chroma row and byte.
pub open spec fn uv8_frame(
    c: Coeffs8,
    sc: YuvSourceChannels,
    order: YuvNVOrder,
    rgba: Seq<u8>,
    stride: int,
    width: int,
    height: int,
) -> spec_fn(int, int) -> u8 {
    |row: int, k: int|
        uv8_at(
            c,
            sc,
            order,
            source_row(rgba, stride, 2 * row),
            source_row(rgba, stride, 2 * row + 1),
            k,
            width,
            2 * row + 1 < height,
        )
}

// ---------------------------------------------------------------------------
// Backends
// ---------------------------------------------------------------------------

/// SIMD backend selection. `Auto` prefers LASX, then LSX, then scalar (the
/// production choice). `Lsx`/`Lasx` force a single backend so that each can be
/// measured in isolation.
#[derive(Clone, Copy, Debug, PartialEq, Eq, Structural)]
pub enum Simd8 {
    Auto,
    Lsx,
    Lasx,
}

/// Whether the 256-bit path runs; its deinterleave is 4-channel only.
pub open spec fn runs_lasx(backend: Simd8, cpu: CpuFeatures, sc: YuvSourceChannels) -> bool {
    (backend is Auto || backend is Lasx) && cpu.lasx && sc.four_channels()
}

/// Whether the 128-bit path may run.
pub open spec fn runs_lsx(backend: Simd8, cpu: CpuFeatures) -> bool {
    (backend is Auto || backend is Lsx) && cpu.lsx
}

/// Whether a single backend is asked for that the CPU does not have.
pub open spec fn forced_absent(backend: Simd8, cpu: CpuFeatures) -> bool {
    (backend is Lsx && !cpu.lsx) || (backend is Lasx && !cpu.lasx)
}

// ---------------------------------------------------------------------------
// Planar output
// ---------------------------------------------------------------------------

/// Scalar chroma for the source columns `[x0, width)` of a row pair.
fn scalar_chroma_planar<const ORIGIN_CHANNELS: u8>(
    rgba0: &[u8],
    rgba1: &[u8],
    u: &mut [u8],
    v: &mut [u8],
    x0: usize,
    width: usize,
    two_rows: bool,
    c: &Coeffs8,
)
    requires
        YuvSourceChannels::is_code(ORIGIN_CHANNELS),
        c.chroma_fits(),
        x0 % 2 == 0,
        x0 <= width,
        YuvSourceChannels::decoded(ORIGIN_CHANNELS).pixel(width as int) <= rgba0@.len(),
        YuvSourceChannels::decoded(ORIGIN_CHANNELS).pixel(width as int) <= rgba1@.len(),
        half_up(width as int) <= old(u)@.len(),
        half_up(width as int) <= old(v)@.len(),
    ensures
        overwritten(
            final(u)@,
            old(u)@,
            x0 as int / 2,
            half_up(width as int),
            u8_row(
                *c,
                YuvSourceChannels::decoded(ORIGIN_CHANNELS),
                rgba0@,
                rgba1@,
                width as int,
                two_rows,
            ),
        ),
        overwritten(
            final(v)@,
            old(v)@,
            x0 as int / 2,
            half_up(width as int),
            v8_row(
                *c,
                YuvSourceChannels::decoded(ORIGIN_CHANNELS),
                rgba0@,
                rgba1@,
                width as int,
                two_rows,
            ),
        ),
{
    let samples = scalar_chroma_tail::<ORIGIN_CHANNELS>(rgba0, rgba1, x0, width, two_rows, c);
    let ghost sc = YuvSourceChannels::decoded(ORIGIN_CHANNELS);
    let ghost fu = u8_row(*c, sc, rgba0@, rgba1@, width as int, two_rows);
    let ghost fv = v8_row(*c, sc, rgba0@, rgba1@, width as int, two_rows);
    let j0 = x0 / 2;
    assert(u@.len() == u.len());
    for k in 0..samples.len()
        invariant
            j0 + samples@.len() == half_up(width as int),
            half_up(width as int) <= old(u)@.len(),
            half_up(width as int) <= old(v)@.len(),
            old(u)@.len() <= usize::MAX,
            forall|i: int|
                0 <= i < samples@.len() ==> #[trigger] samples@[i] == (fu(j0 + i), fv(j0 + i)),
            overwritten(u@, old(u)@, j0 as int, j0 + k, fu),
            overwritten(v@, old(v)@, j0 as int, j0 + k, fv),
    {
        let (su, sv) = samples[k];
        u[j0 + k] = su;
        v[j0 + k] = sv;
    }
}

/// Encode two rows: whole blocks by SIMD, the rest by the scalar tail.
fn i420_two_rows<const ORIGIN_CHANNELS: u8>(
    rgba0: &[u8],
    rgba1: &[u8],
    y0: &mut [u8],
    y1: &mut [u8],
    u: &mut [u8],
    v: &mut [u8],
    width: usize,
    c: &Coeffs8,
    use_lsx: bool,
    use_lasx: bool,
)
    requires
        c.luma_fits(),
        c.chroma_fits(),
        use_lsx || use_lasx ==> c.luma_bytes(),
        use_lasx ==> YuvSourceChannels::decoded(ORIGIN_CHANNELS).four_channels(),
        i420_rows_ok(
            ORIGIN_CHANNELS,
            (Rows420 { y0: old(y0)@, y1: old(y1)@, u: old(u)@, v: old(v)@ }),
            rgba0@,
            rgba1@,
            width as int,
        ),
    ensures
        i420_encoded(
            (Rows420 { y0: final(y0)@, y1: final(y1)@, u: final(u)@, v: final(v)@ }),
            (Rows420 { y0: old(y0)@, y1: old(y1)@, u: old(u)@, v: old(v)@ }),
            *c,
            ORIGIN_CHANNELS,
            rgba0@,
            rgba1@,
            width as int,
            0,
            width as int,
        ),
{
    let cx = if use_lasx {
        lasx_i420_rowpair::<ORIGIN_CHANNELS>(rgba0, rgba1, y0, y1, u, v, width, c)
    } else if use_lsx {
        lsx_i420_rowpair::<ORIGIN_CHANNELS>(rgba0, rgba1, y0, y1, u, v, width, c)
    } else {
        0
    };
    let ghost mid = Rows420 { y0: y0@, y1: y1@, u: u@, v: v@ };
    scalar_y_tail::<ORIGIN_CHANNELS>(rgba0, y0, cx, width, c);
    scalar_y_tail::<ORIGIN_CHANNELS>(rgba1, y1, cx, width, c);
    scalar_chroma_planar::<ORIGIN_CHANNELS>(rgba0, rgba1, u, v, cx, width, true, c);
    proof {
        lemma_i420_joins(
            Rows420 { y0: y0@, y1: y1@, u: u@, v: v@ },
            mid,
            Rows420 { y0: old(y0)@, y1: old(y1)@, u: old(u)@, v: old(v)@ },
            *c,
            ORIGIN_CHANNELS,
            rgba0@,
            rgba1@,
            width as int,
            0,
            cx as int,
            width as int,
        );
    }
}

/// What the planes of a planar frame hold once its rows `lo..hi` are encoded; `lo`
/// is even.
pub open spec fn i420_rows_filled(
    new: (Seq<u8>, Seq<u8>, Seq<u8>),
    old: (Seq<u8>, Seq<u8>, Seq<u8>),
    strides: (int, int, int),
    c: Coeffs8,
    sc: YuvSourceChannels,
    rgba: Seq<u8>,
    src_stride: int,
    width: int,
    height: int,
    lo: int,
    hi: int,
) -> bool {
    let fu = u8_frame(c, sc, rgba, src_stride, width, height);
    let fv = v8_frame(c, sc, rgba, src_stride, width, height);
    let (clo, chi) = (lo / 2, half_up(hi));
    &&& plane_filled(new.0, old.0, strides.0, width, lo, hi, y8_frame(c, sc, rgba, src_stride))
    &&& plane_filled(new.1, old.1, strides.1, half_up(width), clo, chi, fu)
    &&& plane_filled(new.2, old.2, strides.2, half_up(width), clo, chi, fv)
}

/// Writing one row of a plane through the rest of the plane behind its base fills
/// that row.
proof fn lemma_tail_row_fills(
    new: Seq<u8>,
    old: Seq<u8>,
    rest: Seq<u8>,
    stride: int,
    width: int,
    row: int,
    g: spec_fn(int) -> u8,
    f: spec_fn(int, int) -> u8,
)
    requires
        0 <= row,
        0 <= width <= stride,
        0 <= row * stride <= old.len(),
        overwritten(
            rest,
            old.subrange(row * stride, old.len() as int),
            0,
            width,
            g,
        ),
        new == old.subrange(0, row * stride) + rest,
        forall|x: int| 0 <= x < width ==> #[trigger] g(x) == f(row, x),
    ensures
        plane_filled(new, old, stride, width, row, row + 1, f),
{
    let base = row * stride;
    let h = |k: int| f(row, k - base);
    assert forall|k: int| 0 <= k < old.len() implies #[trigger] new[k] == (if base <= k < base
        + width {
        h(k)
    } else {
        old[k]
    }) by {
        if k >= base {
            assert(new[k] == rest[k - base]);
            if k < base + width {
                assert(g(k - base) == f(row, k - base));
            }
        }
    }
    lemma_row_fills(new, old, stride, width, row, f);
}

/// Writing two rows of a plane through its two parts behind the first base fills
/// both.
proof fn lemma_tail_rows_fill(
    new: Seq<u8>,
    old: Seq<u8>,
    part0: Seq<u8>,
    part1: Seq<u8>,
    stride: int,
    width: int,
    row: int,
    g0: spec_fn(int) -> u8,
    g1: spec_fn(int) -> u8,
    f: spec_fn(int, int) -> u8,
)
    requires
        0 <= row,
        0 <= width <= stride,
        0 <= row * stride,
        row * stride + stride <= old.len(),
        overwritten(
            part0,
            old.subrange(row * stride, row * stride + stride),
            0,
            width,
            g0,
        ),
        overwritten(
            part1,
            old.subrange(row * stride + stride, old.len() as int),
            0,
            width,
            g1,
        ),
        new == old.subrange(0, row * stride) + (part0 + part1),
        forall|x: int| 0 <= x < width ==> #[trigger] g0(x) == f(row, x),
        forall|x: int| 0 <= x < width ==> #[trigger] g1(x) == f(row + 1, x),
    ensures
        plane_filled(new, old, stride, width, row, row + 2, f),
{
    let base = row * stride;
    let len = old.len() as int;
    let rest0 = part0 + old.subrange(base + stride, len);
    let mid = old.subrange(0, base) + rest0;
    assert((row + 1) * stride == base + stride) by (nonlinear_arith)
        requires
            base == row * stride,
    ;
    assert(overwritten(rest0, old.subrange(base, len), 0, width, g0)) by {
        assert forall|k: int| 0 <= k < len - base implies #[trigger] rest0[k] == (if 0 <= k
            < width {
            g0(k)
        } else {
            old.subrange(base, len)[k]
        }) by {
            if k < stride {
                assert(rest0[k] == part0[k]);
            }
        }
    }
    lemma_tail_row_fills(mid, old, rest0, stride, width, row, g0, f);
    assert(mid.subrange(base + stride, len) =~= old.subrange(base + stride, len));
    assert(new =~= mid.subrange(0, base + stride) + part1);
    lemma_tail_row_fills(new, mid, part1, stride, width, row + 1, g1, f);
    lemma_rows_join(new, mid, old, stride, width, row, row + 1, row + 2, f);
}

/// The chroma rows of a row pair are those of the frame.
proof fn lemma_chroma_rows(
    c: Coeffs8,
    sc: YuvSourceChannels,
    rgba: Seq<u8>,
    stride: int,
    width: int,
    height: int,
    row: int,
    row0: Seq<u8>,
    row1: Seq<u8>,
    j: int,
)
    requires
        row0 == source_row(rgba, stride, 2 * row),
        2 * row + 1 < height ==> row1 == source_row(rgba, stride, 2 * row + 1),
    ensures
        u8_row(c, sc, row0, row1, width, 2 * row + 1 < height)(j) == u8_frame(
            c,
            sc,
            rgba,
            stride,
            width,
            height,
        )(row, j),
        v8_row(c, sc, row0, row1, width, 2 * row + 1 < height)(j) == v8_frame(
            c,
            sc,
            rgba,
            stride,
            width,
            height,
        )(row, j),
{
}

/// Encode the row pair at the even row `row`, or the last row alone.
fn i420_pair<const ORIGIN_CHANNELS: u8>(
    y_plane: &mut [u8],
    u_plane: &mut [u8],
    v_plane: &mut [u8],
    y_stride: usize,
    u_stride: usize,
    v_stride: usize,
    rgba: &[u8],
    src_stride: usize,
    width: usize,
    height: usize,
    row: usize,
    c: &Coeffs8,
    use_lsx: bool,
    use_lasx: bool,
)
    requires
        c.luma_fits(),
        c.chroma_fits(),
        use_lsx || use_lasx ==> c.luma_bytes(),
        YuvSourceChannels::is_code(ORIGIN_CHANNELS),
        use_lasx ==> YuvSourceChannels::decoded(ORIGIN_CHANNELS).four_channels(),
        row % 2 == 0,
        row < height,
        plane_ok(old(y_plane)@.len(), y_stride as int, width as int, height as int),
        plane_ok(
            old(u_plane)@.len(),
            u_stride as int,
            half_up(width as int),
            half_up(height as int),
        ),
        plane_ok(
            old(v_plane)@.len(),
            v_stride as int,
            half_up(width as int),
            half_up(height as int),
        ),
        source_ok(
            rgba@,
            src_stride as int,
            YuvSourceChannels::decoded(ORIGIN_CHANNELS),
            width as int,
            height as int,
        ),
    ensures
        i420_rows_filled(
            (final(y_plane)@, final(u_plane)@, final(v_plane)@),
            (old(y_plane)@, old(u_plane)@, old(v_plane)@),
            (
                pitch(y_stride as int, width as int, height as int),
                pitch(u_stride as int, half_up(width as int), half_up(height as int)),
                pitch(v_stride as int, half_up(width as int), half_up(height as int)),
            ),
            *c,
            YuvSourceChannels::decoded(ORIGIN_CHANNELS),
            rgba@,
            src_stride as int,
            width as int,
            height as int,
            row as int,
            if row + 1 < height {
                row + 2
            } else {
                row + 1
            },
        ),
{
    let ghost sc = YuvSourceChannels::decoded(ORIGIN_CHANNELS);
    let ghost (yl, ul, vl) = (y_plane@.len(), u_plane@.len(), v_plane@.len());
    let ghost (w, h, rw) = (width as int, height as int, row as int);
    let ghost ys = pitch(y_stride as int, w, h);
    let ghost us = pitch(u_stride as int, half_up(w), half_up(h));
    let ghost vs = pitch(v_stride as int, half_up(w), half_up(h));
    let ghost ss = src_stride as int;
    let cr = row / 2;
    proof {
        assert(y_plane@.len() == y_plane.len());
        assert(u_plane@.len() == u_plane.len());
        assert(v_plane@.len() == v_plane.len());
        assert(rgba@.len() == rgba.len());
        lemma_row_base(yl, y_stride as int, w, h, rw);
        lemma_row_base(ul, u_stride as int, half_up(w), half_up(h), rw / 2);
        lemma_row_base(vl, v_stride as int, half_up(w), half_up(h), rw / 2);
        lemma_source_base(rgba@, ss, sc, w, h, rw);
        if row + 1 < height {
            lemma_source_base(rgba@, ss, sc, w, h, rw + 1);
        }
    }
    let two_rows = row + 1 < height;
    let r0 = &rgba[row * src_stride..rgba.len()];
    let ghost fy = y8_frame(*c, sc, rgba@, ss);
    let ghost fu = u8_frame(*c, sc, rgba@, ss, w, h);
    let ghost fv = v8_frame(*c, sc, rgba@, ss, w, h);
    let (y_head, y_rows) = y_plane.split_at_mut(row * y_stride);
    let (u_head, u_row) = u_plane.split_at_mut(cr * u_stride);
    let (v_head, v_row) = v_plane.split_at_mut(cr * v_stride);
    if two_rows {
        let r1 = &rgba[(row + 1) * src_stride..rgba.len()];
        let (y0, y1) = y_rows.split_at_mut(y_stride);
        i420_two_rows::<ORIGIN_CHANNELS>(
            r0,
            r1,
            y0,
            y1,
            u_row,
            v_row,
            width,
            c,
            use_lsx,
            use_lasx,
        );
        let ghost (part0, part1, part_u, part_v) = (y0@, y1@, u_row@, v_row@);
        proof {
            let gu = u8_row(*c, sc, r0@, r1@, w, true);
            let gv = v8_row(*c, sc, r0@, r1@, w, true);
            assert forall|j: int|
                #![trigger gu(j)]
                #![trigger gv(j)]
                0 <= j < half_up(w) implies gu(j) == fu(rw / 2, j) && gv(j) == fv(rw / 2, j) by {
                lemma_chroma_rows(*c, sc, rgba@, ss, w, h, rw / 2, r0@, r1@, j);
            }
            lemma_tail_rows_fill(
                y_plane@,
                old(y_plane)@,
                part0,
                part1,
                ys,
                w,
                rw,
                y8_row(*c, sc, r0@),
                y8_row(*c, sc, r1@),
                fy,
            );
            lemma_tail_row_fills(u_plane@, old(u_plane)@, part_u, us, half_up(w), rw / 2, gu, fu);
            lemma_tail_row_fills(v_plane@, old(v_plane)@, part_v, vs, half_up(w), rw / 2, gv, fv);
        }
    } else {
        scalar_y_tail::<ORIGIN_CHANNELS>(r0, y_rows, 0, width, c);
        scalar_chroma_planar::<ORIGIN_CHANNELS>(r0, r0, u_row, v_row, 0, width, false, c);
        let ghost (part_y, part_u, part_v) = (y_rows@, u_row@, v_row@);
        proof {
            let gu = u8_row(*c, sc, r0@, r0@, w, false);
            let gv = v8_row(*c, sc, r0@, r0@, w, false);
            assert forall|j: int|
                #![trigger gu(j)]
                #![trigger gv(j)]
                0 <= j < half_up(w) implies gu(j) == fu(rw / 2, j) && gv(j) == fv(rw / 2, j) by {
                lemma_chroma_rows(*c, sc, rgba@, ss, w, h, rw / 2, r0@, r0@, j);
            }
            lemma_tail_row_fills(
                y_plane@,
                old(y_plane)@,
                part_y,
                ys,
                w,
                rw,
                y8_row(*c, sc, r0@),
                fy,
            );
            lemma_tail_row_fills(u_plane@, old(u_plane)@, part_u, us, half_up(w), rw / 2, gu, fu);
            lemma_tail_row_fills(v_plane@, old(v_plane)@, part_v, vs, half_up(w), rw / 2, gv, fv);
        }
    }
}

/// Where a source row lies.
proof fn lemma_source_base(
    rgba: Seq<u8>,
    stride: int,
    sc: YuvSourceChannels,
    width: int,
    height: int,
    row: int,
)
    requires
        source_ok(rgba, stride, sc, width, height),
        0 <= stride,
        0 <= width,
        0 <= row < height,
    ensures
        0 <= row * stride,
        row * stride + sc.pixel(width) <= rgba.len(),
{
    assert(0 <= row * stride <= (height - 1) * stride) by (nonlinear_arith)
        requires
            0 <= row < height,
            0 <= stride,
    ;
}

/// Row pairs that follow each other are one stretch.
proof fn lemma_i420_rows_join(
    new: (Seq<u8>, Seq<u8>, Seq<u8>),
    mid: (Seq<u8>, Seq<u8>, Seq<u8>),
    old: (Seq<u8>, Seq<u8>, Seq<u8>),
    strides: (int, int, int),
    c: Coeffs8,
    sc: YuvSourceChannels,
    rgba: Seq<u8>,
    src_stride: int,
    width: int,
    height: int,
    lo: int,
    at: int,
    hi: int,
)
    requires
        lo <= at <= hi,
        at % 2 == 0,
        i420_rows_filled(mid, old, strides, c, sc, rgba, src_stride, width, height, lo, at),
        i420_rows_filled(new, mid, strides, c, sc, rgba, src_stride, width, height, at, hi),
    ensures
        i420_rows_filled(new, old, strides, c, sc, rgba, src_stride, width, height, lo, hi),
{
    let fy = y8_frame(c, sc, rgba, src_stride);
    let fu = u8_frame(c, sc, rgba, src_stride, width, height);
    let fv = v8_frame(c, sc, rgba, src_stride, width, height);
    let (clo, cat, chi) = (lo / 2, at / 2, half_up(hi));
    lemma_rows_join(new.0, mid.0, old.0, strides.0, width, lo, at, hi, fy);
    lemma_rows_join(new.1, mid.1, old.1, strides.1, half_up(width), clo, cat, chi, fu);
    lemma_rows_join(new.2, mid.2, old.2, strides.2, half_up(width), clo, cat, chi, fv);
}

/// Encode all rows into the three planes.
fn i420_rows<const ORIGIN_CHANNELS: u8>(
    y_plane: &mut [u8],
    u_plane: &mut [u8],
    v_plane: &mut [u8],
    y_stride: usize,
    u_stride: usize,
    v_stride: usize,
    rgba: &[u8],
    src_stride: usize,
    width: usize,
    height: usize,
    c: &Coeffs8,
    use_lsx: bool,
    use_lasx: bool,
)
    requires
        c.luma_fits(),
        c.chroma_fits(),
        use_lsx || use_lasx ==> c.luma_bytes(),
        YuvSourceChannels::is_code(ORIGIN_CHANNELS),
        use_lasx ==> YuvSourceChannels::decoded(ORIGIN_CHANNELS).four_channels(),
        plane_ok(old(y_plane)@.len(), y_stride as int, width as int, height as int),
        plane_ok(
            old(u_plane)@.len(),
            u_stride as int,
            half_up(width as int),
            half_up(height as int),
        ),
        plane_ok(
            old(v_plane)@.len(),
            v_stride as int,
            half_up(width as int),
            half_up(height as int),
        ),
        source_ok(
            rgba@,
            src_stride as int,
            YuvSourceChannels::decoded(ORIGIN_CHANNELS),
            width as int,
            height as int,
        ),
    ensures
        i420_rows_filled(
            (final(y_plane)@, final(u_plane)@, final(v_plane)@),
            (old(y_plane)@, old(u_plane)@, old(v_plane)@),
            (
                pitch(y_stride as int, width as int, height as int),
                pitch(u_stride as int, half_up(width as int), half_up(height as int)),
                pitch(v_stride as int, half_up(width as int), half_up(height as int)),
            ),
            *c,
            YuvSourceChannels::decoded(ORIGIN_CHANNELS),
            rgba@,
            src_stride as int,
            width as int,
            height as int,
            0,
            height as int,
        ),
{
    let ghost sc = YuvSourceChannels::decoded(ORIGIN_CHANNELS);
    let ghost strides = (
        pitch(y_stride as int, width as int, height as int),
        pitch(u_stride as int, half_up(width as int), half_up(height as int)),
        pitch(v_stride as int, half_up(width as int), half_up(height as int)),
    );
    let mut row: usize = 0;
    while row < height
        invariant
            c.luma_fits(),
            c.chroma_fits(),
            use_lsx || use_lasx ==> c.luma_bytes(),
            YuvSourceChannels::is_code(ORIGIN_CHANNELS),
            sc == YuvSourceChannels::decoded(ORIGIN_CHANNELS),
            strides == (
                pitch(y_stride as int, width as int, height as int),
                pitch(u_stride as int, half_up(width as int), half_up(height as int)),
                pitch(v_stride as int, half_up(width as int), half_up(height as int)),
            ),
            use_lasx ==> sc.four_channels(),
            row < height ==> row % 2 == 0,
            row <= height,
            plane_ok(old(y_plane)@.len(), y_stride as int, width as int, height as int),
            plane_ok(
                old(u_plane)@.len(),
                u_stride as int,
                half_up(width as int),
                half_up(height as int),
            ),
            plane_ok(
                old(v_plane)@.len(),
                v_stride as int,
                half_up(width as int),
                half_up(height as int),
            ),
            source_ok(rgba@, src_stride as int, sc, width as int, height as int),
            i420_rows_filled(
                (y_plane@, u_plane@, v_plane@),
                (old(y_plane)@, old(u_plane)@, old(v_plane)@),
                strides,
                *c,
                sc,
                rgba@,
                src_stride as int,
                width as int,
                height as int,
                0,
                row as int,
            ),
        decreases height - row,
    {
        let ghost mid = (y_plane@, u_plane@, v_plane@);
        i420_pair::<ORIGIN_CHANNELS>(
            y_plane,
            u_plane,
            v_plane,
            y_stride,
            u_stride,
            v_stride,
            rgba,
            src_stride,
            width,
            height,
            row,
            c,
            use_lsx,
            use_lasx,
        );
        let next = if height - row > 1 { row + 2 } else { height };
        proof {
            lemma_i420_rows_join(
                (y_plane@, u_plane@, v_plane@),
                mid,
                (old(y_plane)@, old(u_plane)@, old(v_plane)@),
                strides,
                *c,
                sc,
                rgba@,
                src_stride as int,
                width as int,
                height as int,
                0,
                row as int,
                next as int,
            );
        }
        row = next;
    }
}

/// `new` is `old` with the 4:2:0 frame of `rgba` written into its planes; bytes
/// outside the frame keep their values.
pub open spec fn i420_frame(
    new: YuvPlanarImageMut<u8>,
    old: YuvPlanarImageMut<u8>,
    c: Coeffs8,
    sc: YuvSourceChannels,
    rgba: Seq<u8>,
    rgba_stride: u32,
) -> bool {
    let (w, h) = (old.width as int, old.height as int);
    &&& new.same_layout(old)
    &&& i420_rows_filled(
        (new.y_plane@, new.u_plane@, new.v_plane@),
        (old.y_plane@, old.u_plane@, old.v_plane@),
        (
            pitch(old.y_stride as int, w, h),
            pitch(old.u_stride as int, half_up(w), half_up(h)),
            pitch(old.v_stride as int, half_up(w), half_up(h)),
        ),
        c,
        sc,
        rgba,
        rgba_stride as int,
        w,
        h,
        0,
        h,
    )
}

/// BGRA/RGBA to I420 at 8-bit precision. Returns `false` if no SIMD path was
/// available. A forced backend that the CPU does not have leaves the image as it is,
/// for the caller to fall back; in every other case the whole frame is converted,
/// by scalar where no SIMD path runs.
pub fn rgba_to_i420_8<const ORIGIN_CHANNELS: u8>(
    image: &mut YuvPlanarImageMut<u8>,
    rgba: &[u8],
    rgba_stride: u32,
    c: &Coeffs8,
    backend: Simd8,
    cpu: &CpuFeatures,
) -> (simd: bool)
    requires
        YuvSourceChannels::is_code(ORIGIN_CHANNELS),
        old(image).well_formed(),
        source_ok(
            rgba@,
            rgba_stride as int,
            YuvSourceChannels::decoded(ORIGIN_CHANNELS),
            old(image).width as int,
            old(image).height as int,
        ),
        c.luma_fits(),
        c.chroma_fits(),
        runs_lsx(backend, *cpu) || runs_lasx(
            backend,
            *cpu,
            YuvSourceChannels::decoded(ORIGIN_CHANNELS),
        ) ==> c.luma_bytes(),
    ensures
        simd == (runs_lsx(backend, *cpu) || runs_lasx(
            backend,
            *cpu,
            YuvSourceChannels::decoded(ORIGIN_CHANNELS),
        )),
        if forced_absent(backend, *cpu) {
            &&& !simd
            &&& final(image).same_layout(*old(image))
            &&& final(image).y_plane@ == old(image).y_plane@
            &&& final(image).u_plane@ == old(image).u_plane@
            &&& final(image).v_plane@ == old(image).v_plane@
        } else {
            i420_frame(
                *final(image),
                *old(image),
                *c,
                YuvSourceChannels::decoded(ORIGIN_CHANNELS),
                rgba@,
                rgba_stride,
            )
        },
        final(image).y_plane is Borrowed <==> old(image).y_plane is Borrowed,
        old(image).y_plane is Borrowed ==> final(final(image).y_plane->Borrowed_0)@
            == final(old(image).y_plane->Borrowed_0)@,
        final(image).u_plane is Borrowed <==> old(image).u_plane is Borrowed,
        old(image).u_plane is Borrowed ==> final(final(image).u_plane->Borrowed_0)@
            == final(old(image).u_plane->Borrowed_0)@,
        final(image).v_plane is Borrowed <==> old(image).v_plane is Borrowed,
        old(image).v_plane is Borrowed ==> final(final(image).v_plane->Borrowed_0)@
            == final(old(image).v_plane->Borrowed_0)@,
{
    let absent = match backend {
        Simd8::Auto => false,
        Simd8::Lsx => !has_lsx(cpu),
        Simd8::Lasx => !has_lasx(cpu),
    };
    if absent {
        return false;
    }
    // The 256-bit deinterleave is 4-channel only; 3-channel uses the LSX path.
    let channels = YuvSourceChannels::from(ORIGIN_CHANNELS).get_channels_count();
    let use_lasx = matches!(backend, Simd8::Auto | Simd8::Lasx) && has_lasx(cpu) && channels == 4;
    let use_lsx = matches!(backend, Simd8::Auto | Simd8::Lsx) && has_lsx(cpu);
    let width = image.width as usize;
    let height = image.height as usize;
    let y_stride = image.y_stride as usize;
    let u_stride = image.u_stride as usize;
    let v_stride = image.v_stride as usize;
    i420_rows::<ORIGIN_CHANNELS>(
        image.y_plane.borrow_mut(),
        image.u_plane.borrow_mut(),
        image.v_plane.borrow_mut(),
        y_stride,
        u_stride,
        v_stride,
        rgba,
        rgba_stride as usize,
        width,
        height,
        c,
        use_lsx,
        use_lasx,
    );
    use_lsx || use_lasx
}

// ---------------------------------------------------------------------------
// Bi-planar output
// ---------------------------------------------------------------------------

/// Scalar chroma pairs for the source columns `[x0, width)` of a row pair.
fn scalar_chroma_nv<const ORIGIN_CHANNELS: u8, const UV_ORDER: u8>(
    rgba0: &[u8],
    rgba1: &[u8],
    uv: &mut [u8],
    x0: usize,
    width: usize,
    two_rows: bool,
    c: &Coeffs8,
)
    requires
        YuvSourceChannels::is_code(ORIGIN_CHANNELS),
        YuvNVOrder::is_code(UV_ORDER),
        c.chroma_fits(),
        x0 % 2 == 0,
        x0 <= width,
        YuvSourceChannels::decoded(ORIGIN_CHANNELS).pixel(width as int) <= rgba0@.len(),
        YuvSourceChannels::decoded(ORIGIN_CHANNELS).pixel(width as int) <= rgba1@.len(),
        2 * half_up(width as int) <= old(uv)@.len(),
    ensures
        overwritten(
            final(uv)@,
            old(uv)@,
            x0 as int,
            2 * half_up(width as int),
            uv8_row(
                *c,
                YuvSourceChannels::decoded(ORIGIN_CHANNELS),
                YuvNVOrder::decoded(UV_ORDER),
                rgba0@,
                rgba1@,
                width as int,
                two_rows,
            ),
        ),
{
    let order = YuvNVOrder::from(UV_ORDER);
    let upos = order.get_u_position();
    let vpos = order.get_v_position();
    let samples = scalar_chroma_tail::<ORIGIN_CHANNELS>(rgba0, rgba1, x0, width, two_rows, c);
    let ghost sc = YuvSourceChannels::decoded(ORIGIN_CHANNELS);
    let ghost fuv = uv8_row(*c, sc, order, rgba0@, rgba1@, width as int, two_rows);
    assert(uv@.len() == uv.len());
    for k in 0..samples.len()
        invariant
            x0 % 2 == 0,
            upos == order.u_position(),
            vpos == order.v_position(),
            x0 + 2 * samples@.len() == 2 * half_up(width as int),
            2 * half_up(width as int) <= old(uv)@.len(),
            old(uv)@.len() <= usize::MAX,
            forall|i: int|
                0 <= i < samples@.len() ==> #[trigger] samples@[i] == (
                    u8_at(*c, sc, rgba0@, rgba1@, x0 + 2 * i, width as int, two_rows),
                    v8_at(*c, sc, rgba0@, rgba1@, x0 + 2 * i, width as int, two_rows),
                ),
            fuv == uv8_row(*c, sc, order, rgba0@, rgba1@, width as int, two_rows),
            overwritten(uv@, old(uv)@, x0 as int, x0 + 2 * k, fuv),
    {
        let (su, sv) = samples[k];
        let ghost mid = uv@;
        let j = x0 + 2 * k;
        uv[j + upos] = su;
        uv[j + vpos] = sv;
        proof {
            assert(2 * ((j + upos) / 2) == j && (j + upos) % 2 == upos);
            assert(2 * ((j + vpos) / 2) == j && (j + vpos) % 2 == vpos);
            assert(fuv(j + upos) == su);
            assert(fuv(j + vpos) == sv);
            assert forall|i: int| 0 <= i < uv@.len() implies #[trigger] uv@[i] == (if x0 <= i
                < x0 + 2 * (k + 1) {
                fuv(i)
            } else {
                old(uv)@[i]
            }) by {
                if i != j && i != j + 1 {
                    assert(uv@[i] == mid[i]);
                }
            }
        }
    }
}

/// Encode two rows: whole blocks by SIMD, the rest by the scalar tail.
fn nv12_two_rows<const ORIGIN_CHANNELS: u8, const UV_ORDER: u8>(
    rgba0: &[u8],
    rgba1: &[u8],
    y0: &mut [u8],
    y1: &mut [u8],
    uv: &mut [u8],
    width: usize,
    c: &Coeffs8,
    use_lsx: bool,
    use_lasx: bool,
)
    requires
        c.luma_fits(),
        c.chroma_fits(),
        use_lsx || use_lasx ==> c.luma_bytes(),
        use_lasx ==> YuvSourceChannels::decoded(ORIGIN_CHANNELS).four_channels(),
        nv12_rows_ok(
            ORIGIN_CHANNELS,
            UV_ORDER,
            (RowsNv { y0: old(y0)@, y1: old(y1)@, uv: old(uv)@ }),
            rgba0@,
            rgba1@,
            width as int,
        ),
    ensures
        nv12_encoded(
            (RowsNv { y0: final(y0)@, y1: final(y1)@, uv: final(uv)@ }),
            (RowsNv { y0: old(y0)@, y1: old(y1)@, uv: old(uv)@ }),
            *c,
            ORIGIN_CHANNELS,
            UV_ORDER,
            rgba0@,
            rgba1@,
            width as int,
            0,
            width as int,
        ),
{
    let cx = if use_lasx {
        lasx_nv12_rowpair::<ORIGIN_CHANNELS, UV_ORDER>(rgba0, rgba1, y0, y1, uv, width, c)
    } else if use_lsx {
        lsx_nv12_rowpair::<ORIGIN_CHANNELS, UV_ORDER>(rgba0, rgba1, y0, y1, uv, width, c)
    } else {
        0
    };
    let ghost mid = RowsNv { y0: y0@, y1: y1@, uv: uv@ };
    scalar_y_tail::<ORIGIN_CHANNELS>(rgba0, y0, cx, width, c);
    scalar_y_tail::<ORIGIN_CHANNELS>(rgba1, y1, cx, width, c);
    scalar_chroma_nv::<ORIGIN_CHANNELS, UV_ORDER>(rgba0, rgba1, uv, cx, width, true, c);
    proof {
        lemma_nv12_joins(
            RowsNv { y0: y0@, y1: y1@, uv: uv@ },
            mid,
            RowsNv { y0: old(y0)@, y1: old(y1)@, uv: old(uv)@ },
            *c,
            ORIGIN_CHANNELS,
            UV_ORDER,
            rgba0@,
            rgba1@,
            width as int,
            0,
            cx as int,
            width as int,
        );
    }
}

/// What the planes of a bi-planar frame hold once its rows `lo..hi` are encoded;
/// `lo` is even.
pub open spec fn nv12_rows_filled(
    new: (Seq<u8>, Seq<u8>),
    old: (Seq<u8>, Seq<u8>),
    strides: (int, int),
    c: Coeffs8,
    sc: YuvSourceChannels,
    order: YuvNVOrder,
    rgba: Seq<u8>,
    src_stride: int,
    width: int,
    height: int,
    lo: int,
    hi: int,
) -> bool {
    let fuv = uv8_frame(c, sc, order, rgba, src_stride, width, height);
    let (clo, chi) = (lo / 2, half_up(hi));
    &&& plane_filled(new.0, old.0, strides.0, width, lo, hi, y8_frame(c, sc, rgba, src_stride))
    &&& plane_filled(new.1, old.1, strides.1, 2 * half_up(width), clo, chi, fuv)
}

/// The interleaved chroma row of a row pair is that of the frame.
proof fn lemma_chroma_pairs(
    c: Coeffs8,
    sc: YuvSourceChannels,
    order: YuvNVOrder,
    rgba: Seq<u8>,
    stride: int,
    width: int,
    height: int,
    row: int,
    row0: Seq<u8>,
    row1: Seq<u8>,
    k: int,
)
    requires
        row0 == source_row(rgba, stride, 2 * row),
        2 * row + 1 < height ==> row1 == source_row(rgba, stride, 2 * row + 1),
    ensures
        uv8_row(c, sc, order, row0, row1, width, 2 * row + 1 < height)(k) == uv8_frame(
            c,
            sc,
            order,
            rgba,
            stride,
            width,
            height,
        )(row, k),
{
}

/// Encode the row pair at the even row `row`, or the last row alone.
fn nv12_pair<const ORIGIN_CHANNELS: u8, const UV_ORDER: u8>(
    y_plane: &mut [u8],
    uv_plane: &mut [u8],
    y_stride: usize,
    uv_stride: usize,
    rgba: &[u8],
    src_stride: usize,
    width: usize,
    height: usize,
    row: usize,
    c: &Coeffs8,
    use_lsx: bool,
    use_lasx: bool,
)
    requires
        c.luma_fits(),
        c.chroma_fits(),
        use_lsx || use_lasx ==> c.luma_bytes(),
        YuvSourceChannels::is_code(ORIGIN_CHANNELS),
        YuvNVOrder::is_code(UV_ORDER),
        use_lasx ==> YuvSourceChannels::decoded(ORIGIN_CHANNELS).four_channels(),
        row % 2 == 0,
        row < height,
        plane_ok(old(y_plane)@.len(), y_stride as int, width as int, height as int),
        plane_ok(
            old(uv_plane)@.len(),
            uv_stride as int,
            2 * half_up(width as int),
            half_up(height as int),
        ),
        source_ok(
            rgba@,
            src_stride as int,
            YuvSourceChannels::decoded(ORIGIN_CHANNELS),
            width as int,
            height as int,
        ),
    ensures
        nv12_rows_filled(
            (final(y_plane)@, final(uv_plane)@),
            (old(y_plane)@, old(uv_plane)@),
            (
                pitch(y_stride as int, width as int, height as int),
                pitch(uv_stride as int, 2 * half_up(width as int), half_up(height as int)),
            ),
            *c,
            YuvSourceChannels::decoded(ORIGIN_CHANNELS),
            YuvNVOrder::decoded(UV_ORDER),
            rgba@,
            src_stride as int,
            width as int,
            height as int,
            row as int,
            if row + 1 < height {
                row + 2
            } else {
                row + 1
            },
        ),
{
    let ghost sc = YuvSourceChannels::decoded(ORIGIN_CHANNELS);
    let ghost order = YuvNVOrder::decoded(UV_ORDER);
    let ghost (yl, uvl) = (y_plane@.len(), uv_plane@.len());
    let ghost (w, h, rw) = (width as int, height as int, row as int);
    let ghost ys = pitch(y_stride as int, w, h);
    let ghost uvs = pitch(uv_stride as int, 2 * half_up(w), half_up(h));
    let ghost ss = src_stride as int;
    let cr = row / 2;
    proof {
        assert(y_plane@.len() == y_plane.len());
        assert(uv_plane@.len() == uv_plane.len());
        assert(rgba@.len() == rgba.len());
        lemma_row_base(yl, y_stride as int, w, h, rw);
        lemma_row_base(uvl, uv_stride as int, 2 * half_up(w), half_up(h), rw / 2);
        lemma_source_base(rgba@, ss, sc, w, h, rw);
        if row + 1 < height {
            lemma_source_base(rgba@, ss, sc, w, h, rw + 1);
        }
    }
    let two_rows = row + 1 < height;
    let r0 = &rgba[row * src_stride..rgba.len()];
    let ghost fy = y8_frame(*c, sc, rgba@, ss);
    let ghost fuv = uv8_frame(*c, sc, order, rgba@, ss, w, h);
    let (y_head, y_rows) = y_plane.split_at_mut(row * y_stride);
    let (uv_head, uv_row) = uv_plane.split_at_mut(cr * uv_stride);
    if two_rows {
        let r1 = &rgba[(row + 1) * src_stride..rgba.len()];
        let (y0, y1) = y_rows.split_at_mut(y_stride);
        nv12_two_rows::<ORIGIN_CHANNELS, UV_ORDER>(
            r0,
            r1,
            y0,
            y1,
            uv_row,
            width,
            c,
            use_lsx,
            use_lasx,
        );
        let ghost (part0, part1, part_uv) = (y0@, y1@, uv_row@);
        proof {
            let guv = uv8_row(*c, sc, order, r0@, r1@, w, true);
            assert forall|k: int| 0 <= k < 2 * half_up(w) implies #[trigger] guv(k) == fuv(
                rw / 2,
                k,
            ) by {
                lemma_chroma_pairs(*c, sc, order, rgba@, ss, w, h, rw / 2, r0@, r1@, k);
            }
            lemma_tail_rows_fill(
                y_plane@,
                old(y_plane)@,
                part0,
                part1,
                ys,
                w,
                rw,
                y8_row(*c, sc, r0@),
                y8_row(*c, sc, r1@),
                fy,
            );
            lemma_tail_row_fills(
                uv_plane@,
                old(uv_plane)@,
                part_uv,
                uvs,
                2 * half_up(w),
                rw / 2,
                guv,
                fuv,
            );
        }
    } else {
        scalar_y_tail::<ORIGIN_CHANNELS>(r0, y_rows, 0, width, c);
        scalar_chroma_nv::<ORIGIN_CHANNELS, UV_ORDER>(r0, r0, uv_row, 0, width, false, c);
        let ghost (part_y, part_uv) = (y_rows@, uv_row@);
        proof {
            let guv = uv8_row(*c, sc, order, r0@, r0@, w, false);
            assert forall|k: int| 0 <= k < 2 * half_up(w) implies #[trigger] guv(k) == fuv(
                rw / 2,
                k,
            ) by {
                lemma_chroma_pairs(*c, sc, order, rgba@, ss, w, h, rw / 2, r0@, r0@, k);
            }
            lemma_tail_row_fills(
                y_plane@,
                old(y_plane)@,
                part_y,
                ys,
                w,
                rw,
                y8_row(*c, sc, r0@),
                fy,
            );
            lemma_tail_row_fills(
                uv_plane@,
                old(uv_plane)@,
                part_uv,
                uvs,
                2 * half_up(w),
                rw / 2,
                guv,
                fuv,
            );
        }
    }
}

/// Row pairs that follow each other are one stretch.
proof fn lemma_nv12_rows_join(
    new: (Seq<u8>, Seq<u8>),
    mid: (Seq<u8>, Seq<u8>),
    old: (Seq<u8>, Seq<u8>),
    strides: (int, int),
    c: Coeffs8,
    sc: YuvSourceChannels,
    order: YuvNVOrder,
    rgba: Seq<u8>,
    src_stride: int,
    width: int,
    height: int,
    lo: int,
    at: int,
    hi: int,
)
    requires
        lo <= at <= hi,
        at % 2 == 0,
        nv12_rows_filled(mid, old, strides, c, sc, order, rgba, src_stride, width, height, lo, at),
        nv12_rows_filled(new, mid, strides, c, sc, order, rgba, src_stride, width, height, at, hi),
    ensures
        nv12_rows_filled(new, old, strides, c, sc, order, rgba, src_stride, width, height, lo, hi),
{
    let fy = y8_frame(c, sc, rgba, src_stride);
    let fuv = uv8_frame(c, sc, order, rgba, src_stride, width, height);
    let (clo, cat, chi) = (lo / 2, at / 2, half_up(hi));
    lemma_rows_join(new.0, mid.0, old.0, strides.0, width, lo, at, hi, fy);
    lemma_rows_join(new.1, mid.1, old.1, strides.1, 2 * half_up(width), clo, cat, chi, fuv);
}

/// Encode all rows into the two planes.
fn nv12_rows<const ORIGIN_CHANNELS: u8, const UV_ORDER: u8>(
    y_plane: &mut [u8],
    uv_plane: &mut [u8],
    y_stride: usize,
    uv_stride: usize,
    rgba: &[u8],
    src_stride: usize,
    width: usize,
    height: usize,
    c: &Coeffs8,
    use_lsx: bool,
    use_lasx: bool,
)
    requires
        c.luma_fits(),
        c.chroma_fits(),
        use_lsx || use_lasx ==> c.luma_bytes(),
        YuvSourceChannels::is_code(ORIGIN_CHANNELS),
        YuvNVOrder::is_code(UV_ORDER),
        use_lasx ==> YuvSourceChannels::decoded(ORIGIN_CHANNELS).four_channels(),
        plane_ok(old(y_plane)@.len(), y_stride as int, width as int, height as int),
        plane_ok(
            old(uv_plane)@.len(),
            uv_stride as int,
            2 * half_up(width as int),
            half_up(height as int),
        ),
        source_ok(
            rgba@,
            src_stride as int,
            YuvSourceChannels::decoded(ORIGIN_CHANNELS),
            width as int,
            height as int,
        ),
    ensures
        nv12_rows_filled(
            (final(y_plane)@, final(uv_plane)@),
            (old(y_plane)@, old(uv_plane)@),
            (
                pitch(y_stride as int, width as int, height as int),
                pitch(uv_stride as int, 2 * half_up(width as int), half_up(height as int)),
            ),
            *c,
            YuvSourceChannels::decoded(ORIGIN_CHANNELS),
            YuvNVOrder::decoded(UV_ORDER),
            rgba@,
            src_stride as int,
            width as int,
            height as int,
            0,
            height as int,
        ),
{
    let ghost sc = YuvSourceChannels::decoded(ORIGIN_CHANNELS);
    let ghost order = YuvNVOrder::decoded(UV_ORDER);
    let ghost strides = (
        pitch(y_stride as int, width as int, height as int),
        pitch(uv_stride as int, 2 * half_up(width as int), half_up(height as int)),
    );
    let mut row: usize = 0;
    while row < height
        invariant
            c.luma_fits(),
            c.chroma_fits(),
            use_lsx || use_lasx ==> c.luma_bytes(),
            YuvSourceChannels::is_code(ORIGIN_CHANNELS),
            YuvNVOrder::is_code(UV_ORDER),
            sc == YuvSourceChannels::decoded(ORIGIN_CHANNELS),
            order == YuvNVOrder::decoded(UV_ORDER),
            strides == (
                pitch(y_stride as int, width as int, height as int),
                pitch(uv_stride as int, 2 * half_up(width as int), half_up(height as int)),
            ),
            use_lasx ==> sc.four_channels(),
            row < height ==> row % 2 == 0,
            row <= height,
            plane_ok(old(y_plane)@.len(), y_stride as int, width as int, height as int),
            plane_ok(
                old(uv_plane)@.len(),
                uv_stride as int,
                2 * half_up(width as int),
                half_up(height as int),
            ),
            source_ok(rgba@, src_stride as int, sc, width as int, height as int),
            nv12_rows_filled(
                (y_plane@, uv_plane@),
                (old(y_plane)@, old(uv_plane)@),
                strides,
                *c,
                sc,
                order,
                rgba@,
                src_stride as int,
                width as int,
                height as int,
                0,
                row as int,
            ),
        decreases height - row,
    {
        let ghost mid = (y_plane@, uv_plane@);
        nv12_pair::<ORIGIN_CHANNELS, UV_ORDER>(
            y_plane,
            uv_plane,
            y_stride,
            uv_stride,
            rgba,
            src_stride,
            width,
            height,
            row,
            c,
            use_lsx,
            use_lasx,
        );
        let next = if height - row > 1 { row + 2 } else { height };
        proof {
            lemma_nv12_rows_join(
                (y_plane@, uv_plane@),
                mid,
                (old(y_plane)@, old(uv_plane)@),
                strides,
                *c,
                sc,
                order,
                rgba@,
                src_stride as int,
                width as int,
                height as int,
                0,
                row as int,
                next as int,
            );
        }
        row = next;
    }
}

/// `new` is `old` with the 4:2:0 frame of `rgba` written into its planes; bytes
/// outside the frame keep their values.
pub open spec fn nv12_frame(
    new: YuvBiPlanarImageMut<u8>,
    old: YuvBiPlanarImageMut<u8>,
    c: Coeffs8,
    sc: YuvSourceChannels,
    order: YuvNVOrder,
    rgba: Seq<u8>,
    rgba_stride: u32,
) -> bool {
    let (w, h) = (old.width as int, old.height as int);
    &&& new.same_layout(old)
    &&& nv12_rows_filled(
        (new.y_plane@, new.uv_plane@),
        (old.y_plane@, old.uv_plane@),
        (
            pitch(old.y_stride as int, w, h),
            pitch(old.uv_stride as int, 2 * half_up(w), half_up(h)),
        ),
        c,
        sc,
        order,
        rgba,
        rgba_stride as int,
        w,
        h,
        0,
        h,
    )
}

/// BGRA/RGBA to NV12/NV21 at 8-bit precision. The whole frame is converted on every
/// backend; returns `false` if no SIMD path was available.
pub fn rgba_to_nv12_8<const ORIGIN_CHANNELS: u8, const UV_ORDER: u8>(
    image: &mut YuvBiPlanarImageMut<u8>,
    rgba: &[u8],
    rgba_stride: u32,
    c: &Coeffs8,
    backend: Simd8,
    cpu: &CpuFeatures,
) -> (simd: bool)
    requires
        YuvSourceChannels::is_code(ORIGIN_CHANNELS),
        YuvNVOrder::is_code(UV_ORDER),
        old(image).well_formed(),
        source_ok(
            rgba@,
            rgba_stride as int,
            YuvSourceChannels::decoded(ORIGIN_CHANNELS),
            old(image).width as int,
            old(image).height as int,
        ),
        c.luma_fits(),
        c.chroma_fits(),
        runs_lsx(backend, *cpu) || runs_lasx(
            backend,
            *cpu,
            YuvSourceChannels::decoded(ORIGIN_CHANNELS),
        ) ==> c.luma_bytes(),
    ensures
        simd == (runs_lsx(backend, *cpu) || runs_lasx(
            backend,
            *cpu,
            YuvSourceChannels::decoded(ORIGIN_CHANNELS),
        )),
        nv12_frame(
            *final(image),
            *old(image),
            *c,
            YuvSourceChannels::decoded(ORIGIN_CHANNELS),
            YuvNVOrder::decoded(UV_ORDER),
            rgba@,
            rgba_stride,
        ),
        final(image).y_plane is Borrowed <==> old(image).y_plane is Borrowed,
        old(image).y_plane is Borrowed ==> final(final(image).y_plane->Borrowed_0)@
            == final(old(image).y_plane->Borrowed_0)@,
        final(image).uv_plane is Borrowed <==> old(image).uv_plane is Borrowed,
        old(image).uv_plane is Borrowed ==> final(final(image).uv_plane->Borrowed_0)@
            == final(old(image).uv_plane->Borrowed_0)@,
{
    let channels = YuvSourceChannels::from(ORIGIN_CHANNELS).get_channels_count();
    let use_lasx = matches!(backend, Simd8::Auto | Simd8::Lasx) && has_lasx(cpu) && channels == 4;
    let use_lsx = matches!(backend, Simd8::Auto | Simd8::Lsx) && has_lsx(cpu);
    let width = image.width as usize;
    let height = image.height as usize;
    let y_stride = image.y_stride as usize;
    let uv_stride = image.uv_stride as usize;
    nv12_rows::<ORIGIN_CHANNELS, UV_ORDER>(
        image.y_plane.borrow_mut(),
        image.uv_plane.borrow_mut(),
        y_stride,
        uv_stride,
        rgba,
        rgba_stride as usize,
        width,
        height,
        c,
        use_lsx,
        use_lasx,
    );
    use_lsx || use_lasx
}

} // verus!
