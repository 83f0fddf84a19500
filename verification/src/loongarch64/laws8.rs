//! Laws of the 8-bit conversion, stated on the bytes that it reads and writes.

use super::convert8::{
    i420_encoded, nv12_encoded, quad_average, u8_at, v8_at, y8_at, Coeffs8,
};
use super::frame8::{
    forced_absent, i420_frame, nv12_frame, plane_filled, runs_lasx, runs_lsx, source_row, u8_frame,
    uv8_frame, v8_frame, y8_frame, Simd8,
};
use super::laws::law_plane_sample;
use super::rgba_to_nv420::RowsNv;
use super::rgba_to_yuv420::Rows420;
use super::CpuFeatures;
use crate::images::{half_up, pitch, plane_ok, YuvBiPlanarImageMut, YuvPlanarImageMut};
use crate::yuv_support::{YuvNVOrder, YuvSourceChannels};
use vstd::prelude::*;

verus! {

// ---------------------------------------------------------------------------
// Samples
// ---------------------------------------------------------------------------

/// Whatever the weights, a sample is bits 8 to 15 of its weighted sum.
pub proof fn law_samples8(c: Coeffs8, r: int, g: int, b: int)
    ensures
        c.y(r, g, b) == ((c.ry * r + c.gy * g + c.by * b + c.ay) / 256) % 256,
        c.u(r, g, b) == ((c.ru * r + c.gu * g + c.bu * b + c.auv) / 256) % 256,
        c.v(r, g, b) == ((c.rv * r + c.gv * g + c.bv * b + c.auv) / 256) % 256,
{
}

/// An average is the mean of the samples that there are, rounded to the nearest and
/// half up.
pub proof fn law_average_is_nearest(
    s00: int,
    s01: int,
    s10: int,
    s11: int,
    two_cols: bool,
    two_rows: bool,
)
    ensures
        ({
            let a = quad_average(s00, s01, s10, s11, two_cols, two_rows);
            let sum = s00 + (if two_cols {
                s01
            } else {
                0
            }) + (if two_rows {
                s10
            } else {
                0
            }) + (if two_cols && two_rows {
                s11
            } else {
                0
            });
            let count: int = if two_cols && two_rows {
                4
            } else if two_cols || two_rows {
                2
            } else {
                1
            };
            -count <= 2 * (sum - count * a) < count
        }),
{
}

/// The layouts: three or four bytes a pixel, green in the middle, red and blue at the
/// ends of the first three bytes.
pub proof fn law_layouts(x: int)
    ensures
        YuvSourceChannels::decoded(0) is Rgb && YuvSourceChannels::decoded(1) is Rgba,
        YuvSourceChannels::decoded(2) is Bgra && YuvSourceChannels::decoded(3) is Bgr,
        YuvSourceChannels::Rgb.pixel(x) == 3 * x && YuvSourceChannels::Bgr.pixel(x) == 3 * x,
        YuvSourceChannels::Rgba.pixel(x) == 4 * x && YuvSourceChannels::Bgra.pixel(x) == 4 * x,
        YuvSourceChannels::Rgb.r_offset() == 0 && YuvSourceChannels::Rgba.r_offset() == 0,
        YuvSourceChannels::Bgra.r_offset() == 2 && YuvSourceChannels::Bgr.r_offset() == 2,
        YuvSourceChannels::Rgb.b_offset() == 2 && YuvSourceChannels::Rgba.b_offset() == 2,
        YuvSourceChannels::Bgra.b_offset() == 0 && YuvSourceChannels::Bgr.b_offset() == 0,
        YuvNVOrder::decoded(0) is UV && YuvNVOrder::decoded(1) is VU,
        YuvNVOrder::UV.u_position() == 0 && YuvNVOrder::UV.v_position() == 1,
        YuvNVOrder::VU.u_position() == 1 && YuvNVOrder::VU.v_position() == 0,
{
}

/// The luma byte of a pixel weighs the three bytes of that pixel.
pub proof fn law_pixel_luma(
    c: Coeffs8,
    code: u8,
    n: int,
    ro: int,
    bo: int,
    row: Seq<u8>,
    x: int,
)
    requires
        (code == 0 && n == 3 && ro == 0 && bo == 2) || (code == 1 && n == 4 && ro == 0 && bo == 2)
            || (code == 2 && n == 4 && ro == 2 && bo == 0) || (code == 3 && n == 3 && ro == 2
            && bo == 0),
    ensures
        y8_at(c, YuvSourceChannels::decoded(code), row, x) == ((c.ry * row[n * x + ro] + c.gy
            * row[n * x + 1] + c.by * row[n * x + bo] + c.ay) / 256) % 256,
{
    if n == 3 {
        assert(n * x == 3 * x);
    } else {
        assert(n * x == 4 * x);
    }
}

/// The chroma bytes of the quad whose left column is `x` weigh the rounded means of
/// the pixels that the quad has: two columns where there is another to the right of
/// `x`, two rows where there is another below.
pub proof fn law_quad_chroma(
    c: Coeffs8,
    code: u8,
    n: int,
    ro: int,
    bo: int,
    row0: Seq<u8>,
    row1: Seq<u8>,
    x: int,
    width: int,
    two_rows: bool,
    r: int,
    g: int,
    b: int,
)
    requires
        (code == 0 && n == 3 && ro == 0 && bo == 2) || (code == 1 && n == 4 && ro == 0 && bo == 2)
            || (code == 2 && n == 4 && ro == 2 && bo == 0) || (code == 3 && n == 3 && ro == 2
            && bo == 0),
        ({
            let p = n * x;
            if x + 1 < width && two_rows {
                &&& r == (row0[p + ro] + row0[p + n + ro] + row1[p + ro] + row1[p + n + ro] + 2) / 4
                &&& g == (row0[p + 1] + row0[p + n + 1] + row1[p + 1] + row1[p + n + 1] + 2) / 4
                &&& b == (row0[p + bo] + row0[p + n + bo] + row1[p + bo] + row1[p + n + bo] + 2) / 4
            } else if x + 1 < width {
                &&& r == (row0[p + ro] + row0[p + n + ro] + 1) / 2
                &&& g == (row0[p + 1] + row0[p + n + 1] + 1) / 2
                &&& b == (row0[p + bo] + row0[p + n + bo] + 1) / 2
            } else if two_rows {
                &&& r == (row0[p + ro] + row1[p + ro] + 1) / 2
                &&& g == (row0[p + 1] + row1[p + 1] + 1) / 2
                &&& b == (row0[p + bo] + row1[p + bo] + 1) / 2
            } else {
                r == row0[p + ro] && g == row0[p + 1] && b == row0[p + bo]
            }
        }),
    ensures
        u8_at(c, YuvSourceChannels::decoded(code), row0, row1, x, width, two_rows) == ((c.ru * r
            + c.gu * g + c.bu * b + c.auv) / 256) % 256,
        v8_at(c, YuvSourceChannels::decoded(code), row0, row1, x, width, two_rows) == ((c.rv * r
            + c.gv * g + c.bv * b + c.auv) / 256) % 256,
{
    if n == 3 {
        assert(n * x == 3 * x);
    } else {
        assert(n * x == 4 * x);
    }
}

// ---------------------------------------------------------------------------
// Row pairs
// ---------------------------------------------------------------------------

/// The planar row-pair kernels write, from column 0 to where they stop, the luma of
/// the pixel in each column of both rows and the chroma of each quad, and nothing
/// else.
pub proof fn law_i420_rowpair(
    new: Rows420,
    old: Rows420,
    c: Coeffs8,
    code: u8,
    n: int,
    ro: int,
    bo: int,
    rgba0: Seq<u8>,
    rgba1: Seq<u8>,
    width: int,
    cx: int,
    k: int,
)
    requires
        (code == 0 && n == 3 && ro == 0 && bo == 2) || (code == 1 && n == 4 && ro == 0 && bo == 2)
            || (code == 2 && n == 4 && ro == 2 && bo == 0) || (code == 3 && n == 3 && ro == 2
            && bo == 0),
        i420_encoded(new, old, c, code, rgba0, rgba1, width, 0, cx),
        cx % 16 == 0,
        cx <= width,
        0 <= k,
    ensures
        new.y0.len() == old.y0.len() && new.y1.len() == old.y1.len(),
        new.u.len() == old.u.len() && new.v.len() == old.v.len(),
        k < old.y0.len() ==> new.y0[k] == (if k < cx {
            ((c.ry * rgba0[n * k + ro] + c.gy * rgba0[n * k + 1] + c.by * rgba0[n * k + bo] + c.ay)
                / 256) % 256
        } else {
            old.y0[k] as int
        }),
        k < old.y1.len() ==> new.y1[k] == (if k < cx {
            ((c.ry * rgba1[n * k + ro] + c.gy * rgba1[n * k + 1] + c.by * rgba1[n * k + bo] + c.ay)
                / 256) % 256
        } else {
            old.y1[k] as int
        }),
        ({
            let p = n * (2 * k);
            let r = (rgba0[p + ro] + rgba0[p + n + ro] + rgba1[p + ro] + rgba1[p + n + ro] + 2) / 4;
            let g = (rgba0[p + 1] + rgba0[p + n + 1] + rgba1[p + 1] + rgba1[p + n + 1] + 2) / 4;
            let b = (rgba0[p + bo] + rgba0[p + n + bo] + rgba1[p + bo] + rgba1[p + n + bo] + 2) / 4;
            &&& k < old.u.len() ==> new.u[k] == (if 2 * k < cx {
                ((c.ru * r + c.gu * g + c.bu * b + c.auv) / 256) % 256
            } else {
                old.u[k] as int
            })
            &&& k < old.v.len() ==> new.v[k] == (if 2 * k < cx {
                ((c.rv * r + c.gv * g + c.bv * b + c.auv) / 256) % 256
            } else {
                old.v[k] as int
            })
        }),
{
    law_pixel_luma(c, code, n, ro, bo, rgba0, k);
    law_pixel_luma(c, code, n, ro, bo, rgba1, k);
    if 2 * k < cx {
        let p = n * (2 * k);
        law_quad_chroma(
            c,
            code,
            n,
            ro,
            bo,
            rgba0,
            rgba1,
            2 * k,
            width,
            true,
            (rgba0[p + ro] + rgba0[p + n + ro] + rgba1[p + ro] + rgba1[p + n + ro] + 2) / 4,
            (rgba0[p + 1] + rgba0[p + n + 1] + rgba1[p + 1] + rgba1[p + n + 1] + 2) / 4,
            (rgba0[p + bo] + rgba0[p + n + bo] + rgba1[p + bo] + rgba1[p + n + bo] + 2) / 4,
        );
    }
}

/// The bi-planar row-pair kernels write, from column 0 to where they stop, the luma
/// of the pixel in each column of both rows and the chroma pair of each quad, U first
/// for order 0 and V first for order 1, and nothing else.
pub proof fn law_nv12_rowpair(
    new: RowsNv,
    old: RowsNv,
    c: Coeffs8,
    code: u8,
    n: int,
    ro: int,
    bo: int,
    order: u8,
    rgba0: Seq<u8>,
    rgba1: Seq<u8>,
    width: int,
    cx: int,
    k: int,
)
    requires
        (code == 0 && n == 3 && ro == 0 && bo == 2) || (code == 1 && n == 4 && ro == 0 && bo == 2)
            || (code == 2 && n == 4 && ro == 2 && bo == 0) || (code == 3 && n == 3 && ro == 2
            && bo == 0),
        order == 0 || order == 1,
        nv12_encoded(new, old, c, code, order, rgba0, rgba1, width, 0, cx),
        cx % 16 == 0,
        cx <= width,
        0 <= k,
    ensures
        new.y0.len() == old.y0.len() && new.y1.len() == old.y1.len() && new.uv.len()
            == old.uv.len(),
        k < old.y0.len() ==> new.y0[k] == (if k < cx {
            ((c.ry * rgba0[n * k + ro] + c.gy * rgba0[n * k + 1] + c.by * rgba0[n * k + bo] + c.ay)
                / 256) % 256
        } else {
            old.y0[k] as int
        }),
        k < old.y1.len() ==> new.y1[k] == (if k < cx {
            ((c.ry * rgba1[n * k + ro] + c.gy * rgba1[n * k + 1] + c.by * rgba1[n * k + bo] + c.ay)
                / 256) % 256
        } else {
            old.y1[k] as int
        }),
        ({
            let p = n * (2 * k);
            let r = (rgba0[p + ro] + rgba0[p + n + ro] + rgba1[p + ro] + rgba1[p + n + ro] + 2) / 4;
            let g = (rgba0[p + 1] + rgba0[p + n + 1] + rgba1[p + 1] + rgba1[p + n + 1] + 2) / 4;
            let b = (rgba0[p + bo] + rgba0[p + n + bo] + rgba1[p + bo] + rgba1[p + n + bo] + 2) / 4;
            let u = ((c.ru * r + c.gu * g + c.bu * b + c.auv) / 256) % 256;
            let v = ((c.rv * r + c.gv * g + c.bv * b + c.auv) / 256) % 256;
            2 * k + 1 < old.uv.len() ==> {
                if 2 * k < cx {
                    (new.uv[2 * k] as int, new.uv[2 * k + 1] as int) == (if order == 0 {
                        (u, v)
                    } else {
                        (v, u)
                    })
                } else {
                    new.uv[2 * k] == old.uv[2 * k] && new.uv[2 * k + 1] == old.uv[2 * k + 1]
                }
            }
        }),
{
    law_pixel_luma(c, code, n, ro, bo, rgba0, k);
    law_pixel_luma(c, code, n, ro, bo, rgba1, k);
    if 2 * k < cx {
        let p = n * (2 * k);
        assert((2 * k) / 2 == k && (2 * k + 1) / 2 == k);
        assert((2 * k) % 2 == 0 && (2 * k + 1) % 2 == 1);
        law_quad_chroma(
            c,
            code,
            n,
            ro,
            bo,
            rgba0,
            rgba1,
            2 * k,
            width,
            true,
            (rgba0[p + ro] + rgba0[p + n + ro] + rgba1[p + ro] + rgba1[p + n + ro] + 2) / 4,
            (rgba0[p + 1] + rgba0[p + n + 1] + rgba1[p + 1] + rgba1[p + n + 1] + 2) / 4,
            (rgba0[p + bo] + rgba0[p + n + bo] + rgba1[p + bo] + rgba1[p + n + bo] + 2) / 4,
        );
    }
}

// ---------------------------------------------------------------------------
// Frames
// ---------------------------------------------------------------------------

/// A byte of a source row lies `row` strides into the source.
proof fn lemma_source_byte(
    rgba: Seq<u8>,
    stride: int,
    row: int,
    width: int,
    height: int,
    n: int,
    at: int,
)
    requires
        n == 3 || n == 4,
        0 <= stride,
        0 <= row < height,
        (height - 1) * stride + n * width <= rgba.len(),
        0 <= at < n * width,
    ensures
        source_row(rgba, stride, row)[at] == rgba[row * stride + at],
{
    assert(0 <= row * stride <= (height - 1) * stride) by (nonlinear_arith)
        requires
            0 <= row < height,
            0 <= stride,
    ;
}

/// The bytes of a pixel lie within its row.
proof fn lemma_in_row(n: int, x: int, width: int)
    requires
        n == 3 || n == 4,
        0 <= x < width,
    ensures
        0 <= n * x,
        n * x + n <= n * width,
{
    if n == 3 {
        assert(n * x == 3 * x && n * width == 3 * width);
    } else {
        assert(n * x == 4 * x && n * width == 4 * width);
    }
}

/// The luma of the source pixel in row `row` and column `x`.
proof fn lemma_frame_luma(
    c: Coeffs8,
    code: u8,
    n: int,
    ro: int,
    bo: int,
    rgba: Seq<u8>,
    stride: int,
    width: int,
    height: int,
    row: int,
    x: int,
)
    requires
        (code == 0 && n == 3 && ro == 0 && bo == 2) || (code == 1 && n == 4 && ro == 0 && bo == 2)
            || (code == 2 && n == 4 && ro == 2 && bo == 0) || (code == 3 && n == 3 && ro == 2
            && bo == 0),
        0 <= stride,
        (height - 1) * stride + n * width <= rgba.len(),
        0 <= row < height,
        0 <= x < width,
    ensures
        ({
            let p = row * stride + n * x;
            y8_frame(c, YuvSourceChannels::decoded(code), rgba, stride)(row, x) == ((c.ry * rgba[p
                + ro] + c.gy * rgba[p + 1] + c.by * rgba[p + bo] + c.ay) / 256) % 256
        }),
{
    lemma_in_row(n, x, width);
    lemma_source_byte(rgba, stride, row, width, height, n, n * x + ro);
    lemma_source_byte(rgba, stride, row, width, height, n, n * x + 1);
    lemma_source_byte(rgba, stride, row, width, height, n, n * x + bo);
    law_pixel_luma(c, code, n, ro, bo, source_row(rgba, stride, row), x);
}

/// Row `row` and column `x` of the luma plane hold the weighted sum of the three bytes
/// of the pixel in row `row` and column `x` of the source, whatever the strides.
pub proof fn law_i420_luma(
    new: YuvPlanarImageMut<u8>,
    old: YuvPlanarImageMut<u8>,
    c: Coeffs8,
    code: u8,
    n: int,
    ro: int,
    bo: int,
    rgba: Seq<u8>,
    rgba_stride: u32,
    row: int,
    x: int,
)
    requires
        (code == 0 && n == 3 && ro == 0 && bo == 2) || (code == 1 && n == 4 && ro == 0 && bo == 2)
            || (code == 2 && n == 4 && ro == 2 && bo == 0) || (code == 3 && n == 3 && ro == 2
            && bo == 0),
        old.well_formed(),
        (old.height - 1) * rgba_stride + n * old.width <= rgba.len(),
        i420_frame(new, old, c, YuvSourceChannels::decoded(code), rgba, rgba_stride),
        0 <= row < old.height,
        0 <= x < old.width,
    ensures
        ({
            let p = row * rgba_stride + n * x;
            new.y_plane@[row * old.y_stride + x] == ((c.ry * rgba[p + ro] + c.gy * rgba[p + 1]
                + c.by * rgba[p + bo] + c.ay) / 256) % 256
        }),
{
    let (w, h, ss) = (old.width as int, old.height as int, rgba_stride as int);
    let f = y8_frame(c, YuvSourceChannels::decoded(code), rgba, ss);
    lemma_frame_luma(c, code, n, ro, bo, rgba, ss, w, h, row, x);
    law_plane_sample(new.y_plane@, old.y_plane@, old.y_stride as int, w, h, f, row, x);
}

/// The same holds of the luma plane of a bi-planar image.
pub proof fn law_nv12_luma(
    new: YuvBiPlanarImageMut<u8>,
    old: YuvBiPlanarImageMut<u8>,
    c: Coeffs8,
    code: u8,
    n: int,
    ro: int,
    bo: int,
    order: YuvNVOrder,
    rgba: Seq<u8>,
    rgba_stride: u32,
    row: int,
    x: int,
)
    requires
        (code == 0 && n == 3 && ro == 0 && bo == 2) || (code == 1 && n == 4 && ro == 0 && bo == 2)
            || (code == 2 && n == 4 && ro == 2 && bo == 0) || (code == 3 && n == 3 && ro == 2
            && bo == 0),
        old.well_formed(),
        (old.height - 1) * rgba_stride + n * old.width <= rgba.len(),
        nv12_frame(new, old, c, YuvSourceChannels::decoded(code), order, rgba, rgba_stride),
        0 <= row < old.height,
        0 <= x < old.width,
    ensures
        ({
            let p = row * rgba_stride + n * x;
            new.y_plane@[row * old.y_stride + x] == ((c.ry * rgba[p + ro] + c.gy * rgba[p + 1]
                + c.by * rgba[p + bo] + c.ay) / 256) % 256
        }),
{
    let (w, h, ss) = (old.width as int, old.height as int, rgba_stride as int);
    let f = y8_frame(c, YuvSourceChannels::decoded(code), rgba, ss);
    lemma_frame_luma(c, code, n, ro, bo, rgba, ss, w, h, row, x);
    law_plane_sample(new.y_plane@, old.y_plane@, old.y_stride as int, w, h, f, row, x);
}

/// The chroma of the quad in chroma row `i` and chroma column `j`.
proof fn lemma_frame_chroma(
    c: Coeffs8,
    code: u8,
    n: int,
    ro: int,
    bo: int,
    rgba: Seq<u8>,
    stride: int,
    width: int,
    height: int,
    i: int,
    j: int,
    r: int,
    g: int,
    b: int,
)
    requires
        (code == 0 && n == 3 && ro == 0 && bo == 2) || (code == 1 && n == 4 && ro == 0 && bo == 2)
            || (code == 2 && n == 4 && ro == 2 && bo == 0) || (code == 3 && n == 3 && ro == 2
            && bo == 0),
        0 <= stride,
        (height - 1) * stride + n * width <= rgba.len(),
        0 <= i,
        2 * i < height,
        0 <= j,
        2 * j < width,
        ({
            let p = 2 * i * stride + n * (2 * j);
            let q = p + stride;
            if 2 * j + 1 < width && 2 * i + 1 < height {
                &&& r == (rgba[p + ro] + rgba[p + n + ro] + rgba[q + ro] + rgba[q + n + ro] + 2) / 4
                &&& g == (rgba[p + 1] + rgba[p + n + 1] + rgba[q + 1] + rgba[q + n + 1] + 2) / 4
                &&& b == (rgba[p + bo] + rgba[p + n + bo] + rgba[q + bo] + rgba[q + n + bo] + 2) / 4
            } else if 2 * j + 1 < width {
                &&& r == (rgba[p + ro] + rgba[p + n + ro] + 1) / 2
                &&& g == (rgba[p + 1] + rgba[p + n + 1] + 1) / 2
                &&& b == (rgba[p + bo] + rgba[p + n + bo] + 1) / 2
            } else if 2 * i + 1 < height {
                &&& r == (rgba[p + ro] + rgba[q + ro] + 1) / 2
                &&& g == (rgba[p + 1] + rgba[q + 1] + 1) / 2
                &&& b == (rgba[p + bo] + rgba[q + bo] + 1) / 2
            } else {
                r == rgba[p + ro] && g == rgba[p + 1] && b == rgba[p + bo]
            }
        }),
    ensures
        u8_frame(c, YuvSourceChannels::decoded(code), rgba, stride, width, height)(i, j) == ((c.ru
            * r + c.gu * g + c.bu * b + c.auv) / 256) % 256,
        v8_frame(c, YuvSourceChannels::decoded(code), rgba, stride, width, height)(i, j) == ((c.rv
            * r + c.gv * g + c.bv * b + c.auv) / 256) % 256,
{
    let x = 2 * j;
    let (row0, row1) = (source_row(rgba, stride, 2 * i), source_row(rgba, stride, 2 * i + 1));
    assert((2 * i + 1) * stride == 2 * i * stride + stride) by (nonlinear_arith);
    assert(n * (x + 1) == n * x + n) by (nonlinear_arith);
    lemma_in_row(n, x, width);
    lemma_source_byte(rgba, stride, 2 * i, width, height, n, n * x + ro);
    lemma_source_byte(rgba, stride, 2 * i, width, height, n, n * x + 1);
    lemma_source_byte(rgba, stride, 2 * i, width, height, n, n * x + bo);
    if x + 1 < width {
        lemma_in_row(n, x + 1, width);
        lemma_source_byte(rgba, stride, 2 * i, width, height, n, n * x + n + ro);
        lemma_source_byte(rgba, stride, 2 * i, width, height, n, n * x + n + 1);
        lemma_source_byte(rgba, stride, 2 * i, width, height, n, n * x + n + bo);
    }
    if 2 * i + 1 < height {
        lemma_source_byte(rgba, stride, 2 * i + 1, width, height, n, n * x + ro);
        lemma_source_byte(rgba, stride, 2 * i + 1, width, height, n, n * x + 1);
        lemma_source_byte(rgba, stride, 2 * i + 1, width, height, n, n * x + bo);
        if x + 1 < width {
            lemma_source_byte(rgba, stride, 2 * i + 1, width, height, n, n * x + n + ro);
            lemma_source_byte(rgba, stride, 2 * i + 1, width, height, n, n * x + n + 1);
            lemma_source_byte(rgba, stride, 2 * i + 1, width, height, n, n * x + n + bo);
        }
    }
    law_quad_chroma(
        c,
        code,
        n,
        ro,
        bo,
        row0,
        row1,
        x,
        width,
        2 * i + 1 < height,
        r,
        g,
        b,
    );
}

/// Chroma row `i` and column `j` of the U and V planes weigh `r`, `g` and `b`, the
/// rounded means of the source pixels in rows `2 * i` and `2 * i + 1` and columns
/// `2 * j` and `2 * j + 1`, as far as the frame has them.
pub proof fn law_i420_chroma(
    new: YuvPlanarImageMut<u8>,
    old: YuvPlanarImageMut<u8>,
    c: Coeffs8,
    code: u8,
    n: int,
    ro: int,
    bo: int,
    rgba: Seq<u8>,
    rgba_stride: u32,
    i: int,
    j: int,
    r: int,
    g: int,
    b: int,
)
    requires
        (code == 0 && n == 3 && ro == 0 && bo == 2) || (code == 1 && n == 4 && ro == 0 && bo == 2)
            || (code == 2 && n == 4 && ro == 2 && bo == 0) || (code == 3 && n == 3 && ro == 2
            && bo == 0),
        old.well_formed(),
        (old.height - 1) * rgba_stride + n * old.width <= rgba.len(),
        i420_frame(new, old, c, YuvSourceChannels::decoded(code), rgba, rgba_stride),
        0 <= i,
        2 * i < old.height,
        0 <= j,
        2 * j < old.width,
        ({
            let p = 2 * i * rgba_stride + n * (2 * j);
            let q = p + rgba_stride;
            if 2 * j + 1 < old.width && 2 * i + 1 < old.height {
                &&& r == (rgba[p + ro] + rgba[p + n + ro] + rgba[q + ro] + rgba[q + n + ro] + 2) / 4
                &&& g == (rgba[p + 1] + rgba[p + n + 1] + rgba[q + 1] + rgba[q + n + 1] + 2) / 4
                &&& b == (rgba[p + bo] + rgba[p + n + bo] + rgba[q + bo] + rgba[q + n + bo] + 2) / 4
            } else if 2 * j + 1 < old.width {
                &&& r == (rgba[p + ro] + rgba[p + n + ro] + 1) / 2
                &&& g == (rgba[p + 1] + rgba[p + n + 1] + 1) / 2
                &&& b == (rgba[p + bo] + rgba[p + n + bo] + 1) / 2
            } else if 2 * i + 1 < old.height {
                &&& r == (rgba[p + ro] + rgba[q + ro] + 1) / 2
                &&& g == (rgba[p + 1] + rgba[q + 1] + 1) / 2
                &&& b == (rgba[p + bo] + rgba[q + bo] + 1) / 2
            } else {
                r == rgba[p + ro] && g == rgba[p + 1] && b == rgba[p + bo]
            }
        }),
    ensures
        new.u_plane@[i * old.u_stride + j] == ((c.ru * r + c.gu * g + c.bu * b + c.auv) / 256)
            % 256,
        new.v_plane@[i * old.v_stride + j] == ((c.rv * r + c.gv * g + c.bv * b + c.auv) / 256)
            % 256,
{
    let (w, h, ss) = (old.width as int, old.height as int, rgba_stride as int);
    let sc = YuvSourceChannels::decoded(code);
    let fu = u8_frame(c, sc, rgba, ss, w, h);
    let fv = v8_frame(c, sc, rgba, ss, w, h);
    let (cw, ch) = (half_up(w), half_up(h));
    lemma_frame_chroma(c, code, n, ro, bo, rgba, ss, w, h, i, j, r, g, b);
    law_plane_sample(new.u_plane@, old.u_plane@, old.u_stride as int, cw, ch, fu, i, j);
    law_plane_sample(new.v_plane@, old.v_plane@, old.v_stride as int, cw, ch, fv, i, j);
}

/// Chroma row `i` and pair `j` of a bi-planar image hold the same two samples, U first
/// for order 0 (NV12), V first for order 1 (NV21).
pub proof fn law_nv12_chroma(
    new: YuvBiPlanarImageMut<u8>,
    old: YuvBiPlanarImageMut<u8>,
    c: Coeffs8,
    code: u8,
    n: int,
    ro: int,
    bo: int,
    order: u8,
    rgba: Seq<u8>,
    rgba_stride: u32,
    i: int,
    j: int,
    r: int,
    g: int,
    b: int,
)
    requires
        (code == 0 && n == 3 && ro == 0 && bo == 2) || (code == 1 && n == 4 && ro == 0 && bo == 2)
            || (code == 2 && n == 4 && ro == 2 && bo == 0) || (code == 3 && n == 3 && ro == 2
            && bo == 0),
        order == 0 || order == 1,
        old.well_formed(),
        (old.height - 1) * rgba_stride + n * old.width <= rgba.len(),
        nv12_frame(
            new,
            old,
            c,
            YuvSourceChannels::decoded(code),
            YuvNVOrder::decoded(order),
            rgba,
            rgba_stride,
        ),
        0 <= i,
        2 * i < old.height,
        0 <= j,
        2 * j < old.width,
        ({
            let p = 2 * i * rgba_stride + n * (2 * j);
            let q = p + rgba_stride;
            if 2 * j + 1 < old.width && 2 * i + 1 < old.height {
                &&& r == (rgba[p + ro] + rgba[p + n + ro] + rgba[q + ro] + rgba[q + n + ro] + 2) / 4
                &&& g == (rgba[p + 1] + rgba[p + n + 1] + rgba[q + 1] + rgba[q + n + 1] + 2) / 4
                &&& b == (rgba[p + bo] + rgba[p + n + bo] + rgba[q + bo] + rgba[q + n + bo] + 2) / 4
            } else if 2 * j + 1 < old.width {
                &&& r == (rgba[p + ro] + rgba[p + n + ro] + 1) / 2
                &&& g == (rgba[p + 1] + rgba[p + n + 1] + 1) / 2
                &&& b == (rgba[p + bo] + rgba[p + n + bo] + 1) / 2
            } else if 2 * i + 1 < old.height {
                &&& r == (rgba[p + ro] + rgba[q + ro] + 1) / 2
                &&& g == (rgba[p + 1] + rgba[q + 1] + 1) / 2
                &&& b == (rgba[p + bo] + rgba[q + bo] + 1) / 2
            } else {
                r == rgba[p + ro] && g == rgba[p + 1] && b == rgba[p + bo]
            }
        }),
    ensures
        ({
            let k = i * old.uv_stride + 2 * j;
            let u = ((c.ru * r + c.gu * g + c.bu * b + c.auv) / 256) % 256;
            let v = ((c.rv * r + c.gv * g + c.bv * b + c.auv) / 256) % 256;
            (new.uv_plane@[k] as int, new.uv_plane@[k + 1] as int) == (if order == 0 {
                (u, v)
            } else {
                (v, u)
            })
        }),
{
    let (w, h, ss) = (old.width as int, old.height as int, rgba_stride as int);
    let sc = YuvSourceChannels::decoded(code);
    let f = uv8_frame(c, sc, YuvNVOrder::decoded(order), rgba, ss, w, h);
    let (cw, ch) = (2 * half_up(w), half_up(h));
    let s = old.uv_stride as int;
    lemma_frame_chroma(c, code, n, ro, bo, rgba, ss, w, h, i, j, r, g, b);
    law_plane_sample(new.uv_plane@, old.uv_plane@, s, cw, ch, f, i, 2 * j);
    law_plane_sample(new.uv_plane@, old.uv_plane@, s, cw, ch, f, i, 2 * j + 1);
    assert((2 * j) / 2 == j && (2 * j) % 2 == 0);
    assert((2 * j + 1) / 2 == j && (2 * j + 1) % 2 == 1);
}

/// Outside the rows and columns of a frame a plane keeps its bytes.
proof fn lemma_kept(
    new: Seq<u8>,
    old: Seq<u8>,
    stride: int,
    width: int,
    rows: int,
    f: spec_fn(int, int) -> u8,
    k: int,
)
    requires
        0 <= width,
        0 <= stride,
        0 <= rows,
        plane_ok(old.len(), stride, width, rows),
        plane_filled(new, old, pitch(stride, width, rows), width, 0, rows, f),
        0 <= k < old.len(),
        if rows <= 1 {
            width * rows <= k
        } else {
            width <= k % stride || rows <= k / stride
        },
    ensures
        new.len() == old.len(),
        new[k] == old[k],
{
    if rows == 1 {
        let p = pitch(stride, width, rows);
        assert(width * rows == width) by (nonlinear_arith)
            requires
                rows == 1,
        ;
        if p > 0 && k / p == 0 {
            vstd::arithmetic::div_mod::lemma_fundamental_div_mod(k, p);
            assert(p * (k / p) == 0);
        }
    }
}

/// A planar conversion keeps the length of every plane and all bytes outside the
/// frame: those behind the columns of a row and those behind the last row. In a plane
/// of one row that is all from the width on.
pub proof fn law_i420_keeps(
    new: YuvPlanarImageMut<u8>,
    old: YuvPlanarImageMut<u8>,
    c: Coeffs8,
    sc: YuvSourceChannels,
    rgba: Seq<u8>,
    rgba_stride: u32,
    k: int,
)
    requires
        old.well_formed(),
        i420_frame(new, old, c, sc, rgba, rgba_stride),
        0 <= k,
    ensures
        new.width == old.width && new.height == old.height,
        new.y_stride == old.y_stride && new.u_stride == old.u_stride && new.v_stride
            == old.v_stride,
        new.y_plane@.len() == old.y_plane@.len(),
        new.u_plane@.len() == old.u_plane@.len(),
        new.v_plane@.len() == old.v_plane@.len(),
        ({
            let (w, h) = (old.width as int, old.height as int);
            k < old.y_plane@.len() && (if h <= 1 {
                w * h <= k
            } else {
                w <= k % (old.y_stride as int) || h <= k / (old.y_stride as int)
            }) ==> new.y_plane@[k] == old.y_plane@[k]
        }),
        ({
            let (w, h) = ((old.width + 1) / 2, (old.height + 1) / 2);
            k < old.u_plane@.len() && (if h <= 1 {
                w * h <= k
            } else {
                w <= k % (old.u_stride as int) || h <= k / (old.u_stride as int)
            }) ==> new.u_plane@[k] == old.u_plane@[k]
        }),
        ({
            let (w, h) = ((old.width + 1) / 2, (old.height + 1) / 2);
            k < old.v_plane@.len() && (if h <= 1 {
                w * h <= k
            } else {
                w <= k % (old.v_stride as int) || h <= k / (old.v_stride as int)
            }) ==> new.v_plane@[k] == old.v_plane@[k]
        }),
{
    let (w, h, ss) = (old.width as int, old.height as int, rgba_stride as int);
    let (cw, ch) = (half_up(w), half_up(h));
    let fy = y8_frame(c, sc, rgba, ss);
    let fu = u8_frame(c, sc, rgba, ss, w, h);
    let fv = v8_frame(c, sc, rgba, ss, w, h);
    let (ys, us, vs) = (old.y_stride as int, old.u_stride as int, old.v_stride as int);
    if k < old.y_plane@.len() && (if h <= 1 {
        w * h <= k
    } else {
        w <= k % ys || h <= k / ys
    }) {
        lemma_kept(new.y_plane@, old.y_plane@, ys, w, h, fy, k);
    }
    if k < old.u_plane@.len() && (if ch <= 1 {
        cw * ch <= k
    } else {
        cw <= k % us || ch <= k / us
    }) {
        lemma_kept(new.u_plane@, old.u_plane@, us, cw, ch, fu, k);
    }
    if k < old.v_plane@.len() && (if ch <= 1 {
        cw * ch <= k
    } else {
        cw <= k % vs || ch <= k / vs
    }) {
        lemma_kept(new.v_plane@, old.v_plane@, vs, cw, ch, fv, k);
    }
}

/// A bi-planar conversion keeps the same; its chroma rows take two bytes for every
/// quad.
pub proof fn law_nv12_keeps(
    new: YuvBiPlanarImageMut<u8>,
    old: YuvBiPlanarImageMut<u8>,
    c: Coeffs8,
    sc: YuvSourceChannels,
    order: YuvNVOrder,
    rgba: Seq<u8>,
    rgba_stride: u32,
    k: int,
)
    requires
        old.well_formed(),
        nv12_frame(new, old, c, sc, order, rgba, rgba_stride),
        0 <= k,
    ensures
        new.width == old.width && new.height == old.height,
        new.y_stride == old.y_stride && new.uv_stride == old.uv_stride,
        new.y_plane@.len() == old.y_plane@.len(),
        new.uv_plane@.len() == old.uv_plane@.len(),
        ({
            let (w, h) = (old.width as int, old.height as int);
            k < old.y_plane@.len() && (if h <= 1 {
                w * h <= k
            } else {
                w <= k % (old.y_stride as int) || h <= k / (old.y_stride as int)
            }) ==> new.y_plane@[k] == old.y_plane@[k]
        }),
        ({
            let (w, h) = (2 * ((old.width + 1) / 2), (old.height + 1) / 2);
            k < old.uv_plane@.len() && (if h <= 1 {
                w * h <= k
            } else {
                w <= k % (old.uv_stride as int) || h <= k / (old.uv_stride as int)
            }) ==> new.uv_plane@[k] == old.uv_plane@[k]
        }),
{
    let (w, h, ss) = (old.width as int, old.height as int, rgba_stride as int);
    let (cw, ch) = (2 * half_up(w), half_up(h));
    let fy = y8_frame(c, sc, rgba, ss);
    let fuv = uv8_frame(c, sc, order, rgba, ss, w, h);
    let (ys, uvs) = (old.y_stride as int, old.uv_stride as int);
    if k < old.y_plane@.len() && (if h <= 1 {
        w * h <= k
    } else {
        w <= k % ys || h <= k / ys
    }) {
        lemma_kept(new.y_plane@, old.y_plane@, ys, w, h, fy, k);
    }
    if k < old.uv_plane@.len() && (if ch <= 1 {
        cw * ch <= k
    } else {
        cw <= k % uvs || ch <= k / uvs
    }) {
        lemma_kept(new.uv_plane@, old.uv_plane@, uvs, cw, ch, fuv, k);
    }
}

// ---------------------------------------------------------------------------
// Backends
// ---------------------------------------------------------------------------

/// Which vector path a backend may take: `Auto` any that the CPU has, a forced one
/// only its own, and the 256-bit one only on four-byte pixels. A forced backend is
/// absent exactly where the CPU lacks its extension, and then no path runs.
pub proof fn law_backend_choice(backend: Simd8, cpu: CpuFeatures, sc: YuvSourceChannels)
    ensures
        (runs_lsx(backend, cpu) || runs_lasx(backend, cpu, sc)) == (match backend {
            Simd8::Auto => cpu.lsx || (cpu.lasx && (sc is Rgba || sc is Bgra)),
            Simd8::Lsx => cpu.lsx,
            Simd8::Lasx => cpu.lasx && (sc is Rgba || sc is Bgra),
        }),
        forced_absent(backend, cpu) == (match backend {
            Simd8::Auto => false,
            Simd8::Lsx => !cpu.lsx,
            Simd8::Lasx => !cpu.lasx,
        }),
        forced_absent(backend, cpu) ==> !runs_lsx(backend, cpu) && !runs_lasx(backend, cpu, sc),
{
}

} // verus!
