//! Laws of the conversion: what holds of the coefficient tables, of single samples,
//! of the row kernels and of whole frames, whatever the input.

use super::arith::sat_u8;
use super::convert8::{is_byte, quad_average, table8, u8_at, v8_at, y8_at, Coeffs8};
use super::frame8::{
    i420_frame, nv12_frame, plane_filled, u8_frame, uv8_frame, v8_frame, y8_frame,
};
use super::utils::{blocks_end, cb13, cr13, fixed13, fixed_bias, y13};
use super::{has_lasx, has_lsx, simd_applies, CpuFeatures};
use crate::images::{
    half_up, lemma_pitch, pitch, plane_ok, YuvBiPlanarImageMut, YuvPlanarImageMut,
};
use crate::yuv_support::{
    CbCrForwardTransform, YuvChromaRange, YuvNVOrder, YuvRange, YuvSourceChannels,
    YuvStandardMatrix,
};
use vstd::prelude::*;

verus! {

// ---------------------------------------------------------------------------
// CPU features
// ---------------------------------------------------------------------------

/// A CPU that reports LASX reports LSX too, so that the row kernels run, at their
/// precision, exactly where LSX is there.
pub proof fn law_lasx_implies_lsx(cpu: CpuFeatures)
    requires
        cpu.coherent(),
    ensures
        has_lasx(&cpu) ==> has_lsx(&cpu),
        simd_applies::<13>(cpu) <==> has_lsx(&cpu),
{
}

// ---------------------------------------------------------------------------
// Coefficient tables
// ---------------------------------------------------------------------------

/// `c` is the tabulated set of the given matrix and range.
pub open spec fn tabulated(c: Coeffs8, matrix: YuvStandardMatrix, range: YuvRange) -> bool {
    table8(matrix, range) == Some(c)
}

/// The luma bias is `16*256 + 128` for limited range and `128` for full range, the
/// chroma bias is always `128*256`, and every weight fits 16 signed bits.
pub proof fn law_table_shape(c: Coeffs8, matrix: YuvStandardMatrix, range: YuvRange)
    requires
        tabulated(c, matrix, range),
    ensures
        c.ay == (if range is Limited {
            16int * 256 + 128
        } else {
            128int
        }),
        c.auv == 128 * 256,
        i16::MIN <= c.ry <= i16::MAX && i16::MIN <= c.gy <= i16::MAX && i16::MIN <= c.by
            <= i16::MAX,
        i16::MIN <= c.ru <= i16::MAX && i16::MIN <= c.gu <= i16::MAX && i16::MIN <= c.bu
            <= i16::MAX,
        i16::MIN <= c.rv <= i16::MAX && i16::MIN <= c.gv <= i16::MAX && i16::MIN <= c.bv
            <= i16::MAX,
{
}

/// The luma weights are bytes and add up to 220 (limited) or 256 (full); the chroma
/// weights add up to zero, with the single positive one 112 or 128.
pub proof fn law_table_sums(c: Coeffs8, matrix: YuvStandardMatrix, range: YuvRange)
    requires
        tabulated(c, matrix, range),
    ensures
        is_byte(c.ry as int) && is_byte(c.gy as int) && is_byte(c.by as int),
        c.ry + c.gy + c.by == (if range is Limited {
            220
        } else {
            256int
        }),
        c.ru <= 0 && c.gu <= 0 && c.gv <= 0 && c.bv <= 0,
        c.bu == c.rv == (if range is Limited {
            112
        } else {
            128int
        }),
        c.ru + c.gu + c.bu == 0,
        c.rv + c.gv + c.bv == 0,
{
}

/// The weights are those of their own matrix. With the luma constants Kr, Kg and Kb
/// of BT.601 (0.299, 0.587, 0.114), BT.709 (0.2126, 0.7152, 0.0722) and BT.2020
/// (0.2627, 0.678, 0.0593), in ten-thousandths below, and a luma scale of 220 (limited)
/// or 256 (full) and a chroma scale `h` of 112 or 128:
///
/// - red and green luma weigh the scale times Kr and Kg, rounded to the nearest, and
///   blue has the rest of the scale; BT.2020 limited moves one unit from green to red;
/// - U weighs red by `-h * Kr / (1 - Kb)`, rounded to the nearest, blue by `h`, and
///   green has the rest to zero;
/// - V weighs blue by `-h * Kb / (1 - Kr)`, rounded to the nearest, red by `h`, and
///   green has the rest to zero.
pub proof fn law_table_follows_matrix(c: Coeffs8, matrix: YuvStandardMatrix, range: YuvRange)
    requires
        tabulated(c, matrix, range),
    ensures
        matrix is Bt601 || matrix is Bt709 || matrix is Bt2020,
        ({
            let (scale, h): (int, int) = if range is Limited {
                (220, 112)
            } else {
                (256, 128)
            };
            let moved: int = if range is Limited {
                1
            } else {
                0
            };
            &&& matrix is Bt601 ==> {
                &&& -5000 <= 10000 * c.ry - scale * 2990 <= 5000
                &&& -5000 <= 10000 * c.gy - scale * 5870 <= 5000
                &&& -10000 < 10000 * c.by - scale * 1140 < 10000
                &&& -8860 <= 2 * (8860 * c.ru + h * 2990) <= 8860
                &&& -7010 <= 2 * (7010 * c.bv + h * 1140) <= 7010
            }
            &&& matrix is Bt709 ==> {
                &&& -5000 <= 10000 * c.ry - scale * 2126 <= 5000
                &&& -5000 <= 10000 * c.gy - scale * 7152 <= 5000
                &&& -10000 < 10000 * c.by - scale * 722 < 10000
                &&& -9278 <= 2 * (9278 * c.ru + h * 2126) <= 9278
                &&& -7874 <= 2 * (7874 * c.bv + h * 722) <= 7874
            }
            &&& matrix is Bt2020 ==> {
                &&& -5000 <= 10000 * (c.ry - moved) - scale * 2627 <= 5000
                &&& -5000 <= 10000 * (c.gy + moved) - scale * 6780 <= 5000
                &&& -10000 < 10000 * c.by - scale * 593 < 10000
                &&& -9407 <= 2 * (9407 * c.ru + h * 2627) <= 9407
                &&& -7373 <= 2 * (7373 * c.bv + h * 593) <= 7373
            }
            &&& c.ry + c.gy + c.by == scale
            &&& c.bu == h && c.ru + c.gu + c.bu == 0
            &&& c.rv == h && c.rv + c.gv + c.bv == 0
        }),
{
}

/// No two matrices and ranges share a set.
pub proof fn law_tables_differ(
    a: Coeffs8,
    b: Coeffs8,
    ma: YuvStandardMatrix,
    ra: YuvRange,
    mb: YuvStandardMatrix,
    rb: YuvRange,
)
    requires
        tabulated(a, ma, ra),
        tabulated(b, mb, rb),
        ma != mb || ra != rb,
    ensures
        (a.ry, a.gy, a.by, a.ay) != (b.ry, b.gy, b.by, b.ay),
        (a.ru, a.gu, a.bu) != (b.ru, b.gu, b.bu),
        (a.rv, a.gv, a.bv) != (b.rv, b.gv, b.bv),
{
}

/// A weight times a byte lies between zero and 255 times the weight.
proof fn lemma_scaled(k: int, x: int)
    by (nonlinear_arith)
    requires
        0 <= x < 256,
    ensures
        k >= 0 ==> 0 <= k * x <= 255 * k,
        k <= 0 ==> 255 * k <= k * x <= 0,
{
}

/// The bounds of all nine products of a pixel.
proof fn lemma_products(c: Coeffs8, r: int, g: int, b: int)
    requires
        is_byte(r),
        is_byte(g),
        is_byte(b),
    ensures
        c.ry >= 0 ==> 0 <= c.ry * r <= 255 * c.ry,
        c.gy >= 0 ==> 0 <= c.gy * g <= 255 * c.gy,
        c.by >= 0 ==> 0 <= c.by * b <= 255 * c.by,
        c.ru <= 0 ==> 255 * c.ru <= c.ru * r <= 0,
        c.gu <= 0 ==> 255 * c.gu <= c.gu * g <= 0,
        c.bu >= 0 ==> 0 <= c.bu * b <= 255 * c.bu,
        c.rv >= 0 ==> 0 <= c.rv * r <= 255 * c.rv,
        c.gv <= 0 ==> 255 * c.gv <= c.gv * g <= 0,
        c.bv <= 0 ==> 255 * c.bv <= c.bv * b <= 0,
{
    lemma_scaled(c.ry as int, r);
    lemma_scaled(c.gy as int, g);
    lemma_scaled(c.by as int, b);
    lemma_scaled(c.ru as int, r);
    lemma_scaled(c.gu as int, g);
    lemma_scaled(c.bu as int, b);
    lemma_scaled(c.rv as int, r);
    lemma_scaled(c.gv as int, g);
    lemma_scaled(c.bv as int, b);
}

/// With tabulated coefficients every partial sum of luma, taken in the order bias,
/// R, G, B, stays in `[0, 65536)`.
pub proof fn law_luma_partials(
    c: Coeffs8,
    matrix: YuvStandardMatrix,
    range: YuvRange,
    r: int,
    g: int,
    b: int,
)
    requires
        tabulated(c, matrix, range),
        is_byte(r),
        is_byte(g),
        is_byte(b),
    ensures
        0 <= c.ay + c.ry * r < 0x1_0000,
        0 <= c.ay + c.ry * r + c.gy * g < 0x1_0000,
        0 <= c.ay + c.ry * r + c.gy * g + c.by * b < 0x1_0000,
{
    law_table_shape(c, matrix, range);
    law_table_sums(c, matrix, range);
    lemma_products(c, r, g, b);
}

/// With tabulated coefficients every partial sum of U and of V, taken in the order
/// bias, R, G, B, stays in `[0, 65536)`.
pub proof fn law_chroma_partials(
    c: Coeffs8,
    matrix: YuvStandardMatrix,
    range: YuvRange,
    r: int,
    g: int,
    b: int,
)
    requires
        tabulated(c, matrix, range),
        is_byte(r),
        is_byte(g),
        is_byte(b),
    ensures
        0 <= c.auv + c.ru * r < 0x1_0000,
        0 <= c.auv + c.ru * r + c.gu * g < 0x1_0000,
        0 <= c.auv + c.ru * r + c.gu * g + c.bu * b < 0x1_0000,
        0 <= c.auv + c.rv * r < 0x1_0000,
        0 <= c.auv + c.rv * r + c.gv * g < 0x1_0000,
        0 <= c.auv + c.rv * r + c.gv * g + c.bv * b < 0x1_0000,
{
    law_table_shape(c, matrix, range);
    law_table_sums(c, matrix, range);
    lemma_products(c, r, g, b);
}

/// With tabulated coefficients no sample is truncated: each is its weighted sum
/// divided by 256, rounded down.
pub proof fn law_samples_are_quotients(
    c: Coeffs8,
    matrix: YuvStandardMatrix,
    range: YuvRange,
    r: int,
    g: int,
    b: int,
)
    requires
        tabulated(c, matrix, range),
        is_byte(r),
        is_byte(g),
        is_byte(b),
    ensures
        c.y(r, g, b) == (c.ry * r + c.gy * g + c.by * b + c.ay) / 256,
        c.u(r, g, b) == (c.ru * r + c.gu * g + c.bu * b + c.auv) / 256,
        c.v(r, g, b) == (c.rv * r + c.gv * g + c.bv * b + c.auv) / 256,
{
    law_luma_partials(c, matrix, range, r, g, b);
    law_chroma_partials(c, matrix, range, r, g, b);
}

/// Limited range keeps luma in `16..=235` and chroma in `16..=240`.
pub proof fn law_limited_excursion(
    c: Coeffs8,
    matrix: YuvStandardMatrix,
    r: int,
    g: int,
    b: int,
)
    requires
        tabulated(c, matrix, YuvRange::Limited),
        is_byte(r),
        is_byte(g),
        is_byte(b),
    ensures
        16 <= c.y(r, g, b) <= 235,
        16 <= c.u(r, g, b) <= 240,
        16 <= c.v(r, g, b) <= 240,
{
    law_table_shape(c, matrix, YuvRange::Limited);
    law_table_sums(c, matrix, YuvRange::Limited);
    lemma_products(c, r, g, b);
    law_samples_are_quotients(c, matrix, YuvRange::Limited, r, g, b);
}

proof fn lemma_common_factor(a: int, b: int, c: int, x: int)
    by (nonlinear_arith)
    ensures
        a * x + b * x + c * x == (a + b + c) * x,
        a + b + c == 0 ==> a * x + b * x + c * x == 0,
{
}

proof fn lemma_scaled_order(k: int, x: int, y: int)
    by (nonlinear_arith)
    requires
        k >= 0,
        x <= y,
    ensures
        k * x <= k * y,
{
}

/// A grey pixel has neutral chroma, and luma runs from the black level to the white
/// level as grey does.
pub proof fn law_grey_is_neutral(
    c: Coeffs8,
    matrix: YuvStandardMatrix,
    range: YuvRange,
    grey: int,
)
    requires
        tabulated(c, matrix, range),
        is_byte(grey),
    ensures
        c.u(grey, grey, grey) == 128,
        c.v(grey, grey, grey) == 128,
        grey == 0 ==> c.y(grey, grey, grey) == (if range is Limited {
            16
        } else {
            0int
        }),
        grey == 255 ==> c.y(grey, grey, grey) == (if range is Limited {
            235
        } else {
            255int
        }),
{
    law_table_shape(c, matrix, range);
    law_table_sums(c, matrix, range);
    lemma_common_factor(c.ry as int, c.gy as int, c.by as int, grey);
    lemma_common_factor(c.ru as int, c.gu as int, c.bu as int, grey);
    lemma_common_factor(c.rv as int, c.gv as int, c.bv as int, grey);
    law_samples_are_quotients(c, matrix, range, grey, grey, grey);
}

/// Raising a channel never lowers luma.
pub proof fn law_luma_is_monotone(
    c: Coeffs8,
    matrix: YuvStandardMatrix,
    range: YuvRange,
    low: (int, int, int),
    high: (int, int, int),
)
    requires
        tabulated(c, matrix, range),
        0 <= low.0 <= high.0 < 256,
        0 <= low.1 <= high.1 < 256,
        0 <= low.2 <= high.2 < 256,
    ensures
        c.y(low.0, low.1, low.2) <= c.y(high.0, high.1, high.2),
{
    law_table_sums(c, matrix, range);
    lemma_scaled_order(c.ry as int, low.0, high.0);
    lemma_scaled_order(c.gy as int, low.1, high.1);
    lemma_scaled_order(c.by as int, low.2, high.2);
    law_samples_are_quotients(c, matrix, range, low.0, low.1, low.2);
    law_samples_are_quotients(c, matrix, range, high.0, high.1, high.2);
}

// ---------------------------------------------------------------------------
// Quads
// ---------------------------------------------------------------------------

/// An average lies between any bounds of the samples that count.
pub proof fn law_average_is_between(
    s00: int,
    s01: int,
    s10: int,
    s11: int,
    two_cols: bool,
    two_rows: bool,
    lo: int,
    hi: int,
)
    requires
        lo <= s00 <= hi,
        two_cols ==> lo <= s01 <= hi,
        two_rows ==> lo <= s10 <= hi,
        two_cols && two_rows ==> lo <= s11 <= hi,
    ensures
        lo <= quad_average(s00, s01, s10, s11, two_cols, two_rows) <= hi,
{
}

/// A pixel repeated over a quad averages to itself, with and without odd edges.
pub proof fn law_flat_quad(s: int, two_cols: bool, two_rows: bool)
    ensures
        quad_average(s, s, s, s, two_cols, two_rows) == s,
{
}

/// Samples depend on the colours of the pixels alone, not on the layout that holds
/// them: quads with the same red, green and blue where they have pixels encode
/// alike.
pub proof fn law_layout_is_irrelevant(
    c: Coeffs8,
    a: YuvSourceChannels,
    a0: Seq<u8>,
    a1: Seq<u8>,
    b: YuvSourceChannels,
    b0: Seq<u8>,
    b1: Seq<u8>,
    x: int,
    width: int,
    two_rows: bool,
)
    requires
        x < width,
        forall|i: int|
            x <= i <= x + 1 && i < width ==> #[trigger] a.red(a0, i) == b.red(b0, i) && a.green(
                a0,
                i,
            ) == b.green(b0, i) && a.blue(a0, i) == b.blue(b0, i),
        two_rows ==> forall|i: int|
            x <= i <= x + 1 && i < width ==> #[trigger] a.red(a1, i) == b.red(b1, i) && a.green(
                a1,
                i,
            ) == b.green(b1, i) && a.blue(a1, i) == b.blue(b1, i),
    ensures
        y8_at(c, a, a0, x) == y8_at(c, b, b0, x),
        u8_at(c, a, a0, a1, x, width, two_rows) == u8_at(c, b, b0, b1, x, width, two_rows),
        v8_at(c, a, a0, a1, x, width, two_rows) == v8_at(c, b, b0, b1, x, width, two_rows),
{
    assert(a.red(a0, x) == b.red(b0, x));
    if x + 1 < width {
        assert(a.red(a0, x + 1) == b.red(b0, x + 1));
    }
    if two_rows {
        assert(a.red(a1, x) == b.red(b1, x));
        if x + 1 < width {
            assert(a.red(a1, x + 1) == b.red(b1, x + 1));
        }
    }
}

// ---------------------------------------------------------------------------
// 13-bit samples
// ---------------------------------------------------------------------------

/// Where the scaled sum is a byte, the saturating 13-bit sample is bit-identical to
/// the truncating scalar formula.
pub proof fn law_fixed13_matches_scalar(
    bias: int,
    r: int,
    g: int,
    b: int,
    kr: int,
    kg: int,
    kb: int,
)
    requires
        0 <= bias + r * kr + g * kg + b * kb < 256 * 8192,
    ensures
        sat_u8(fixed13(bias, r, g, b, kr, kg, kb)) == (bias + r * kr + g * kg + b * kb) / 8192,
        sat_u8(fixed13(bias, r, g, b, kr, kg, kb)) == ((bias + r * kr + g * kg + b * kb) / 8192)
            % 256,
{
    reveal(fixed13);
}

/// Sums out of the byte range saturate: below zero to 0, above to 255.
pub proof fn law_fixed13_saturates(
    bias: int,
    r: int,
    g: int,
    b: int,
    kr: int,
    kg: int,
    kb: int,
)
    requires
        i32::MIN <= bias + r * kr + g * kg + b * kb <= i32::MAX,
    ensures
        bias + r * kr + g * kg + b * kb < 0 ==> sat_u8(fixed13(bias, r, g, b, kr, kg, kb)) == 0,
        bias + r * kr + g * kg + b * kb >= 256 * 8192 ==> sat_u8(
            fixed13(bias, r, g, b, kr, kg, kb),
        ) == 255,
{
    reveal(fixed13);
}

/// The 13-bit bytes are bit-identical to the truncating scalar formulas
/// `(r*kr + g*kg + b*kb + bias) >> 13` wherever those do not leave the byte range.
pub proof fn law_samples13_match_scalar(
    r: int,
    g: int,
    b: int,
    range: YuvChromaRange,
    t: CbCrForwardTransform<i32>,
)
    ensures
        ({
            let sum = fixed_bias(range.bias_y, 13) + r * t.yr + g * t.yg + b * t.yb;
            0 <= sum < 256 * 8192 ==> y13(r, g, b, range, t) == (sum / 8192) % 256
        }),
        ({
            let sum = fixed_bias(range.bias_uv, 13) + r * t.cb_r + g * t.cb_g + b * t.cb_b;
            0 <= sum < 256 * 8192 ==> sat_u8(cb13(r, g, b, range, t)) == (sum / 8192) % 256
        }),
        ({
            let sum = fixed_bias(range.bias_uv, 13) + r * t.cr_r + g * t.cr_g + b * t.cr_b;
            0 <= sum < 256 * 8192 ==> sat_u8(cr13(r, g, b, range, t)) == (sum / 8192) % 256
        }),
{
    reveal(fixed13);
}

// ---------------------------------------------------------------------------
// Row kernels
// ---------------------------------------------------------------------------

/// The kernels cover whole blocks and leave fewer than 16 columns to the caller.
pub proof fn law_blocks_cover(start: int, width: int)
    requires
        start <= width,
    ensures
        start <= blocks_end(start, width) <= width,
        (blocks_end(start, width) - start) % 16 == 0,
        width - blocks_end(start, width) < 16,
        blocks_end(blocks_end(start, width), width) == blocks_end(start, width),
{
}

// ---------------------------------------------------------------------------
// Frames
// ---------------------------------------------------------------------------

/// Where a frame has been written, row `row` and column `x` of the plane hold the
/// sample of that place.
pub proof fn law_plane_sample(
    new: Seq<u8>,
    old: Seq<u8>,
    stride: int,
    width: int,
    rows: int,
    f: spec_fn(int, int) -> u8,
    row: int,
    x: int,
)
    requires
        plane_ok(old.len(), stride, width, rows),
        plane_filled(new, old, pitch(stride, width, rows), width, 0, rows, f),
        0 <= row < rows,
        0 <= x < width,
    ensures
        0 <= row * stride + x < new.len(),
        new[row * stride + x] == f(row, x),
{
    lemma_pitch(old.len(), stride, width, rows, row);
    lemma_place(pitch(stride, width, rows), width, rows, row, x);
}

/// What lies behind the columns of a frame, or behind its rows, keeps its value.
pub proof fn law_padding_is_kept(
    new: Seq<u8>,
    old: Seq<u8>,
    stride: int,
    width: int,
    rows: int,
    f: spec_fn(int, int) -> u8,
    row: int,
    x: int,
)
    requires
        0 <= width,
        plane_filled(new, old, pitch(stride, width, rows), width, 0, rows, f),
        0 <= row,
        0 <= x < pitch(stride, width, rows),
        width <= x || rows <= row,
        row * pitch(stride, width, rows) + x < old.len(),
    ensures
        new[row * pitch(stride, width, rows) + x] == old[row * pitch(stride, width, rows) + x],
{
    let p = pitch(stride, width, rows);
    vstd::arithmetic::div_mod::lemma_fundamental_div_mod_converse(row * p + x, p, row, x);
    assert(0 <= row * p) by (nonlinear_arith)
        requires
            0 <= row,
            0 < p,
    ;
}

/// The position of a sample determines its row and column.
proof fn lemma_place(stride: int, width: int, rows: int, row: int, x: int)
    requires
        width <= stride,
        0 <= row < rows,
        0 <= x < width,
    ensures
        0 <= row * stride,
        row * stride <= (rows - 1) * stride,
        (row * stride + x) / stride == row,
        (row * stride + x) % stride == x,
{
    vstd::arithmetic::div_mod::lemma_fundamental_div_mod_converse(
        row * stride + x,
        stride,
        row,
        x,
    );
    assert(0 <= row * stride <= (rows - 1) * stride) by (nonlinear_arith)
        requires
            0 <= row < rows,
            0 < stride,
    ;
}

/// The planes of a converted frame depend on the source, the coefficients and what
/// the planes held before, and on nothing else: all backends that convert, on all
/// CPUs, agree on every byte.
pub proof fn law_i420_backends_agree(
    a: YuvPlanarImageMut<u8>,
    a_old: YuvPlanarImageMut<u8>,
    b: YuvPlanarImageMut<u8>,
    b_old: YuvPlanarImageMut<u8>,
    c: Coeffs8,
    sc: YuvSourceChannels,
    rgba: Seq<u8>,
    rgba_stride: u32,
)
    requires
        a_old.same_layout(b_old),
        a_old.y_plane@ == b_old.y_plane@,
        a_old.u_plane@ == b_old.u_plane@,
        a_old.v_plane@ == b_old.v_plane@,
        i420_frame(a, a_old, c, sc, rgba, rgba_stride),
        i420_frame(b, b_old, c, sc, rgba, rgba_stride),
    ensures
        a.same_layout(b),
        a.y_plane@ == b.y_plane@,
        a.u_plane@ == b.u_plane@,
        a.v_plane@ == b.v_plane@,
{
    assert(a.y_plane@ =~= b.y_plane@);
    assert(a.u_plane@ =~= b.u_plane@);
    assert(a.v_plane@ =~= b.v_plane@);
}

/// All backends, on all CPUs, agree on every byte of a bi-planar frame.
pub proof fn law_nv12_backends_agree(
    a: YuvBiPlanarImageMut<u8>,
    a_old: YuvBiPlanarImageMut<u8>,
    b: YuvBiPlanarImageMut<u8>,
    b_old: YuvBiPlanarImageMut<u8>,
    c: Coeffs8,
    sc: YuvSourceChannels,
    order: YuvNVOrder,
    rgba: Seq<u8>,
    rgba_stride: u32,
)
    requires
        a_old.same_layout(b_old),
        a_old.y_plane@ == b_old.y_plane@,
        a_old.uv_plane@ == b_old.uv_plane@,
        nv12_frame(a, a_old, c, sc, order, rgba, rgba_stride),
        nv12_frame(b, b_old, c, sc, order, rgba, rgba_stride),
    ensures
        a.same_layout(b),
        a.y_plane@ == b.y_plane@,
        a.uv_plane@ == b.uv_plane@,
{
    assert(a.y_plane@ =~= b.y_plane@);
    assert(a.uv_plane@ =~= b.uv_plane@);
}

/// Converting the same source again changes nothing.
pub proof fn law_i420_is_idempotent(
    a: YuvPlanarImageMut<u8>,
    b: YuvPlanarImageMut<u8>,
    d: YuvPlanarImageMut<u8>,
    c: Coeffs8,
    sc: YuvSourceChannels,
    rgba: Seq<u8>,
    rgba_stride: u32,
)
    requires
        i420_frame(b, a, c, sc, rgba, rgba_stride),
        i420_frame(d, b, c, sc, rgba, rgba_stride),
    ensures
        d.y_plane@ == b.y_plane@,
        d.u_plane@ == b.u_plane@,
        d.v_plane@ == b.v_plane@,
{
    assert(d.y_plane@ =~= b.y_plane@);
    assert(d.u_plane@ =~= b.u_plane@);
    assert(d.v_plane@ =~= b.v_plane@);
}

/// Converting the same source again changes nothing in a bi-planar image either.
pub proof fn law_nv12_is_idempotent(
    a: YuvBiPlanarImageMut<u8>,
    b: YuvBiPlanarImageMut<u8>,
    d: YuvBiPlanarImageMut<u8>,
    c: Coeffs8,
    sc: YuvSourceChannels,
    order: YuvNVOrder,
    rgba: Seq<u8>,
    rgba_stride: u32,
)
    requires
        nv12_frame(b, a, c, sc, order, rgba, rgba_stride),
        nv12_frame(d, b, c, sc, order, rgba, rgba_stride),
    ensures
        d.y_plane@ == b.y_plane@,
        d.uv_plane@ == b.uv_plane@,
{
    assert(d.y_plane@ =~= b.y_plane@);
    assert(d.uv_plane@ =~= b.uv_plane@);
}

/// Both layouts of one source carry the same luma.
pub proof fn law_layouts_share_luma(
    p: YuvPlanarImageMut<u8>,
    p_old: YuvPlanarImageMut<u8>,
    q: YuvBiPlanarImageMut<u8>,
    q_old: YuvBiPlanarImageMut<u8>,
    c: Coeffs8,
    sc: YuvSourceChannels,
    order: YuvNVOrder,
    rgba: Seq<u8>,
    rgba_stride: u32,
    row: int,
    x: int,
)
    requires
        p_old.well_formed(),
        q_old.well_formed(),
        p_old.width == q_old.width,
        p_old.height == q_old.height,
        i420_frame(p, p_old, c, sc, rgba, rgba_stride),
        nv12_frame(q, q_old, c, sc, order, rgba, rgba_stride),
        0 <= row < p_old.height,
        0 <= x < p_old.width,
    ensures
        q.y_plane@[row * q.y_stride + x] == p.y_plane@[row * p.y_stride + x],
{
    let f = y8_frame(c, sc, rgba, rgba_stride as int);
    let (w, h) = (p_old.width as int, p_old.height as int);
    law_plane_sample(p.y_plane@, p_old.y_plane@, p.y_stride as int, w, h, f, row, x);
    law_plane_sample(q.y_plane@, q_old.y_plane@, q.y_stride as int, w, h, f, row, x);
}

/// The bi-planar chroma plane interleaves the two planar ones, U at the position of
/// U and V at the position of V in each pair.
pub proof fn law_nv12_interleaves_i420(
    p: YuvPlanarImageMut<u8>,
    p_old: YuvPlanarImageMut<u8>,
    q: YuvBiPlanarImageMut<u8>,
    q_old: YuvBiPlanarImageMut<u8>,
    c: Coeffs8,
    sc: YuvSourceChannels,
    order: YuvNVOrder,
    rgba: Seq<u8>,
    rgba_stride: u32,
    row: int,
    j: int,
)
    requires
        p_old.well_formed(),
        q_old.well_formed(),
        p_old.width == q_old.width,
        p_old.height == q_old.height,
        i420_frame(p, p_old, c, sc, rgba, rgba_stride),
        nv12_frame(q, q_old, c, sc, order, rgba, rgba_stride),
        0 <= row < half_up(p_old.height as int),
        0 <= j < half_up(p_old.width as int),
    ensures
        q.uv_plane@[row * q.uv_stride + (2 * j + order.u_position())] == p.u_plane@[row * p.u_stride
            + j],
        q.uv_plane@[row * q.uv_stride + (2 * j + order.v_position())] == p.v_plane@[row * p.v_stride
            + j],
{
    let (w, h) = (p_old.width as int, p_old.height as int);
    let (cw, ch) = (half_up(w), half_up(h));
    let ss = rgba_stride as int;
    let fu = u8_frame(c, sc, rgba, ss, w, h);
    let fv = v8_frame(c, sc, rgba, ss, w, h);
    let fuv = uv8_frame(c, sc, order, rgba, ss, w, h);
    let (ku, kv) = (2 * j + order.u_position(), 2 * j + order.v_position());
    let s = q.uv_stride as int;
    law_plane_sample(p.u_plane@, p_old.u_plane@, p.u_stride as int, cw, ch, fu, row, j);
    law_plane_sample(p.v_plane@, p_old.v_plane@, p.v_stride as int, cw, ch, fv, row, j);
    law_plane_sample(q.uv_plane@, q_old.uv_plane@, s, 2 * cw, ch, fuv, row, ku);
    law_plane_sample(q.uv_plane@, q_old.uv_plane@, s, 2 * cw, ch, fuv, row, kv);
    assert(ku / 2 == j && ku % 2 == order.u_position());
    assert(kv / 2 == j && kv % 2 == order.v_position());
}

/// NV21 is NV12 with the two bytes of every chroma pair exchanged.
pub proof fn law_nv21_swaps_pairs(
    a: YuvBiPlanarImageMut<u8>,
    a_old: YuvBiPlanarImageMut<u8>,
    b: YuvBiPlanarImageMut<u8>,
    b_old: YuvBiPlanarImageMut<u8>,
    c: Coeffs8,
    sc: YuvSourceChannels,
    rgba: Seq<u8>,
    rgba_stride: u32,
    row: int,
    j: int,
)
    requires
        a_old.well_formed(),
        a_old.same_layout(b_old),
        b_old.well_formed(),
        nv12_frame(a, a_old, c, sc, YuvNVOrder::UV, rgba, rgba_stride),
        nv12_frame(b, b_old, c, sc, YuvNVOrder::VU, rgba, rgba_stride),
        0 <= row < half_up(a_old.height as int),
        0 <= j < half_up(a_old.width as int),
    ensures
        b.uv_plane@[row * b.uv_stride + 2 * j] == a.uv_plane@[row * a.uv_stride + (2 * j + 1)],
        b.uv_plane@[row * b.uv_stride + (2 * j + 1)] == a.uv_plane@[row * a.uv_stride + 2 * j],
{
    let (w, h) = (a_old.width as int, a_old.height as int);
    let (cw, ch) = (half_up(w), half_up(h));
    let ss = rgba_stride as int;
    let fa = uv8_frame(c, sc, YuvNVOrder::UV, rgba, ss, w, h);
    let fb = uv8_frame(c, sc, YuvNVOrder::VU, rgba, ss, w, h);
    let s = a_old.uv_stride as int;
    law_plane_sample(a.uv_plane@, a_old.uv_plane@, s, 2 * cw, ch, fa, row, 2 * j);
    law_plane_sample(a.uv_plane@, a_old.uv_plane@, s, 2 * cw, ch, fa, row, 2 * j + 1);
    law_plane_sample(b.uv_plane@, b_old.uv_plane@, s, 2 * cw, ch, fb, row, 2 * j);
    law_plane_sample(b.uv_plane@, b_old.uv_plane@, s, 2 * cw, ch, fb, row, 2 * j + 1);
}

} // verus!
