//! Laws of the 13-bit row kernels, stated on the bytes that they read and write.

use super::arith::{sat_i16, sat_u8, signed32, wrap16, wrap32};
use super::rgba_to_nv420::{nv420_encoded, nv420_end, RowsNv};
use super::rgba_to_yuv420::{yuv420_encoded, yuv420_end, Rows420};
use super::utils::{
    cb13_at, cr13_at, encodes_block13, fixed13, fixed_bias, y13, y13_at, LsxBlock,
};
use super::vector::V128;
use super::{simd_applies, CpuFeatures};
use crate::yuv_support::{CbCrForwardTransform, YuvChromaRange, YuvSourceChannels};
use vstd::arithmetic::power2::{lemma2_to64, lemma_pow2_pos, lemma_pow2_unfold, pow2};
use vstd::prelude::*;

verus! {

// ---------------------------------------------------------------------------
// Biases
// ---------------------------------------------------------------------------

/// One step of the zero level is one unit of the fixed-point scale.
pub proof fn law_bias_steps(bias: u32, precision: u32)
    requires
        1 <= precision < 31,
        bias < 0x7fff_ffff,
    ensures
        fixed_bias((bias + 1) as u32, precision) - fixed_bias(bias, precision) == pow2(
            precision as nat,
        ),
{
    lemma2_to64();
    if precision < 30 {
        vstd::arithmetic::power2::lemma_pow2_strictly_increases(precision as nat, 30);
    }
    let p = pow2(precision as nat) as int;
    assert((bias + 1) * p - bias * p == p) by (nonlinear_arith);
}

/// The rounding term is one less than half a unit, so that a zero level stands for
/// itself, and so does anything up to half a unit above it; what lies higher does
/// not.
pub proof fn law_bias_rounds_half_down(bias: u32, precision: u32, rest: int)
    requires
        1 <= precision < 31,
        bias <= 0x7fff_ffff,
        0 <= rest < pow2(precision as nat),
    ensures
        (fixed_bias(bias, precision) + rest) / (pow2(precision as nat) as int) == (if 2 * rest
            <= pow2(precision as nat) {
            bias as int
        } else {
            bias + 1
        }),
{
    lemma2_to64();
    if precision < 30 {
        vstd::arithmetic::power2::lemma_pow2_strictly_increases(precision as nat, 30);
    }
    let p = pow2(precision as nat) as int;
    let half = pow2((precision - 1) as nat) as int;
    lemma_pow2_pos((precision - 1) as nat);
    lemma_pow2_unfold(precision as nat);
    assert(p == 2 * half);
    let b = bias as int;
    if rest <= half {
        vstd::arithmetic::div_mod::lemma_fundamental_div_mod_converse(
            b * p + (half - 1 + rest),
            p,
            b,
            half - 1 + rest,
        );
    } else {
        assert((b + 1) * p == b * p + p) by (nonlinear_arith);
        vstd::arithmetic::div_mod::lemma_fundamental_div_mod_converse(
            b * p + (half - 1 + rest),
            p,
            b + 1,
            rest - half - 1,
        );
    }
}

// ---------------------------------------------------------------------------
// Samples
// ---------------------------------------------------------------------------

/// The shifted sum whose 32-bit reading is `w`.
proof fn lemma_word13(
    bias: u32,
    r: int,
    g: int,
    b: int,
    kr: int,
    kg: int,
    kb: int,
    w: int,
)
    requires
        i32::MIN <= w <= i32::MAX,
        (r * kr + g * kg + b * kb + bias * 8192 + 4095 - w) % 0x1_0000_0000 == 0,
    ensures
        fixed13(fixed_bias(bias, 13), r, g, b, kr, kg, kb) == w / 8192,
{
    reveal(fixed13);
    lemma2_to64();
    assert(pow2(13) == 8192 && pow2(12) == 4096);
    let sum = r * kr + g * kg + b * kb + bias * 8192 + 4095;
    let inner = fixed_bias(bias, 13) + r * kr + g * kg + b * kb;
    let (level, unit) = (signed32(bias as int), signed32(pow2(13) as int));
    assert(level * unit == level * 8192) by (nonlinear_arith)
        requires
            unit == 8192,
    ;
    assert(fixed_bias(bias, 13) == level * 8192 + 4095);
    assert(inner == sum || inner == sum - 0x1_0000_0000 * 8192);
    assert(wrap32(inner) == wrap32(w));
    assert(signed32(wrap32(w)) == w);
}

/// The byte of a sum whose 32-bit reading is `w`.
proof fn lemma_byte13(
    bias: u32,
    r: int,
    g: int,
    b: int,
    kr: int,
    kg: int,
    kb: int,
    w: int,
)
    requires
        i32::MIN <= w <= i32::MAX,
        (r * kr + g * kg + b * kb + bias * 8192 + 4095 - w) % 0x1_0000_0000 == 0,
    ensures
        sat_u8(fixed13(fixed_bias(bias, 13), r, g, b, kr, kg, kb)) == (if w < 0 {
            0
        } else if w >= 256 * 8192 {
            255
        } else {
            w / 8192
        }),
{
    lemma_word13(bias, r, g, b, kr, kg, kb, w);
}

/// A luma byte is `(r*yr + g*yg + b*yb + bias_y*8192 + 4095) >> 13` in 32-bit
/// arithmetic, brought into the byte range, with the zero level that the range
/// carries; black gives that level itself.
pub proof fn law_y13(
    r: int,
    g: int,
    b: int,
    range: YuvChromaRange,
    t: CbCrForwardTransform<i32>,
    w: int,
)
    requires
        i32::MIN <= w <= i32::MAX,
        (r * t.yr + g * t.yg + b * t.yb + range.bias_y * 8192 + 4095 - w) % 0x1_0000_0000 == 0,
    ensures
        y13(r, g, b, range, t) == (if w < 0 {
            0
        } else if w >= 256 * 8192 {
            255
        } else {
            w / 8192
        }),
        r == 0 && g == 0 && b == 0 && range.bias_y < 256 ==> y13(r, g, b, range, t)
            == range.bias_y,
{
    lemma_byte13(range.bias_y, r, g, b, t.yr as int, t.yg as int, t.yb as int, w);
    if r == 0 && g == 0 && b == 0 && range.bias_y < 256 {
        assert(0 * t.yr == 0 && 0 * t.yg == 0 && 0 * t.yb == 0) by (nonlinear_arith);
        assert(w == range.bias_y * 8192 + 4095);
    }
}

/// The bytes of a pixel, wherever the layout puts them.
proof fn lemma_pixel_bytes(code: u8, n: int, ro: int, bo: int, row: Seq<u8>, x: int)
    requires
        (code == 0 && n == 3 && ro == 0 && bo == 2) || (code == 1 && n == 4 && ro == 0 && bo == 2)
            || (code == 2 && n == 4 && ro == 2 && bo == 0) || (code == 3 && n == 3 && ro == 2
            && bo == 0),
    ensures
        YuvSourceChannels::decoded(code).red(row, x) == row[n * x + ro],
        YuvSourceChannels::decoded(code).green(row, x) == row[n * x + 1],
        YuvSourceChannels::decoded(code).blue(row, x) == row[n * x + bo],
        n * (x + 1) == n * x + n,
{
    if n == 3 {
        assert(n * x == 3 * x);
    } else {
        assert(n * x == 4 * x);
    }
    assert(n * (x + 1) == n * x + n) by (nonlinear_arith);
}

/// The luma byte of a pixel in terms of the bytes of its row.
proof fn lemma_y13_bytes(
    code: u8,
    n: int,
    ro: int,
    bo: int,
    row: Seq<u8>,
    x: int,
    range: YuvChromaRange,
    t: CbCrForwardTransform<i32>,
    w: int,
)
    requires
        (code == 0 && n == 3 && ro == 0 && bo == 2) || (code == 1 && n == 4 && ro == 0 && bo == 2)
            || (code == 2 && n == 4 && ro == 2 && bo == 0) || (code == 3 && n == 3 && ro == 2
            && bo == 0),
        i32::MIN <= w <= i32::MAX,
        (row[n * x + ro] * t.yr + row[n * x + 1] * t.yg + row[n * x + bo] * t.yb + range.bias_y
            * 8192 + 4095 - w) % 0x1_0000_0000 == 0,
    ensures
        y13_at(YuvSourceChannels::decoded(code), row, x, range, t) == (if w < 0 {
            0
        } else if w >= 256 * 8192 {
            255
        } else {
            w / 8192
        }),
{
    lemma_pixel_bytes(code, n, ro, bo, row, x);
    law_y13(row[n * x + ro] as int, row[n * x + 1] as int, row[n * x + bo] as int, range, t, w);
}

/// The chroma bytes of a quad in terms of the bytes of its rows.
proof fn lemma_chroma13_bytes(
    code: u8,
    n: int,
    ro: int,
    bo: int,
    row0: Seq<u8>,
    row1: Seq<u8>,
    x: int,
    range: YuvChromaRange,
    t: CbCrForwardTransform<i32>,
    r: int,
    g: int,
    b: int,
    wu: int,
    wv: int,
)
    requires
        (code == 0 && n == 3 && ro == 0 && bo == 2) || (code == 1 && n == 4 && ro == 0 && bo == 2)
            || (code == 2 && n == 4 && ro == 2 && bo == 0) || (code == 3 && n == 3 && ro == 2
            && bo == 0),
        r == (row0[n * x + ro] + row0[n * x + n + ro] + row1[n * x + ro] + row1[n * x + n + ro] + 2)
            / 4,
        g == (row0[n * x + 1] + row0[n * x + n + 1] + row1[n * x + 1] + row1[n * x + n + 1] + 2)
            / 4,
        b == (row0[n * x + bo] + row0[n * x + n + bo] + row1[n * x + bo] + row1[n * x + n + bo] + 2)
            / 4,
        i32::MIN <= wu <= i32::MAX,
        (r * t.cb_r + g * t.cb_g + b * t.cb_b + range.bias_uv * 8192 + 4095 - wu) % 0x1_0000_0000
            == 0,
        i32::MIN <= wv <= i32::MAX,
        (r * t.cr_r + g * t.cr_g + b * t.cr_b + range.bias_uv * 8192 + 4095 - wv) % 0x1_0000_0000
            == 0,
    ensures
        sat_u8(cb13_at(YuvSourceChannels::decoded(code), row0, row1, x, range, t)) == (if wu < 0 {
            0
        } else if wu >= 256 * 8192 {
            255
        } else {
            wu / 8192
        }),
        sat_u8(cr13_at(YuvSourceChannels::decoded(code), row0, row1, x, range, t)) == (if wv < 0 {
            0
        } else if wv >= 256 * 8192 {
            255
        } else {
            wv / 8192
        }),
{
    lemma_pixel_bytes(code, n, ro, bo, row0, x);
    lemma_pixel_bytes(code, n, ro, bo, row0, x + 1);
    lemma_pixel_bytes(code, n, ro, bo, row1, x);
    lemma_pixel_bytes(code, n, ro, bo, row1, x + 1);
    lemma_byte13(range.bias_uv, r, g, b, t.cb_r as int, t.cb_g as int, t.cb_b as int, wu);
    lemma_byte13(range.bias_uv, r, g, b, t.cr_r as int, t.cr_g as int, t.cr_b as int, wv);
}

// ---------------------------------------------------------------------------
// Blocks
// ---------------------------------------------------------------------------

/// A block holds, for each of its pixels, the 13-bit luma byte of the three bytes of
/// that pixel in the source row; `w` is the sum as a 32-bit lane reads it.
pub proof fn law_block13_luma(
    blk: LsxBlock,
    code: u8,
    n: int,
    ro: int,
    bo: int,
    row0: Seq<u8>,
    row1: Seq<u8>,
    cx: int,
    range: YuvChromaRange,
    t: CbCrForwardTransform<i32>,
    second: bool,
    i: int,
    w: int,
)
    requires
        (code == 0 && n == 3 && ro == 0 && bo == 2) || (code == 1 && n == 4 && ro == 0 && bo == 2)
            || (code == 2 && n == 4 && ro == 2 && bo == 0) || (code == 3 && n == 3 && ro == 2
            && bo == 0),
        encodes_block13(blk, YuvSourceChannels::decoded(code), row0, row1, cx, range, t),
        0 <= i < 16,
        i32::MIN <= w <= i32::MAX,
        ({
            let row = if second {
                row1
            } else {
                row0
            };
            let p = n * (cx + i);
            (row[p + ro] * t.yr + row[p + 1] * t.yg + row[p + bo] * t.yb + range.bias_y * 8192
                + 4095 - w) % 0x1_0000_0000 == 0
        }),
    ensures
        (if second {
            blk.y1
        } else {
            blk.y0
        }).bytes[i] == (if w < 0 {
            0
        } else if w >= 256 * 8192 {
            255
        } else {
            w / 8192
        }),
{
    let row = if second {
        row1
    } else {
        row0
    };
    lemma_y13_bytes(code, n, ro, bo, row, cx + i, range, t, w);
    assert(blk.y0.b(i) == y13_at(YuvSourceChannels::decoded(code), row0, cx + i, range, t));
    assert(blk.y1.b(i) == y13_at(YuvSourceChannels::decoded(code), row1, cx + i, range, t));
}

/// A block holds, for each of its quads, the 13-bit chroma samples of the rounded means
/// of its pixels, saturated to a signed halfword; `wu` and `wv` are the sums as 32-bit
/// lanes read them.
pub proof fn law_block13_chroma(
    blk: LsxBlock,
    code: u8,
    n: int,
    ro: int,
    bo: int,
    row0: Seq<u8>,
    row1: Seq<u8>,
    cx: int,
    range: YuvChromaRange,
    t: CbCrForwardTransform<i32>,
    i: int,
    wu: int,
    wv: int,
)
    requires
        (code == 0 && n == 3 && ro == 0 && bo == 2) || (code == 1 && n == 4 && ro == 0 && bo == 2)
            || (code == 2 && n == 4 && ro == 2 && bo == 0) || (code == 3 && n == 3 && ro == 2
            && bo == 0),
        encodes_block13(blk, YuvSourceChannels::decoded(code), row0, row1, cx, range, t),
        0 <= i < 8,
        i32::MIN <= wu <= i32::MAX,
        i32::MIN <= wv <= i32::MAX,
    ensures
        ({
            let p = n * (cx + 2 * i);
            let r = (row0[p + ro] + row0[p + n + ro] + row1[p + ro] + row1[p + n + ro] + 2) / 4;
            let g = (row0[p + 1] + row0[p + n + 1] + row1[p + 1] + row1[p + n + 1] + 2) / 4;
            let b = (row0[p + bo] + row0[p + n + bo] + row1[p + bo] + row1[p + n + bo] + 2) / 4;
            let su = r * t.cb_r + g * t.cb_g + b * t.cb_b + range.bias_uv * 8192 + 4095;
            let sv = r * t.cr_r + g * t.cr_g + b * t.cr_b + range.bias_uv * 8192 + 4095;
            let u = blk.cb.bytes[2 * i] + 256 * blk.cb.bytes[2 * i + 1];
            let v = blk.cr.bytes[2 * i] + 256 * blk.cr.bytes[2 * i + 1];
            &&& (su - wu) % 0x1_0000_0000 == 0 ==> u == (if wu < -0x8000 * 8192 {
                0x8000
            } else if wu >= 0x8000 * 8192 {
                0x7fff
            } else {
                (wu / 8192) % 0x1_0000
            })
            &&& (sv - wv) % 0x1_0000_0000 == 0 ==> v == (if wv < -0x8000 * 8192 {
                0x8000
            } else if wv >= 0x8000 * 8192 {
                0x7fff
            } else {
                (wv / 8192) % 0x1_0000
            })
        }),
{
    let x = cx + 2 * i;
    let p = n * x;
    let sc = YuvSourceChannels::decoded(code);
    lemma_pixel_bytes(code, n, ro, bo, row0, x);
    lemma_pixel_bytes(code, n, ro, bo, row0, x + 1);
    lemma_pixel_bytes(code, n, ro, bo, row1, x);
    lemma_pixel_bytes(code, n, ro, bo, row1, x + 1);
    let r = (row0[p + ro] + row0[p + n + ro] + row1[p + ro] + row1[p + n + ro] + 2) / 4;
    let g = (row0[p + 1] + row0[p + n + 1] + row1[p + 1] + row1[p + n + 1] + 2) / 4;
    let b = (row0[p + bo] + row0[p + n + bo] + row1[p + bo] + row1[p + n + bo] + 2) / 4;
    let su = r * t.cb_r + g * t.cb_g + b * t.cb_b + range.bias_uv * 8192 + 4095;
    let sv = r * t.cr_r + g * t.cr_g + b * t.cr_b + range.bias_uv * 8192 + 4095;
    reveal(V128::h);
    if (su - wu) % 0x1_0000_0000 == 0 {
        lemma_word13(range.bias_uv, r, g, b, t.cb_r as int, t.cb_g as int, t.cb_b as int, wu);
        assert(blk.cb.h(i) == wrap16(sat_i16(cb13_at(sc, row0, row1, x, range, t))));
    }
    if (sv - wv) % 0x1_0000_0000 == 0 {
        lemma_word13(range.bias_uv, r, g, b, t.cr_r as int, t.cr_g as int, t.cr_b as int, wv);
        assert(blk.cr.h(i) == wrap16(sat_i16(cr13_at(sc, row0, row1, x, range, t))));
    }
}

// ---------------------------------------------------------------------------
// Planar rows
// ---------------------------------------------------------------------------

/// Every luma byte that the planar kernel writes is
/// `(r*yr + g*yg + b*yb + bias_y*8192 + 4095) / 8192` of the pixel in the same column
/// of its source row, where that is a byte: `n` bytes make a pixel, and red and blue
/// lie `ro` and `bo` into it. Elsewhere the sum is read as a 32-bit number `w` and the
/// byte is 0 or 255. Black gives `bias_y`.
pub proof fn law_yuv420_luma(
    new: Rows420,
    old: Rows420,
    code: u8,
    n: int,
    ro: int,
    bo: int,
    t: CbCrForwardTransform<i32>,
    range: YuvChromaRange,
    rgba0: Seq<u8>,
    rgba1: Seq<u8>,
    start_cx: int,
    start_ux: int,
    cx: int,
    ux: int,
    second: bool,
    x: int,
    w: int,
)
    requires
        (code == 0 && n == 3 && ro == 0 && bo == 2) || (code == 1 && n == 4 && ro == 0 && bo == 2)
            || (code == 2 && n == 4 && ro == 2 && bo == 0) || (code == 3 && n == 3 && ro == 2
            && bo == 0),
        yuv420_encoded(new, old, code, t, range, rgba0, rgba1, start_cx, start_ux, cx, ux),
        start_cx <= x < cx,
        0 <= x < (if second {
            old.y1
        } else {
            old.y0
        }).len(),
    ensures
        ({
            let (out, row) = if second {
                (new.y1, rgba1)
            } else {
                (new.y0, rgba0)
            };
            let (r, g, b) = (row[n * x + ro], row[n * x + 1], row[n * x + bo]);
            let sum = r * t.yr + g * t.yg + b * t.yb + range.bias_y * 8192 + 4095;
            &&& 0 <= sum < 256 * 8192 ==> out[x] == sum / 8192
            &&& i32::MIN <= w <= i32::MAX && (sum - w) % 0x1_0000_0000 == 0 ==> out[x] == (if w
                < 0 {
                0
            } else if w >= 256 * 8192 {
                255
            } else {
                w / 8192
            })
            &&& r == 0 && g == 0 && b == 0 && range.bias_y < 256 ==> out[x] == range.bias_y
        }),
{
    lemma_luma_row13(new.y0, rgba0, code, n, ro, bo, t, range, x, w);
    lemma_luma_row13(new.y1, rgba1, code, n, ro, bo, t, range, x, w);
}

/// What a luma byte is, once it is known to be the sample of its pixel.
proof fn lemma_luma_row13(
    out: Seq<u8>,
    row: Seq<u8>,
    code: u8,
    n: int,
    ro: int,
    bo: int,
    t: CbCrForwardTransform<i32>,
    range: YuvChromaRange,
    x: int,
    w: int,
)
    requires
        (code == 0 && n == 3 && ro == 0 && bo == 2) || (code == 1 && n == 4 && ro == 0 && bo == 2)
            || (code == 2 && n == 4 && ro == 2 && bo == 0) || (code == 3 && n == 3 && ro == 2
            && bo == 0),
    ensures
        ({
            let (r, g, b) = (row[n * x + ro], row[n * x + 1], row[n * x + bo]);
            let sum = r * t.yr + g * t.yg + b * t.yb + range.bias_y * 8192 + 4095;
            out[x] == y13_at(YuvSourceChannels::decoded(code), row, x, range, t) ==> {
                &&& 0 <= sum < 256 * 8192 ==> out[x] == sum / 8192
                &&& i32::MIN <= w <= i32::MAX && (sum - w) % 0x1_0000_0000 == 0 ==> out[x] == (if w
                    < 0 {
                    0
                } else if w >= 256 * 8192 {
                    255
                } else {
                    w / 8192
                })
                &&& r == 0 && g == 0 && b == 0 && range.bias_y < 256 ==> out[x] == range.bias_y
            }
        }),
{
    let (r, g, b) = (row[n * x + ro], row[n * x + 1], row[n * x + bo]);
    let sum = r * t.yr + g * t.yg + b * t.yb + range.bias_y * 8192 + 4095;
    if 0 <= sum < 256 * 8192 {
        lemma_y13_bytes(code, n, ro, bo, row, x, range, t, sum);
    }
    if i32::MIN <= w <= i32::MAX && (sum - w) % 0x1_0000_0000 == 0 {
        lemma_y13_bytes(code, n, ro, bo, row, x, range, t, w);
    }
    if r == 0 && g == 0 && b == 0 && range.bias_y < 256 {
        assert(0 * t.yr == 0 && 0 * t.yg == 0 && 0 * t.yb == 0) by (nonlinear_arith);
        lemma_y13_bytes(code, n, ro, bo, row, x, range, t, sum);
    }
}

/// Every chroma byte that the planar kernel writes comes from the two-by-two pixels
/// at columns `x` and `x + 1`, `x = start_cx + 2 * m` for the `m`-th byte: with `r`,
/// `g`, `b` their rounded means, U is
/// `(r*cb_r + g*cb_g + b*cb_b + bias_uv*8192 + 4095) / 8192` and V the same with the
/// `cr` weights, where those are bytes. Elsewhere the sums are read as the 32-bit
/// numbers `wu` and `wv` and the bytes are 0 or 255.
pub proof fn law_yuv420_chroma(
    new: Rows420,
    old: Rows420,
    code: u8,
    n: int,
    ro: int,
    bo: int,
    t: CbCrForwardTransform<i32>,
    range: YuvChromaRange,
    rgba0: Seq<u8>,
    rgba1: Seq<u8>,
    start_cx: int,
    start_ux: int,
    cx: int,
    ux: int,
    m: int,
    wu: int,
    wv: int,
)
    requires
        (code == 0 && n == 3 && ro == 0 && bo == 2) || (code == 1 && n == 4 && ro == 0 && bo == 2)
            || (code == 2 && n == 4 && ro == 2 && bo == 0) || (code == 3 && n == 3 && ro == 2
            && bo == 0),
        yuv420_encoded(new, old, code, t, range, rgba0, rgba1, start_cx, start_ux, cx, ux),
        0 <= m,
        start_ux + m < ux,
        0 <= start_ux,
        start_ux + m < old.u.len(),
        start_ux + m < old.v.len(),
        i32::MIN <= wu <= i32::MAX,
        i32::MIN <= wv <= i32::MAX,
    ensures
        ({
            let p = n * (start_cx + 2 * m);
            let r = (rgba0[p + ro] + rgba0[p + n + ro] + rgba1[p + ro] + rgba1[p + n + ro] + 2) / 4;
            let g = (rgba0[p + 1] + rgba0[p + n + 1] + rgba1[p + 1] + rgba1[p + n + 1] + 2) / 4;
            let b = (rgba0[p + bo] + rgba0[p + n + bo] + rgba1[p + bo] + rgba1[p + n + bo] + 2) / 4;
            let su = r * t.cb_r + g * t.cb_g + b * t.cb_b + range.bias_uv * 8192 + 4095;
            let sv = r * t.cr_r + g * t.cr_g + b * t.cr_b + range.bias_uv * 8192 + 4095;
            (su - wu) % 0x1_0000_0000 == 0 && (sv - wv) % 0x1_0000_0000 == 0 ==> {
                &&& new.u[start_ux + m] == (if wu < 0 {
                    0
                } else if wu >= 256 * 8192 {
                    255
                } else {
                    wu / 8192
                })
                &&& new.v[start_ux + m] == (if wv < 0 {
                    0
                } else if wv >= 256 * 8192 {
                    255
                } else {
                    wv / 8192
                })
            }
        }),
{
    let x = start_cx + 2 * m;
    let p = n * x;
    let r = (rgba0[p + ro] + rgba0[p + n + ro] + rgba1[p + ro] + rgba1[p + n + ro] + 2) / 4;
    let g = (rgba0[p + 1] + rgba0[p + n + 1] + rgba1[p + 1] + rgba1[p + n + 1] + 2) / 4;
    let b = (rgba0[p + bo] + rgba0[p + n + bo] + rgba1[p + bo] + rgba1[p + n + bo] + 2) / 4;
    let su = r * t.cb_r + g * t.cb_g + b * t.cb_b + range.bias_uv * 8192 + 4095;
    let sv = r * t.cr_r + g * t.cr_g + b * t.cr_b + range.bias_uv * 8192 + 4095;
    if (su - wu) % 0x1_0000_0000 == 0 && (sv - wv) % 0x1_0000_0000 == 0 {
        lemma_chroma13_bytes(code, n, ro, bo, rgba0, rgba1, x, range, t, r, g, b, wu, wv);
        let k = start_ux + m;
        let sc = YuvSourceChannels::decoded(code);
        assert(new.u[k] == sat_u8(cb13_at(sc, rgba0, rgba1, x, range, t)) as u8);
        assert(new.v[k] == sat_u8(cr13_at(sc, rgba0, rgba1, x, range, t)) as u8);
    }
}

/// The planar kernel keeps the lengths of its rows and every byte before its start
/// and from its end on.
pub proof fn law_yuv420_keeps(
    new: Rows420,
    old: Rows420,
    code: u8,
    t: CbCrForwardTransform<i32>,
    range: YuvChromaRange,
    rgba0: Seq<u8>,
    rgba1: Seq<u8>,
    start_cx: int,
    start_ux: int,
    cx: int,
    ux: int,
    k: int,
)
    requires
        yuv420_encoded(new, old, code, t, range, rgba0, rgba1, start_cx, start_ux, cx, ux),
        0 <= k,
    ensures
        new.y0.len() == old.y0.len() && new.y1.len() == old.y1.len(),
        new.u.len() == old.u.len() && new.v.len() == old.v.len(),
        (k < start_cx || cx <= k) && k < old.y0.len() ==> new.y0[k] == old.y0[k],
        (k < start_cx || cx <= k) && k < old.y1.len() ==> new.y1[k] == old.y1[k],
        (k < start_ux || ux <= k) && k < old.u.len() ==> new.u[k] == old.u[k],
        (k < start_ux || ux <= k) && k < old.v.len() ==> new.v[k] == old.v[k],
{
}

// ---------------------------------------------------------------------------
// Bi-planar rows
// ---------------------------------------------------------------------------

/// The bi-planar kernel writes the same luma bytes as the planar one: the 13-bit sum
/// of the pixel in the same column of the source row, with the zero level `bias_y`.
pub proof fn law_nv420_luma(
    new: RowsNv,
    old: RowsNv,
    code: u8,
    n: int,
    ro: int,
    bo: int,
    order: u8,
    t: CbCrForwardTransform<i32>,
    range: YuvChromaRange,
    rgba0: Seq<u8>,
    rgba1: Seq<u8>,
    start_cx: int,
    start_ux: int,
    cx: int,
    ux: int,
    second: bool,
    x: int,
    w: int,
)
    requires
        (code == 0 && n == 3 && ro == 0 && bo == 2) || (code == 1 && n == 4 && ro == 0 && bo == 2)
            || (code == 2 && n == 4 && ro == 2 && bo == 0) || (code == 3 && n == 3 && ro == 2
            && bo == 0),
        nv420_encoded(new, old, code, order, t, range, rgba0, rgba1, start_cx, start_ux, cx, ux),
        start_cx <= x < cx,
        0 <= x < (if second {
            old.y1
        } else {
            old.y0
        }).len(),
    ensures
        ({
            let (out, row) = if second {
                (new.y1, rgba1)
            } else {
                (new.y0, rgba0)
            };
            let (r, g, b) = (row[n * x + ro], row[n * x + 1], row[n * x + bo]);
            let sum = r * t.yr + g * t.yg + b * t.yb + range.bias_y * 8192 + 4095;
            &&& 0 <= sum < 256 * 8192 ==> out[x] == sum / 8192
            &&& i32::MIN <= w <= i32::MAX && (sum - w) % 0x1_0000_0000 == 0 ==> out[x] == (if w
                < 0 {
                0
            } else if w >= 256 * 8192 {
                255
            } else {
                w / 8192
            })
            &&& r == 0 && g == 0 && b == 0 && range.bias_y < 256 ==> out[x] == range.bias_y
        }),
{
    lemma_luma_row13(new.y0, rgba0, code, n, ro, bo, t, range, x, w);
    lemma_luma_row13(new.y1, rgba1, code, n, ro, bo, t, range, x, w);
}

/// The `m`-th pair of bytes that the bi-planar kernel writes holds the U and V samples
/// of the two-by-two pixels at columns `start_cx + 2 * m` and the next: U first for
/// order 0 (NV12), V first for order 1 (NV21).
pub proof fn law_nv420_chroma(
    new: RowsNv,
    old: RowsNv,
    code: u8,
    n: int,
    ro: int,
    bo: int,
    order: u8,
    t: CbCrForwardTransform<i32>,
    range: YuvChromaRange,
    rgba0: Seq<u8>,
    rgba1: Seq<u8>,
    start_cx: int,
    start_ux: int,
    cx: int,
    ux: int,
    m: int,
    wu: int,
    wv: int,
)
    requires
        (code == 0 && n == 3 && ro == 0 && bo == 2) || (code == 1 && n == 4 && ro == 0 && bo == 2)
            || (code == 2 && n == 4 && ro == 2 && bo == 0) || (code == 3 && n == 3 && ro == 2
            && bo == 0),
        order == 0 || order == 1,
        nv420_encoded(new, old, code, order, t, range, rgba0, rgba1, start_cx, start_ux, cx, ux),
        0 <= m,
        start_ux + 2 * m + 1 < ux,
        0 <= start_ux,
        start_ux + 2 * m + 1 < old.uv.len(),
        i32::MIN <= wu <= i32::MAX,
        i32::MIN <= wv <= i32::MAX,
    ensures
        ({
            let p = n * (start_cx + 2 * m);
            let r = (rgba0[p + ro] + rgba0[p + n + ro] + rgba1[p + ro] + rgba1[p + n + ro] + 2) / 4;
            let g = (rgba0[p + 1] + rgba0[p + n + 1] + rgba1[p + 1] + rgba1[p + n + 1] + 2) / 4;
            let b = (rgba0[p + bo] + rgba0[p + n + bo] + rgba1[p + bo] + rgba1[p + n + bo] + 2) / 4;
            let su = r * t.cb_r + g * t.cb_g + b * t.cb_b + range.bias_uv * 8192 + 4095;
            let sv = r * t.cr_r + g * t.cr_g + b * t.cr_b + range.bias_uv * 8192 + 4095;
            let (u, v) = if order == 0 {
                (new.uv[start_ux + 2 * m], new.uv[start_ux + 2 * m + 1])
            } else {
                (new.uv[start_ux + 2 * m + 1], new.uv[start_ux + 2 * m])
            };
            (su - wu) % 0x1_0000_0000 == 0 && (sv - wv) % 0x1_0000_0000 == 0 ==> {
                &&& u == (if wu < 0 {
                    0
                } else if wu >= 256 * 8192 {
                    255
                } else {
                    wu / 8192
                })
                &&& v == (if wv < 0 {
                    0
                } else if wv >= 256 * 8192 {
                    255
                } else {
                    wv / 8192
                })
            }
        }),
{
    let x = start_cx + 2 * m;
    let p = n * x;
    let r = (rgba0[p + ro] + rgba0[p + n + ro] + rgba1[p + ro] + rgba1[p + n + ro] + 2) / 4;
    let g = (rgba0[p + 1] + rgba0[p + n + 1] + rgba1[p + 1] + rgba1[p + n + 1] + 2) / 4;
    let b = (rgba0[p + bo] + rgba0[p + n + bo] + rgba1[p + bo] + rgba1[p + n + bo] + 2) / 4;
    let su = r * t.cb_r + g * t.cb_g + b * t.cb_b + range.bias_uv * 8192 + 4095;
    let sv = r * t.cr_r + g * t.cr_g + b * t.cr_b + range.bias_uv * 8192 + 4095;
    if (su - wu) % 0x1_0000_0000 == 0 && (sv - wv) % 0x1_0000_0000 == 0 {
        lemma_chroma13_bytes(code, n, ro, bo, rgba0, rgba1, x, range, t, r, g, b, wu, wv);
        let k = start_ux + 2 * m;
        let sc = YuvSourceChannels::decoded(code);
        let cb = sat_u8(cb13_at(sc, rgba0, rgba1, x, range, t)) as u8;
        let cr = sat_u8(cr13_at(sc, rgba0, rgba1, x, range, t)) as u8;
        assert((k - start_ux) / 2 == m && (k - start_ux) % 2 == 0);
        assert((k + 1 - start_ux) / 2 == m && (k + 1 - start_ux) % 2 == 1);
        assert(new.uv[k] == (if order == 0 {
            cb
        } else {
            cr
        }));
        assert(new.uv[k + 1] == (if order == 0 {
            cr
        } else {
            cb
        }));
    }
}

/// The bi-planar kernel keeps the lengths of its rows and every byte before its start
/// and from its end on.
pub proof fn law_nv420_keeps(
    new: RowsNv,
    old: RowsNv,
    code: u8,
    order: u8,
    t: CbCrForwardTransform<i32>,
    range: YuvChromaRange,
    rgba0: Seq<u8>,
    rgba1: Seq<u8>,
    start_cx: int,
    start_ux: int,
    cx: int,
    ux: int,
    k: int,
)
    requires
        nv420_encoded(new, old, code, order, t, range, rgba0, rgba1, start_cx, start_ux, cx, ux),
        0 <= k,
    ensures
        new.y0.len() == old.y0.len() && new.y1.len() == old.y1.len() && new.uv.len()
            == old.uv.len(),
        (k < start_cx || cx <= k) && k < old.y0.len() ==> new.y0[k] == old.y0[k],
        (k < start_cx || cx <= k) && k < old.y1.len() ==> new.y1[k] == old.y1[k],
        (k < start_ux || ux <= k) && k < old.uv.len() ==> new.uv[k] == old.uv[k],
{
}

// ---------------------------------------------------------------------------
// Progress
// ---------------------------------------------------------------------------

/// The kernels take as many whole blocks of 16 columns as fit between the start and
/// the width. A planar chroma row advances by one byte for every two columns, an
/// interleaved one by one byte for every column.
pub proof fn law_kernel_progress(start_cx: int, start_ux: int, width: int)
    ensures
        ({
            let (cx, ux) = yuv420_end(start_cx, start_ux, width);
            &&& start_cx <= cx
            &&& (cx - start_cx) % 16 == 0
            &&& cx == start_cx || cx <= width
            &&& width < cx + 16
            &&& 2 * (ux - start_ux) == cx - start_cx
            &&& nv420_end(start_cx, start_ux, width) == (cx, start_ux + cx - start_cx)
        }),
{
}

/// The kernels run at a precision of 13 bits and at no other, on a CPU with either
/// extension and on no other.
pub proof fn law_kernel_dispatch<const PRECISION: u32>(cpu: CpuFeatures)
    ensures
        PRECISION != 13 ==> !simd_applies::<PRECISION>(cpu),
        PRECISION == 13 && (cpu.lsx || cpu.lasx) ==> simd_applies::<PRECISION>(cpu),
        !cpu.lsx && !cpu.lasx ==> !simd_applies::<PRECISION>(cpu),
{
}

} // verus!
