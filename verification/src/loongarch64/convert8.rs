//! The whole frame is processed at 8-bit here (SIMD interior + scalar edges), so
//! there is no precision seam between the vectorised columns and the tail.

use super::arith::{lemma_i32_casts, lemma_i32_shr_is_div};
use super::lasx::stores_256;
use super::lsx::interleaves_low;
use super::rgba_to_nv420::RowsNv;
use super::rgba_to_yuv420::Rows420;
use super::simd::{
    encodes_block8, full_u, full_v, interleave_lo, lasx_block32, lsx_block16, store16, store8,
    xinterleave, xstore16_chroma, xstore32, LsxBlock, LASX_BLOCK, LSX_BLOCK,
};
use super::utils::{lemma_overwritten_joins, lemma_store_overwrites, overwritten};
use super::vector::{V128, V256};
use crate::images::half_up;
use crate::yuv_support::{YuvNVOrder, YuvRange, YuvSourceChannels, YuvStandardMatrix};
use vstd::arithmetic::power2::lemma2_to64;
use vstd::prelude::*;

verus! {

// ---------------------------------------------------------------------------
// 8-bit coefficients
// ---------------------------------------------------------------------------

/// 8-bit fixed-point RGB to YUV coefficients. `Y = (ry*r + gy*g + by*b + ay) >> 8`,
/// `U = (ru*r + gu*g + bu*b + auv) >> 8`, `V = (rv*r + gv*g + bv*b + auv) >> 8`.
///
/// `ay` is `16*256 + 128` for limited range and `128` for full range; `auv` is
/// always `128*256`.
#[derive(Clone, Copy, Debug, PartialEq, Eq, Structural)]
pub struct Coeffs8 {
    pub ry: i32,
    pub gy: i32,
    pub by: i32,
    pub ay: i32,
    pub ru: i32,
    pub gu: i32,
    pub bu: i32,
    pub rv: i32,
    pub gv: i32,
    pub bv: i32,
    pub auv: i32,
}

/// A weighted sum of three samples.
pub open spec fn dot(kr: int, kg: int, kb: int, bias: int, r: int, g: int, b: int) -> int {
    kr * r + kg * g + kb * b + bias
}

/// Whether the sum, taken from left to right, stays within 32 bits.
pub open spec fn dot_fits(kr: int, kg: int, kb: int, bias: int, r: int, g: int, b: int) -> bool {
    &&& i32::MIN <= kr * r <= i32::MAX
    &&& i32::MIN <= kg * g <= i32::MAX
    &&& i32::MIN <= kb * b <= i32::MAX
    &&& i32::MIN <= kr * r + kg * g <= i32::MAX
    &&& i32::MIN <= kr * r + kg * g + kb * b <= i32::MAX
    &&& i32::MIN <= dot(kr, kg, kb, bias, r, g, b) <= i32::MAX
}

/// Whether `x` is the value of a byte.
pub open spec fn is_byte(x: int) -> bool {
    0 <= x < 256
}

/// Whether the sum stays within 32 bits for all byte samples.
pub open spec fn weights_fit(kr: int, kg: int, kb: int, bias: int) -> bool {
    forall|r: int, g: int, b: int|
        is_byte(r) && is_byte(g) && is_byte(b) ==> #[trigger] dot_fits(kr, kg, kb, bias, r, g, b)
}

/// Bits 8 to 15 of a weighted sum.
pub open spec fn sample8(kr: int, kg: int, kb: int, bias: int, r: int, g: int, b: int) -> u8 {
    ((dot(kr, kg, kb, bias, r, g, b) / 256) % 256) as u8
}

impl Coeffs8 {
    /// The luma byte of one pixel.
    pub open spec fn y(self, r: int, g: int, b: int) -> u8 {
        sample8(self.ry as int, self.gy as int, self.by as int, self.ay as int, r, g, b)
    }

    /// The U byte of one averaged pixel.
    pub open spec fn u(self, r: int, g: int, b: int) -> u8 {
        sample8(self.ru as int, self.gu as int, self.bu as int, self.auv as int, r, g, b)
    }

    /// The V byte of one averaged pixel.
    pub open spec fn v(self, r: int, g: int, b: int) -> u8 {
        sample8(self.rv as int, self.gv as int, self.bv as int, self.auv as int, r, g, b)
    }

    /// The luma sum cannot overflow.
    pub open spec fn luma_fits(self) -> bool {
        weights_fit(self.ry as int, self.gy as int, self.by as int, self.ay as int)
    }

    /// The chroma sums cannot overflow.
    pub open spec fn chroma_fits(self) -> bool {
        &&& weights_fit(self.ru as int, self.gu as int, self.bu as int, self.auv as int)
        &&& weights_fit(self.rv as int, self.gv as int, self.bv as int, self.auv as int)
    }

    /// The luma weights are bytes, as the vector multiply reads them.
    pub open spec fn luma_bytes(self) -> bool {
        is_byte(self.ry as int) && is_byte(self.gy as int) && is_byte(self.by as int)
    }

    /// No sum can overflow and the luma weights are bytes.
    pub open spec fn valid(self) -> bool {
        self.luma_fits() && self.chroma_fits() && self.luma_bytes()
    }
}

/// The coefficients `(ry, gy, by)`, `(ru, gu, bu)`, `(rv, gv, bv)` and `ay`, with
/// the chroma bias that every set has.
pub open spec fn with_weights(
    y: (int, int, int),
    u: (int, int, int),
    v: (int, int, int),
    ay: int,
) -> Coeffs8 {
    Coeffs8 {
        ry: y.0 as i32,
        gy: y.1 as i32,
        by: y.2 as i32,
        ay: ay as i32,
        ru: u.0 as i32,
        gu: u.1 as i32,
        bu: u.2 as i32,
        rv: v.0 as i32,
        gv: v.1 as i32,
        bv: v.2 as i32,
        auv: 32768,
    }
}

/// The tabulated coefficients.
pub open spec fn table8(matrix: YuvStandardMatrix, range: YuvRange) -> Option<Coeffs8> {
    let ay: int = if range is Limited {
        16int * 256 + 128
    } else {
        128
    };
    match (matrix, range) {
        (YuvStandardMatrix::Bt601, YuvRange::Limited) => Some(
            with_weights((66, 129, 25), (-38, -74, 112), (112, -94, -18), ay),
        ),
        (YuvStandardMatrix::Bt601, YuvRange::Full) => Some(
            with_weights((77, 150, 29), (-43, -85, 128), (128, -107, -21), ay),
        ),
        (YuvStandardMatrix::Bt709, YuvRange::Limited) => Some(
            with_weights((47, 157, 16), (-26, -86, 112), (112, -102, -10), ay),
        ),
        (YuvStandardMatrix::Bt709, YuvRange::Full) => Some(
            with_weights((54, 183, 19), (-29, -99, 128), (128, -116, -12), ay),
        ),
        (YuvStandardMatrix::Bt2020, YuvRange::Limited) => Some(
            with_weights((59, 148, 13), (-31, -81, 112), (112, -103, -9), ay),
        ),
        (YuvStandardMatrix::Bt2020, YuvRange::Full) => Some(
            with_weights((67, 174, 15), (-36, -92, 128), (128, -118, -10), ay),
        ),
        _ => None,
    }
}

/// Weights of at most nine bits leave every sum far within 32 bits.
proof fn lemma_small_weights_fit(kr: int, kg: int, kb: int, bias: int)
    requires
        -256 <= kr <= 256,
        -256 <= kg <= 256,
        -256 <= kb <= 256,
        0 <= bias <= 0x1_0000,
    ensures
        weights_fit(kr, kg, kb, bias),
{
    assert forall|r: int, g: int, b: int|
        is_byte(r) && is_byte(g) && is_byte(b) implies #[trigger] dot_fits(
        kr,
        kg,
        kb,
        bias,
        r,
        g,
        b,
    ) by {
        lemma_small_product(kr, r);
        lemma_small_product(kg, g);
        lemma_small_product(kb, b);
    }
}

proof fn lemma_small_product(k: int, x: int)
    by (nonlinear_arith)
    requires
        -256 <= k <= 256,
        0 <= x < 256,
    ensures
        -0x1_0000 <= k * x <= 0x1_0000,
{
}

/// Select the 8-bit coefficient set for a `(matrix, range)` pair, or `None` for
/// combinations that are not tabulated (the caller then falls back to the generic
/// 13-bit path).
pub fn coeffs8(matrix: YuvStandardMatrix, range: YuvRange) -> (r: Option<Coeffs8>)
    ensures
        r == table8(matrix, range),
        r is None <==> matrix is Smpte240 || matrix is Bt470_6,
        r matches Some(c) ==> c.valid(),
{
    // (ry, gy, by, ru, gu, bu, rv, gv, bv, ay, auv)
    let (ry, gy, by, ru, gu, bu, rv, gv, bv, ay, auv): (
        i32,
        i32,
        i32,
        i32,
        i32,
        i32,
        i32,
        i32,
        i32,
        i32,
        i32,
    ) = match (matrix, range) {
        (YuvStandardMatrix::Bt601, YuvRange::Limited) => {
            (66, 129, 25, -38, -74, 112, 112, -94, -18, 4224, 32768)
        },
        (YuvStandardMatrix::Bt601, YuvRange::Full) => {
            (77, 150, 29, -43, -85, 128, 128, -107, -21, 128, 32768)
        },
        (YuvStandardMatrix::Bt709, YuvRange::Limited) => {
            (47, 157, 16, -26, -86, 112, 112, -102, -10, 4224, 32768)
        },
        (YuvStandardMatrix::Bt709, YuvRange::Full) => {
            (54, 183, 19, -29, -99, 128, 128, -116, -12, 128, 32768)
        },
        (YuvStandardMatrix::Bt2020, YuvRange::Limited) => {
            (59, 148, 13, -31, -81, 112, 112, -103, -9, 4224, 32768)
        },
        (YuvStandardMatrix::Bt2020, YuvRange::Full) => {
            (67, 174, 15, -36, -92, 128, 128, -118, -10, 128, 32768)
        },
        // Smpte240 / Bt470_6: no 8-bit table; the caller falls back to 13-bit.
        _ => return None,
    };
    proof {
        lemma_small_weights_fit(ry as int, gy as int, by as int, ay as int);
        lemma_small_weights_fit(ru as int, gu as int, bu as int, auv as int);
        lemma_small_weights_fit(rv as int, gv as int, bv as int, auv as int);
    }
    Some(Coeffs8 { ry, gy, by, ay, ru, gu, bu, rv, gv, bv, auv })
}

// ---------------------------------------------------------------------------
// Scalar formulas, used for the frame edges
// ---------------------------------------------------------------------------

/// Bits 8 to 15 of `kr*r + kg*g + kb*b + bias`.
fn weigh(kr: i32, kg: i32, kb: i32, bias: i32, r: i32, g: i32, b: i32) -> (s: u8)
    requires
        dot_fits(kr as int, kg as int, kb as int, bias as int, r as int, g as int, b as int),
    ensures
        s == sample8(kr as int, kg as int, kb as int, bias as int, r as int, g as int, b as int),
{
    let sum = kr * r + kg * g + kb * b + bias;
    proof {
        lemma2_to64();
        lemma_i32_shr_is_div(sum, 8);
        lemma_i32_casts(sum >> 8);
    }
    (sum >> 8) as u8
}

/// The luma byte of one pixel.
pub fn rgb_to_y(r: i32, g: i32, b: i32, c: &Coeffs8) -> (s: u8)
    requires
        dot_fits(
            c.ry as int,
            c.gy as int,
            c.by as int,
            c.ay as int,
            r as int,
            g as int,
            b as int,
        ),
    ensures
        s == c.y(r as int, g as int, b as int),
{
    weigh(c.ry, c.gy, c.by, c.ay, r, g, b)
}

/// The U byte of one averaged pixel.
pub fn rgb_to_u(r: i32, g: i32, b: i32, c: &Coeffs8) -> (s: u8)
    requires
        dot_fits(
            c.ru as int,
            c.gu as int,
            c.bu as int,
            c.auv as int,
            r as int,
            g as int,
            b as int,
        ),
    ensures
        s == c.u(r as int, g as int, b as int),
{
    weigh(c.ru, c.gu, c.bu, c.auv, r, g, b)
}

/// The V byte of one averaged pixel.
pub fn rgb_to_v(r: i32, g: i32, b: i32, c: &Coeffs8) -> (s: u8)
    requires
        dot_fits(
            c.rv as int,
            c.gv as int,
            c.bv as int,
            c.auv as int,
            r as int,
            g as int,
            b as int,
        ),
    ensures
        s == c.v(r as int, g as int, b as int),
{
    weigh(c.rv, c.gv, c.bv, c.auv, r, g, b)
}

/// Average of the samples of a quad that exist, rounding half up.
pub open spec fn quad_average(
    s00: int,
    s01: int,
    s10: int,
    s11: int,
    two_cols: bool,
    two_rows: bool,
) -> int {
    if two_cols && two_rows {
        (s00 + s01 + s10 + s11 + 2) / 4
    } else if two_cols {
        (s00 + s01 + 1) / 2
    } else if two_rows {
        (s00 + s10 + 1) / 2
    } else {
        s00
    }
}

/// 2x2 box average of one channel over up to two rows / two columns:
/// `(a+b+c+d+2)>>2` for a full quad, `(a+b+1)>>1` for a pair, the sample itself
/// for a single.
pub fn avg_quad(
    s00: i32,
    s01: i32,
    s10: i32,
    s11: i32,
    two_cols: bool,
    two_rows: bool,
) -> (r: i32)
    requires
        two_cols ==> i32::MIN <= s00 + s01 <= i32::MAX,
        two_cols && two_rows ==> i32::MIN <= s00 + s01 + s10 <= i32::MAX,
        two_cols && two_rows ==> i32::MIN <= s00 + s01 + s10 + s11 <= i32::MAX - 2,
        two_cols && !two_rows ==> s00 + s01 <= i32::MAX - 1,
        !two_cols && two_rows ==> i32::MIN <= s00 + s10 <= i32::MAX - 1,
    ensures
        r == quad_average(
            s00 as int,
            s01 as int,
            s10 as int,
            s11 as int,
            two_cols,
            two_rows,
        ),
{
    proof {
        lemma2_to64();
    }
    match (two_cols, two_rows) {
        (true, true) => {
            let sum = s00 + s01 + s10 + s11 + 2;
            proof {
                lemma_i32_shr_is_div(sum, 2);
            }
            sum >> 2
        },
        (true, false) => {
            let sum = s00 + s01 + 1;
            proof {
                lemma_i32_shr_is_div(sum, 1);
            }
            sum >> 1
        },
        (false, true) => {
            let sum = s00 + s10 + 1;
            proof {
                lemma_i32_shr_is_div(sum, 1);
            }
            sum >> 1
        },
        (false, false) => s00,
    }
}

// ---------------------------------------------------------------------------
// Samples of a row pair
// ---------------------------------------------------------------------------

/// The luma byte of pixel `x` of a row.
pub open spec fn y8_at(c: Coeffs8, sc: YuvSourceChannels, row: Seq<u8>, x: int) -> u8 {
    c.y(sc.red(row, x), sc.green(row, x), sc.blue(row, x))
}

/// The luma row of `row`, by column.
pub open spec fn y8_row(c: Coeffs8, sc: YuvSourceChannels, row: Seq<u8>) -> spec_fn(int) -> u8 {
    |x: int| y8_at(c, sc, row, x)
}

/// Red averaged over the quad whose left column is `x`.
pub open spec fn edge_red(
    sc: YuvSourceChannels,
    row0: Seq<u8>,
    row1: Seq<u8>,
    x: int,
    width: int,
    two_rows: bool,
) -> int {
    quad_average(
        sc.red(row0, x),
        sc.red(row0, x + 1),
        sc.red(row1, x),
        sc.red(row1, x + 1),
        x + 1 < width,
        two_rows,
    )
}

/// Green averaged over the quad whose left column is `x`.
pub open spec fn edge_green(
    sc: YuvSourceChannels,
    row0: Seq<u8>,
    row1: Seq<u8>,
    x: int,
    width: int,
    two_rows: bool,
) -> int {
    quad_average(
        sc.green(row0, x),
        sc.green(row0, x + 1),
        sc.green(row1, x),
        sc.green(row1, x + 1),
        x + 1 < width,
        two_rows,
    )
}

/// Blue averaged over the quad whose left column is `x`.
pub open spec fn edge_blue(
    sc: YuvSourceChannels,
    row0: Seq<u8>,
    row1: Seq<u8>,
    x: int,
    width: int,
    two_rows: bool,
) -> int {
    quad_average(
        sc.blue(row0, x),
        sc.blue(row0, x + 1),
        sc.blue(row1, x),
        sc.blue(row1, x + 1),
        x + 1 < width,
        two_rows,
    )
}

/// The U byte of the quad whose left column is `x`, in rows of `width` pixels.
pub open spec fn u8_at(
    c: Coeffs8,
    sc: YuvSourceChannels,
    row0: Seq<u8>,
    row1: Seq<u8>,
    x: int,
    width: int,
    two_rows: bool,
) -> u8 {
    c.u(
        edge_red(sc, row0, row1, x, width, two_rows),
        edge_green(sc, row0, row1, x, width, two_rows),
        edge_blue(sc, row0, row1, x, width, two_rows),
    )
}

/// The V byte of the quad whose left column is `x`, in rows of `width` pixels.
pub open spec fn v8_at(
    c: Coeffs8,
    sc: YuvSourceChannels,
    row0: Seq<u8>,
    row1: Seq<u8>,
    x: int,
    width: int,
    two_rows: bool,
) -> u8 {
    c.v(
        edge_red(sc, row0, row1, x, width, two_rows),
        edge_green(sc, row0, row1, x, width, two_rows),
        edge_blue(sc, row0, row1, x, width, two_rows),
    )
}

/// The U row of a row pair, by chroma column.
pub open spec fn u8_row(
    c: Coeffs8,
    sc: YuvSourceChannels,
    row0: Seq<u8>,
    row1: Seq<u8>,
    width: int,
    two_rows: bool,
) -> spec_fn(int) -> u8 {
    |j: int| u8_at(c, sc, row0, row1, 2 * j, width, two_rows)
}

/// The V row of a row pair, by chroma column.
pub open spec fn v8_row(
    c: Coeffs8,
    sc: YuvSourceChannels,
    row0: Seq<u8>,
    row1: Seq<u8>,
    width: int,
    two_rows: bool,
) -> spec_fn(int) -> u8 {
    |j: int| v8_at(c, sc, row0, row1, 2 * j, width, two_rows)
}

/// Byte `k` of the interleaved chroma row of a row pair.
pub open spec fn uv8_at(
    c: Coeffs8,
    sc: YuvSourceChannels,
    order: YuvNVOrder,
    row0: Seq<u8>,
    row1: Seq<u8>,
    k: int,
    width: int,
    two_rows: bool,
) -> u8 {
    if k % 2 == order.u_position() {
        u8_at(c, sc, row0, row1, 2 * (k / 2), width, two_rows)
    } else {
        v8_at(c, sc, row0, row1, 2 * (k / 2), width, two_rows)
    }
}

/// The interleaved chroma row of a row pair, by byte.
pub open spec fn uv8_row(
    c: Coeffs8,
    sc: YuvSourceChannels,
    order: YuvNVOrder,
    row0: Seq<u8>,
    row1: Seq<u8>,
    width: int,
    two_rows: bool,
) -> spec_fn(int) -> u8 {
    |k: int| uv8_at(c, sc, order, row0, row1, k, width, two_rows)
}

/// Scalar luma for source columns `[x0, width)` of one row.
pub fn scalar_y_tail<const ORIGIN_CHANNELS: u8>(
    rgba: &[u8],
    y: &mut [u8],
    x0: usize,
    width: usize,
    c: &Coeffs8,
)
    requires
        YuvSourceChannels::is_code(ORIGIN_CHANNELS),
        c.luma_fits(),
        x0 <= width <= old(y)@.len(),
        x0 < width ==> YuvSourceChannels::decoded(ORIGIN_CHANNELS).pixel(width - 1) + 3
            <= rgba@.len(),
    ensures
        overwritten(
            final(y)@,
            old(y)@,
            x0 as int,
            width as int,
            y8_row(*c, YuvSourceChannels::decoded(ORIGIN_CHANNELS), rgba@),
        ),
{
    let sc = YuvSourceChannels::from(ORIGIN_CHANNELS);
    let ch = sc.get_channels_count();
    let (ro, go, bo) = (
        sc.get_r_channel_offset(),
        sc.get_g_channel_offset(),
        sc.get_b_channel_offset(),
    );
    assert(rgba@.len() == rgba.len());
    for x in x0..width
        invariant
            c.luma_fits(),
            sc == YuvSourceChannels::decoded(ORIGIN_CHANNELS),
            ch == sc.pixel(1),
            ro == sc.r_offset(),
            go == 1,
            bo == sc.b_offset(),
            width <= old(y)@.len(),
            x0 < width ==> sc.pixel(width - 1) + 3 <= rgba@.len(),
            rgba@.len() <= usize::MAX,
            overwritten(y@, old(y)@, x0 as int, x as int, y8_row(*c, sc, rgba@)),
    {
        proof {
            sc.lemma_pixel(x as int);
        }
        let p = x * ch;
        let (r, g, b) = (rgba[p + ro] as i32, rgba[p + go] as i32, rgba[p + bo] as i32);
        assert(is_byte(r as int) && is_byte(g as int) && is_byte(b as int));
        y[x] = rgb_to_y(r, g, b, c);
    }
}

/// Average channel `off` of the source pixel quad at bytes `p` and `q`, handling
/// odd edges.
pub fn quad_channel(
    rgba0: &[u8],
    rgba1: &[u8],
    p: usize,
    q: usize,
    off: usize,
    two_cols: bool,
    two_rows: bool,
) -> (r: i32)
    requires
        p + off < rgba0@.len(),
        two_cols ==> q + off < rgba0@.len(),
        two_rows ==> p + off < rgba1@.len(),
        two_cols && two_rows ==> q + off < rgba1@.len(),
    ensures
        r == quad_average(
            rgba0@[p + off] as int,
            rgba0@[q + off] as int,
            rgba1@[p + off] as int,
            rgba1@[q + off] as int,
            two_cols,
            two_rows,
        ),
        is_byte(r as int),
{
    assert(rgba0@.len() == rgba0.len());
    assert(rgba1@.len() == rgba1.len());
    let s00 = rgba0[p + off] as i32;
    let s01: i32 = if two_cols { rgba0[q + off] as i32 } else { 0 };
    let s10: i32 = if two_rows { rgba1[p + off] as i32 } else { 0 };
    let s11: i32 = if two_cols && two_rows { rgba1[q + off] as i32 } else { 0 };
    avg_quad(s00, s01, s10, s11, two_cols, two_rows)
}

/// Scalar chroma for the source columns `[x0, width)`: the `(U, V)` samples of the
/// chroma columns from `x0 / 2` on, in order, for a planar or an interleaved
/// layout alike.
pub fn scalar_chroma_tail<const ORIGIN_CHANNELS: u8>(
    rgba0: &[u8],
    rgba1: &[u8],
    x0: usize,
    width: usize,
    two_rows: bool,
    c: &Coeffs8,
) -> (out: Vec<(u8, u8)>)
    requires
        YuvSourceChannels::is_code(ORIGIN_CHANNELS),
        c.chroma_fits(),
        x0 < width ==> YuvSourceChannels::decoded(ORIGIN_CHANNELS).pixel(width - 1) + 3
            <= rgba0@.len(),
        x0 < width && two_rows ==> YuvSourceChannels::decoded(ORIGIN_CHANNELS).pixel(width - 1) + 3
            <= rgba1@.len(),
    ensures
        out@.len() == (if x0 < width {
            (width - x0 + 1) / 2
        } else {
            0
        }),
        forall|k: int|
            0 <= k < out@.len() ==> #[trigger] out@[k] == (
                u8_at(
                    *c,
                    YuvSourceChannels::decoded(ORIGIN_CHANNELS),
                    rgba0@,
                    rgba1@,
                    x0 + 2 * k,
                    width as int,
                    two_rows,
                ),
                v8_at(
                    *c,
                    YuvSourceChannels::decoded(ORIGIN_CHANNELS),
                    rgba0@,
                    rgba1@,
                    x0 + 2 * k,
                    width as int,
                    two_rows,
                ),
            ),
{
    let sc = YuvSourceChannels::from(ORIGIN_CHANNELS);
    let ch = sc.get_channels_count();
    let (ro, go, bo) = (
        sc.get_r_channel_offset(),
        sc.get_g_channel_offset(),
        sc.get_b_channel_offset(),
    );
    let mut out: Vec<(u8, u8)> = Vec::new();
    let mut sx = x0;
    assert(rgba0@.len() == rgba0.len());
    while sx < width
        invariant
            sc == YuvSourceChannels::decoded(ORIGIN_CHANNELS),
            ch == sc.pixel(1),
            ro == sc.r_offset(),
            go == 1,
            bo == sc.b_offset(),
            c.chroma_fits(),
            x0 <= sx,
            x0 == sx || sx <= width + 1,
            sx == x0 + 2 * out@.len(),
            rgba0@.len() <= usize::MAX,
            x0 < width ==> sc.pixel(width - 1) + 3 <= rgba0@.len(),
            x0 < width && two_rows ==> sc.pixel(width - 1) + 3 <= rgba1@.len(),
            forall|k: int|
                0 <= k < out@.len() ==> #[trigger] out@[k] == (
                    u8_at(*c, sc, rgba0@, rgba1@, x0 + 2 * k, width as int, two_rows),
                    v8_at(*c, sc, rgba0@, rgba1@, x0 + 2 * k, width as int, two_rows),
                ),
        decreases width + 1 - sx,
    {
        proof {
            sc.lemma_pixel(sx as int);
        }
        let two_cols = sx + 1 < width;
        let p = sx * ch;
        let q = if two_cols { p + ch } else { p };
        let r = quad_channel(rgba0, rgba1, p, q, ro, two_cols, two_rows);
        let g = quad_channel(rgba0, rgba1, p, q, go, two_cols, two_rows);
        let b = quad_channel(rgba0, rgba1, p, q, bo, two_cols, two_rows);
        out.push((rgb_to_u(r, g, b, c), rgb_to_v(r, g, b, c)));
        sx += 2;
    }
    out
}

// ---------------------------------------------------------------------------
// Row-pair drivers
// ---------------------------------------------------------------------------

/// `new` is `old` with the luma columns `lo..hi` and their chroma columns encoded
/// from the two source rows; `lo` is even.
pub open spec fn i420_encoded(
    new: Rows420,
    old: Rows420,
    c: Coeffs8,
    code: u8,
    rgba0: Seq<u8>,
    rgba1: Seq<u8>,
    width: int,
    lo: int,
    hi: int,
) -> bool {
    let sc = YuvSourceChannels::decoded(code);
    let fu = u8_row(c, sc, rgba0, rgba1, width, true);
    let fv = v8_row(c, sc, rgba0, rgba1, width, true);
    &&& overwritten(new.y0, old.y0, lo, hi, y8_row(c, sc, rgba0))
    &&& overwritten(new.y1, old.y1, lo, hi, y8_row(c, sc, rgba1))
    &&& overwritten(new.u, old.u, lo / 2, half_up(hi), fu)
    &&& overwritten(new.v, old.v, lo / 2, half_up(hi), fv)
}

/// Whether the rows hold the columns up to `end`.
pub open spec fn i420_rows_ok(
    code: u8,
    rows: Rows420,
    rgba0: Seq<u8>,
    rgba1: Seq<u8>,
    end: int,
) -> bool {
    let sc = YuvSourceChannels::decoded(code);
    &&& YuvSourceChannels::is_code(code)
    &&& sc.pixel(end) <= rgba0.len()
    &&& sc.pixel(end) <= rgba1.len()
    &&& end <= rows.y0.len()
    &&& end <= rows.y1.len()
    &&& half_up(end) <= rows.u.len()
    &&& half_up(end) <= rows.v.len()
}

/// Adjacent encoded stretches are one.
pub proof fn lemma_i420_joins(
    new: Rows420,
    mid: Rows420,
    old: Rows420,
    c: Coeffs8,
    code: u8,
    rgba0: Seq<u8>,
    rgba1: Seq<u8>,
    width: int,
    lo: int,
    at: int,
    hi: int,
)
    requires
        lo <= at <= hi,
        at % 2 == 0,
        i420_encoded(mid, old, c, code, rgba0, rgba1, width, lo, at),
        i420_encoded(new, mid, c, code, rgba0, rgba1, width, at, hi),
    ensures
        i420_encoded(new, old, c, code, rgba0, rgba1, width, lo, hi),
{
    let sc = YuvSourceChannels::decoded(code);
    let fu = u8_row(c, sc, rgba0, rgba1, width, true);
    let fv = v8_row(c, sc, rgba0, rgba1, width, true);
    lemma_overwritten_joins(new.y0, mid.y0, old.y0, lo, at, hi, y8_row(c, sc, rgba0));
    lemma_overwritten_joins(new.y1, mid.y1, old.y1, lo, at, hi, y8_row(c, sc, rgba1));
    lemma_overwritten_joins(new.u, mid.u, old.u, lo / 2, at / 2, half_up(hi), fu);
    lemma_overwritten_joins(new.v, mid.v, old.v, lo / 2, at / 2, half_up(hi), fv);
}

/// Encode and store the 16-pixel block at the even column `cx`.
fn lsx_store_i420<const ORIGIN_CHANNELS: u8>(
    rgba0: &[u8],
    rgba1: &[u8],
    y0: &mut [u8],
    y1: &mut [u8],
    u: &mut [u8],
    v: &mut [u8],
    cx: usize,
    c: &Coeffs8,
    Ghost(width): Ghost<int>,
)
    requires
        c.luma_bytes(),
        cx % 2 == 0,
        cx + 16 <= width,
        i420_rows_ok(
            ORIGIN_CHANNELS,
            (Rows420 { y0: old(y0)@, y1: old(y1)@, u: old(u)@, v: old(v)@ }),
            rgba0@,
            rgba1@,
            cx + 16,
        ),
    ensures
        i420_encoded(
            (Rows420 { y0: final(y0)@, y1: final(y1)@, u: final(u)@, v: final(v)@ }),
            (Rows420 { y0: old(y0)@, y1: old(y1)@, u: old(u)@, v: old(v)@ }),
            *c,
            ORIGIN_CHANNELS,
            rgba0@,
            rgba1@,
            width,
            cx as int,
            cx + 16,
        ),
{
    let blk = lsx_block16::<ORIGIN_CHANNELS>(rgba0, rgba1, cx, c);
    store16(y0, cx, blk.y0);
    store16(y1, cx, blk.y1);
    store8(u, cx / 2, blk.u);
    store8(v, cx / 2, blk.v);
    proof {
        let sc = YuvSourceChannels::decoded(ORIGIN_CHANNELS);
        let x = cx as int;
        let fu = u8_row(*c, sc, rgba0@, rgba1@, width, true);
        let fv = v8_row(*c, sc, rgba0@, rgba1@, width, true);
        assert forall|i: int| 0 <= i < 8 implies #[trigger] blk.u.b(i) == fu(x / 2 + i) by {
            assert(2 * (x / 2 + i) == x + 2 * i);
        }
        assert forall|i: int| 0 <= i < 8 implies #[trigger] blk.v.b(i) == fv(x / 2 + i) by {
            assert(2 * (x / 2 + i) == x + 2 * i);
        }
        lemma_store_overwrites(y0@, old(y0)@, x, blk.y0, 0, 16, y8_row(*c, sc, rgba0@));
        lemma_store_overwrites(y1@, old(y1)@, x, blk.y1, 0, 16, y8_row(*c, sc, rgba1@));
        lemma_store_overwrites(u@, old(u)@, x / 2, blk.u, 0, 8, fu);
        lemma_store_overwrites(v@, old(v)@, x / 2, blk.v, 0, 8, fv);
    }
}

/// Encode and store the 32-pixel block at the even column `cx`.
fn lasx_store_i420<const ORIGIN_CHANNELS: u8>(
    rgba0: &[u8],
    rgba1: &[u8],
    y0: &mut [u8],
    y1: &mut [u8],
    u: &mut [u8],
    v: &mut [u8],
    cx: usize,
    c: &Coeffs8,
    Ghost(width): Ghost<int>,
)
    requires
        YuvSourceChannels::decoded(ORIGIN_CHANNELS).four_channels(),
        c.luma_bytes(),
        cx % 2 == 0,
        cx + 32 <= width,
        i420_rows_ok(
            ORIGIN_CHANNELS,
            (Rows420 { y0: old(y0)@, y1: old(y1)@, u: old(u)@, v: old(v)@ }),
            rgba0@,
            rgba1@,
            cx + 32,
        ),
    ensures
        i420_encoded(
            (Rows420 { y0: final(y0)@, y1: final(y1)@, u: final(u)@, v: final(v)@ }),
            (Rows420 { y0: old(y0)@, y1: old(y1)@, u: old(u)@, v: old(v)@ }),
            *c,
            ORIGIN_CHANNELS,
            rgba0@,
            rgba1@,
            width,
            cx as int,
            cx + 32,
        ),
{
    let blk = lasx_block32::<ORIGIN_CHANNELS>(rgba0, rgba1, cx, c);
    xstore32(y0, cx, blk.y0);
    xstore32(y1, cx, blk.y1);
    xstore16_chroma(u, cx / 2, blk.u);
    xstore16_chroma(v, cx / 2, blk.v);
    proof {
        let sc = YuvSourceChannels::decoded(ORIGIN_CHANNELS);
        let x = cx as int;
        let (left, right) = (blk.left(), blk.right());
        assert(left.y0 == blk.y0.lo && left.y1 == blk.y1.lo);
        assert(right.y0 == blk.y0.hi && right.y1 == blk.y1.hi);
        lemma_xstore_overwrites(y0@, old(y0)@, x, blk.y0, y8_row(*c, sc, rgba0@));
        lemma_xstore_overwrites(y1@, old(y1)@, x, blk.y1, y8_row(*c, sc, rgba1@));
        assert forall|k: int| 0 <= k < u@.len() implies #[trigger] u@[k] == (if x / 2 <= k < x / 2
            + 16 {
            u8_at(*c, sc, rgba0@, rgba1@, 2 * k, width, true)
        } else {
            old(u)@[k]
        }) by {
            let i = k - x / 2;
            if 0 <= i < 8 {
                assert(left.u.b(i) == full_u(*c, sc, rgba0@, rgba1@, x + 2 * i));
            } else if 8 <= i < 16 {
                assert(right.u.b(i - 8) == full_u(
                    *c,
                    sc,
                    rgba0@,
                    rgba1@,
                    x + 16 + 2 * (i - 8),
                ));
            }
        }
        assert forall|k: int| 0 <= k < v@.len() implies #[trigger] v@[k] == (if x / 2 <= k < x / 2
            + 16 {
            v8_at(*c, sc, rgba0@, rgba1@, 2 * k, width, true)
        } else {
            old(v)@[k]
        }) by {
            let i = k - x / 2;
            if 0 <= i < 8 {
                assert(left.v.b(i) == full_v(*c, sc, rgba0@, rgba1@, x + 2 * i));
            } else if 8 <= i < 16 {
                assert(right.v.b(i - 8) == full_v(
                    *c,
                    sc,
                    rgba0@,
                    rgba1@,
                    x + 16 + 2 * (i - 8),
                ));
            }
        }
    }
}

/// A store of 32 samples overwrites the bytes that it covers.
proof fn lemma_xstore_overwrites(
    new: Seq<u8>,
    old: Seq<u8>,
    off: int,
    v: V256,
    f: spec_fn(int) -> u8,
)
    requires
        stores_256(new, old, off, v),
        forall|i: int| 0 <= i < 16 ==> #[trigger] v.lo.b(i) == f(off + i),
        forall|i: int| 0 <= i < 16 ==> #[trigger] v.hi.b(i) == f(off + 16 + i),
    ensures
        overwritten(new, old, off, off + 32, f),
{
    assert forall|k: int| 0 <= k < old.len() implies #[trigger] new[k] == (if off <= k < off + 32 {
        f(k)
    } else {
        old[k]
    }) by {
        let i = k - off;
        if 0 <= i < 16 {
            assert(v.lo.b(i) == f(off + i));
        } else if 16 <= i < 32 {
            assert(v.hi.b(i - 16) == f(off + 16 + (i - 16)));
        }
    }
}

/// Per-row-pair SIMD: process whole 16-px blocks, returning the number of source
/// columns covered (`cx`, a multiple of 16). The caller fills `[cx, width)` with
/// the scalar tail so the whole frame stays 8-bit.
pub fn lsx_i420_rowpair<const ORIGIN_CHANNELS: u8>(
    rgba0: &[u8],
    rgba1: &[u8],
    y0: &mut [u8],
    y1: &mut [u8],
    u: &mut [u8],
    v: &mut [u8],
    width: usize,
    c: &Coeffs8,
) -> (cx: usize)
    requires
        c.luma_bytes(),
        i420_rows_ok(
            ORIGIN_CHANNELS,
            (Rows420 { y0: old(y0)@, y1: old(y1)@, u: old(u)@, v: old(v)@ }),
            rgba0@,
            rgba1@,
            width - width % 16,
        ),
    ensures
        cx == width - width % 16,
        i420_encoded(
            (Rows420 { y0: final(y0)@, y1: final(y1)@, u: final(u)@, v: final(v)@ }),
            (Rows420 { y0: old(y0)@, y1: old(y1)@, u: old(u)@, v: old(v)@ }),
            *c,
            ORIGIN_CHANNELS,
            rgba0@,
            rgba1@,
            width as int,
            0,
            cx as int,
        ),
{
    let mut cx: usize = 0;
    while width - cx >= LSX_BLOCK
        invariant
            c.luma_bytes(),
            cx <= width,
            cx % 16 == 0,
            i420_rows_ok(
                ORIGIN_CHANNELS,
                Rows420 { y0: old(y0)@, y1: old(y1)@, u: old(u)@, v: old(v)@ },
                rgba0@,
                rgba1@,
                width - width % 16,
            ),
            i420_encoded(
                Rows420 { y0: y0@, y1: y1@, u: u@, v: v@ },
                Rows420 { y0: old(y0)@, y1: old(y1)@, u: old(u)@, v: old(v)@ },
                *c,
                ORIGIN_CHANNELS,
                rgba0@,
                rgba1@,
                width as int,
                0,
                cx as int,
            ),
        decreases width - cx,
    {
        let ghost mid = Rows420 { y0: y0@, y1: y1@, u: u@, v: v@ };
        lsx_store_i420::<ORIGIN_CHANNELS>(rgba0, rgba1, y0, y1, u, v, cx, c, Ghost(width as int));
        proof {
            lemma_i420_joins(
                Rows420 { y0: y0@, y1: y1@, u: u@, v: v@ },
                mid,
                Rows420 { y0: old(y0)@, y1: old(y1)@, u: old(u)@, v: old(v)@ },
                *c,
                ORIGIN_CHANNELS,
                rgba0@,
                rgba1@,
                width as int,
                0,
                cx as int,
                cx + 16,
            );
        }
        cx += LSX_BLOCK;
    }
    cx
}

/// Per-row-pair SIMD with 32-px blocks and, where one is left, a trailing 16-px
/// block. 4-channel pixels only.
pub fn lasx_i420_rowpair<const ORIGIN_CHANNELS: u8>(
    rgba0: &[u8],
    rgba1: &[u8],
    y0: &mut [u8],
    y1: &mut [u8],
    u: &mut [u8],
    v: &mut [u8],
    width: usize,
    c: &Coeffs8,
) -> (cx: usize)
    requires
        YuvSourceChannels::decoded(ORIGIN_CHANNELS).four_channels(),
        c.luma_bytes(),
        i420_rows_ok(
            ORIGIN_CHANNELS,
            (Rows420 { y0: old(y0)@, y1: old(y1)@, u: old(u)@, v: old(v)@ }),
            rgba0@,
            rgba1@,
            width - width % 16,
        ),
    ensures
        cx == width - width % 16,
        i420_encoded(
            (Rows420 { y0: final(y0)@, y1: final(y1)@, u: final(u)@, v: final(v)@ }),
            (Rows420 { y0: old(y0)@, y1: old(y1)@, u: old(u)@, v: old(v)@ }),
            *c,
            ORIGIN_CHANNELS,
            rgba0@,
            rgba1@,
            width as int,
            0,
            cx as int,
        ),
{
    let mut cx: usize = 0;
    while width - cx >= LASX_BLOCK
        invariant
            c.luma_bytes(),
            YuvSourceChannels::decoded(ORIGIN_CHANNELS).four_channels(),
            cx <= width,
            cx % 32 == 0,
            i420_rows_ok(
                ORIGIN_CHANNELS,
                Rows420 { y0: old(y0)@, y1: old(y1)@, u: old(u)@, v: old(v)@ },
                rgba0@,
                rgba1@,
                width - width % 16,
            ),
            i420_encoded(
                Rows420 { y0: y0@, y1: y1@, u: u@, v: v@ },
                Rows420 { y0: old(y0)@, y1: old(y1)@, u: old(u)@, v: old(v)@ },
                *c,
                ORIGIN_CHANNELS,
                rgba0@,
                rgba1@,
                width as int,
                0,
                cx as int,
            ),
        decreases width - cx,
    {
        let ghost mid = Rows420 { y0: y0@, y1: y1@, u: u@, v: v@ };
        lasx_store_i420::<ORIGIN_CHANNELS>(rgba0, rgba1, y0, y1, u, v, cx, c, Ghost(width as int));
        proof {
            lemma_i420_joins(
                Rows420 { y0: y0@, y1: y1@, u: u@, v: v@ },
                mid,
                Rows420 { y0: old(y0)@, y1: old(y1)@, u: old(u)@, v: old(v)@ },
                *c,
                ORIGIN_CHANNELS,
                rgba0@,
                rgba1@,
                width as int,
                0,
                cx as int,
                cx + 32,
            );
        }
        cx += LASX_BLOCK;
    }
    // Trailing 16-px block (width % 32 in [16, 32)).
    while width - cx >= LSX_BLOCK
        invariant
            c.luma_bytes(),
            YuvSourceChannels::decoded(ORIGIN_CHANNELS).four_channels(),
            cx <= width,
            cx % 16 == 0,
            i420_rows_ok(
                ORIGIN_CHANNELS,
                Rows420 { y0: old(y0)@, y1: old(y1)@, u: old(u)@, v: old(v)@ },
                rgba0@,
                rgba1@,
                width - width % 16,
            ),
            i420_encoded(
                Rows420 { y0: y0@, y1: y1@, u: u@, v: v@ },
                Rows420 { y0: old(y0)@, y1: old(y1)@, u: old(u)@, v: old(v)@ },
                *c,
                ORIGIN_CHANNELS,
                rgba0@,
                rgba1@,
                width as int,
                0,
                cx as int,
            ),
        decreases width - cx,
    {
        let ghost mid = Rows420 { y0: y0@, y1: y1@, u: u@, v: v@ };
        lsx_store_i420::<ORIGIN_CHANNELS>(rgba0, rgba1, y0, y1, u, v, cx, c, Ghost(width as int));
        proof {
            lemma_i420_joins(
                Rows420 { y0: y0@, y1: y1@, u: u@, v: v@ },
                mid,
                Rows420 { y0: old(y0)@, y1: old(y1)@, u: old(u)@, v: old(v)@ },
                *c,
                ORIGIN_CHANNELS,
                rgba0@,
                rgba1@,
                width as int,
                0,
                cx as int,
                cx + 16,
            );
        }
        cx += LSX_BLOCK;
    }
    cx
}

/// `new` is `old` with the luma columns `lo..hi` and their chroma pairs encoded
/// from the two source rows; `lo` is even.
pub open spec fn nv12_encoded(
    new: RowsNv,
    old: RowsNv,
    c: Coeffs8,
    code: u8,
    order: u8,
    rgba0: Seq<u8>,
    rgba1: Seq<u8>,
    width: int,
    lo: int,
    hi: int,
) -> bool {
    let sc = YuvSourceChannels::decoded(code);
    let fuv = uv8_row(c, sc, YuvNVOrder::decoded(order), rgba0, rgba1, width, true);
    &&& overwritten(new.y0, old.y0, lo, hi, y8_row(c, sc, rgba0))
    &&& overwritten(new.y1, old.y1, lo, hi, y8_row(c, sc, rgba1))
    &&& overwritten(new.uv, old.uv, lo, 2 * half_up(hi), fuv)
}

/// Whether the rows hold the columns up to `end`.
pub open spec fn nv12_rows_ok(
    code: u8,
    order: u8,
    rows: RowsNv,
    rgba0: Seq<u8>,
    rgba1: Seq<u8>,
    end: int,
) -> bool {
    let sc = YuvSourceChannels::decoded(code);
    &&& YuvSourceChannels::is_code(code)
    &&& YuvNVOrder::is_code(order)
    &&& sc.pixel(end) <= rgba0.len()
    &&& sc.pixel(end) <= rgba1.len()
    &&& end <= rows.y0.len()
    &&& end <= rows.y1.len()
    &&& 2 * half_up(end) <= rows.uv.len()
}

/// Adjacent encoded stretches are one.
pub proof fn lemma_nv12_joins(
    new: RowsNv,
    mid: RowsNv,
    old: RowsNv,
    c: Coeffs8,
    code: u8,
    order: u8,
    rgba0: Seq<u8>,
    rgba1: Seq<u8>,
    width: int,
    lo: int,
    at: int,
    hi: int,
)
    requires
        lo <= at <= hi,
        at % 2 == 0,
        nv12_encoded(mid, old, c, code, order, rgba0, rgba1, width, lo, at),
        nv12_encoded(new, mid, c, code, order, rgba0, rgba1, width, at, hi),
    ensures
        nv12_encoded(new, old, c, code, order, rgba0, rgba1, width, lo, hi),
{
    let sc = YuvSourceChannels::decoded(code);
    let fuv = uv8_row(c, sc, YuvNVOrder::decoded(order), rgba0, rgba1, width, true);
    lemma_overwritten_joins(new.y0, mid.y0, old.y0, lo, at, hi, y8_row(c, sc, rgba0));
    lemma_overwritten_joins(new.y1, mid.y1, old.y1, lo, at, hi, y8_row(c, sc, rgba1));
    lemma_overwritten_joins(new.uv, mid.uv, old.uv, lo, at, 2 * half_up(hi), fuv);
}

/// Interleaved chroma samples of a block are the bytes of the chroma row.
proof fn lemma_pairs(
    blk: LsxBlock,
    packed: V128,
    c: Coeffs8,
    sc: YuvSourceChannels,
    order: YuvNVOrder,
    rgba0: Seq<u8>,
    rgba1: Seq<u8>,
    width: int,
    x: int,
)
    requires
        x % 2 == 0,
        x + 16 <= width,
        encodes_block8(blk, c, sc, rgba0, rgba1, x),
        order is UV ==> interleaves_low(packed, blk.v, blk.u),
        order is VU ==> interleaves_low(packed, blk.u, blk.v),
    ensures
        forall|i: int|
            0 <= i < 16 ==> #[trigger] packed.b(i) == uv8_at(
                c,
                sc,
                order,
                rgba0,
                rgba1,
                x + i,
                width,
                true,
            ),
{
    assert forall|i: int| 0 <= i < 16 implies #[trigger] packed.b(i) == uv8_at(
        c,
        sc,
        order,
        rgba0,
        rgba1,
        x + i,
        width,
        true,
    ) by {
        let j = i / 2;
        assert(2 * ((x + i) / 2) == x + 2 * j);
        assert((x + i) % 2 == i % 2);
        assert(blk.u.b(j) == full_u(c, sc, rgba0, rgba1, x + 2 * j));
        assert(blk.v.b(j) == full_v(c, sc, rgba0, rgba1, x + 2 * j));
    }
}

/// Encode and store the 16-pixel block at the even column `cx`.
fn lsx_store_nv12<const ORIGIN_CHANNELS: u8, const UV_ORDER: u8>(
    rgba0: &[u8],
    rgba1: &[u8],
    y0: &mut [u8],
    y1: &mut [u8],
    uv: &mut [u8],
    cx: usize,
    c: &Coeffs8,
    Ghost(width): Ghost<int>,
)
    requires
        c.luma_bytes(),
        cx % 2 == 0,
        cx + 16 <= width,
        nv12_rows_ok(
            ORIGIN_CHANNELS,
            UV_ORDER,
            (RowsNv { y0: old(y0)@, y1: old(y1)@, uv: old(uv)@ }),
            rgba0@,
            rgba1@,
            cx + 16,
        ),
    ensures
        nv12_encoded(
            (RowsNv { y0: final(y0)@, y1: final(y1)@, uv: final(uv)@ }),
            (RowsNv { y0: old(y0)@, y1: old(y1)@, uv: old(uv)@ }),
            *c,
            ORIGIN_CHANNELS,
            UV_ORDER,
            rgba0@,
            rgba1@,
            width,
            cx as int,
            cx + 16,
        ),
{
    let u_first = YuvNVOrder::from(UV_ORDER).get_u_position() == 0;
    let blk = lsx_block16::<ORIGIN_CHANNELS>(rgba0, rgba1, cx, c);
    store16(y0, cx, blk.y0);
    store16(y1, cx, blk.y1);
    let packed = if u_first {
        interleave_lo(blk.u, blk.v)
    } else {
        interleave_lo(blk.v, blk.u)
    };
    store16(uv, cx, packed);
    proof {
        let sc = YuvSourceChannels::decoded(ORIGIN_CHANNELS);
        let order = YuvNVOrder::decoded(UV_ORDER);
        let x = cx as int;
        let fuv = uv8_row(*c, sc, order, rgba0@, rgba1@, width, true);
        lemma_pairs(blk, packed, *c, sc, order, rgba0@, rgba1@, width, x);
        lemma_store_overwrites(y0@, old(y0)@, x, blk.y0, 0, 16, y8_row(*c, sc, rgba0@));
        lemma_store_overwrites(y1@, old(y1)@, x, blk.y1, 0, 16, y8_row(*c, sc, rgba1@));
        lemma_store_overwrites(uv@, old(uv)@, x, packed, 0, 16, fuv);
    }
}

/// Encode and store the 32-pixel block at the even column `cx`.
fn lasx_store_nv12<const ORIGIN_CHANNELS: u8, const UV_ORDER: u8>(
    rgba0: &[u8],
    rgba1: &[u8],
    y0: &mut [u8],
    y1: &mut [u8],
    uv: &mut [u8],
    cx: usize,
    c: &Coeffs8,
    Ghost(width): Ghost<int>,
)
    requires
        YuvSourceChannels::decoded(ORIGIN_CHANNELS).four_channels(),
        c.luma_bytes(),
        cx % 2 == 0,
        cx + 32 <= width,
        nv12_rows_ok(
            ORIGIN_CHANNELS,
            UV_ORDER,
            (RowsNv { y0: old(y0)@, y1: old(y1)@, uv: old(uv)@ }),
            rgba0@,
            rgba1@,
            cx + 32,
        ),
    ensures
        nv12_encoded(
            (RowsNv { y0: final(y0)@, y1: final(y1)@, uv: final(uv)@ }),
            (RowsNv { y0: old(y0)@, y1: old(y1)@, uv: old(uv)@ }),
            *c,
            ORIGIN_CHANNELS,
            UV_ORDER,
            rgba0@,
            rgba1@,
            width,
            cx as int,
            cx + 32,
        ),
{
    let u_first = YuvNVOrder::from(UV_ORDER).get_u_position() == 0;
    let blk = lasx_block32::<ORIGIN_CHANNELS>(rgba0, rgba1, cx, c);
    xstore32(y0, cx, blk.y0);
    xstore32(y1, cx, blk.y1);
    let packed = if u_first {
        xinterleave(blk.u, blk.v)
    } else {
        xinterleave(blk.v, blk.u)
    };
    xstore32(uv, cx, packed);
    proof {
        let sc = YuvSourceChannels::decoded(ORIGIN_CHANNELS);
        let order = YuvNVOrder::decoded(UV_ORDER);
        let x = cx as int;
        let fuv = uv8_row(*c, sc, order, rgba0@, rgba1@, width, true);
        let (left, right) = (blk.left(), blk.right());
        assert(left.y0 == blk.y0.lo && left.y1 == blk.y1.lo);
        assert(right.y0 == blk.y0.hi && right.y1 == blk.y1.hi);
        lemma_pairs(left, packed.lo, *c, sc, order, rgba0@, rgba1@, width, x);
        lemma_pairs(right, packed.hi, *c, sc, order, rgba0@, rgba1@, width, x + 16);
        lemma_xstore_overwrites(y0@, old(y0)@, x, blk.y0, y8_row(*c, sc, rgba0@));
        lemma_xstore_overwrites(y1@, old(y1)@, x, blk.y1, y8_row(*c, sc, rgba1@));
        lemma_xstore_overwrites(uv@, old(uv)@, x, packed, fuv);
    }
}

/// Per-row-pair SIMD for the bi-planar layout: whole 16-px blocks, returning the
/// number of source columns covered.
pub fn lsx_nv12_rowpair<const ORIGIN_CHANNELS: u8, const UV_ORDER: u8>(
    rgba0: &[u8],
    rgba1: &[u8],
    y0: &mut [u8],
    y1: &mut [u8],
    uv: &mut [u8],
    width: usize,
    c: &Coeffs8,
) -> (cx: usize)
    requires
        c.luma_bytes(),
        nv12_rows_ok(
            ORIGIN_CHANNELS,
            UV_ORDER,
            (RowsNv { y0: old(y0)@, y1: old(y1)@, uv: old(uv)@ }),
            rgba0@,
            rgba1@,
            width - width % 16,
        ),
    ensures
        cx == width - width % 16,
        nv12_encoded(
            (RowsNv { y0: final(y0)@, y1: final(y1)@, uv: final(uv)@ }),
            (RowsNv { y0: old(y0)@, y1: old(y1)@, uv: old(uv)@ }),
            *c,
            ORIGIN_CHANNELS,
            UV_ORDER,
            rgba0@,
            rgba1@,
            width as int,
            0,
            cx as int,
        ),
{
    let mut cx: usize = 0;
    while width - cx >= LSX_BLOCK
        invariant
            c.luma_bytes(),
            cx <= width,
            cx % 16 == 0,
            nv12_rows_ok(
                ORIGIN_CHANNELS,
                UV_ORDER,
                RowsNv { y0: old(y0)@, y1: old(y1)@, uv: old(uv)@ },
                rgba0@,
                rgba1@,
                width - width % 16,
            ),
            nv12_encoded(
                RowsNv { y0: y0@, y1: y1@, uv: uv@ },
                RowsNv { y0: old(y0)@, y1: old(y1)@, uv: old(uv)@ },
                *c,
                ORIGIN_CHANNELS,
                UV_ORDER,
                rgba0@,
                rgba1@,
                width as int,
                0,
                cx as int,
            ),
        decreases width - cx,
    {
        let ghost mid = RowsNv { y0: y0@, y1: y1@, uv: uv@ };
        lsx_store_nv12::<ORIGIN_CHANNELS, UV_ORDER>(
            rgba0,
            rgba1,
            y0,
            y1,
            uv,
            cx,
            c,
            Ghost(width as int),
        );
        proof {
            lemma_nv12_joins(
                RowsNv { y0: y0@, y1: y1@, uv: uv@ },
                mid,
                RowsNv { y0: old(y0)@, y1: old(y1)@, uv: old(uv)@ },
                *c,
                ORIGIN_CHANNELS,
                UV_ORDER,
                rgba0@,
                rgba1@,
                width as int,
                0,
                cx as int,
                cx + 16,
            );
        }
        cx += LSX_BLOCK;
    }
    cx
}

/// Per-row-pair SIMD for the bi-planar layout with 32-px blocks and, where one is
/// left, a trailing 16-px block. 4-channel pixels only.
pub fn lasx_nv12_rowpair<const ORIGIN_CHANNELS: u8, const UV_ORDER: u8>(
    rgba0: &[u8],
    rgba1: &[u8],
    y0: &mut [u8],
    y1: &mut [u8],
    uv: &mut [u8],
    width: usize,
    c: &Coeffs8,
) -> (cx: usize)
    requires
        YuvSourceChannels::decoded(ORIGIN_CHANNELS).four_channels(),
        c.luma_bytes(),
        nv12_rows_ok(
            ORIGIN_CHANNELS,
            UV_ORDER,
            (RowsNv { y0: old(y0)@, y1: old(y1)@, uv: old(uv)@ }),
            rgba0@,
            rgba1@,
            width - width % 16,
        ),
    ensures
        cx == width - width % 16,
        nv12_encoded(
            (RowsNv { y0: final(y0)@, y1: final(y1)@, uv: final(uv)@ }),
            (RowsNv { y0: old(y0)@, y1: old(y1)@, uv: old(uv)@ }),
            *c,
            ORIGIN_CHANNELS,
            UV_ORDER,
            rgba0@,
            rgba1@,
            width as int,
            0,
            cx as int,
        ),
{
    let mut cx: usize = 0;
    while width - cx >= LASX_BLOCK
        invariant
            c.luma_bytes(),
            YuvSourceChannels::decoded(ORIGIN_CHANNELS).four_channels(),
            cx <= width,
            cx % 32 == 0,
            nv12_rows_ok(
                ORIGIN_CHANNELS,
                UV_ORDER,
                RowsNv { y0: old(y0)@, y1: old(y1)@, uv: old(uv)@ },
                rgba0@,
                rgba1@,
                width - width % 16,
            ),
            nv12_encoded(
                RowsNv { y0: y0@, y1: y1@, uv: uv@ },
                RowsNv { y0: old(y0)@, y1: old(y1)@, uv: old(uv)@ },
                *c,
                ORIGIN_CHANNELS,
                UV_ORDER,
                rgba0@,
                rgba1@,
                width as int,
                0,
                cx as int,
            ),
        decreases width - cx,
    {
        let ghost mid = RowsNv { y0: y0@, y1: y1@, uv: uv@ };
        lasx_store_nv12::<ORIGIN_CHANNELS, UV_ORDER>(
            rgba0,
            rgba1,
            y0,
            y1,
            uv,
            cx,
            c,
            Ghost(width as int),
        );
        proof {
            lemma_nv12_joins(
                RowsNv { y0: y0@, y1: y1@, uv: uv@ },
                mid,
                RowsNv { y0: old(y0)@, y1: old(y1)@, uv: old(uv)@ },
                *c,
                ORIGIN_CHANNELS,
                UV_ORDER,
                rgba0@,
                rgba1@,
                width as int,
                0,
                cx as int,
                cx + 32,
            );
        }
        cx += LASX_BLOCK;
    }
    // Trailing 16-px block (width % 32 in [16, 32)).
    while width - cx >= LSX_BLOCK
        invariant
            c.luma_bytes(),
            YuvSourceChannels::decoded(ORIGIN_CHANNELS).four_channels(),
            cx <= width,
            cx % 16 == 0,
            nv12_rows_ok(
                ORIGIN_CHANNELS,
                UV_ORDER,
                RowsNv { y0: old(y0)@, y1: old(y1)@, uv: old(uv)@ },
                rgba0@,
                rgba1@,
                width - width % 16,
            ),
            nv12_encoded(
                RowsNv { y0: y0@, y1: y1@, uv: uv@ },
                RowsNv { y0: old(y0)@, y1: old(y1)@, uv: old(uv)@ },
                *c,
                ORIGIN_CHANNELS,
                UV_ORDER,
                rgba0@,
                rgba1@,
                width as int,
                0,
                cx as int,
            ),
        decreases width - cx,
    {
        let ghost mid = RowsNv { y0: y0@, y1: y1@, uv: uv@ };
        lsx_store_nv12::<ORIGIN_CHANNELS, UV_ORDER>(
            rgba0,
            rgba1,
            y0,
            y1,
            uv,
            cx,
            c,
            Ghost(width as int),
        );
        proof {
            lemma_nv12_joins(
                RowsNv { y0: y0@, y1: y1@, uv: uv@ },
                mid,
                RowsNv { y0: old(y0)@, y1: old(y1)@, uv: old(uv)@ },
                *c,
                ORIGIN_CHANNELS,
                UV_ORDER,
                rgba0@,
                rgba1@,
                width as int,
                0,
                cx as int,
                cx + 16,
            );
        }
        cx += LSX_BLOCK;
    }
    cx
}

} // verus!
