//! 13-bit fixed-point building blocks on 128-bit registers, and the pixel
//! deinterleave and box average that the 8-bit kernels share.

use super::arith::{
    lemma_add_mod_noop_left, lemma_i32_one_shl, lemma_u32_as_i32, lemma_wrap_product, sat_i16,
    sat_u8, signed16, signed32, wrap16, wrap32,
};
use super::lsx::{
    interleaves_low, lsx_vadd_h, lsx_vexth_hu_bu, lsx_vexth_w_h, lsx_vexth_wu_hu,
    lsx_vhaddw_hu_bu, lsx_vilvl_b, lsx_vld, lsx_vmadd_w, lsx_vpickev_b, lsx_vpickod_b,
    lsx_vreplgr2vr_h, lsx_vreplgr2vr_w, lsx_vsllwil_hu_bu, lsx_vsllwil_w_h, lsx_vsllwil_wu_hu,
    lsx_vsrai_h, lsx_vssrani_bu_h, lsx_vssrani_h_w, lsx_vst, lsx_vstelm_d, stores,
};
use super::vector::V128;
use crate::yuv_support::{CbCrForwardTransform, YuvChromaRange, YuvSourceChannels};
use vstd::arithmetic::power2::{lemma2_to64, pow2};
use vstd::prelude::*;

verus! {

/// Pixels processed per LSX block (128-bit registers hold 16 bytes).
pub const LSX_BLOCK: usize = 16;

// ---------------------------------------------------------------------------
// Biases
// ---------------------------------------------------------------------------

/// `bias * 2^precision + (2^(precision - 1) - 1)`, with `bias` and
/// `2^precision` read as 32-bit two's complement numbers.
pub open spec fn fixed_bias(bias: u32, precision: u32) -> int {
    signed32(bias as int) * signed32(pow2(precision as nat) as int) + (pow2(
        (precision - 1) as nat,
    ) - 1)
}

/// Whether `fixed_bias` can be computed in 32 bits.
pub open spec fn bias_fits(bias: u32, precision: u32) -> bool {
    &&& 1 <= precision < 32
    &&& i32::MIN <= signed32(bias as int) * signed32(pow2(precision as nat) as int) <= i32::MAX
    &&& fixed_bias(bias, precision) <= i32::MAX
}

/// The fixed-point bias for one zero level.
fn bias_of<const PRECISION: u32>(bias: u32) -> (r: i32)
    requires
        bias_fits(bias, PRECISION),
    ensures
        r == fixed_bias(bias, PRECISION),
{
    proof {
        lemma_u32_as_i32(bias);
        lemma_i32_one_shl(PRECISION);
        lemma_i32_one_shl((PRECISION - 1) as u32);
        lemma2_to64();
        vstd::arithmetic::power2::lemma_pow2_pos((PRECISION - 1) as nat);
        if PRECISION < 31 {
            vstd::arithmetic::power2::lemma_pow2_strictly_increases(PRECISION as nat, 31);
        }
    }
    bias as i32 * (1 << PRECISION) + ((1 << (PRECISION - 1)) - 1)
}

/// Fixed-point `bias` used for the luma channel:
/// `bias_y * 2^P + (2^(P-1) - 1)`.
pub fn y_bias<const PRECISION: u32>(range: &YuvChromaRange) -> (r: i32)
    requires
        bias_fits(range.bias_y, PRECISION),
    ensures
        r == fixed_bias(range.bias_y, PRECISION),
{
    bias_of::<PRECISION>(range.bias_y)
}

/// Fixed-point `bias` used for the chroma channels.
pub fn uv_bias<const PRECISION: u32>(range: &YuvChromaRange) -> (r: i32)
    requires
        bias_fits(range.bias_uv, PRECISION),
    ensures
        r == fixed_bias(range.bias_uv, PRECISION),
{
    bias_of::<PRECISION>(range.bias_uv)
}

// ---------------------------------------------------------------------------
// Loads
// ---------------------------------------------------------------------------

/// `r`, `g` and `b` hold the channels of the sixteen pixels of `src` from byte
/// `off` on.
pub open spec fn deinterleaved(
    r: V128,
    g: V128,
    b: V128,
    sc: YuvSourceChannels,
    src: Seq<u8>,
    off: int,
) -> bool {
    forall|i: int|
        #![trigger r.b(i)]
        #![trigger g.b(i)]
        #![trigger b.b(i)]
        0 <= i < 16 ==> {
            &&& r.b(i) == src[off + sc.pixel(i) + sc.r_offset()]
            &&& g.b(i) == src[off + sc.pixel(i) + 1]
            &&& b.b(i) == src[off + sc.pixel(i) + sc.b_offset()]
        }
}

/// Load 16 interleaved pixels and deinterleave into planar `(r, g, b)`,
/// one byte per lane.
///
/// 4-channel inputs (`Rgba`/`Bgra`) use a branch-free two-stage
/// `vpickev`/`vpickod` deinterleave. 3-channel inputs (`Rgb`/`Bgr`) fall back to
/// a scalar gather.
pub fn lsx_load_deinterleave16<const ORIGIN_CHANNELS: u8>(src: &[u8], off: usize) -> (r: (
    V128,
    V128,
    V128,
))
    requires
        YuvSourceChannels::is_code(ORIGIN_CHANNELS),
        off + YuvSourceChannels::decoded(ORIGIN_CHANNELS).pixel(16) <= src@.len(),
    ensures
        deinterleaved(
            r.0,
            r.1,
            r.2,
            YuvSourceChannels::decoded(ORIGIN_CHANNELS),
            src@,
            off as int,
        ),
{
    assert(src@.len() == src.len());
    let source_channels = YuvSourceChannels::from(ORIGIN_CHANNELS);
    match source_channels {
        YuvSourceChannels::Rgba | YuvSourceChannels::Bgra => {
            let v0 = lsx_vld(src, off);
            let v1 = lsx_vld(src, off + 16);
            let v2 = lsx_vld(src, off + 32);
            let v3 = lsx_vld(src, off + 48);

            // Stage 1: split even/odd bytes.
            let e01 = lsx_vpickev_b(v1, v0);  // ch0,ch2 of px0..7
            let o01 = lsx_vpickod_b(v1, v0);  // ch1,ch3 of px0..7
            let e23 = lsx_vpickev_b(v3, v2);  // ch0,ch2 of px8..15
            let o23 = lsx_vpickod_b(v3, v2);  // ch1,ch3 of px8..15

            // Stage 2: separate the channels.
            let c0 = lsx_vpickev_b(e23, e01);  // ch0 (R for Rgba, B for Bgra)
            let c2 = lsx_vpickod_b(e23, e01);  // ch2 (B for Rgba, R for Bgra)
            let c1 = lsx_vpickev_b(o23, o01);  // ch1 (G)

            proof {
                assert forall|i: int| 0 <= i < 16 implies {
                    &&& #[trigger] c0.b(i) == src@[off + 4 * i]
                    &&& c1.b(i) == src@[off + 4 * i + 1]
                    &&& c2.b(i) == src@[off + 4 * i + 2]
                } by {
                    if i < 8 {
                        assert(c0.b(i) == e01.b(2 * i));
                        assert(c2.b(i) == e01.b(2 * i + 1));
                        assert(c1.b(i) == o01.b(2 * i));
                    } else {
                        assert(c0.b(i) == e23.b(2 * i - 16));
                        assert(c2.b(i) == e23.b(2 * i - 15));
                        assert(c1.b(i) == o23.b(2 * i - 16));
                    }
                }
            }

            if source_channels == YuvSourceChannels::Rgba {
                (c0, c1, c2)
            } else {
                (c2, c1, c0)
            }
        },
        YuvSourceChannels::Rgb | YuvSourceChannels::Bgr => {
            let channels = source_channels.get_channels_count();
            let r_off = source_channels.get_r_channel_offset();
            let g_off = source_channels.get_g_channel_offset();
            let b_off = source_channels.get_b_channel_offset();
            let mut rr = [0u8; 16];
            let mut gg = [0u8; 16];
            let mut bb = [0u8; 16];
            for i in 0..16usize
                invariant
                    channels == 3,
                    r_off == source_channels.r_offset(),
                    g_off == 1,
                    b_off == source_channels.b_offset(),
                    off + 48 <= src.len(),
                    forall|j: int|
                        0 <= j < i ==> #[trigger] rr[j] == src@[off + 3 * j + r_off],
                    forall|j: int|
                        0 <= j < i ==> #[trigger] gg[j] == src@[off + 3 * j + g_off],
                    forall|j: int|
                        0 <= j < i ==> #[trigger] bb[j] == src@[off + 3 * j + b_off],
            {
                let px = off + i * channels;
                rr[i] = src[px + r_off];
                gg[i] = src[px + g_off];
                bb[i] = src[px + b_off];
            }
            (V128 { bytes: rr }, V128 { bytes: gg }, V128 { bytes: bb })
        },
    }
}

// ---------------------------------------------------------------------------
// 13-bit samples
// ---------------------------------------------------------------------------

/// `(bias + r * kr + g * kg + b * kb) >> 13` as the word lanes compute it: the
/// sum wraps at 32 bits and the shift rounds down.
#[verifier::opaque]
pub open spec fn fixed13(bias: int, r: int, g: int, b: int, kr: int, kg: int, kb: int) -> int {
    signed32(wrap32(bias + r * kr + g * kg + b * kb)) / 8192
}

/// The luma byte of one pixel.
pub open spec fn y13(
    r: int,
    g: int,
    b: int,
    range: YuvChromaRange,
    t: CbCrForwardTransform<i32>,
) -> u8 {
    sat_u8(
        fixed13(
            fixed_bias(range.bias_y, 13),
            r,
            g,
            b,
            t.yr as int,
            t.yg as int,
            t.yb as int,
        ),
    ) as u8
}

/// The Cb sample of one averaged pixel before it is narrowed to a byte.
pub open spec fn cb13(
    r: int,
    g: int,
    b: int,
    range: YuvChromaRange,
    t: CbCrForwardTransform<i32>,
) -> int {
    fixed13(
        fixed_bias(range.bias_uv, 13),
        r,
        g,
        b,
        t.cb_r as int,
        t.cb_g as int,
        t.cb_b as int,
    )
}

/// The Cr sample of one averaged pixel before it is narrowed to a byte.
pub open spec fn cr13(
    r: int,
    g: int,
    b: int,
    range: YuvChromaRange,
    t: CbCrForwardTransform<i32>,
) -> int {
    fixed13(
        fixed_bias(range.bias_uv, 13),
        r,
        g,
        b,
        t.cr_r as int,
        t.cr_g as int,
        t.cr_b as int,
    )
}

/// Average of four samples, rounding half up.
pub open spec fn box4(a: int, b: int, c: int, d: int) -> int {
    (a + b + c + d + 2) / 4
}

/// Average of byte lanes `2 * i` and `2 * i + 1` of two rows.
pub open spec fn box_lane(row0: V128, row1: V128, i: int) -> int {
    box4(row0.b(2 * i), row0.b(2 * i + 1), row1.b(2 * i), row1.b(2 * i + 1))
}

/// Three multiply-accumulate steps on wrapped weights add up to the wrapped sum.
pub proof fn lemma_accumulate(
    bias: int,
    r: int,
    g: int,
    b: int,
    kr: int,
    kg: int,
    kb: int,
    m: int,
)
    requires
        m > 0,
    ensures
        (((bias + r * (kr % m)) % m + g * (kg % m)) % m + b * (kb % m)) % m == (bias + r * kr + g
            * kg + b * kb) % m,
{
    let s1 = bias + r * kr;
    let s2 = s1 + g * kg;
    lemma_wrap_product(bias, r, kr, m);
    lemma_wrap_product(s1 % m, g, kg, m);
    lemma_wrap_product(s2 % m, b, kb, m);
    lemma_add_mod_noop_left(s1, g * kg, m);
    lemma_add_mod_noop_left(s2, b * kb, m);
}

/// Wrapping the samples first changes nothing after wrapping.
proof fn lemma_wrap_samples(bias: int, r: int, g: int, b: int, kr: int, kg: int, kb: int, m: int)
    requires
        m > 0,
    ensures
        (bias + (r % m) * kr + (g % m) * kg + (b % m) * kb) % m == (bias + r * kr + g * kg + b
            * kb) % m,
{
    let (r1, g1, b1) = (r % m, g % m, b % m);
    vstd::arithmetic::mul::lemma_mul_is_commutative(r1, kr);
    vstd::arithmetic::mul::lemma_mul_is_commutative(g1, kg);
    vstd::arithmetic::mul::lemma_mul_is_commutative(b1, kb);
    vstd::arithmetic::mul::lemma_mul_is_commutative(r, kr);
    vstd::arithmetic::mul::lemma_mul_is_commutative(g, kg);
    vstd::arithmetic::mul::lemma_mul_is_commutative(b, kb);
    lemma_wrap_product(bias + g1 * kg + b1 * kb, kr, r, m);
    lemma_wrap_product(bias + r * kr + b1 * kb, kg, g, m);
    lemma_wrap_product(bias + r * kr + g * kg, kb, b, m);
}

/// The bias enters a 13-bit sample modulo 2^32.
proof fn lemma_fixed13_bias(bias: int, r: int, g: int, b: int, kr: int, kg: int, kb: int)
    ensures
        fixed13(wrap32(bias), r, g, b, kr, kg, kb) == fixed13(bias, r, g, b, kr, kg, kb),
{
    reveal(fixed13);
    lemma_add_mod_noop_left(bias, r * kr + g * kg + b * kb, 0x1_0000_0000);
}

/// Widen 16 unsigned bytes into four i32x4 vectors (pixels 0-3, 4-7, 8-11, 12-15).
fn lsx_widen_u8_to_i32(x: V128) -> (r: (V128, V128, V128, V128))
    ensures
        forall|i: int| 0 <= i < 4 ==> #[trigger] r.0.w(i) == x.b(i),
        forall|i: int| 0 <= i < 4 ==> #[trigger] r.1.w(i) == x.b(i + 4),
        forall|i: int| 0 <= i < 4 ==> #[trigger] r.2.w(i) == x.b(i + 8),
        forall|i: int| 0 <= i < 4 ==> #[trigger] r.3.w(i) == x.b(i + 12),
{
    proof {
        lemma2_to64();
    }
    let lo16 = lsx_vsllwil_hu_bu::<0>(x);  // px0..7 as u16
    let hi16 = lsx_vexth_hu_bu(x);  // px8..15 as u16
    (
        lsx_vsllwil_wu_hu::<0>(lo16),  // px0..3
        lsx_vexth_wu_hu(lo16),  // px4..7
        lsx_vsllwil_wu_hu::<0>(hi16),  // px8..11
        lsx_vexth_wu_hu(hi16),  // px12..15
    )
}

/// Four word lanes of `bias + r * kr + g * kg + b * kb`.
fn madd3_w(bias: V128, r: V128, g: V128, b: V128, kr: i32, kg: i32, kb: i32) -> (acc: V128)
    ensures
        forall|i: int|
            0 <= i < 4 ==> #[trigger] acc.w(i) == wrap32(
                bias.w(i) + r.w(i) * kr + g.w(i) * kg + b.w(i) * kb,
            ),
{
    let (vr, vg, vb) = (lsx_vreplgr2vr_w(kr), lsx_vreplgr2vr_w(kg), lsx_vreplgr2vr_w(kb));
    let acc_r = lsx_vmadd_w(bias, r, vr);
    let acc_rg = lsx_vmadd_w(acc_r, g, vg);
    let acc = lsx_vmadd_w(acc_rg, b, vb);
    proof {
        assert forall|i: int| 0 <= i < 4 implies #[trigger] acc.w(i) == wrap32(
            bias.w(i) + r.w(i) * kr + g.w(i) * kg + b.w(i) * kb,
        ) by {
            assert(vr.w(i) == wrap32(kr as int) && vg.w(i) == wrap32(kg as int) && vb.w(i)
                == wrap32(kb as int));
            assert(acc_r.w(i) == wrap32(bias.w(i) + r.w(i) * vr.w(i)));
            assert(acc_rg.w(i) == wrap32(acc_r.w(i) + g.w(i) * vg.w(i)));
            assert(acc.w(i) == wrap32(acc_rg.w(i) + b.w(i) * vb.w(i)));
            lemma_accumulate(
                bias.w(i),
                r.w(i),
                g.w(i),
                b.w(i),
                kr as int,
                kg as int,
                kb as int,
                0x1_0000_0000,
            );
        }
    }
    acc
}

/// Compute 16 luma samples from planar `(r, g, b)` bytes: each is
/// `(r*yr + g*yg + b*yb + bias) >> PRECISION` (arithmetic shift), saturated to a
/// byte.
pub fn lsx_encode_y16<const PRECISION: u32>(
    r: V128,
    g: V128,
    b: V128,
    range: &YuvChromaRange,
    transform: &CbCrForwardTransform<i32>,
) -> (y: V128)
    requires
        PRECISION == 13,
        bias_fits(range.bias_y, 13),
    ensures
        forall|i: int|
            0 <= i < 16 ==> #[trigger] y.b(i) == y13(r.b(i), g.b(i), b.b(i), *range, *transform),
{
    let (r0, r1, r2, r3) = lsx_widen_u8_to_i32(r);
    let (g0, g1, g2, g3) = lsx_widen_u8_to_i32(g);
    let (b0, b1, b2, b3) = lsx_widen_u8_to_i32(b);

    let (yr, yg, yb) = (transform.yr, transform.yg, transform.yb);
    let vbias = lsx_vreplgr2vr_w(y_bias::<PRECISION>(range));

    let a0 = madd3_w(vbias, r0, g0, b0, yr, yg, yb);
    let a1 = madd3_w(vbias, r1, g1, b1, yr, yg, yb);
    let a2 = madd3_w(vbias, r2, g2, b2, yr, yg, yb);
    let a3 = madd3_w(vbias, r3, g3, b3, yr, yg, yb);

    // `>> PRECISION` with saturating narrow i32 -> i16, in pixel order.
    let h01 = lsx_vssrani_h_w::<13>(a1, a0);  // px0..7
    let h23 = lsx_vssrani_h_w::<13>(a3, a2);  // px8..15
    let y = lsx_vssrani_bu_h::<0>(h23, h01);  // 16 u8 luma, px0..15
    proof {
        lemma2_to64();
        assert forall|i: int| 0 <= i < 16 implies #[trigger] y.b(i) == y13(
            r.b(i),
            g.b(i),
            b.b(i),
            *range,
            *transform,
        ) by {
            let bias = fixed_bias(range.bias_y, 13);
            let products = r.b(i) * yr + g.b(i) * yg + b.b(i) * yb;
            reveal(fixed13);
            lemma_add_mod_noop_left(bias, products, 0x1_0000_0000);
            let sum = wrap32(bias + products);
            assert(vbias.w(i % 4) == wrap32(bias));
            if i < 4 {
                assert(a0.w(i) == sum);
                assert(h01.h(i) == wrap16(sat_i16(signed32(a0.w(i)) / 8192)));
            } else if i < 8 {
                assert(a1.w(i - 4) == sum);
                assert(h01.h(i) == wrap16(sat_i16(signed32(a1.w(i - 4)) / 8192)));
            } else if i < 12 {
                assert(a2.w(i - 8) == sum);
                assert(h23.h(i - 8) == wrap16(sat_i16(signed32(a2.w(i - 8)) / 8192)));
            } else {
                assert(a3.w(i - 12) == sum);
                assert(h23.h(i - 8) == wrap16(sat_i16(signed32(a3.w(i - 12)) / 8192)));
            }
        }
    }
    y
}

/// 2x2 box-downsample two rows of planar bytes into 8 averaged i16 samples:
/// `(a + b + c + d + two) >> 2`, where every lane of `two` holds the rounding
/// term 2.
pub fn lsx_downsample_channel(row0: V128, row1: V128, two: V128) -> (r: V128)
    requires
        forall|i: int| 0 <= i < 8 ==> #[trigger] two.h(i) == 2,
    ensures
        forall|i: int| 0 <= i < 8 ==> #[trigger] r.h(i) == box_lane(row0, row1, i),
{
    // Horizontal adjacent-pair sums.
    let p0 = lsx_vhaddw_hu_bu(row0, row0);
    let p1 = lsx_vhaddw_hu_bu(row1, row1);
    let sum = lsx_vadd_h(p0, p1);  // sum of the four samples (max 1020)
    let rounded = lsx_vadd_h(sum, two);
    let r = lsx_vsrai_h::<2>(rounded);  // (sum + 2) >> 2
    proof {
        lemma2_to64();
        assert forall|i: int| 0 <= i < 8 implies #[trigger] r.h(i) == box_lane(row0, row1, i) by {
            assert(two.h(i) == 2);
            assert(sum.h(i) == p0.h(i) + p1.h(i));
            assert(rounded.h(i) == sum.h(i) + 2);
        }
    }
    r
}

/// Compute 8 chroma samples (i16x8) from averaged `(r, g, b)` for one
/// coefficient triple. Used twice, once for Cb and once for Cr.
fn lsx_encode_chroma8<const PRECISION: u32>(
    r_avg: V128,
    g_avg: V128,
    b_avg: V128,
    cr: i32,
    cg: i32,
    cb: i32,
    vbias: V128,
) -> (c: V128)
    requires
        PRECISION == 13,
    ensures
        forall|i: int|
            0 <= i < 8 ==> #[trigger] c.h(i) == wrap16(
                sat_i16(
                    fixed13(
                        vbias.w(i % 4),
                        signed16(r_avg.h(i)),
                        signed16(g_avg.h(i)),
                        signed16(b_avg.h(i)),
                        cr as int,
                        cg as int,
                        cb as int,
                    ),
                ),
            ),
{
    let r_lo = lsx_vsllwil_w_h::<0>(r_avg);  // px0..3
    let r_hi = lsx_vexth_w_h(r_avg);  // px4..7
    let g_lo = lsx_vsllwil_w_h::<0>(g_avg);
    let g_hi = lsx_vexth_w_h(g_avg);
    let b_lo = lsx_vsllwil_w_h::<0>(b_avg);
    let b_hi = lsx_vexth_w_h(b_avg);

    let lo = madd3_w(vbias, r_lo, g_lo, b_lo, cr, cg, cb);
    let hi = madd3_w(vbias, r_hi, g_hi, b_hi, cr, cg, cb);
    let c = lsx_vssrani_h_w::<13>(hi, lo);  // 8 chroma samples, px0..7
    proof {
        lemma2_to64();
        assert forall|i: int| 0 <= i < 8 implies #[trigger] c.h(i) == wrap16(
            sat_i16(
                fixed13(
                    vbias.w(i % 4),
                    signed16(r_avg.h(i)),
                    signed16(g_avg.h(i)),
                    signed16(b_avg.h(i)),
                    cr as int,
                    cg as int,
                    cb as int,
                ),
            ),
        ) by {
            let bias = vbias.w(i % 4);
            let (r, g, b) = (signed16(r_avg.h(i)), signed16(g_avg.h(i)), signed16(b_avg.h(i)));
            reveal(fixed13);
            lemma_wrap_samples(bias, r, g, b, cr as int, cg as int, cb as int, 0x1_0000_0000);
            if i < 4 {
                assert(r_lo.w(i) == wrap32(r) && g_lo.w(i) == wrap32(g) && b_lo.w(i) == wrap32(b));
                assert(lo.w(i) == wrap32(bias + r * cr + g * cg + b * cb));
            } else {
                assert(r_hi.w(i - 4) == wrap32(r) && g_hi.w(i - 4) == wrap32(g) && b_hi.w(i - 4)
                    == wrap32(b));
                assert(hi.w(i - 4) == wrap32(bias + r * cr + g * cg + b * cb));
            }
        }
    }
    c
}

/// Result of encoding one 16-pixel-wide 2-row block.
pub struct LsxBlock {
    pub y0: V128,
    pub y1: V128,
    /// 8 Cb samples (i16x8).
    pub cb: V128,
    /// 8 Cr samples (i16x8).
    pub cr: V128,
}

/// The luma byte of pixel `x` of a row.
pub open spec fn y13_at(
    sc: YuvSourceChannels,
    row: Seq<u8>,
    x: int,
    range: YuvChromaRange,
    t: CbCrForwardTransform<i32>,
) -> u8 {
    y13(sc.red(row, x), sc.green(row, x), sc.blue(row, x), range, t)
}

/// Red averaged over the 2x2 quad whose left column is `x`.
pub open spec fn quad_red(sc: YuvSourceChannels, row0: Seq<u8>, row1: Seq<u8>, x: int) -> int {
    box4(sc.red(row0, x), sc.red(row0, x + 1), sc.red(row1, x), sc.red(row1, x + 1))
}

/// Green averaged over the 2x2 quad whose left column is `x`.
pub open spec fn quad_green(sc: YuvSourceChannels, row0: Seq<u8>, row1: Seq<u8>, x: int) -> int {
    box4(sc.green(row0, x), sc.green(row0, x + 1), sc.green(row1, x), sc.green(row1, x + 1))
}

/// Blue averaged over the 2x2 quad whose left column is `x`.
pub open spec fn quad_blue(sc: YuvSourceChannels, row0: Seq<u8>, row1: Seq<u8>, x: int) -> int {
    box4(sc.blue(row0, x), sc.blue(row0, x + 1), sc.blue(row1, x), sc.blue(row1, x + 1))
}

/// The Cb sample of the quad whose left column is `x`.
pub open spec fn cb13_at(
    sc: YuvSourceChannels,
    row0: Seq<u8>,
    row1: Seq<u8>,
    x: int,
    range: YuvChromaRange,
    t: CbCrForwardTransform<i32>,
) -> int {
    cb13(
        quad_red(sc, row0, row1, x),
        quad_green(sc, row0, row1, x),
        quad_blue(sc, row0, row1, x),
        range,
        t,
    )
}

/// The Cr sample of the quad whose left column is `x`.
pub open spec fn cr13_at(
    sc: YuvSourceChannels,
    row0: Seq<u8>,
    row1: Seq<u8>,
    x: int,
    range: YuvChromaRange,
    t: CbCrForwardTransform<i32>,
) -> int {
    cr13(
        quad_red(sc, row0, row1, x),
        quad_green(sc, row0, row1, x),
        quad_blue(sc, row0, row1, x),
        range,
        t,
    )
}

/// Box-averaged planar rows hold the quads of the block that starts at column
/// `cx`.
pub proof fn lemma_box_lanes(
    sc: YuvSourceChannels,
    row0: Seq<u8>,
    row1: Seq<u8>,
    cx: int,
    rgb0: (V128, V128, V128),
    rgb1: (V128, V128, V128),
)
    requires
        deinterleaved(rgb0.0, rgb0.1, rgb0.2, sc, row0, sc.pixel(cx)),
        deinterleaved(rgb1.0, rgb1.1, rgb1.2, sc, row1, sc.pixel(cx)),
    ensures
        forall|i: int|
            0 <= i < 8 ==> #[trigger] box_lane(rgb0.0, rgb1.0, i) == quad_red(
                sc,
                row0,
                row1,
                cx + 2 * i,
            ),
        forall|i: int|
            0 <= i < 8 ==> #[trigger] box_lane(rgb0.1, rgb1.1, i) == quad_green(
                sc,
                row0,
                row1,
                cx + 2 * i,
            ),
        forall|i: int|
            0 <= i < 8 ==> #[trigger] box_lane(rgb0.2, rgb1.2, i) == quad_blue(
                sc,
                row0,
                row1,
                cx + 2 * i,
            ),
{
}

/// `blk` holds the samples of the block that starts at column `cx`.
pub open spec fn encodes_block13(
    blk: LsxBlock,
    sc: YuvSourceChannels,
    row0: Seq<u8>,
    row1: Seq<u8>,
    cx: int,
    range: YuvChromaRange,
    t: CbCrForwardTransform<i32>,
) -> bool {
    &&& forall|i: int|
        0 <= i < 16 ==> #[trigger] blk.y0.b(i) == y13_at(sc, row0, cx + i, range, t)
    &&& forall|i: int|
        0 <= i < 16 ==> #[trigger] blk.y1.b(i) == y13_at(sc, row1, cx + i, range, t)
    &&& forall|i: int|
        0 <= i < 8 ==> #[trigger] blk.cb.h(i) == wrap16(
            sat_i16(cb13_at(sc, row0, row1, cx + 2 * i, range, t)),
        )
    &&& forall|i: int|
        0 <= i < 8 ==> #[trigger] blk.cr.h(i) == wrap16(
            sat_i16(cr13_at(sc, row0, row1, cx + 2 * i, range, t)),
        )
}

/// Encode one 16-pixel-wide, 2-row block that starts at column `cx`: 32 luma
/// samples and 8 chroma pairs. Loads and deinterleaves each row once and reuses
/// the bytes for both luma and chroma.
pub fn lsx_encode_block16<const ORIGIN_CHANNELS: u8, const PRECISION: u32>(
    rgba0: &[u8],
    rgba1: &[u8],
    cx: usize,
    range: &YuvChromaRange,
    transform: &CbCrForwardTransform<i32>,
) -> (blk: LsxBlock)
    requires
        PRECISION == 13,
        YuvSourceChannels::is_code(ORIGIN_CHANNELS),
        YuvSourceChannels::decoded(ORIGIN_CHANNELS).pixel(cx + 16) <= rgba0@.len(),
        YuvSourceChannels::decoded(ORIGIN_CHANNELS).pixel(cx + 16) <= rgba1@.len(),
        bias_fits(range.bias_y, 13),
        bias_fits(range.bias_uv, 13),
    ensures
        encodes_block13(
            blk,
            YuvSourceChannels::decoded(ORIGIN_CHANNELS),
            rgba0@,
            rgba1@,
            cx as int,
            *range,
            *transform,
        ),
{
    let ghost sc = YuvSourceChannels::decoded(ORIGIN_CHANNELS);
    proof {
        assert(rgba0@.len() == rgba0.len());
        sc.lemma_pixel(cx as int);
    }
    let px = cx * YuvSourceChannels::from(ORIGIN_CHANNELS).get_channels_count();
    let (r0, g0, b0) = lsx_load_deinterleave16::<ORIGIN_CHANNELS>(rgba0, px);
    let (r1, g1, b1) = lsx_load_deinterleave16::<ORIGIN_CHANNELS>(rgba1, px);

    let y0 = lsx_encode_y16::<PRECISION>(r0, g0, b0, range, transform);
    let y1 = lsx_encode_y16::<PRECISION>(r1, g1, b1, range, transform);

    let two = lsx_vreplgr2vr_h(2);
    let r_avg = lsx_downsample_channel(r0, r1, two);
    let g_avg = lsx_downsample_channel(g0, g1, two);
    let b_avg = lsx_downsample_channel(b0, b1, two);

    let vbias = lsx_vreplgr2vr_w(uv_bias::<PRECISION>(range));
    let cb = lsx_encode_chroma8::<PRECISION>(
        r_avg,
        g_avg,
        b_avg,
        transform.cb_r,
        transform.cb_g,
        transform.cb_b,
        vbias,
    );
    let cr = lsx_encode_chroma8::<PRECISION>(
        r_avg,
        g_avg,
        b_avg,
        transform.cr_r,
        transform.cr_g,
        transform.cr_b,
        vbias,
    );
    let blk = LsxBlock { y0, y1, cb, cr };
    proof {
        assert forall|i: int|
            #![trigger blk.y0.b(i)]
            #![trigger blk.y1.b(i)]
            0 <= i < 16 implies blk.y0.b(i) == y13_at(sc, rgba0@, cx + i, *range, *transform)
            && blk.y1.b(i) == y13_at(sc, rgba1@, cx + i, *range, *transform) by {
            assert(r0.b(i) == sc.red(rgba0@, cx + i));
            assert(r1.b(i) == sc.red(rgba1@, cx + i));
            assert(y1.b(i) == y13(r1.b(i), g1.b(i), b1.b(i), *range, *transform));
        }
        lemma_box_lanes(sc, rgba0@, rgba1@, cx as int, (r0, g0, b0), (r1, g1, b1));
        assert forall|i: int|
            #![trigger blk.cb.h(i)]
            #![trigger blk.cr.h(i)]
            0 <= i < 8 implies blk.cb.h(i) == wrap16(
            sat_i16(cb13_at(sc, rgba0@, rgba1@, cx + 2 * i, *range, *transform)),
        ) && blk.cr.h(i) == wrap16(
            sat_i16(cr13_at(sc, rgba0@, rgba1@, cx + 2 * i, *range, *transform)),
        ) by {
            let bias = fixed_bias(range.bias_uv, 13);
            let r = quad_red(sc, rgba0@, rgba1@, cx + 2 * i);
            let g = quad_green(sc, rgba0@, rgba1@, cx + 2 * i);
            let b = quad_blue(sc, rgba0@, rgba1@, cx + 2 * i);
            assert(r_avg.h(i) == box_lane(r0, r1, i));
            assert(g_avg.h(i) == box_lane(g0, g1, i));
            assert(b_avg.h(i) == box_lane(b0, b1, i));
            assert(signed16(r) == r && signed16(g) == g && signed16(b) == b);
            assert(vbias.w(i % 4) == wrap32(bias));
            lemma_fixed13_bias(
                bias,
                r,
                g,
                b,
                transform.cb_r as int,
                transform.cb_g as int,
                transform.cb_b as int,
            );
            lemma_fixed13_bias(
                bias,
                r,
                g,
                b,
                transform.cr_r as int,
                transform.cr_g as int,
                transform.cr_b as int,
            );
            assert(cr.h(i) == wrap16(
                sat_i16(
                    fixed13(
                        vbias.w(i % 4),
                        signed16(r_avg.h(i)),
                        signed16(g_avg.h(i)),
                        signed16(b_avg.h(i)),
                        transform.cr_r as int,
                        transform.cr_g as int,
                        transform.cr_b as int,
                    ),
                ),
            ));
        }
    }
    blk
}

// ---------------------------------------------------------------------------
// Stores
// ---------------------------------------------------------------------------

/// Store 16 luma bytes at `off`.
pub fn lsx_store_y(dst: &mut [u8], off: usize, y: V128)
    requires
        off + 16 <= old(dst)@.len(),
    ensures
        stores(final(dst)@, old(dst)@, off as int, y, 0, 16),
{
    lsx_vst(y, dst, off);
}

/// Saturating-narrow an i16x8 chroma vector to u8, duplicated across both halves.
pub fn lsx_chroma_to_u8(c: V128) -> (r: V128)
    ensures
        forall|i: int| 0 <= i < 16 ==> #[trigger] r.b(i) == sat_u8(signed16(c.h(i % 8))),
{
    proof {
        lemma2_to64();
    }
    lsx_vssrani_bu_h::<0>(c, c)
}

/// Store the low 8 bytes (one i64 lane) of `v` at `off`.
pub fn lsx_store8(dst: &mut [u8], off: usize, v: V128)
    requires
        off + 8 <= old(dst)@.len(),
    ensures
        stores(final(dst)@, old(dst)@, off as int, v, 0, 8),
{
    lsx_vstelm_d::<0>(v, dst, off);
}

/// Store 16 bytes at `off`.
pub fn lsx_store16(dst: &mut [u8], off: usize, v: V128)
    requires
        off + 16 <= old(dst)@.len(),
    ensures
        stores(final(dst)@, old(dst)@, off as int, v, 0, 16),
{
    lsx_vst(v, dst, off);
}

/// Interleave two u8x8 (low halves) into a u8x16; `even` becomes the even (first)
/// channel of each pair.
pub fn lsx_interleave_lo(even: V128, odd: V128) -> (r: V128)
    ensures
        interleaves_low(r, odd, even),
{
    lsx_vilvl_b(odd, even)
}

// ---------------------------------------------------------------------------
// Progress of the row kernels
// ---------------------------------------------------------------------------

/// `new` is `old` with `f(k)` at every position `k` in `lo..hi`.
pub open spec fn overwritten(
    new: Seq<u8>,
    old: Seq<u8>,
    lo: int,
    hi: int,
    f: spec_fn(int) -> u8,
) -> bool {
    &&& new.len() == old.len()
    &&& forall|k: int|
        0 <= k < old.len() ==> #[trigger] new[k] == (if lo <= k < hi {
            f(k)
        } else {
            old[k]
        })
}

/// The first column that whole 16-pixel blocks from column `start` on leave
/// uncovered.
pub open spec fn blocks_end(start: int, width: int) -> int {
    if start + 16 <= width {
        width - (width - start) % 16
    } else {
        start
    }
}

/// A store of samples overwrites the bytes that it covers.
pub proof fn lemma_store_overwrites(
    new: Seq<u8>,
    old: Seq<u8>,
    off: int,
    v: V128,
    from: int,
    len: int,
    f: spec_fn(int) -> u8,
)
    requires
        0 <= from,
        0 <= len,
        from + len <= 16,
        stores(new, old, off, v, from, len),
        forall|i: int| from <= i < from + len ==> #[trigger] v.b(i) == f(off + i - from),
    ensures
        overwritten(new, old, off, off + len, f),
{
    assert forall|k: int| 0 <= k < old.len() implies #[trigger] new[k] == (if off <= k < off + len {
        f(k)
    } else {
        old[k]
    }) by {
        if off <= k < off + len {
            assert(v.b(from + k - off) == f(k));
        }
    }
}

/// Two adjacent overwritten stretches are one.
pub proof fn lemma_overwritten_joins(
    new: Seq<u8>,
    mid: Seq<u8>,
    old: Seq<u8>,
    lo: int,
    at: int,
    hi: int,
    f: spec_fn(int) -> u8,
)
    requires
        lo <= at <= hi,
        overwritten(mid, old, lo, at, f),
        overwritten(new, mid, at, hi, f),
    ensures
        overwritten(new, old, lo, hi, f),
{
    assert forall|k: int| 0 <= k < old.len() implies #[trigger] new[k] == (if lo <= k < hi {
        f(k)
    } else {
        old[k]
    }) by {
        assert(mid[k] == (if lo <= k < at {
            f(k)
        } else {
            old[k]
        }));
    }
}

} // verus!
