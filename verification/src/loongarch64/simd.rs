//! 8-bit SIMD kernels on 128-bit and 256-bit registers.

use super::arith::{lemma_add_mod_noop_left, lemma_second_byte, wrap16};
use super::convert8::{dot, sample8, y8_at, Coeffs8};
use super::lasx::{
    doubleword_selector, lasx_xvadd_h, lasx_xvaddwev_h_bu, lasx_xvaddwod_h_bu, lasx_xvilvl_b,
    lasx_xvld, lasx_xvmadd_h, lasx_xvmaddwev_h_bu, lasx_xvmaddwod_h_bu, lasx_xvperm_w,
    lasx_xvpermi_d, lasx_xvpickev_b, lasx_xvpickod_b, lasx_xvreplgr2vr_b, lasx_xvreplgr2vr_h,
    lasx_xvshuf_b, lasx_xvsrari_h, lasx_xvssrlni_bu_h, lasx_xvst, lasx_xvstelm_d, stores_256,
};
use super::lsx::{
    adds_even_bytes, adds_even_products, adds_h, adds_odd_bytes, adds_odd_products,
    adds_products_h, interleaves_low, lsx_vilvl_b, lsx_vmadd_h, lsx_vmaddwev_h_bu,
    lsx_vmaddwod_h_bu, lsx_vpickod_b, lsx_vreplgr2vr_b, lsx_vreplgr2vr_h, lsx_vshuf_b,
    lsx_vssrlni_bu_h, lsx_vst, lsx_vstelm_d, narrows_unsigned_h, picks_even, picks_odd,
    rounds_right_h, shuffles, splats_b, splats_h, stores,
};
use super::utils::{
    box_lane, deinterleaved, lemma_accumulate, lemma_box_lanes, lsx_downsample_channel,
    lsx_load_deinterleave16, quad_blue, quad_green, quad_red,
};
use super::vector::{V128, V256};
use crate::yuv_support::YuvSourceChannels;
use vstd::arithmetic::power2::lemma2_to64;
use vstd::prelude::*;

verus! {

/// Pixels per LSX block.
pub const LSX_BLOCK: usize = 16;

/// Pixels per LASX block.
pub const LASX_BLOCK: usize = 32;

/// Broadcast `v` (low 16 bits used) across an `i16x8` register.
fn splat_h(v: i32) -> (r: V128)
    ensures
        splats_h(r, v as int),
{
    lsx_vreplgr2vr_h(v)
}

/// The byte permutation `[0, 8, 1, 9, ..]` that interleaves the two halves of a
/// register.
pub open spec fn is_y_pack_mask(m: V128) -> bool {
    forall|i: int|
        0 <= i < 16 ==> #[trigger] m.b(i) == (if i % 2 == 0 {
            i / 2
        } else {
            8 + i / 2
        })
}

/// Byte permutation that interleaves the even-pixel / odd-pixel luma halves back
/// to linear order after the `maddwev`/`maddwod` split: result byte `i` picks
/// `[Yev0, Yod0, Yev1, Yod1, ..]`.
fn lsx_y_pack_mask() -> (m: V128)
    ensures
        is_y_pack_mask(m),
{
    V128 { bytes: [0, 8, 1, 9, 2, 10, 3, 11, 4, 12, 5, 13, 6, 14, 7, 15] }
}

/// What three multiply-accumulate steps on the even bytes and three on the odd
/// ones, a narrowing and a shuffle leave in each byte: the luma sample.
proof fn lemma_luma_lanes(
    c: Coeffs8,
    rgb: (V128, V128, V128),
    weights: (V128, V128, V128),
    bias: V128,
    ev: (V128, V128, V128),
    od: (V128, V128, V128),
    packed: V128,
    mask: V128,
    y: V128,
)
    requires
        c.luma_bytes(),
        splats_h(bias, c.ay as int),
        splats_b(weights.0, c.ry as int),
        splats_b(weights.1, c.gy as int),
        splats_b(weights.2, c.by as int),
        adds_even_products(ev.0, bias, rgb.0, weights.0),
        adds_even_products(ev.1, ev.0, rgb.1, weights.1),
        adds_even_products(ev.2, ev.1, rgb.2, weights.2),
        adds_odd_products(od.0, bias, rgb.0, weights.0),
        adds_odd_products(od.1, od.0, rgb.1, weights.1),
        adds_odd_products(od.2, od.1, rgb.2, weights.2),
        narrows_unsigned_h(packed, od.2, ev.2, 8),
        is_y_pack_mask(mask),
        shuffles(y, packed, packed, mask),
    ensures
        forall|i: int|
            0 <= i < 16 ==> #[trigger] y.b(i) == c.y(rgb.0.b(i), rgb.1.b(i), rgb.2.b(i)),
{
    lemma2_to64();
    let (kr, kg, kb, ay) = (c.ry as int, c.gy as int, c.by as int, c.ay as int);
    assert forall|i: int| 0 <= i < 16 implies #[trigger] y.b(i) == c.y(
        rgb.0.b(i),
        rgb.1.b(i),
        rgb.2.b(i),
    ) by {
        let (r, g, b) = (rgb.0.b(i), rgb.1.b(i), rgb.2.b(i));
        let k = i / 2;
        let sum = dot(kr, kg, kb, ay, r, g, b);
        assert(weights.0.b(i) == kr && weights.1.b(i) == kg && weights.2.b(i) == kb);
        assert(bias.h(k) == wrap16(ay));
        lemma_accumulate(wrap16(ay), r, g, b, kr, kg, kb, 0x1_0000);
        lemma_add_mod_noop_left(ay, r * kr + g * kg + b * kb, 0x1_0000);
        assert(mask.b(i) == (if i % 2 == 0 {
            k
        } else {
            8 + k
        }));
        if i % 2 == 0 {
            assert(i == 2 * k);
            assert(ev.0.h(k) == wrap16(wrap16(ay) + r * kr));
            assert(ev.1.h(k) == wrap16(ev.0.h(k) + g * kg));
            assert(ev.2.h(k) == wrap16(ev.1.h(k) + b * kb));
            assert(ev.2.h(k) == wrap16(sum));
            assert(packed.b(k) == wrap16(sum) / 256);
        } else {
            assert(i == 2 * k + 1);
            assert(od.0.h(k) == wrap16(wrap16(ay) + r * kr));
            assert(od.1.h(k) == wrap16(od.0.h(k) + g * kg));
            assert(od.2.h(k) == wrap16(od.1.h(k) + b * kb));
            assert(od.2.h(k) == wrap16(sum));
            assert(packed.b(8 + k) == wrap16(sum) / 256);
        }
        lemma_second_byte(sum);
    }
}

/// Compute 16 luma bytes from planar `(r, g, b)` u8x16.
///
/// `maddwev` multiplies and accumulates the even pixels directly on the bytes,
/// `maddwod` the odd ones; the narrowing takes the high byte of both halves and
/// one shuffle re-interleaves them to linear order.
fn lsx_y16(r: V128, g: V128, b: V128, c: &Coeffs8) -> (y: V128)
    requires
        c.luma_bytes(),
    ensures
        forall|i: int| 0 <= i < 16 ==> #[trigger] y.b(i) == c.y(r.b(i), g.b(i), b.b(i)),
{
    let bias = lsx_vreplgr2vr_h(c.ay);
    let (vry, vgy, vby) = (
        lsx_vreplgr2vr_b(c.ry),
        lsx_vreplgr2vr_b(c.gy),
        lsx_vreplgr2vr_b(c.by),
    );

    let ev_r = lsx_vmaddwev_h_bu(bias, r, vry);
    let ev_rg = lsx_vmaddwev_h_bu(ev_r, g, vgy);
    let acc_ev = lsx_vmaddwev_h_bu(ev_rg, b, vby);
    let od_r = lsx_vmaddwod_h_bu(bias, r, vry);
    let od_rg = lsx_vmaddwod_h_bu(od_r, g, vgy);
    let acc_od = lsx_vmaddwod_h_bu(od_rg, b, vby);
    let packed = lsx_vssrlni_bu_h::<8>(acc_od, acc_ev);  // [Yev | Yod]
    let mask = lsx_y_pack_mask();
    let y = lsx_vshuf_b(packed, packed, mask);
    proof {
        lemma_luma_lanes(
            *c,
            (r, g, b),
            (vry, vgy, vby),
            bias,
            (ev_r, ev_rg, acc_ev),
            (od_r, od_rg, acc_od),
            packed,
            mask,
            y,
        );
    }
    y
}

/// What three multiply-accumulate steps and the pick of the high bytes leave in
/// each byte: one chroma sample.
proof fn lemma_chroma_lanes(
    k: (int, int, int),
    avg: (V128, V128, V128),
    weights: (V128, V128, V128),
    bias: V128,
    acc: (V128, V128, V128),
    s: V128,
)
    requires
        splats_h(weights.0, k.0),
        splats_h(weights.1, k.1),
        splats_h(weights.2, k.2),
        adds_products_h(acc.0, bias, avg.0, weights.0),
        adds_products_h(acc.1, acc.0, avg.1, weights.1),
        adds_products_h(acc.2, acc.1, avg.2, weights.2),
        picks_odd(s, acc.2, acc.2),
    ensures
        forall|i: int|
            0 <= i < 8 ==> #[trigger] s.b(i) == sample8(
                k.0,
                k.1,
                k.2,
                bias.h(i),
                avg.0.h(i),
                avg.1.h(i),
                avg.2.h(i),
            ),
{
    assert forall|i: int| 0 <= i < 8 implies #[trigger] s.b(i) == sample8(
        k.0,
        k.1,
        k.2,
        bias.h(i),
        avg.0.h(i),
        avg.1.h(i),
        avg.2.h(i),
    ) by {
        let (r, g, b) = (avg.0.h(i), avg.1.h(i), avg.2.h(i));
        let sum = dot(k.0, k.1, k.2, bias.h(i), r, g, b);
        assert(weights.0.h(i) == wrap16(k.0) && weights.1.h(i) == wrap16(k.1) && weights.2.h(i)
            == wrap16(k.2));
        lemma_accumulate(bias.h(i), r, g, b, k.0, k.1, k.2, 0x1_0000);
        assert(acc.0.h(i) == wrap16(bias.h(i) + r * wrap16(k.0)));
        assert(acc.1.h(i) == wrap16(acc.0.h(i) + g * wrap16(k.1)));
        assert(acc.2.h(i) == wrap16(acc.1.h(i) + b * wrap16(k.2)));
        assert(acc.2.h(i) == wrap16(sum));
        assert(s.b(i) == wrap16(sum) / 256) by {
            reveal(V128::h);
            assert(s.b(i) == acc.2.b(2 * i + 1));
        }
        lemma_second_byte(sum);
    }
}

/// The bias enters a sample modulo 2^16.
proof fn lemma_sample8_bias(kr: int, kg: int, kb: int, bias: int, r: int, g: int, b: int)
    ensures
        sample8(kr, kg, kb, wrap16(bias), r, g, b) == sample8(kr, kg, kb, bias, r, g, b),
{
    let products = kr * r + kg * g + kb * b;
    lemma_add_mod_noop_left(bias, products, 0x1_0000);
    lemma_second_byte(bias + products);
    lemma_second_byte(wrap16(bias) + products);
}

/// One chroma vector (8 samples, in the low 8 lanes) for a coefficient triple.
/// `r_avg/g_avg/b_avg` are i16x8 box-averaged samples.
fn lsx_chroma8(
    r_avg: V128,
    g_avg: V128,
    b_avg: V128,
    cr: i32,
    cg: i32,
    cb: i32,
    bias: V128,
) -> (s: V128)
    ensures
        forall|i: int|
            0 <= i < 8 ==> #[trigger] s.b(i) == sample8(
                cr as int,
                cg as int,
                cb as int,
                bias.h(i),
                r_avg.h(i),
                g_avg.h(i),
                b_avg.h(i),
            ),
{
    let (vr, vg, vb) = (splat_h(cr), splat_h(cg), splat_h(cb));
    let acc_r = lsx_vmadd_h(bias, r_avg, vr);
    let acc_rg = lsx_vmadd_h(acc_r, g_avg, vg);
    let acc = lsx_vmadd_h(acc_rg, b_avg, vb);
    // Pack the 8 high bytes into the low 8 lanes.
    let s = lsx_vpickod_b(acc, acc);
    proof {
        lemma_chroma_lanes(
            (cr as int, cg as int, cb as int),
            (r_avg, g_avg, b_avg),
            (vr, vg, vb),
            bias,
            (acc_r, acc_rg, acc),
            s,
        );
    }
    s
}

/// The U byte of the whole quad whose left column is `x`.
pub open spec fn full_u(
    c: Coeffs8,
    sc: YuvSourceChannels,
    row0: Seq<u8>,
    row1: Seq<u8>,
    x: int,
) -> u8 {
    c.u(
        quad_red(sc, row0, row1, x),
        quad_green(sc, row0, row1, x),
        quad_blue(sc, row0, row1, x),
    )
}

/// The V byte of the whole quad whose left column is `x`.
pub open spec fn full_v(
    c: Coeffs8,
    sc: YuvSourceChannels,
    row0: Seq<u8>,
    row1: Seq<u8>,
    x: int,
) -> u8 {
    c.v(
        quad_red(sc, row0, row1, x),
        quad_green(sc, row0, row1, x),
        quad_blue(sc, row0, row1, x),
    )
}

/// Result of one 16-px-wide, 2-row block: 16+16 luma bytes and 8 U / 8 V
/// samples (each in the low 8 lanes of its register).
pub struct LsxBlock {
    pub y0: V128,
    pub y1: V128,
    pub u: V128,
    pub v: V128,
}

/// `blk` holds the samples of the 16-pixel block that starts at column `cx`.
pub open spec fn encodes_block8(
    blk: LsxBlock,
    c: Coeffs8,
    sc: YuvSourceChannels,
    row0: Seq<u8>,
    row1: Seq<u8>,
    cx: int,
) -> bool {
    &&& forall|i: int| 0 <= i < 16 ==> #[trigger] blk.y0.b(i) == y8_at(c, sc, row0, cx + i)
    &&& forall|i: int| 0 <= i < 16 ==> #[trigger] blk.y1.b(i) == y8_at(c, sc, row1, cx + i)
    &&& forall|i: int|
        0 <= i < 8 ==> #[trigger] blk.u.b(i) == full_u(c, sc, row0, row1, cx + 2 * i)
    &&& forall|i: int|
        0 <= i < 8 ==> #[trigger] blk.v.b(i) == full_v(c, sc, row0, row1, cx + 2 * i)
}

/// Samples of deinterleaved rows are those of the block.
proof fn lemma_block_lanes(
    c: Coeffs8,
    sc: YuvSourceChannels,
    row0: Seq<u8>,
    row1: Seq<u8>,
    cx: int,
    rgb0: (V128, V128, V128),
    rgb1: (V128, V128, V128),
    avg: (V128, V128, V128),
    bias: V128,
    blk: LsxBlock,
)
    requires
        deinterleaved(rgb0.0, rgb0.1, rgb0.2, sc, row0, sc.pixel(cx)),
        deinterleaved(rgb1.0, rgb1.1, rgb1.2, sc, row1, sc.pixel(cx)),
        forall|i: int| 0 <= i < 8 ==> #[trigger] avg.0.h(i) == box_lane(rgb0.0, rgb1.0, i),
        forall|i: int| 0 <= i < 8 ==> #[trigger] avg.1.h(i) == box_lane(rgb0.1, rgb1.1, i),
        forall|i: int| 0 <= i < 8 ==> #[trigger] avg.2.h(i) == box_lane(rgb0.2, rgb1.2, i),
        splats_h(bias, c.auv as int),
        forall|i: int|
            0 <= i < 16 ==> #[trigger] blk.y0.b(i) == c.y(rgb0.0.b(i), rgb0.1.b(i), rgb0.2.b(i)),
        forall|i: int|
            0 <= i < 16 ==> #[trigger] blk.y1.b(i) == c.y(rgb1.0.b(i), rgb1.1.b(i), rgb1.2.b(i)),
        forall|i: int|
            0 <= i < 8 ==> #[trigger] blk.u.b(i) == sample8(
                c.ru as int,
                c.gu as int,
                c.bu as int,
                bias.h(i),
                avg.0.h(i),
                avg.1.h(i),
                avg.2.h(i),
            ),
        forall|i: int|
            0 <= i < 8 ==> #[trigger] blk.v.b(i) == sample8(
                c.rv as int,
                c.gv as int,
                c.bv as int,
                bias.h(i),
                avg.0.h(i),
                avg.1.h(i),
                avg.2.h(i),
            ),
    ensures
        encodes_block8(blk, c, sc, row0, row1, cx),
{
    lemma_box_lanes(sc, row0, row1, cx, rgb0, rgb1);
    assert forall|i: int|
        #![trigger blk.u.b(i)]
        #![trigger blk.v.b(i)]
        0 <= i < 8 implies blk.u.b(i) == full_u(c, sc, row0, row1, cx + 2 * i) && blk.v.b(i)
        == full_v(c, sc, row0, row1, cx + 2 * i) by {
        let x = cx + 2 * i;
        let r = quad_red(sc, row0, row1, x);
        let g = quad_green(sc, row0, row1, x);
        let b = quad_blue(sc, row0, row1, x);
        assert(avg.0.h(i) == r && avg.1.h(i) == g && avg.2.h(i) == b);
        lemma_sample8_bias(c.ru as int, c.gu as int, c.bu as int, c.auv as int, r, g, b);
        lemma_sample8_bias(c.rv as int, c.gv as int, c.bv as int, c.auv as int, r, g, b);
    }
    assert forall|i: int| 0 <= i < 16 implies #[trigger] blk.y0.b(i) == y8_at(
        c,
        sc,
        row0,
        cx + i,
    ) by {
        assert(rgb0.0.b(i) == sc.red(row0, cx + i));
    }
    assert forall|i: int| 0 <= i < 16 implies #[trigger] blk.y1.b(i) == y8_at(
        c,
        sc,
        row1,
        cx + i,
    ) by {
        assert(rgb1.0.b(i) == sc.red(row1, cx + i));
    }
}

/// Encode one 16-px-wide, 2-row block that starts at column `cx`.
pub fn lsx_block16<const ORIGIN_CHANNELS: u8>(
    rgba0: &[u8],
    rgba1: &[u8],
    cx: usize,
    c: &Coeffs8,
) -> (blk: LsxBlock)
    requires
        YuvSourceChannels::is_code(ORIGIN_CHANNELS),
        c.luma_bytes(),
        YuvSourceChannels::decoded(ORIGIN_CHANNELS).pixel(cx + 16) <= rgba0@.len(),
        YuvSourceChannels::decoded(ORIGIN_CHANNELS).pixel(cx + 16) <= rgba1@.len(),
    ensures
        encodes_block8(
            blk,
            *c,
            YuvSourceChannels::decoded(ORIGIN_CHANNELS),
            rgba0@,
            rgba1@,
            cx as int,
        ),
{
    let ghost sc = YuvSourceChannels::decoded(ORIGIN_CHANNELS);
    proof {
        assert(rgba0@.len() == rgba0.len());
        sc.lemma_pixel(cx as int);
    }
    let px = cx * YuvSourceChannels::from(ORIGIN_CHANNELS).get_channels_count();
    let (r0, g0, b0) = lsx_load_deinterleave16::<ORIGIN_CHANNELS>(rgba0, px);
    let (r1, g1, b1) = lsx_load_deinterleave16::<ORIGIN_CHANNELS>(rgba1, px);

    let y0 = lsx_y16(r0, g0, b0, c);
    let y1 = lsx_y16(r1, g1, b1, c);

    let two = splat_h(2);
    let r_avg = lsx_downsample_channel(r0, r1, two);
    let g_avg = lsx_downsample_channel(g0, g1, two);
    let b_avg = lsx_downsample_channel(b0, b1, two);

    let bias = splat_h(c.auv);
    let u = lsx_chroma8(r_avg, g_avg, b_avg, c.ru, c.gu, c.bu, bias);
    let v = lsx_chroma8(r_avg, g_avg, b_avg, c.rv, c.gv, c.bv, bias);
    let blk = LsxBlock { y0, y1, u, v };
    proof {
        lemma_block_lanes(
            *c,
            sc,
            rgba0@,
            rgba1@,
            cx as int,
            (r0, g0, b0),
            (r1, g1, b1),
            (r_avg, g_avg, b_avg),
            bias,
            blk,
        );
    }
    blk
}

/// Store 16 bytes at `off`.
pub fn store16(dst: &mut [u8], off: usize, v: V128)
    requires
        off + 16 <= old(dst)@.len(),
    ensures
        stores(final(dst)@, old(dst)@, off as int, v, 0, 16),
{
    lsx_vst(v, dst, off);
}

/// Store the low 8 bytes (one i64 lane) at `off`.
pub fn store8(dst: &mut [u8], off: usize, v: V128)
    requires
        off + 8 <= old(dst)@.len(),
    ensures
        stores(final(dst)@, old(dst)@, off as int, v, 0, 8),
{
    lsx_vstelm_d::<0>(v, dst, off);
}

/// Interleave the low 8 bytes of `first`/`second` into 16 bytes (NV12/NV21).
pub fn interleave_lo(first: V128, second: V128) -> (r: V128)
    ensures
        interleaves_low(r, second, first),
{
    lsx_vilvl_b(second, first)
}

// ---------------------------------------------------------------------------
// LASX (256-bit): 32 pixels per block
// ---------------------------------------------------------------------------

/// Word-permutation that linearises a channel after the two-stage
/// `xvpickev`/`xvpickod` deinterleave. LASX picks operate per 128-bit lane, so the
/// 8 4-pixel words come out as `[0,2,4,6,1,3,5,7]`; this control reorders them back
/// to `0..8`.
fn perm_ctrl() -> (r: V256)
    ensures
        r.w(0) == 0,
        r.w(1) == 4,
        r.w(2) == 1,
        r.w(3) == 5,
        r.w(4) == 2,
        r.w(5) == 6,
        r.w(6) == 3,
        r.w(7) == 7,
{
    V256 { lo: V128::from_words([0, 4, 1, 5]), hi: V128::from_words([2, 6, 3, 7]) }
}

/// Broadcast `v` (low 16 bits) across an i16x16 register.
fn xsplat_h(v: i32) -> (r: V256)
    ensures
        splats_h(r.lo, v as int),
        splats_h(r.hi, v as int),
{
    lasx_xvreplgr2vr_h(v)
}

/// Load 32 interleaved 4-channel pixels and deinterleave into linear planar
/// `(r, g, b)`, one byte per lane. 4-channel only; callers handle 3-channel
/// pixels on the other paths.
fn lasx_load_deinterleave32<const ORIGIN_CHANNELS: u8>(src: &[u8], off: usize) -> (r: (
    V256,
    V256,
    V256,
))
    requires
        YuvSourceChannels::is_code(ORIGIN_CHANNELS),
        YuvSourceChannels::decoded(ORIGIN_CHANNELS).four_channels(),
        off + 128 <= src@.len(),
    ensures
        deinterleaved(
            r.0.lo,
            r.1.lo,
            r.2.lo,
            YuvSourceChannels::decoded(ORIGIN_CHANNELS),
            src@,
            off as int,
        ),
        deinterleaved(
            r.0.hi,
            r.1.hi,
            r.2.hi,
            YuvSourceChannels::decoded(ORIGIN_CHANNELS),
            src@,
            off + 64,
        ),
{
    assert(src@.len() == src.len());
    let v0 = lasx_xvld(src, off);
    let v1 = lasx_xvld(src, off + 32);
    let v2 = lasx_xvld(src, off + 64);
    let v3 = lasx_xvld(src, off + 96);

    // Stage 1: split even/odd bytes (per 128-bit lane).
    let e01 = lasx_xvpickev_b(v1, v0);  // ch0,ch2 of px0-3,8-11 | px4-7,12-15
    let o01 = lasx_xvpickod_b(v1, v0);  // ch1,ch3
    let e23 = lasx_xvpickev_b(v3, v2);
    let o23 = lasx_xvpickod_b(v3, v2);

    // Stage 2: separate channels (still lane-scrambled in 4-pixel words).
    let s0 = lasx_xvpickev_b(e23, e01);  // ch0
    let s2 = lasx_xvpickod_b(e23, e01);  // ch2
    let s1 = lasx_xvpickev_b(o23, o01);  // ch1

    // Linearise the 4-pixel words.
    let ctrl = perm_ctrl();
    let c0 = lasx_xvperm_w(s0, ctrl);
    let c1 = lasx_xvperm_w(s1, ctrl);
    let c2 = lasx_xvperm_w(s2, ctrl);

    proof {
        assert forall|k: int|
            #![trigger s0.b(k)]
            #![trigger s1.b(k)]
            #![trigger s2.b(k)]
            0 <= k < 32 implies {
            let px = 8 * ((k % 16) / 4) + 4 * (k / 16) + k % 4;
            &&& s0.b(k) == src@[off + 4 * px]
            &&& s1.b(k) == src@[off + 4 * px + 1]
            &&& s2.b(k) == src@[off + 4 * px + 2]
        } by {
            lemma_scrambled(src@, off as int, v0, v1, v2, v3, e01, o01, e23, o23, s0, s1, s2, k);
        }
        assert forall|i: int|
            #![trigger c0.b(i)]
            #![trigger c1.b(i)]
            #![trigger c2.b(i)]
            0 <= i < 32 implies {
            &&& c0.b(i) == src@[off + 4 * i]
            &&& c1.b(i) == src@[off + 4 * i + 1]
            &&& c2.b(i) == src@[off + 4 * i + 2]
        } by {
            let k = 4 * (ctrl.w(i / 4) % 8) + i % 4;
            assert(c0.b(i) == s0.b(k) && c1.b(i) == s1.b(k) && c2.b(i) == s2.b(k));
            let w = i / 4;
            assert(w == 0 || w == 1 || w == 2 || w == 3 || w == 4 || w == 5 || w == 6 || w == 7);
        }
        assert forall|i: int|
            #![trigger c0.lo.b(i)]
            #![trigger c1.lo.b(i)]
            #![trigger c2.lo.b(i)]
            0 <= i < 16 implies {
            &&& c0.lo.b(i) == src@[off + 4 * i]
            &&& c1.lo.b(i) == src@[off + 4 * i + 1]
            &&& c2.lo.b(i) == src@[off + 4 * i + 2]
        } by {
            assert(c0.b(i) == c0.lo.b(i));
        }
        assert forall|i: int|
            #![trigger c0.hi.b(i)]
            #![trigger c1.hi.b(i)]
            #![trigger c2.hi.b(i)]
            0 <= i < 16 implies {
            &&& c0.hi.b(i) == src@[off + 64 + 4 * i]
            &&& c1.hi.b(i) == src@[off + 64 + 4 * i + 1]
            &&& c2.hi.b(i) == src@[off + 64 + 4 * i + 2]
        } by {
            assert(c0.b(i + 16) == c0.hi.b(i));
        }
    }

    match YuvSourceChannels::from(ORIGIN_CHANNELS) {
        YuvSourceChannels::Rgba => (c0, c1, c2),
        _ => (c2, c1, c0),  // Bgra: ch0=B, ch2=R
    }
}

/// Which byte of the source the two per-lane stages bring to position `k`.
proof fn lemma_scrambled(
    src: Seq<u8>,
    off: int,
    v0: V256,
    v1: V256,
    v2: V256,
    v3: V256,
    e01: V256,
    o01: V256,
    e23: V256,
    o23: V256,
    s0: V256,
    s1: V256,
    s2: V256,
    k: int,
)
    requires
        forall|i: int| 0 <= i < 32 ==> #[trigger] v0.b(i) == src[off + i],
        forall|i: int| 0 <= i < 32 ==> #[trigger] v1.b(i) == src[off + 32 + i],
        forall|i: int| 0 <= i < 32 ==> #[trigger] v2.b(i) == src[off + 64 + i],
        forall|i: int| 0 <= i < 32 ==> #[trigger] v3.b(i) == src[off + 96 + i],
        picks_even(e01.lo, v1.lo, v0.lo),
        picks_even(e01.hi, v1.hi, v0.hi),
        picks_odd(o01.lo, v1.lo, v0.lo),
        picks_odd(o01.hi, v1.hi, v0.hi),
        picks_even(e23.lo, v3.lo, v2.lo),
        picks_even(e23.hi, v3.hi, v2.hi),
        picks_odd(o23.lo, v3.lo, v2.lo),
        picks_odd(o23.hi, v3.hi, v2.hi),
        picks_even(s0.lo, e23.lo, e01.lo),
        picks_even(s0.hi, e23.hi, e01.hi),
        picks_odd(s2.lo, e23.lo, e01.lo),
        picks_odd(s2.hi, e23.hi, e01.hi),
        picks_even(s1.lo, o23.lo, o01.lo),
        picks_even(s1.hi, o23.hi, o01.hi),
        0 <= k < 32,
    ensures
        ({
            let px = 8 * ((k % 16) / 4) + 4 * (k / 16) + k % 4;
            &&& s0.b(k) == src[off + 4 * px]
            &&& s1.b(k) == src[off + 4 * px + 1]
            &&& s2.b(k) == src[off + 4 * px + 2]
        }),
{
    let j = k % 16;
    if k < 16 {
        if j < 4 {
            assert(s0.lo.b(j) == e01.lo.b(2 * j) == v0.lo.b(4 * j) == v0.b(4 * j));
            assert(s2.lo.b(j) == e01.lo.b(2 * j + 1) == v0.lo.b(4 * j + 2) == v0.b(4 * j + 2));
            assert(s1.lo.b(j) == o01.lo.b(2 * j) == v0.lo.b(4 * j + 1) == v0.b(4 * j + 1));
        } else if j < 8 {
            let m = 4 * j - 16;
            assert(s0.lo.b(j) == e01.lo.b(2 * j) == v1.lo.b(m) == v1.b(m));
            assert(s2.lo.b(j) == e01.lo.b(2 * j + 1) == v1.lo.b(m + 2) == v1.b(m + 2));
            assert(s1.lo.b(j) == o01.lo.b(2 * j) == v1.lo.b(m + 1) == v1.b(m + 1));
        } else if j < 12 {
            let m = 4 * j - 32;
            assert(s0.lo.b(j) == e23.lo.b(2 * j - 16) == v2.lo.b(m) == v2.b(m));
            assert(s2.lo.b(j) == e23.lo.b(2 * j - 15) == v2.lo.b(m + 2) == v2.b(m + 2));
            assert(s1.lo.b(j) == o23.lo.b(2 * j - 16) == v2.lo.b(m + 1) == v2.b(m + 1));
        } else {
            let m = 4 * j - 48;
            assert(s0.lo.b(j) == e23.lo.b(2 * j - 16) == v3.lo.b(m) == v3.b(m));
            assert(s2.lo.b(j) == e23.lo.b(2 * j - 15) == v3.lo.b(m + 2) == v3.b(m + 2));
            assert(s1.lo.b(j) == o23.lo.b(2 * j - 16) == v3.lo.b(m + 1) == v3.b(m + 1));
        }
    } else {
        if j < 4 {
            let m = 4 * j;
            assert(s0.hi.b(j) == e01.hi.b(2 * j) == v0.hi.b(m) == v0.b(m + 16));
            assert(s2.hi.b(j) == e01.hi.b(2 * j + 1) == v0.hi.b(m + 2) == v0.b(m + 18));
            assert(s1.hi.b(j) == o01.hi.b(2 * j) == v0.hi.b(m + 1) == v0.b(m + 17));
        } else if j < 8 {
            let m = 4 * j - 16;
            assert(s0.hi.b(j) == e01.hi.b(2 * j) == v1.hi.b(m) == v1.b(m + 16));
            assert(s2.hi.b(j) == e01.hi.b(2 * j + 1) == v1.hi.b(m + 2) == v1.b(m + 18));
            assert(s1.hi.b(j) == o01.hi.b(2 * j) == v1.hi.b(m + 1) == v1.b(m + 17));
        } else if j < 12 {
            let m = 4 * j - 32;
            assert(s0.hi.b(j) == e23.hi.b(2 * j - 16) == v2.hi.b(m) == v2.b(m + 16));
            assert(s2.hi.b(j) == e23.hi.b(2 * j - 15) == v2.hi.b(m + 2) == v2.b(m + 18));
            assert(s1.hi.b(j) == o23.hi.b(2 * j - 16) == v2.hi.b(m + 1) == v2.b(m + 17));
        } else {
            let m = 4 * j - 48;
            assert(s0.hi.b(j) == e23.hi.b(2 * j - 16) == v3.hi.b(m) == v3.b(m + 16));
            assert(s2.hi.b(j) == e23.hi.b(2 * j - 15) == v3.hi.b(m + 2) == v3.b(m + 18));
            assert(s1.hi.b(j) == o23.hi.b(2 * j - 16) == v3.hi.b(m + 1) == v3.b(m + 17));
        }
    }
}

/// Per-128-bit-lane byte permutation re-interleaving even/odd-pixel luma halves to
/// linear order (same `[0,8,1,9,..]` pattern as LSX, duplicated).
fn lasx_y_pack_mask() -> (m: V256)
    ensures
        is_y_pack_mask(m.lo),
        is_y_pack_mask(m.hi),
{
    V256 { lo: lsx_y_pack_mask(), hi: lsx_y_pack_mask() }
}

/// 32 luma bytes from linear planar `(r, g, b)`, with the same byte-path
/// multiply-accumulate as [`lsx_y16`] in each 128-bit lane.
fn lasx_y32(r: V256, g: V256, b: V256, c: &Coeffs8) -> (y: V256)
    requires
        c.luma_bytes(),
    ensures
        forall|i: int|
            0 <= i < 16 ==> #[trigger] y.lo.b(i) == c.y(r.lo.b(i), g.lo.b(i), b.lo.b(i)),
        forall|i: int|
            0 <= i < 16 ==> #[trigger] y.hi.b(i) == c.y(r.hi.b(i), g.hi.b(i), b.hi.b(i)),
{
    let bias = xsplat_h(c.ay);
    let (vry, vgy, vby) = (
        lasx_xvreplgr2vr_b(c.ry),
        lasx_xvreplgr2vr_b(c.gy),
        lasx_xvreplgr2vr_b(c.by),
    );

    let ev_r = lasx_xvmaddwev_h_bu(bias, r, vry);
    let ev_rg = lasx_xvmaddwev_h_bu(ev_r, g, vgy);
    let acc_ev = lasx_xvmaddwev_h_bu(ev_rg, b, vby);
    let od_r = lasx_xvmaddwod_h_bu(bias, r, vry);
    let od_rg = lasx_xvmaddwod_h_bu(od_r, g, vgy);
    let acc_od = lasx_xvmaddwod_h_bu(od_rg, b, vby);
    let packed = lasx_xvssrlni_bu_h::<8>(acc_od, acc_ev);
    let mask = lasx_y_pack_mask();
    let y = lasx_xvshuf_b(packed, packed, mask);
    proof {
        lemma_luma_lanes(
            *c,
            (r.lo, g.lo, b.lo),
            (vry.lo, vgy.lo, vby.lo),
            bias.lo,
            (ev_r.lo, ev_rg.lo, acc_ev.lo),
            (od_r.lo, od_rg.lo, acc_od.lo),
            packed.lo,
            mask.lo,
            y.lo,
        );
        lemma_luma_lanes(
            *c,
            (r.hi, g.hi, b.hi),
            (vry.hi, vgy.hi, vby.hi),
            bias.hi,
            (ev_r.hi, ev_rg.hi, acc_ev.hi),
            (od_r.hi, od_rg.hi, acc_od.hi),
            packed.hi,
            mask.hi,
            y.hi,
        );
    }
    y
}

/// Sums of even and odd bytes, added and rounded, are box averages.
proof fn lemma_downsample_lanes(
    row0: V128,
    row1: V128,
    ev: V128,
    od: V128,
    sum: V128,
    r: V128,
)
    requires
        adds_even_bytes(ev, row0, row1),
        adds_odd_bytes(od, row0, row1),
        adds_h(sum, ev, od),
        rounds_right_h(r, sum, 2),
    ensures
        forall|i: int| 0 <= i < 8 ==> #[trigger] r.h(i) == box_lane(row0, row1, i),
{
    lemma2_to64();
    assert forall|i: int| 0 <= i < 8 implies #[trigger] r.h(i) == box_lane(row0, row1, i) by {
        assert(sum.h(i) == ev.h(i) + od.h(i));
    }
}

/// 2x2 box-average one channel across two linear rows: 16 i16 samples.
fn lasx_downsample(row0: V256, row1: V256) -> (r: V256)
    ensures
        forall|i: int| 0 <= i < 8 ==> #[trigger] r.lo.h(i) == box_lane(row0.lo, row1.lo, i),
        forall|i: int| 0 <= i < 8 ==> #[trigger] r.hi.h(i) == box_lane(row0.hi, row1.hi, i),
{
    let ev = lasx_xvaddwev_h_bu(row0, row1);  // c0[2i]+c1[2i]
    let od = lasx_xvaddwod_h_bu(row0, row1);  // c0[2i+1]+c1[2i+1]
    let sum = lasx_xvadd_h(ev, od);
    let r = lasx_xvsrari_h::<2>(sum);  // (sum + 2) >> 2
    proof {
        lemma_downsample_lanes(row0.lo, row1.lo, ev.lo, od.lo, sum.lo, r.lo);
        lemma_downsample_lanes(row0.hi, row1.hi, ev.hi, od.hi, sum.hi, r.hi);
    }
    r
}

/// 16 chroma bytes for one coefficient triple, in the low 8 bytes of each 128-bit
/// lane.
fn lasx_chroma16(
    r_avg: V256,
    g_avg: V256,
    b_avg: V256,
    cr: i32,
    cg: i32,
    cb: i32,
    bias: V256,
) -> (s: V256)
    ensures
        forall|i: int|
            0 <= i < 8 ==> #[trigger] s.lo.b(i) == sample8(
                cr as int,
                cg as int,
                cb as int,
                bias.lo.h(i),
                r_avg.lo.h(i),
                g_avg.lo.h(i),
                b_avg.lo.h(i),
            ),
        forall|i: int|
            0 <= i < 8 ==> #[trigger] s.hi.b(i) == sample8(
                cr as int,
                cg as int,
                cb as int,
                bias.hi.h(i),
                r_avg.hi.h(i),
                g_avg.hi.h(i),
                b_avg.hi.h(i),
            ),
{
    let (vr, vg, vb) = (xsplat_h(cr), xsplat_h(cg), xsplat_h(cb));
    let acc_r = lasx_xvmadd_h(bias, r_avg, vr);
    let acc_rg = lasx_xvmadd_h(acc_r, g_avg, vg);
    let acc = lasx_xvmadd_h(acc_rg, b_avg, vb);
    let s = lasx_xvpickod_b(acc, acc);
    proof {
        let k = (cr as int, cg as int, cb as int);
        lemma_chroma_lanes(
            k,
            (r_avg.lo, g_avg.lo, b_avg.lo),
            (vr.lo, vg.lo, vb.lo),
            bias.lo,
            (acc_r.lo, acc_rg.lo, acc.lo),
            s.lo,
        );
        lemma_chroma_lanes(
            k,
            (r_avg.hi, g_avg.hi, b_avg.hi),
            (vr.hi, vg.hi, vb.hi),
            bias.hi,
            (acc_r.hi, acc_rg.hi, acc.hi),
            s.hi,
        );
    }
    s
}

/// Result of one 32-px-wide, 2-row LASX block.
pub struct LasxBlock {
    pub y0: V256,
    pub y1: V256,
    /// U samples: low 8 bytes of each 128-bit lane.
    pub u: V256,
    /// V samples: low 8 bytes of each 128-bit lane.
    pub v: V256,
}

impl LasxBlock {
    /// The left 16 pixels.
    pub open spec fn left(self) -> LsxBlock {
        LsxBlock { y0: self.y0.lo, y1: self.y1.lo, u: self.u.lo, v: self.v.lo }
    }

    /// The right 16 pixels.
    pub open spec fn right(self) -> LsxBlock {
        LsxBlock { y0: self.y0.hi, y1: self.y1.hi, u: self.u.hi, v: self.v.hi }
    }
}

/// Encode one 32-px-wide, 2-row block that starts at column `cx`.
pub fn lasx_block32<const ORIGIN_CHANNELS: u8>(
    rgba0: &[u8],
    rgba1: &[u8],
    cx: usize,
    c: &Coeffs8,
) -> (blk: LasxBlock)
    requires
        YuvSourceChannels::is_code(ORIGIN_CHANNELS),
        YuvSourceChannels::decoded(ORIGIN_CHANNELS).four_channels(),
        c.luma_bytes(),
        YuvSourceChannels::decoded(ORIGIN_CHANNELS).pixel(cx + 32) <= rgba0@.len(),
        YuvSourceChannels::decoded(ORIGIN_CHANNELS).pixel(cx + 32) <= rgba1@.len(),
    ensures
        encodes_block8(
            blk.left(),
            *c,
            YuvSourceChannels::decoded(ORIGIN_CHANNELS),
            rgba0@,
            rgba1@,
            cx as int,
        ),
        encodes_block8(
            blk.right(),
            *c,
            YuvSourceChannels::decoded(ORIGIN_CHANNELS),
            rgba0@,
            rgba1@,
            cx + 16,
        ),
{
    let ghost sc = YuvSourceChannels::decoded(ORIGIN_CHANNELS);
    proof {
        assert(rgba0@.len() == rgba0.len());
        sc.lemma_pixel(cx as int);
    }
    let px = cx * YuvSourceChannels::from(ORIGIN_CHANNELS).get_channels_count();
    let (r0, g0, b0) = lasx_load_deinterleave32::<ORIGIN_CHANNELS>(rgba0, px);
    let (r1, g1, b1) = lasx_load_deinterleave32::<ORIGIN_CHANNELS>(rgba1, px);

    let y0 = lasx_y32(r0, g0, b0, c);
    let y1 = lasx_y32(r1, g1, b1, c);

    let r_avg = lasx_downsample(r0, r1);
    let g_avg = lasx_downsample(g0, g1);
    let b_avg = lasx_downsample(b0, b1);

    let bias = xsplat_h(c.auv);
    let u = lasx_chroma16(r_avg, g_avg, b_avg, c.ru, c.gu, c.bu, bias);
    let v = lasx_chroma16(r_avg, g_avg, b_avg, c.rv, c.gv, c.bv, bias);
    let blk = LasxBlock { y0, y1, u, v };
    proof {
        lemma_block_lanes(
            *c,
            sc,
            rgba0@,
            rgba1@,
            cx as int,
            (r0.lo, g0.lo, b0.lo),
            (r1.lo, g1.lo, b1.lo),
            (r_avg.lo, g_avg.lo, b_avg.lo),
            bias.lo,
            blk.left(),
        );
        lemma_block_lanes(
            *c,
            sc,
            rgba0@,
            rgba1@,
            cx + 16,
            (r0.hi, g0.hi, b0.hi),
            (r1.hi, g1.hi, b1.hi),
            (r_avg.hi, g_avg.hi, b_avg.hi),
            bias.hi,
            blk.right(),
        );
    }
    blk
}

/// Store 32 bytes at `off`.
pub fn xstore32(dst: &mut [u8], off: usize, v: V256)
    requires
        off + 32 <= old(dst)@.len(),
    ensures
        stores_256(final(dst)@, old(dst)@, off as int, v),
{
    lasx_xvst(v, dst, off);
}

/// Store the 16 chroma bytes of a packed register (samples are in the low 8 bytes
/// of each 128-bit lane, i.e. doublewords 0 and 2) at `off`.
///
/// The element index of `xvstelm.d` is only 1 bit here, so doubleword 2 is
/// unreachable directly. `xvpermi_d` first gathers the two sample halves into
/// doublewords 0 and 1 (control `[d0, d2, d1, d3]`).
pub fn xstore16_chroma(dst: &mut [u8], off: usize, v: V256)
    requires
        off + 16 <= old(dst)@.len(),
    ensures
        final(dst)@.len() == old(dst)@.len(),
        forall|k: int|
            0 <= k < old(dst)@.len() ==> #[trigger] final(dst)@[k] == (if off <= k < off + 8 {
                v.lo.bytes[k - off]
            } else if off + 8 <= k < off + 16 {
                v.hi.bytes[k - off - 8]
            } else {
                old(dst)@[k]
            }),
{
    assert(dst@.len() == dst.len());
    let p = lasx_xvpermi_d::<0xD8>(v);  // d0=s0..7, d1=s8..15
    proof {
        assert forall|i: int| 0 <= i < 8 implies #[trigger] p.lo.bytes[i] == v.lo.bytes[i] by {
            assert(p.b(i) == v.b(8 * doubleword_selector(0xD8, 0) + i));
        }
        assert forall|i: int| 8 <= i < 16 implies #[trigger] p.lo.bytes[i] == v.hi.bytes[i
            - 8] by {
            assert(p.b(i) == v.b(8 * doubleword_selector(0xD8, 1) + i - 8));
        }
    }
    lasx_xvstelm_d::<0>(p, dst, off);  // s0..7
    lasx_xvstelm_d::<1>(p, dst, off + 8);  // s8..15
}

/// Interleave packed U/V (16 each) into 32 linear NV bytes.
pub fn xinterleave(first: V256, second: V256) -> (r: V256)
    ensures
        interleaves_low(r.lo, second.lo, first.lo),
        interleaves_low(r.hi, second.hi, first.hi),
{
    lasx_xvilvl_b(second, first)
}

} // verus!
