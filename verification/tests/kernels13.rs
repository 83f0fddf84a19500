//! Row-pair kernels at 13-bit precision.

use yuv::internals::ProcessedOffset;
use yuv::loongarch64::rgba_to_nv420::{loongarch64_rgba_to_nv420, lsx_rgba_to_nv420};
use yuv::loongarch64::rgba_to_yuv420::{
    lasx_rgba_to_yuv420, loongarch64_rgba_to_yuv420, lsx_rgba_to_yuv420,
};
use yuv::loongarch64::utils::{uv_bias, y_bias};
use yuv::loongarch64::CpuFeatures;
use yuv::yuv_support::{
    CbCrForwardTransform, YuvChromaRange, YuvNVOrder, YuvRange, YuvSourceChannels,
};

const RGB: u8 = YuvSourceChannels::Rgb as u8;
const RGBA: u8 = YuvSourceChannels::Rgba as u8;
const BGRA: u8 = YuvSourceChannels::Bgra as u8;
const UV: u8 = YuvNVOrder::UV as u8;
const VU: u8 = YuvNVOrder::VU as u8;

fn half_up(n: usize) -> usize {
    n / 2 + n % 2
}

/// Representative BT.601 limited-range 8-bit transform (PRECISION = 13).
fn bt601_limited() -> (YuvChromaRange, CbCrForwardTransform<i32>) {
    let range = YuvChromaRange {
        bias_y: 16,
        bias_uv: 128,
        range_y: 219,
        range_uv: 224,
        range: YuvRange::Limited,
    };
    let transform = CbCrForwardTransform::<i32> {
        yr: 2104,
        yg: 4130,
        yb: 802,
        cb_r: -1214,
        cb_g: -2384,
        cb_b: 3598,
        cr_r: 3598,
        cr_g: -3013,
        cr_b: -585,
    };
    (range, transform)
}

/// Scalar luma formula, bit-identical to the SIMD kernel.
fn ref_y<const PRECISION: u32>(
    r: i32,
    g: i32,
    b: i32,
    range: &YuvChromaRange,
    transform: &CbCrForwardTransform<i32>,
) -> u8 {
    let bias = y_bias::<PRECISION>(range);
    ((r * transform.yr + g * transform.yg + b * transform.yb + bias) >> PRECISION) as u8
}

/// Build two deterministic pseudo-random pixel rows of `width` pixels each.
fn make_rgba_rows<const ORIGIN_CHANNELS: u8>(width: usize) -> (Vec<u8>, Vec<u8>) {
    let channels = YuvSourceChannels::from(ORIGIN_CHANNELS).get_channels_count();
    let len = width * channels;
    let mut row0 = vec![0u8; len];
    let mut row1 = vec![0u8; len];
    let mut state: u32 = 0x1234_5678;
    let mut next = || {
        state ^= state << 13;
        state ^= state >> 17;
        state ^= state << 5;
        (state & 0xff) as u8
    };
    for b in row0.iter_mut() {
        *b = next();
    }
    for b in row1.iter_mut() {
        *b = next();
    }
    (row0, row1)
}

fn check_yuv<const O: u8>(
    width: usize,
    range: &YuvChromaRange,
    transform: &CbCrForwardTransform<i32>,
) {
    let channels = (YuvSourceChannels::from(O)).get_channels_count();
    let (rgba0, rgba1) = make_rgba_rows::<O>(width);

    let mut y0 = vec![0u8; width];
    let mut y1 = vec![0u8; width];
    let cw = half_up(width);
    let mut u = vec![0u8; cw];
    let mut v = vec![0u8; cw];

    let off = lsx_rgba_to_yuv420::<O, 13>(
        transform, range, &mut y0, &mut y1, &mut u, &mut v, &rgba0, &rgba1, 0, 0, width,
    );
    assert_eq!(off, ProcessedOffset { cx: width - width % 16, ux: (width - width % 16) / 2 });

    let sc = YuvSourceChannels::from(O);
    let (ro, go, bo) = (
        sc.get_r_channel_offset(),
        sc.get_g_channel_offset(),
        sc.get_b_channel_offset(),
    );

    for x in 0..off.cx {
        let p = x * channels;
        let e0 = ref_y::<13>(
            rgba0[p + ro] as i32,
            rgba0[p + go] as i32,
            rgba0[p + bo] as i32,
            range,
            transform,
        );
        let e1 = ref_y::<13>(
            rgba1[p + ro] as i32,
            rgba1[p + go] as i32,
            rgba1[p + bo] as i32,
            range,
            transform,
        );
        assert_eq!(y0[x], e0, "Y0 mismatch O={O} w={width} x={x}");
        assert_eq!(y1[x], e1, "Y1 mismatch O={O} w={width} x={x}");
    }

    for ux in 0..off.ux {
        let p = (ux * 2) * channels;
        let q = p + channels;
        let avg = |o: usize| {
            (rgba0[p + o] as i32 + rgba0[q + o] as i32 + rgba1[p + o] as i32
                + rgba1[q + o] as i32
                + 2)
                >> 2
        };
        let bias = uv_bias::<13>(range);
        let (r, g, b) = (avg(ro), avg(go), avg(bo));
        let cb =
            ((r * transform.cb_r + g * transform.cb_g + b * transform.cb_b + bias) >> 13) as u8;
        let cr =
            ((r * transform.cr_r + g * transform.cr_g + b * transform.cr_b + bias) >> 13) as u8;
        assert_eq!(u[ux], cb, "U mismatch O={O} w={width} ux={ux}");
        assert_eq!(v[ux], cr, "V mismatch O={O} w={width} ux={ux}");
    }
}

/// The SIMD kernel must be bit-identical to the scalar formula for every
/// luma/chroma sample inside the blocks it processed.
#[test]
fn lsx_yuv420_matches_scalar() {
    let (range, transform) = bt601_limited();

    for &width in &[16usize, 17, 31, 32, 48, 64, 65, 257, 1920] {
        check_yuv::<RGBA>(width, &range, &transform);
        check_yuv::<BGRA>(width, &range, &transform);
    }
}

#[test]
fn yuv420_three_channel_source() {
    let (range, transform) = bt601_limited();
    check_yuv::<RGB>(37, &range, &transform);
}

fn check_nv<const O: u8, const ORD: u8>(
    width: usize,
    range: &YuvChromaRange,
    transform: &CbCrForwardTransform<i32>,
) {
    let channels = YuvSourceChannels::from(O).get_channels_count();
    let order: YuvNVOrder = YuvNVOrder::from(ORD);
    let (rgba0, rgba1) = make_rgba_rows::<O>(width);

    let mut y0 = vec![0u8; width];
    let mut y1 = vec![0u8; width];
    let mut uv = vec![0u8; half_up(width) * 2];

    let off = lsx_rgba_to_nv420::<O, ORD, 13>(
        &mut y0,
        &mut y1,
        &mut uv,
        &rgba0,
        &rgba1,
        width as u32,
        range,
        transform,
        0,
        0,
    );
    assert_eq!(off, ProcessedOffset { cx: width - width % 16, ux: width - width % 16 });

    let sc = YuvSourceChannels::from(O);
    let (ro, go, bo) = (
        sc.get_r_channel_offset(),
        sc.get_g_channel_offset(),
        sc.get_b_channel_offset(),
    );

    for x in 0..off.cx {
        let p = x * channels;
        assert_eq!(
            y0[x],
            ref_y::<13>(
                rgba0[p + ro] as i32,
                rgba0[p + go] as i32,
                rgba0[p + bo] as i32,
                range,
                transform
            )
        );
        assert_eq!(
            y1[x],
            ref_y::<13>(
                rgba1[p + ro] as i32,
                rgba1[p + go] as i32,
                rgba1[p + bo] as i32,
                range,
                transform
            )
        );
    }

    let bias = uv_bias::<13>(range);
    // off.ux counts interleaved bytes; there are off.ux / 2 chroma pairs.
    for k in 0..(off.ux / 2) {
        let p = (k * 2) * channels;
        let q = p + channels;
        let avg = |o: usize| {
            (rgba0[p + o] as i32 + rgba0[q + o] as i32 + rgba1[p + o] as i32
                + rgba1[q + o] as i32
                + 2)
                >> 2
        };
        let (r, g, b) = (avg(ro), avg(go), avg(bo));
        let cb =
            ((r * transform.cb_r + g * transform.cb_g + b * transform.cb_b + bias) >> 13) as u8;
        let cr =
            ((r * transform.cr_r + g * transform.cr_g + b * transform.cr_b + bias) >> 13) as u8;
        assert_eq!(uv[k * 2 + order.get_u_position()], cb, "Cb w={width} k={k}");
        assert_eq!(uv[k * 2 + order.get_v_position()], cr, "Cr w={width} k={k}");
    }
}

#[test]
fn lsx_nv420_matches_scalar() {
    let (range, transform) = bt601_limited();

    for &width in &[16usize, 17, 31, 32, 48, 64, 65, 257, 1920] {
        check_nv::<RGBA, UV>(width, &range, &transform);
        check_nv::<BGRA, UV>(width, &range, &transform);
        check_nv::<BGRA, VU>(width, &range, &transform);
    }
}

#[test]
fn biases() {
    let (range, _) = bt601_limited();
    assert_eq!(y_bias::<13>(&range), 16 * 8192 + 4095);
    assert_eq!(uv_bias::<13>(&range), 128 * 8192 + 4095);
    assert_eq!(y_bias::<1>(&range), 32);
    let zero = YuvChromaRange { bias_y: 0, bias_uv: u32::MAX, ..range };
    assert_eq!(y_bias::<31>(&zero), (1 << 30) - 1);
    assert_eq!(uv_bias::<13>(&zero), -8192 + 4095);
}

/// Runs the dispatcher at one precision and says where it stopped and what the
/// luma rows hold.
fn dispatch<const P: u32>(cpu: &CpuFeatures, start: usize) -> (ProcessedOffset, Vec<u8>) {
    let (range, transform) = bt601_limited();
    let (rgba0, rgba1) = make_rgba_rows::<RGBA>(40);
    let (mut y0, mut y1) = (vec![9u8; 40], vec![9u8; 40]);
    let (mut u, mut v) = (vec![9u8; 20], vec![9u8; 20]);
    let off = loongarch64_rgba_to_yuv420::<RGBA, P>(
        cpu, &transform, &range, &mut y0, &mut y1, &mut u, &mut v, &rgba0, &rgba1, start,
        start / 2, 40,
    );
    (off, y0)
}

#[test]
fn dispatch_follows_precision_and_features() {
    let both = CpuFeatures { lsx: true, lasx: true };
    let lsx = CpuFeatures { lsx: true, lasx: false };
    let none = CpuFeatures { lsx: false, lasx: false };
    let (off, y) = dispatch::<13>(&both, 0);
    assert_eq!(off, ProcessedOffset { cx: 32, ux: 16 });
    assert!(y[32..].iter().all(|&b| b == 9));
    assert_eq!(dispatch::<13>(&lsx, 0), (off, y));
    let untouched = vec![9u8; 40];
    assert_eq!(dispatch::<13>(&none, 4), (ProcessedOffset { cx: 4, ux: 2 }, untouched.clone()));
    assert_eq!(dispatch::<12>(&both, 4), (ProcessedOffset { cx: 4, ux: 2 }, untouched.clone()));
    // No whole block is left: nothing is written.
    assert_eq!(dispatch::<13>(&both, 25), (ProcessedOffset { cx: 25, ux: 12 }, untouched));

    let (range, transform) = bt601_limited();
    let (mut y0, mut y1, mut uv) = (vec![9u8; 16], vec![9u8; 16], vec![9u8; 16]);
    let (rgba0, rgba1) = make_rgba_rows::<RGBA>(16);
    let off = loongarch64_rgba_to_nv420::<RGBA, UV, 13>(
        &none, &mut y0, &mut y1, &mut uv, &rgba0, &rgba1, 16, &range, &transform, 0, 0,
    );
    assert_eq!(off, ProcessedOffset { cx: 0, ux: 0 });
    assert_eq!(uv, vec![9u8; 16]);
    let off = loongarch64_rgba_to_nv420::<RGBA, UV, 13>(
        &both, &mut y0, &mut y1, &mut uv, &rgba0, &rgba1, 16, &range, &transform, 0, 0,
    );
    assert_eq!(off, ProcessedOffset { cx: 16, ux: 16 });
}

#[test]
fn kernels_resume_where_they_stopped() {
    let (range, transform) = bt601_limited();
    let (rgba0, rgba1) = make_rgba_rows::<BGRA>(96);
    let run = |stops: &[usize]| {
        let (mut y0, mut y1) = (vec![0u8; 96], vec![0u8; 96]);
        let (mut u, mut v) = (vec![0u8; 48], vec![0u8; 48]);
        let mut off = ProcessedOffset { cx: 0, ux: 0 };
        for &width in stops {
            off = lasx_rgba_to_yuv420::<BGRA, 13>(
                &transform, &range, &mut y0, &mut y1, &mut u, &mut v, &rgba0, &rgba1, off.cx,
                off.ux, width,
            );
        }
        (off.cx, off.ux, y0, y1, u, v)
    };
    assert_eq!(run(&[96]), run(&[16, 50, 96]));
}

#[test]
fn samples_saturate() {
    let (range, _) = bt601_limited();
    let transform = CbCrForwardTransform::<i32> {
        yr: 16384,
        yg: 0,
        yb: 0,
        cb_r: -16384,
        cb_g: 0,
        cb_b: 0,
        cr_r: 1 << 30,
        cr_g: 0,
        cr_b: 0,
    };
    let row = vec![200u8; 16 * 4];
    let (mut y0, mut y1) = (vec![0u8; 16], vec![0u8; 16]);
    let (mut u, mut v) = (vec![1u8; 8], vec![1u8; 8]);
    lsx_rgba_to_yuv420::<RGBA, 13>(
        &transform, &range, &mut y0, &mut y1, &mut u, &mut v, &row, &row, 0, 0, 16,
    );
    assert_eq!(y0, vec![255u8; 16]);
    assert_eq!(u, vec![0u8; 8]);
    // 200 * 2^30 wraps to zero in a 32-bit lane.
    assert_eq!(v, vec![128u8; 8]);
}
