//! Whole-frame conversion at 8-bit precision.

use yuv::images::{BufferStoreMut, YuvBiPlanarImageMut, YuvPlanarImageMut};
use yuv::loongarch64::convert8::{
    avg_quad, coeffs8, quad_channel, rgb_to_u, rgb_to_v, rgb_to_y, scalar_chroma_tail,
    scalar_y_tail, Coeffs8,
};
use yuv::loongarch64::frame8::{rgba_to_i420_8, rgba_to_nv12_8, Simd8};
use yuv::loongarch64::{has_lasx, has_lsx, CpuFeatures};
use yuv::yuv_support::{
    YuvChromaSubsampling, YuvNVOrder, YuvRange, YuvSourceChannels, YuvStandardMatrix,
};

const RGB: u8 = YuvSourceChannels::Rgb as u8;
const RGBA: u8 = YuvSourceChannels::Rgba as u8;
const BGRA: u8 = YuvSourceChannels::Bgra as u8;
const BGR: u8 = YuvSourceChannels::Bgr as u8;
const UV: u8 = YuvNVOrder::UV as u8;
const VU: u8 = YuvNVOrder::VU as u8;

const EVERYTHING: CpuFeatures = CpuFeatures { lsx: true, lasx: true };
const NOTHING: CpuFeatures = CpuFeatures { lsx: false, lasx: false };

fn half_up(n: usize) -> usize {
    n / 2 + n % 2
}

/// Deterministic pseudo-random rows (xorshift).
fn make_src(width: usize, height: usize, channels: usize) -> Vec<u8> {
    let mut v = vec![0u8; width * height * channels];
    let mut state: u32 = 0x9e37_79b9;
    for b in v.iter_mut() {
        state ^= state << 13;
        state ^= state >> 17;
        state ^= state << 5;
        *b = (state & 0xff) as u8;
    }
    v
}

fn planar(width: usize, height: usize, fill: u8) -> YuvPlanarImageMut<'static, u8> {
    let (cw, ch) = (half_up(width), half_up(height));
    YuvPlanarImageMut {
        y_plane: BufferStoreMut::Owned(vec![fill; width * height]),
        y_stride: width as u32,
        u_plane: BufferStoreMut::Owned(vec![fill; cw * ch]),
        u_stride: cw as u32,
        v_plane: BufferStoreMut::Owned(vec![fill; cw * ch]),
        v_stride: cw as u32,
        width: width as u32,
        height: height as u32,
    }
}

fn bi_planar(width: usize, height: usize, fill: u8) -> YuvBiPlanarImageMut<'static, u8> {
    let (cw, ch) = (half_up(width), half_up(height));
    YuvBiPlanarImageMut {
        y_plane: BufferStoreMut::Owned(vec![fill; width * height]),
        y_stride: width as u32,
        uv_plane: BufferStoreMut::Owned(vec![fill; cw * 2 * ch]),
        uv_stride: (cw * 2) as u32,
        width: width as u32,
        height: height as u32,
    }
}

/// Pure-scalar full-frame oracle for I420 (independent of the driver's SIMD).
fn oracle_i420<const O: u8>(
    src: &[u8],
    width: usize,
    height: usize,
    c: &Coeffs8,
) -> (Vec<u8>, Vec<u8>, Vec<u8>) {
    let cw = half_up(width);
    let chh = half_up(height);
    let mut y = vec![0u8; width * height];
    let mut u = vec![0u8; cw * chh];
    let mut v = vec![0u8; cw * chh];
    let stride = width * YuvSourceChannels::from(O).get_channels_count();
    for r in 0..height {
        scalar_y_tail::<O>(&src[r * stride..], &mut y[r * width..r * width + width], 0, width, c);
    }
    let mut r = 0usize;
    while r < height {
        let two_rows = r + 1 < height;
        let r0 = &src[r * stride..];
        let r1 = if two_rows { &src[(r + 1) * stride..] } else { r0 };
        let cr = r / 2;
        let (u_row, v_row) = (&mut u[cr * cw..], &mut v[cr * cw..]);
        let samples = scalar_chroma_tail::<O>(r0, r1, 0, width, two_rows, c);
        for (j, &(cu, cv)) in samples.iter().enumerate() {
            u_row[j] = cu;
            v_row[j] = cv;
        }
        r += 2;
    }
    (y, u, v)
}

fn backends() -> Vec<Simd8> {
    vec![Simd8::Lsx, Simd8::Lasx, Simd8::Auto]
}

fn run_i420<const O: u8>(width: usize, height: usize, backend: Simd8) {
    let c = coeffs8(YuvStandardMatrix::Bt601, YuvRange::Limited).unwrap();
    let ch = YuvSourceChannels::from(O).get_channels_count();
    let src = make_src(width, height, ch);
    let (ey, eu, ev) = oracle_i420::<O>(&src, width, height, &c);

    let mut image = planar(width, height, 0);
    rgba_to_i420_8::<O>(&mut image, &src, (width * ch) as u32, &c, backend, &EVERYTHING);
    assert_eq!(image.y_plane.borrow(), &ey[..], "Y w={width} h={height} O={O} b={backend:?}");
    assert_eq!(image.u_plane.borrow(), &eu[..], "U w={width} h={height} O={O} b={backend:?}");
    assert_eq!(image.v_plane.borrow(), &ev[..], "V w={width} h={height} O={O} b={backend:?}");
}

#[test]
fn lsx_i420_matches_scalar() {
    for backend in backends() {
        for &(w, h) in &[
            (16usize, 2usize),
            (17, 3),
            (31, 5),
            (32, 4),
            (33, 2),
            (48, 6),
            (63, 3),
            (64, 6),
            (65, 7),
            (256, 8),
            (1920, 4),
        ] {
            run_i420::<RGBA>(w, h, backend);
            run_i420::<BGRA>(w, h, backend);
        }
    }
}

#[test]
fn i420_three_channel_sources_match_scalar() {
    for backend in backends() {
        for &(w, h) in &[(16usize, 2usize), (17, 3), (33, 2), (65, 7)] {
            run_i420::<RGB>(w, h, backend);
            run_i420::<BGR>(w, h, backend);
        }
    }
}

fn oracle_nv12<const O: u8, const ORD: u8>(
    src: &[u8],
    width: usize,
    height: usize,
    c: &Coeffs8,
) -> (Vec<u8>, Vec<u8>) {
    let cw = half_up(width);
    let chh = half_up(height);
    let mut y = vec![0u8; width * height];
    let mut uv = vec![0u8; cw * 2 * chh];
    let order = YuvNVOrder::from(ORD);
    let (upos, vpos) = (order.get_u_position(), order.get_v_position());
    let stride = width * YuvSourceChannels::from(O).get_channels_count();
    for r in 0..height {
        scalar_y_tail::<O>(&src[r * stride..], &mut y[r * width..r * width + width], 0, width, c);
    }
    let mut r = 0usize;
    while r < height {
        let two_rows = r + 1 < height;
        let r0 = &src[r * stride..];
        let r1 = if two_rows { &src[(r + 1) * stride..] } else { r0 };
        let cr = r / 2;
        let uv_row = &mut uv[cr * cw * 2..];
        let samples = scalar_chroma_tail::<O>(r0, r1, 0, width, two_rows, c);
        for (j, &(cu, cv)) in samples.iter().enumerate() {
            uv_row[j * 2 + upos] = cu;
            uv_row[j * 2 + vpos] = cv;
        }
        r += 2;
    }
    (y, uv)
}

fn run_nv12<const O: u8, const ORD: u8>(width: usize, height: usize, backend: Simd8) {
    let c = coeffs8(YuvStandardMatrix::Bt601, YuvRange::Limited).unwrap();
    let ch = YuvSourceChannels::from(O).get_channels_count();
    let src = make_src(width, height, ch);
    let (ey, euv) = oracle_nv12::<O, ORD>(&src, width, height, &c);

    let mut image = bi_planar(width, height, 0);
    rgba_to_nv12_8::<O, ORD>(&mut image, &src, (width * ch) as u32, &c, backend, &EVERYTHING);
    assert_eq!(image.y_plane.borrow(), &ey[..], "Y w={width} h={height} b={backend:?}");
    assert_eq!(image.uv_plane.borrow(), &euv[..], "UV w={width} h={height} b={backend:?}");
}

#[test]
fn lsx_nv12_matches_scalar() {
    for backend in backends() {
        for &(w, h) in &[
            (16usize, 2usize),
            (17, 3),
            (31, 5),
            (32, 4),
            (48, 4),
            (65, 7),
            (256, 8),
        ] {
            run_nv12::<RGBA, UV>(w, h, backend);
            run_nv12::<BGRA, UV>(w, h, backend);
            run_nv12::<BGRA, VU>(w, h, backend);
        }
    }
}

#[test]
fn nv12_three_channel_sources_match_scalar() {
    for backend in backends() {
        for &(w, h) in &[(16usize, 2usize), (17, 3), (33, 2), (65, 7)] {
            run_nv12::<RGB, UV>(w, h, backend);
            run_nv12::<BGR, VU>(w, h, backend);
        }
    }
}

#[test]
fn _silence_unused() {
    // `YuvChromaSubsampling` stays available for future 422/444 work.
    let _ = YuvChromaSubsampling::Yuv420;
}

#[test]
fn features_are_reported() {
    assert!(has_lsx(&EVERYTHING) && has_lasx(&EVERYTHING));
    assert!(!has_lsx(&NOTHING) && !has_lasx(&NOTHING));
    let lsx_only = CpuFeatures { lsx: true, lasx: false };
    assert!(has_lsx(&lsx_only) && !has_lasx(&lsx_only));
}

#[test]
fn coefficient_tables() {
    let c = coeffs8(YuvStandardMatrix::Bt601, YuvRange::Limited).unwrap();
    assert_eq!((c.ry, c.gy, c.by, c.ay), (66, 129, 25, 4224));
    assert_eq!((c.ru, c.gu, c.bu), (-38, -74, 112));
    assert_eq!((c.rv, c.gv, c.bv, c.auv), (112, -94, -18, 32768));
    let c = coeffs8(YuvStandardMatrix::Bt709, YuvRange::Full).unwrap();
    assert_eq!((c.ry, c.gy, c.by, c.ay), (54, 183, 19, 128));
    assert_eq!((c.ru, c.gu, c.bu), (-29, -99, 128));
    assert_eq!((c.rv, c.gv, c.bv, c.auv), (128, -116, -12, 32768));
    let c = coeffs8(YuvStandardMatrix::Bt2020, YuvRange::Limited).unwrap();
    assert_eq!((c.ry, c.gy, c.by, c.ay), (59, 148, 13, 4224));
    for range in [YuvRange::Limited, YuvRange::Full] {
        assert_eq!(coeffs8(YuvStandardMatrix::Smpte240, range), None);
        assert_eq!(coeffs8(YuvStandardMatrix::Bt470_6, range), None);
    }
}

#[test]
fn scalar_samples() {
    let c = coeffs8(YuvStandardMatrix::Bt601, YuvRange::Limited).unwrap();
    assert_eq!(rgb_to_y(255, 0, 0, &c), 82);
    assert_eq!(rgb_to_u(255, 0, 0, &c), 90);
    assert_eq!(rgb_to_v(255, 0, 0, &c), 239);
    assert_eq!(rgb_to_y(0, 0, 0, &c), 16);
    assert_eq!(rgb_to_y(255, 255, 255, &c), 235);
    // Out of the byte range the high bits are dropped.
    assert_eq!(rgb_to_y(1000, 0, 0, &c), 18);
    assert_eq!(rgb_to_y(-100, 0, 0, &c), 246);
}

#[test]
fn averages_at_edges() {
    assert_eq!(avg_quad(1, 2, 3, 4, true, true), 3);
    assert_eq!(avg_quad(1, 2, 99, 99, true, false), 2);
    assert_eq!(avg_quad(1, 99, 4, 99, false, true), 3);
    assert_eq!(avg_quad(7, 99, 99, 99, false, false), 7);
    let row0 = [10u8, 20, 30, 40, 50, 60];
    let row1 = [1u8, 2, 3, 4, 5, 6];
    assert_eq!(quad_channel(&row0, &row1, 0, 3, 1, true, true), 19);
    assert_eq!(quad_channel(&row0, &row1, 0, 3, 1, false, true), 11);
    assert_eq!(quad_channel(&row0, &row1, 3, 6, 2, false, false), 60);
}

#[test]
fn chroma_tail_covers_odd_widths() {
    let c = coeffs8(YuvStandardMatrix::Bt601, YuvRange::Limited).unwrap();
    let src = make_src(5, 1, 3);
    assert_eq!(scalar_chroma_tail::<RGB>(&src, &src, 0, 5, false, &c).len(), 3);
    assert_eq!(scalar_chroma_tail::<RGB>(&src, &src, 4, 5, false, &c).len(), 1);
    assert_eq!(scalar_chroma_tail::<RGB>(&src, &src, 5, 5, false, &c).len(), 0);
    assert_eq!(scalar_chroma_tail::<RGB>(&src, &src, 9, 5, false, &c).len(), 0);
}

#[test]
fn single_pixel_frame() {
    let c = coeffs8(YuvStandardMatrix::Bt601, YuvRange::Limited).unwrap();
    let mut image = planar(1, 1, 0);
    let src = [0u8, 0, 255, 7];
    assert!(rgba_to_i420_8::<BGRA>(&mut image, &src, 4, &c, Simd8::Auto, &EVERYTHING));
    assert_eq!(image.y_plane.borrow(), &[82]);
    assert_eq!(image.u_plane.borrow(), &[90]);
    assert_eq!(image.v_plane.borrow(), &[239]);
}

#[test]
fn empty_frames_are_left_alone() {
    let c = coeffs8(YuvStandardMatrix::Bt601, YuvRange::Full).unwrap();
    let mut image = planar(0, 4, 0);
    assert!(!rgba_to_i420_8::<RGBA>(&mut image, &[], 0, &c, Simd8::Auto, &NOTHING));
    let mut image = bi_planar(4, 0, 0);
    assert!(rgba_to_nv12_8::<RGBA, UV>(&mut image, &[], 16, &c, Simd8::Lsx, &EVERYTHING));
}

#[test]
fn result_tells_whether_simd_ran() {
    let c = coeffs8(YuvStandardMatrix::Bt601, YuvRange::Limited).unwrap();
    let src = make_src(20, 2, 4);
    let lsx = CpuFeatures { lsx: true, lasx: false };
    let lasx = CpuFeatures { lsx: false, lasx: true };
    let cases = [
        (Simd8::Auto, NOTHING, false),
        (Simd8::Auto, lsx, true),
        (Simd8::Auto, lasx, true),
        (Simd8::Lsx, lsx, true),
        (Simd8::Lasx, lasx, true),
    ];
    let (ey, eu, ev) = oracle_i420::<RGBA>(&src, 20, 2, &c);
    for (backend, cpu, simd) in cases {
        let mut image = planar(20, 2, 0);
        assert_eq!(rgba_to_i420_8::<RGBA>(&mut image, &src, 80, &c, backend, &cpu), simd);
        assert_eq!(image.y_plane.borrow(), &ey[..]);
        assert_eq!(image.u_plane.borrow(), &eu[..]);
        assert_eq!(image.v_plane.borrow(), &ev[..]);
    }
    // The 256-bit path is 4-channel only; scalar converts in its place.
    let src = make_src(20, 2, 3);
    let (ey, _, _) = oracle_i420::<RGB>(&src, 20, 2, &c);
    let mut image = planar(20, 2, 0);
    assert!(!rgba_to_i420_8::<RGB>(&mut image, &src, 60, &c, Simd8::Lasx, &EVERYTHING));
    assert_eq!(image.y_plane.borrow(), &ey[..]);
    assert!(rgba_to_i420_8::<RGB>(&mut image, &src, 60, &c, Simd8::Auto, &EVERYTHING));
}

#[test]
fn padding_keeps_its_value() {
    let c = coeffs8(YuvStandardMatrix::Bt709, YuvRange::Limited).unwrap();
    let (w, h) = (33usize, 3usize);
    let src = make_src(w, h, 4);
    let mut y = vec![0xAAu8; 40 * 3];
    let mut u = vec![0xAAu8; 20 * 2];
    let mut v = vec![0xAAu8; 21 * 2];
    let mut image = YuvPlanarImageMut {
        y_plane: BufferStoreMut::Borrowed(&mut y),
        y_stride: 40,
        u_plane: BufferStoreMut::Borrowed(&mut u),
        u_stride: 20,
        v_plane: BufferStoreMut::Borrowed(&mut v),
        v_stride: 21,
        width: w as u32,
        height: h as u32,
    };
    rgba_to_i420_8::<RGBA>(&mut image, &src, (w * 4) as u32, &c, Simd8::Auto, &EVERYTHING);
    let (ey, eu, ev) = oracle_i420::<RGBA>(&src, w, h, &c);
    for row in 0..3 {
        assert_eq!(&y[row * 40..row * 40 + 33], &ey[row * 33..row * 33 + 33]);
        assert!(y[row * 40 + 33..row * 40 + 40].iter().all(|&b| b == 0xAA));
    }
    for row in 0..2 {
        assert_eq!(&u[row * 20..row * 20 + 17], &eu[row * 17..row * 17 + 17]);
        assert!(u[row * 20 + 17..row * 20 + 20].iter().all(|&b| b == 0xAA));
        assert_eq!(&v[row * 21..row * 21 + 17], &ev[row * 17..row * 17 + 17]);
        assert!(v[row * 21 + 17..row * 21 + 21].iter().all(|&b| b == 0xAA));
    }
}

#[test]
fn absent_forced_backend_leaves_the_image() {
    let c = coeffs8(YuvStandardMatrix::Bt601, YuvRange::Limited).unwrap();
    let lsx = CpuFeatures { lsx: true, lasx: false };
    let lasx = CpuFeatures { lsx: false, lasx: true };
    let src = make_src(20, 2, 4);
    for (backend, cpu) in [
        (Simd8::Lsx, NOTHING),
        (Simd8::Lsx, lasx),
        (Simd8::Lasx, NOTHING),
        (Simd8::Lasx, lsx),
    ] {
        let mut image = planar(20, 2, 7);
        assert!(!rgba_to_i420_8::<RGBA>(&mut image, &src, 80, &c, backend, &cpu));
        assert_eq!(image.y_plane.borrow(), &[7; 40]);
        assert_eq!(image.u_plane.borrow(), &[7; 10]);
        assert_eq!(image.v_plane.borrow(), &[7; 10]);
    }
    // The bi-planar conversion goes on by scalar.
    let (ey, euv) = oracle_nv12::<RGBA, UV>(&src, 20, 2, &c);
    let mut image = bi_planar(20, 2, 7);
    assert!(!rgba_to_nv12_8::<RGBA, UV>(&mut image, &src, 80, &c, Simd8::Lasx, &NOTHING));
    assert_eq!(image.y_plane.borrow(), &ey[..]);
    assert_eq!(image.uv_plane.borrow(), &euv[..]);
}

#[test]
fn stride_of_a_single_row_is_not_used() {
    let c = coeffs8(YuvStandardMatrix::Bt601, YuvRange::Full).unwrap();
    let src = make_src(37, 1, 4);
    let (ey, eu, ev) = oracle_i420::<BGRA>(&src, 37, 1, &c);
    let mut image = planar(37, 1, 0);
    image.y_stride = 5;
    image.u_stride = 0;
    image.v_stride = 3;
    assert!(rgba_to_i420_8::<BGRA>(&mut image, &src, 0, &c, Simd8::Auto, &EVERYTHING));
    assert_eq!(image.y_plane.borrow(), &ey[..]);
    assert_eq!(image.u_plane.borrow(), &eu[..]);
    assert_eq!(image.v_plane.borrow(), &ev[..]);

    // Two luma rows have one chroma row.
    let src = make_src(37, 2, 4);
    let (ey, euv) = oracle_nv12::<BGRA, VU>(&src, 37, 2, &c);
    let mut image = bi_planar(37, 2, 0);
    image.uv_stride = 1;
    assert!(rgba_to_nv12_8::<BGRA, VU>(&mut image, &src, 148, &c, Simd8::Auto, &EVERYTHING));
    assert_eq!(image.y_plane.borrow(), &ey[..]);
    assert_eq!(image.uv_plane.borrow(), &euv[..]);
}

#[test]
fn lent_chroma_pairs_reach_their_owner() {
    let c = coeffs8(YuvStandardMatrix::Bt601, YuvRange::Limited).unwrap();
    let (mut y, mut uv) = (vec![7u8; 1], vec![7u8; 2]);
    let mut image = YuvBiPlanarImageMut {
        y_plane: BufferStoreMut::Borrowed(&mut y),
        y_stride: 1,
        uv_plane: BufferStoreMut::Borrowed(&mut uv),
        uv_stride: 2,
        width: 1,
        height: 1,
    };
    rgba_to_nv12_8::<RGBA, UV>(&mut image, &[255, 0, 0, 0], 4, &c, Simd8::Auto, &EVERYTHING);
    assert_eq!(y, [82]);
    assert_eq!(uv, [90, 239]);
}
