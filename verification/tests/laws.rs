//! What holds of the conversion as a whole, on chosen values.

use yuv::images::{BufferStoreMut, YuvBiPlanarImageMut, YuvPlanarImageMut};
use yuv::loongarch64::convert8::{avg_quad, rgb_to_u, rgb_to_v, rgb_to_y, Coeffs8};
use yuv::loongarch64::{
    coeffs8, has_lasx, has_lsx, rgba_to_i420_8, rgba_to_nv12_8, CpuFeatures, Simd8,
};
use yuv::yuv_support::{YuvNVOrder, YuvRange, YuvSourceChannels, YuvStandardMatrix};

const RGB: u8 = YuvSourceChannels::Rgb as u8;
const RGBA: u8 = YuvSourceChannels::Rgba as u8;
const BGRA: u8 = YuvSourceChannels::Bgra as u8;
const UV: u8 = YuvNVOrder::UV as u8;
const VU: u8 = YuvNVOrder::VU as u8;

const WIDTH: usize = 35;
const HEIGHT: usize = 5;
const CW: usize = 18;
const CH: usize = 3;

fn tables() -> Vec<(YuvRange, Coeffs8)> {
    let mut list = Vec::new();
    for matrix in [YuvStandardMatrix::Bt601, YuvStandardMatrix::Bt709, YuvStandardMatrix::Bt2020] {
        for range in [YuvRange::Limited, YuvRange::Full] {
            list.push((range, coeffs8(matrix, range).unwrap()));
        }
    }
    list
}

fn source(channels: usize) -> Vec<u8> {
    (0..WIDTH * HEIGHT * channels).map(|i| (i * 37 + i / 11) as u8).collect()
}

/// The colours of an RGBA source in another layout.
fn relayout(rgba: &[u8], order: &[usize]) -> Vec<u8> {
    rgba.chunks(4).flat_map(|p| order.iter().map(|&k| p[k])).collect()
}

fn i420<const O: u8>(src: &[u8], backend: Simd8, cpu: CpuFeatures) -> (Vec<u8>, Vec<u8>, Vec<u8>) {
    let c = coeffs8(YuvStandardMatrix::Bt709, YuvRange::Full).unwrap();
    let (mut y, mut u, mut v) = (vec![0; WIDTH * HEIGHT], vec![0; CW * CH], vec![0; CW * CH]);
    let mut image = YuvPlanarImageMut {
        y_plane: BufferStoreMut::Borrowed(&mut y),
        y_stride: WIDTH as u32,
        u_plane: BufferStoreMut::Borrowed(&mut u),
        u_stride: CW as u32,
        v_plane: BufferStoreMut::Borrowed(&mut v),
        v_stride: CW as u32,
        width: WIDTH as u32,
        height: HEIGHT as u32,
    };
    let stride = (src.len() / HEIGHT) as u32;
    rgba_to_i420_8::<O>(&mut image, src, stride, &c, backend, &cpu);
    (y, u, v)
}

fn nv12<const O: u8, const ORD: u8>(
    src: &[u8],
    backend: Simd8,
    cpu: CpuFeatures,
    twice: bool,
) -> (Vec<u8>, Vec<u8>) {
    let c = coeffs8(YuvStandardMatrix::Bt709, YuvRange::Full).unwrap();
    let (mut y, mut uv) = (vec![0; WIDTH * HEIGHT], vec![0; 2 * CW * CH]);
    let mut image = YuvBiPlanarImageMut {
        y_plane: BufferStoreMut::Borrowed(&mut y),
        y_stride: WIDTH as u32,
        uv_plane: BufferStoreMut::Borrowed(&mut uv),
        uv_stride: (2 * CW) as u32,
        width: WIDTH as u32,
        height: HEIGHT as u32,
    };
    let stride = (src.len() / HEIGHT) as u32;
    rgba_to_nv12_8::<O, ORD>(&mut image, src, stride, &c, backend, &cpu);
    if twice {
        rgba_to_nv12_8::<O, ORD>(&mut image, src, stride, &c, backend, &cpu);
    }
    (y, uv)
}

const ALL: CpuFeatures = CpuFeatures { lsx: true, lasx: true };
const NONE: CpuFeatures = CpuFeatures { lsx: false, lasx: false };

#[test]
fn table_sums() {
    for (range, c) in tables() {
        let limited = range == YuvRange::Limited;
        assert_eq!(c.ry + c.gy + c.by, if limited { 220 } else { 256 });
        assert_eq!(c.ay, if limited { 16 * 256 + 128 } else { 128 });
        assert_eq!(c.auv, 128 * 256);
        assert_eq!((c.ru + c.gu + c.bu, c.rv + c.gv + c.bv), (0, 0));
    }
}

#[test]
fn partial_sums_stay_in_sixteen_bits() {
    for (_, c) in tables() {
        for rgb in 0..8 {
            let (r, g, b) = (255 * (rgb & 1), 255 * (rgb >> 1 & 1), 255 * (rgb >> 2));
            for (bias, kr, kg, kb) in [
                (c.ay, c.ry, c.gy, c.by),
                (c.auv, c.ru, c.gu, c.bu),
                (c.auv, c.rv, c.gv, c.bv),
            ] {
                let s1 = bias + kr * r;
                let s2 = s1 + kg * g;
                let s3 = s2 + kb * b;
                for s in [s1, s2, s3] {
                    assert!((0..65536).contains(&s));
                }
            }
        }
    }
}

#[test]
fn grey_is_neutral_and_spans_the_range() {
    for (range, c) in tables() {
        for grey in 0..256 {
            assert_eq!(rgb_to_u(grey, grey, grey, &c), 128);
            assert_eq!(rgb_to_v(grey, grey, grey, &c), 128);
        }
        let (black, white) = (rgb_to_y(0, 0, 0, &c), rgb_to_y(255, 255, 255, &c));
        let limited = range == YuvRange::Limited;
        assert_eq!((black, white), if limited { (16, 235) } else { (0, 255) });
    }
}

#[test]
fn limited_range_is_respected() {
    for (range, c) in tables() {
        if range == YuvRange::Full {
            continue;
        }
        for rgb in 0..8 {
            let (r, g, b) = (255 * (rgb & 1), 255 * (rgb >> 1 & 1), 255 * (rgb >> 2));
            assert!((16..=235).contains(&rgb_to_y(r, g, b, &c)));
            assert!((16..=240).contains(&rgb_to_u(r, g, b, &c)));
            assert!((16..=240).contains(&rgb_to_v(r, g, b, &c)));
        }
    }
}

#[test]
fn luma_is_monotone() {
    for (_, c) in tables() {
        for g in 1..256 {
            assert!(rgb_to_y(40, g - 1, 90, &c) <= rgb_to_y(40, g, 90, &c));
        }
    }
}

#[test]
fn flat_quads_average_to_themselves() {
    for s in [0, 1, 127, 255] {
        for (cols, rows) in [(true, true), (true, false), (false, true), (false, false)] {
            assert_eq!(avg_quad(s, s, s, s, cols, rows), s);
        }
    }
    assert_eq!(avg_quad(-3, -4, 0, 0, true, false), -3);
}

#[test]
fn layout_of_the_source_is_irrelevant() {
    let rgba = source(4);
    let expected = i420::<RGBA>(&rgba, Simd8::Auto, ALL);
    let bgra = relayout(&rgba, &[2, 1, 0, 3]);
    assert_eq!(i420::<BGRA>(&bgra, Simd8::Auto, ALL), expected);
    let rgb = relayout(&rgba, &[0, 1, 2]);
    assert_eq!(i420::<RGB>(&rgb, Simd8::Auto, ALL), expected);
}

#[test]
fn backends_agree() {
    let src = source(4);
    let expected = i420::<RGBA>(&src, Simd8::Auto, NONE);
    for backend in [Simd8::Auto, Simd8::Lsx, Simd8::Lasx] {
        assert_eq!(i420::<RGBA>(&src, backend, ALL), expected);
    }
    let expected = nv12::<RGBA, VU>(&src, Simd8::Auto, NONE, false);
    for backend in [Simd8::Auto, Simd8::Lsx, Simd8::Lasx] {
        assert_eq!(nv12::<RGBA, VU>(&src, backend, ALL, false), expected);
    }
}

#[test]
fn converting_twice_changes_nothing() {
    let src = source(4);
    assert_eq!(
        nv12::<BGRA, UV>(&src, Simd8::Lasx, ALL, true),
        nv12::<BGRA, UV>(&src, Simd8::Lasx, ALL, false)
    );
}

#[test]
fn bi_planar_interleaves_planar() {
    let src = source(4);
    let (y, u, v) = i420::<BGRA>(&src, Simd8::Lsx, ALL);
    let (y_uv, uv) = nv12::<BGRA, UV>(&src, Simd8::Lasx, ALL, false);
    let (y_vu, vu) = nv12::<BGRA, VU>(&src, Simd8::Lsx, ALL, false);
    assert_eq!(y, y_uv);
    assert_eq!(y, y_vu);
    for k in 0..CW * CH {
        assert_eq!((uv[2 * k], uv[2 * k + 1]), (u[k], v[k]));
        assert_eq!((vu[2 * k], vu[2 * k + 1]), (v[k], u[k]));
    }
}

#[test]
fn wide_extension_implies_the_narrow_one() {
    for cpu in [NONE, CpuFeatures { lsx: true, lasx: false }, ALL] {
        assert!(!has_lasx(&cpu) || has_lsx(&cpu));
    }
}
