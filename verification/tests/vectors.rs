//! Vector operations on chosen lanes.

use yuv::loongarch64::lasx::{
    lasx_xvadd_h, lasx_xvaddwev_h_bu, lasx_xvaddwod_h_bu, lasx_xvilvl_b, lasx_xvld, lasx_xvmadd_h,
    lasx_xvmaddwev_h_bu, lasx_xvmaddwod_h_bu, lasx_xvperm_w, lasx_xvpermi_d, lasx_xvpickev_b,
    lasx_xvpickod_b, lasx_xvreplgr2vr_b, lasx_xvreplgr2vr_h, lasx_xvshuf_b, lasx_xvsrari_h,
    lasx_xvssrlni_bu_h, lasx_xvst, lasx_xvstelm_d,
};
use yuv::loongarch64::lsx::{
    lsx_vadd_h, lsx_vexth_hu_bu, lsx_vexth_w_h, lsx_vexth_wu_hu, lsx_vhaddw_hu_bu, lsx_vilvl_b,
    lsx_vld, lsx_vmadd_h, lsx_vmadd_w, lsx_vmaddwev_h_bu, lsx_vmaddwod_h_bu, lsx_vpickev_b,
    lsx_vpickod_b, lsx_vreplgr2vr_b, lsx_vreplgr2vr_h, lsx_vreplgr2vr_w, lsx_vshuf_b,
    lsx_vsllwil_hu_bu, lsx_vsllwil_w_h, lsx_vsllwil_wu_hu, lsx_vsrai_h, lsx_vssrani_bu_h,
    lsx_vssrani_h_w, lsx_vssrlni_bu_h, lsx_vst, lsx_vstelm_d,
};
use yuv::loongarch64::utils::{lsx_downsample_channel, lsx_load_deinterleave16};
use yuv::loongarch64::vector::{V128, V256};
use yuv::yuv_support::YuvSourceChannels;

fn ramp(start: u8) -> V128 {
    let mut bytes = [0u8; 16];
    for (i, b) in bytes.iter_mut().enumerate() {
        *b = start + i as u8;
    }
    V128 { bytes }
}

fn halves(v: V128) -> Vec<u16> {
    (0..8).map(|i| v.half(i)).collect()
}

fn words(v: V128) -> Vec<u32> {
    (0..4).map(|i| v.word(i)).collect()
}

fn wide(lo: V128, hi: V128) -> V256 {
    V256 { lo, hi }
}

#[test]
fn lanes_are_little_endian() {
    let v = ramp(1);
    assert_eq!(v.half(0), 0x0201);
    assert_eq!(v.word(3), 0x100f_0e0d);
    assert_eq!(V128::from_halves([1, 2, 3, 4, 5, 6, 7, 0x0102]).bytes[14..], [2, 1]);
    assert_eq!(V128::from_words([0x0403_0201, 0, 0, 0]).bytes[..4], [1, 2, 3, 4]);
}

#[test]
fn loads_and_stores() {
    let src: Vec<u8> = (0..20).collect();
    assert_eq!(lsx_vld(&src, 3).bytes, ramp(3).bytes);
    let mut dst = vec![0u8; 20];
    lsx_vst(ramp(1), &mut dst, 2);
    assert_eq!(dst[..4], [0, 0, 1, 2]);
    assert_eq!(dst[16..], [15, 16, 0, 0]);
    let mut dst = vec![9u8; 10];
    lsx_vstelm_d::<1>(ramp(0), &mut dst, 1);
    assert_eq!(dst, [9, 8, 9, 10, 11, 12, 13, 14, 15, 9]);
}

#[test]
fn picks_interleaves_and_shuffles() {
    let (a, b) = (ramp(100), ramp(0));
    assert_eq!(
        lsx_vpickev_b(a, b).bytes,
        [0, 2, 4, 6, 8, 10, 12, 14, 100, 102, 104, 106, 108, 110, 112, 114]
    );
    assert_eq!(
        lsx_vpickod_b(a, b).bytes,
        [1, 3, 5, 7, 9, 11, 13, 15, 101, 103, 105, 107, 109, 111, 113, 115]
    );
    assert_eq!(
        lsx_vilvl_b(a, b).bytes,
        [0, 100, 1, 101, 2, 102, 3, 103, 4, 104, 5, 105, 6, 106, 7, 107]
    );
    let mut ctrl = [0u8; 16];
    ctrl[1] = 15;
    ctrl[2] = 16;
    ctrl[3] = 31;
    assert_eq!(lsx_vshuf_b(a, b, V128 { bytes: ctrl }).bytes[..4], [0, 15, 100, 115]);
}

#[test]
fn splats_keep_the_low_bits() {
    assert_eq!(lsx_vreplgr2vr_b(0x1234).bytes, [0x34; 16]);
    assert_eq!(halves(lsx_vreplgr2vr_h(-2)), vec![0xfffe; 8]);
    assert_eq!(halves(lsx_vreplgr2vr_h(32768)), vec![0x8000; 8]);
    assert_eq!(words(lsx_vreplgr2vr_w(-3)), vec![0xffff_fffd; 4]);
}

#[test]
fn halfword_arithmetic_wraps() {
    let acc = lsx_vreplgr2vr_h(-1);
    let (a, b) = (lsx_vreplgr2vr_b(255), lsx_vreplgr2vr_b(255));
    assert_eq!(halves(lsx_vmaddwev_h_bu(acc, a, b)), vec![65024; 8]);
    assert_eq!(halves(lsx_vmaddwev_h_bu(lsx_vreplgr2vr_h(10), ramp(0), lsx_vreplgr2vr_b(3)))[2], 22);
    assert_eq!(halves(lsx_vmaddwod_h_bu(lsx_vreplgr2vr_h(10), ramp(0), lsx_vreplgr2vr_b(3)))[2], 25);
    assert_eq!(halves(lsx_vhaddw_hu_bu(ramp(0), ramp(100)))[1], 3 + 102);
    assert_eq!(halves(lsx_vadd_h(acc, lsx_vreplgr2vr_h(3))), vec![2; 8]);
    assert_eq!(
        halves(lsx_vmadd_h(lsx_vreplgr2vr_h(-32768), lsx_vreplgr2vr_h(200), lsx_vreplgr2vr_h(-38))),
        vec![25168; 8]
    );
}

#[test]
fn shifts_round_and_saturate() {
    assert_eq!(halves(lsx_vsrai_h::<2>(lsx_vreplgr2vr_h(-5))), vec![0xfffe; 8]);
    let high = lsx_vssrlni_bu_h::<8>(lsx_vreplgr2vr_h(-1), lsx_vreplgr2vr_h(0x1234));
    assert_eq!(high.bytes[..8], [0x12; 8]);
    assert_eq!(high.bytes[8..], [255; 8]);
    assert_eq!(lsx_vssrlni_bu_h::<4>(high, lsx_vreplgr2vr_h(0x7fff)).bytes[0], 255);
    let packed = lsx_vssrani_bu_h::<0>(lsx_vreplgr2vr_h(-7), lsx_vreplgr2vr_h(300));
    assert_eq!(packed.bytes[..8], [255; 8]);
    assert_eq!(packed.bytes[8..], [0; 8]);
    let narrow = lsx_vssrani_h_w::<13>(lsx_vreplgr2vr_w(i32::MIN), lsx_vreplgr2vr_w(8191 + 8192));
    assert_eq!(halves(narrow), vec![1, 1, 1, 1, 0x8000, 0x8000, 0x8000, 0x8000]);
}

#[test]
fn widening() {
    assert_eq!(halves(lsx_vsllwil_hu_bu::<1>(ramp(200)))[..2], [400, 402]);
    assert_eq!(halves(lsx_vexth_hu_bu(ramp(200)))[..2], [208, 209]);
    let h = V128::from_halves([65535, 1, 2, 3, 65534, 5, 6, 7]);
    assert_eq!(words(lsx_vsllwil_wu_hu::<0>(h)), vec![65535, 1, 2, 3]);
    assert_eq!(words(lsx_vexth_wu_hu(h)), vec![65534, 5, 6, 7]);
    assert_eq!(words(lsx_vsllwil_w_h::<0>(h)), vec![0xffff_ffff, 1, 2, 3]);
    assert_eq!(words(lsx_vexth_w_h(h)), vec![0xffff_fffe, 5, 6, 7]);
    let acc = lsx_vmadd_w(lsx_vreplgr2vr_w(5), lsx_vreplgr2vr_w(3), lsx_vreplgr2vr_w(-2));
    assert_eq!(words(acc), vec![0xffff_ffff; 4]);
}

#[test]
fn wide_operations_work_per_half() {
    let src: Vec<u8> = (0..40).collect();
    let a = lasx_xvld(&src, 1);
    assert_eq!(a.lo.bytes, ramp(1).bytes);
    assert_eq!(a.hi.bytes, ramp(17).bytes);
    let mut dst = vec![0u8; 40];
    lasx_xvst(a, &mut dst, 4);
    assert_eq!(dst[4..36], src[1..33]);
    assert_eq!(dst[36..], [0; 4]);
    let mut dst = vec![0u8; 8];
    lasx_xvstelm_d::<1>(a, &mut dst, 0);
    assert_eq!(dst, [9, 10, 11, 12, 13, 14, 15, 16]);

    let b = wide(ramp(100), ramp(150));
    assert_eq!(lasx_xvpickev_b(a, b).hi.bytes[..8], [150, 152, 154, 156, 158, 160, 162, 164]);
    assert_eq!(lasx_xvpickod_b(a, b).lo.bytes[8..], [2, 4, 6, 8, 10, 12, 14, 16]);
    assert_eq!(lasx_xvilvl_b(a, b).hi.bytes[..4], [150, 17, 151, 18]);
    let zero = wide(V128 { bytes: [0; 16] }, V128 { bytes: [16; 16] });
    let s = lasx_xvshuf_b(a, b, zero);
    assert_eq!(s.lo.bytes, [100; 16]);
    assert_eq!(s.hi.bytes, [17; 16]);
}

#[test]
fn wide_permutations() {
    let a = wide(ramp(0), ramp(16));
    let ctrl = wide(V128::from_words([7, 0, 8, 1]), V128::from_words([4, 4, 3, 15]));
    let p = lasx_xvperm_w(a, ctrl);
    assert_eq!(p.lo.bytes, [28, 29, 30, 31, 0, 1, 2, 3, 0, 1, 2, 3, 4, 5, 6, 7]);
    assert_eq!(p.hi.bytes, [16, 17, 18, 19, 16, 17, 18, 19, 12, 13, 14, 15, 28, 29, 30, 31]);
    let d = lasx_xvpermi_d::<0xD8>(a);
    assert_eq!(d.lo.bytes[8..], [16, 17, 18, 19, 20, 21, 22, 23]);
    assert_eq!(d.hi.bytes[..8], [8, 9, 10, 11, 12, 13, 14, 15]);
}

#[test]
fn wide_arithmetic() {
    let a = wide(ramp(0), ramp(16));
    let b = lasx_xvreplgr2vr_b(2);
    let acc = lasx_xvreplgr2vr_h(1);
    assert_eq!(lasx_xvmaddwev_h_bu(acc, a, b).hi.half(0), 33);
    assert_eq!(lasx_xvmaddwod_h_bu(acc, a, b).hi.half(0), 35);
    assert_eq!(lasx_xvmadd_h(acc, lasx_xvreplgr2vr_h(5), lasx_xvreplgr2vr_h(-1)).lo.half(7), 0xfffc);
    assert_eq!(lasx_xvaddwev_h_bu(a, b).hi.half(1), 20);
    assert_eq!(lasx_xvaddwod_h_bu(a, b).hi.half(1), 21);
    assert_eq!(lasx_xvadd_h(acc, acc).lo.half(3), 2);
    assert_eq!(lasx_xvsrari_h::<2>(lasx_xvreplgr2vr_h(6)).hi.half(0), 2);
    assert_eq!(lasx_xvsrari_h::<2>(lasx_xvreplgr2vr_h(5)).hi.half(0), 1);
    let n = lasx_xvssrlni_bu_h::<8>(lasx_xvreplgr2vr_h(0x0700), lasx_xvreplgr2vr_h(0x0300));
    assert_eq!(n.hi.bytes[7..9], [3, 7]);
}

#[test]
fn deinterleave_and_box() {
    let src: Vec<u8> = (0..64).collect();
    let (r, g, b) = lsx_load_deinterleave16::<{ YuvSourceChannels::Bgra as u8 }>(&src, 0);
    assert_eq!((r.bytes[3], g.bytes[3], b.bytes[3]), (14, 13, 12));
    let (r, g, b) = lsx_load_deinterleave16::<{ YuvSourceChannels::Rgb as u8 }>(&src, 10);
    assert_eq!((r.bytes[5], g.bytes[5], b.bytes[5]), (25, 26, 27));
    let avg = lsx_downsample_channel(ramp(0), ramp(9), lsx_vreplgr2vr_h(2));
    assert_eq!(halves(avg)[..3], [5, 7, 9]);
}
