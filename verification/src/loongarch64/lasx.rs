//! The 256-bit vector operations that the kernels use. All but the memory
//! accesses and the two cross-lane permutations work on each 128-bit half by
//! itself.

use super::lsx::{
    adds_even_bytes, adds_even_products, adds_h, adds_odd_bytes, adds_odd_products,
    adds_products_h, interleaves_low, lsx_vadd_h, lsx_vaddwev_h_bu, lsx_vaddwod_h_bu, lsx_vilvl_b,
    lsx_vld, lsx_vmadd_h, lsx_vmaddwev_h_bu, lsx_vmaddwod_h_bu, lsx_vpickev_b, lsx_vpickod_b,
    lsx_vreplgr2vr_b, lsx_vreplgr2vr_h, lsx_vshuf_b, lsx_vsrari_h, lsx_vssrlni_bu_h, lsx_vst,
    lsx_vstelm_d, narrows_unsigned_h, picks_even, picks_odd, rounds_right_h, shuffles, splats_b,
    splats_h, stores,
};
use super::vector::{V128, V256};
use vstd::prelude::*;

verus! {

/// The two-bit selector for doubleword `i` in the control byte `imm`.
pub open spec fn doubleword_selector(imm: u32, i: int) -> int {
    (imm / (if i == 0 {
        1
    } else if i == 1 {
        4
    } else if i == 2 {
        16
    } else {
        64
    })) as int % 4
}

/// `old` with the 32 bytes of `v` written at `off`.
pub open spec fn stores_256(new: Seq<u8>, old: Seq<u8>, off: int, v: V256) -> bool {
    &&& new.len() == old.len()
    &&& forall|k: int|
        0 <= k < old.len() ==> #[trigger] new[k] as int == (if off <= k < off + 32 {
            v.b(k - off)
        } else {
            old[k] as int
        })
}

// ---------------------------------------------------------------------------
// Memory
// ---------------------------------------------------------------------------

/// Loads the 32 bytes of `src` at `off`.
pub fn lasx_xvld(src: &[u8], off: usize) -> (r: V256)
    requires
        off + 32 <= src@.len(),
    ensures
        forall|i: int| 0 <= i < 32 ==> #[trigger] r.b(i) == src@[off + i],
{
    assert(src@.len() == src.len());
    V256 { lo: lsx_vld(src, off), hi: lsx_vld(src, off + 16) }
}

/// Stores all 32 bytes of `v` at `off`.
pub fn lasx_xvst(v: V256, dst: &mut [u8], off: usize)
    requires
        off + 32 <= old(dst)@.len(),
    ensures
        stores_256(final(dst)@, old(dst)@, off as int, v),
{
    assert(dst@.len() == dst.len());
    lsx_vst(v.lo, dst, off);
    lsx_vst(v.hi, dst, off + 16);
}

/// Stores doubleword `IDX` of `v` at `off`; the element index has a single bit.
pub fn lasx_xvstelm_d<const IDX: usize>(v: V256, dst: &mut [u8], off: usize)
    requires
        IDX < 2,
        off + 8 <= old(dst)@.len(),
    ensures
        stores(final(dst)@, old(dst)@, off as int, v.lo, 8 * IDX, 8),
{
    lsx_vstelm_d::<IDX>(v.lo, dst, off)
}

// ---------------------------------------------------------------------------
// Cross-lane permutations
// ---------------------------------------------------------------------------

/// Reads byte lane `i`.
fn byte(v: &V256, i: usize) -> (r: u8)
    requires
        i < 32,
    ensures
        r as int == v.b(i as int),
{
    if i < 16 {
        v.lo.bytes[i]
    } else {
        v.hi.bytes[i - 16]
    }
}

/// Word `i` of the result is the word of `a` that the low three bits of word `i`
/// of `ctrl` select.
pub fn lasx_xvperm_w(a: V256, ctrl: V256) -> (r: V256)
    ensures
        forall|i: int|
            0 <= i < 32 ==> #[trigger] r.b(i) == a.b(4 * (ctrl.w(i / 4) % 8) + i % 4),
{
    let mut lo = [0u8; 16];
    let mut hi = [0u8; 16];
    for k in 0..16usize
        invariant
            forall|j: int|
                0 <= j < k ==> #[trigger] lo[j] as int == a.b(4 * (ctrl.w(j / 4) % 8) + j % 4),
            forall|j: int|
                0 <= j < k ==> #[trigger] hi[j] as int == a.b(
                    4 * (ctrl.w((j + 16) / 4) % 8) + (j + 16) % 4,
                ),
    {
        let from_lo = 4 * ((ctrl.lo.word(k / 4) % 8) as usize) + k % 4;
        let from_hi = 4 * ((ctrl.hi.word(k / 4) % 8) as usize) + k % 4;
        lo[k] = byte(&a, from_lo);
        hi[k] = byte(&a, from_hi);
    }
    V256 { lo: V128 { bytes: lo }, hi: V128 { bytes: hi } }
}

/// Doubleword `i` of the result is the doubleword of `a` that bits `2 * i` and
/// `2 * i + 1` of `IMM` select.
pub fn lasx_xvpermi_d<const IMM: u32>(a: V256) -> (r: V256)
    requires
        IMM < 256,
    ensures
        forall|i: int|
            0 <= i < 32 ==> #[trigger] r.b(i) == a.b(
                8 * doubleword_selector(IMM, i / 8) + i % 8,
            ),
{
    let s0 = (IMM % 4) as usize;
    let s1 = (IMM / 4 % 4) as usize;
    let s2 = (IMM / 16 % 4) as usize;
    let s3 = (IMM / 64 % 4) as usize;
    let mut lo = [0u8; 16];
    let mut hi = [0u8; 16];
    for k in 0..8usize
        invariant
            s0 < 4,
            s1 < 4,
            s2 < 4,
            s3 < 4,
            forall|j: int| 0 <= j < k ==> #[trigger] lo[j] as int == a.b(8 * s0 + j),
            forall|j: int| 8 <= j < 8 + k ==> #[trigger] lo[j] as int == a.b(8 * s1 + j - 8),
            forall|j: int| 0 <= j < k ==> #[trigger] hi[j] as int == a.b(8 * s2 + j),
            forall|j: int| 8 <= j < 8 + k ==> #[trigger] hi[j] as int == a.b(8 * s3 + j - 8),
    {
        lo[k] = byte(&a, 8 * s0 + k);
        lo[8 + k] = byte(&a, 8 * s1 + k);
        hi[k] = byte(&a, 8 * s2 + k);
        hi[8 + k] = byte(&a, 8 * s3 + k);
    }
    V256 { lo: V128 { bytes: lo }, hi: V128 { bytes: hi } }
}

// ---------------------------------------------------------------------------
// Operations on each half
// ---------------------------------------------------------------------------

/// `xvpickev.b`: [`picks_even`] in each 128-bit half.
pub fn lasx_xvpickev_b(a: V256, b: V256) -> (r: V256)
    ensures
        picks_even(r.lo, a.lo, b.lo),
        picks_even(r.hi, a.hi, b.hi),
{
    V256 { lo: lsx_vpickev_b(a.lo, b.lo), hi: lsx_vpickev_b(a.hi, b.hi) }
}

/// `xvpickod.b`: [`picks_odd`] in each 128-bit half.
pub fn lasx_xvpickod_b(a: V256, b: V256) -> (r: V256)
    ensures
        picks_odd(r.lo, a.lo, b.lo),
        picks_odd(r.hi, a.hi, b.hi),
{
    V256 { lo: lsx_vpickod_b(a.lo, b.lo), hi: lsx_vpickod_b(a.hi, b.hi) }
}

/// `xvilvl.b`: [`interleaves_low`] in each 128-bit half.
pub fn lasx_xvilvl_b(a: V256, b: V256) -> (r: V256)
    ensures
        interleaves_low(r.lo, a.lo, b.lo),
        interleaves_low(r.hi, a.hi, b.hi),
{
    V256 { lo: lsx_vilvl_b(a.lo, b.lo), hi: lsx_vilvl_b(a.hi, b.hi) }
}

/// `xvshuf.b`: [`shuffles`] in each 128-bit half.
pub fn lasx_xvshuf_b(a: V256, b: V256, ctrl: V256) -> (r: V256)
    requires
        forall|i: int| 0 <= i < 16 ==> #[trigger] ctrl.lo.b(i) < 32,
        forall|i: int| 0 <= i < 16 ==> #[trigger] ctrl.hi.b(i) < 32,
    ensures
        shuffles(r.lo, a.lo, b.lo, ctrl.lo),
        shuffles(r.hi, a.hi, b.hi, ctrl.hi),
{
    V256 { lo: lsx_vshuf_b(a.lo, b.lo, ctrl.lo), hi: lsx_vshuf_b(a.hi, b.hi, ctrl.hi) }
}

/// `xvreplgr2vr.b`: [`splats_b`] in each 128-bit half.
pub fn lasx_xvreplgr2vr_b(v: i32) -> (r: V256)
    ensures
        splats_b(r.lo, v as int),
        splats_b(r.hi, v as int),
{
    V256 { lo: lsx_vreplgr2vr_b(v), hi: lsx_vreplgr2vr_b(v) }
}

/// `xvreplgr2vr.h`: [`splats_h`] in each 128-bit half.
pub fn lasx_xvreplgr2vr_h(v: i32) -> (r: V256)
    ensures
        splats_h(r.lo, v as int),
        splats_h(r.hi, v as int),
{
    V256 { lo: lsx_vreplgr2vr_h(v), hi: lsx_vreplgr2vr_h(v) }
}

/// `xvmaddwev.h.bu`: [`adds_even_products`] in each 128-bit half.
pub fn lasx_xvmaddwev_h_bu(acc: V256, a: V256, b: V256) -> (r: V256)
    ensures
        adds_even_products(r.lo, acc.lo, a.lo, b.lo),
        adds_even_products(r.hi, acc.hi, a.hi, b.hi),
{
    V256 {
        lo: lsx_vmaddwev_h_bu(acc.lo, a.lo, b.lo),
        hi: lsx_vmaddwev_h_bu(acc.hi, a.hi, b.hi),
    }
}

/// `xvmaddwod.h.bu`: [`adds_odd_products`] in each 128-bit half.
pub fn lasx_xvmaddwod_h_bu(acc: V256, a: V256, b: V256) -> (r: V256)
    ensures
        adds_odd_products(r.lo, acc.lo, a.lo, b.lo),
        adds_odd_products(r.hi, acc.hi, a.hi, b.hi),
{
    V256 {
        lo: lsx_vmaddwod_h_bu(acc.lo, a.lo, b.lo),
        hi: lsx_vmaddwod_h_bu(acc.hi, a.hi, b.hi),
    }
}

/// `xvmadd.h`: [`adds_products_h`] in each 128-bit half.
pub fn lasx_xvmadd_h(acc: V256, a: V256, b: V256) -> (r: V256)
    ensures
        adds_products_h(r.lo, acc.lo, a.lo, b.lo),
        adds_products_h(r.hi, acc.hi, a.hi, b.hi),
{
    V256 { lo: lsx_vmadd_h(acc.lo, a.lo, b.lo), hi: lsx_vmadd_h(acc.hi, a.hi, b.hi) }
}

/// `xvaddwev.h.bu`: [`adds_even_bytes`] in each 128-bit half.
pub fn lasx_xvaddwev_h_bu(a: V256, b: V256) -> (r: V256)
    ensures
        adds_even_bytes(r.lo, a.lo, b.lo),
        adds_even_bytes(r.hi, a.hi, b.hi),
{
    V256 { lo: lsx_vaddwev_h_bu(a.lo, b.lo), hi: lsx_vaddwev_h_bu(a.hi, b.hi) }
}

/// `xvaddwod.h.bu`: [`adds_odd_bytes`] in each 128-bit half.
pub fn lasx_xvaddwod_h_bu(a: V256, b: V256) -> (r: V256)
    ensures
        adds_odd_bytes(r.lo, a.lo, b.lo),
        adds_odd_bytes(r.hi, a.hi, b.hi),
{
    V256 { lo: lsx_vaddwod_h_bu(a.lo, b.lo), hi: lsx_vaddwod_h_bu(a.hi, b.hi) }
}

/// `xvadd.h`: [`adds_h`] in each 128-bit half.
pub fn lasx_xvadd_h(a: V256, b: V256) -> (r: V256)
    ensures
        adds_h(r.lo, a.lo, b.lo),
        adds_h(r.hi, a.hi, b.hi),
{
    V256 { lo: lsx_vadd_h(a.lo, b.lo), hi: lsx_vadd_h(a.hi, b.hi) }
}

/// `xvsrari.h`: [`rounds_right_h`] in each 128-bit half.
pub fn lasx_xvsrari_h<const IMM: u32>(a: V256) -> (r: V256)
    requires
        IMM < 16,
    ensures
        rounds_right_h(r.lo, a.lo, IMM as nat),
        rounds_right_h(r.hi, a.hi, IMM as nat),
{
    V256 { lo: lsx_vsrari_h::<IMM>(a.lo), hi: lsx_vsrari_h::<IMM>(a.hi) }
}

/// `xvssrlni.bu.h`: [`narrows_unsigned_h`] in each 128-bit half.
pub fn lasx_xvssrlni_bu_h<const IMM: u32>(a: V256, b: V256) -> (r: V256)
    requires
        IMM < 16,
    ensures
        narrows_unsigned_h(r.lo, a.lo, b.lo, IMM as nat),
        narrows_unsigned_h(r.hi, a.hi, b.hi, IMM as nat),
{
    V256 { lo: lsx_vssrlni_bu_h::<IMM>(a.lo, b.lo), hi: lsx_vssrlni_bu_h::<IMM>(a.hi, b.hi) }
}

} // verus!
