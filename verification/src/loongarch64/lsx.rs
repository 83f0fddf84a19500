//! The 128-bit vector operations that the kernels use, one function per
//! instruction, each specified lane by lane.

use super::arith::{
    lemma_i32_casts, lemma_i32_one_shl, lemma_i32_shr_is_div, lemma_u32_as_i32, sat_i16, sat_u8,
    signed16, signed32, wrap16, wrap32,
};
use super::vector::V128;
use vstd::arithmetic::div_mod::*;
use vstd::arithmetic::power2::*;
use vstd::bits::*;
use vstd::prelude::*;

verus! {

// ---------------------------------------------------------------------------
// What each operation leaves in its result
// ---------------------------------------------------------------------------

/// The even bytes of `b`, then the even bytes of `a`.
pub open spec fn picks_even(r: V128, a: V128, b: V128) -> bool {
    forall|i: int|
        0 <= i < 16 ==> #[trigger] r.b(i) == (if i < 8 {
            b.b(2 * i)
        } else {
            a.b(2 * i - 16)
        })
}

/// The odd bytes of `b`, then the odd bytes of `a`.
pub open spec fn picks_odd(r: V128, a: V128, b: V128) -> bool {
    forall|i: int|
        0 <= i < 16 ==> #[trigger] r.b(i) == (if i < 8 {
            b.b(2 * i + 1)
        } else {
            a.b(2 * i - 15)
        })
}

/// The low eight bytes of `b` and `a`, alternating, `b` first.
pub open spec fn interleaves_low(r: V128, a: V128, b: V128) -> bool {
    forall|i: int|
        0 <= i < 16 ==> #[trigger] r.b(i) == (if i % 2 == 0 {
            b.b(i / 2)
        } else {
            a.b(i / 2)
        })
}

/// Each byte of `r` is the one that `ctrl` selects out of `b` (0 to 15) and `a`
/// (16 to 31).
pub open spec fn shuffles(r: V128, a: V128, b: V128, ctrl: V128) -> bool {
    forall|i: int|
        0 <= i < 16 ==> #[trigger] r.b(i) == (if ctrl.b(i) < 16 {
            b.b(ctrl.b(i))
        } else {
            a.b(ctrl.b(i) - 16)
        })
}

/// Every byte lane holds the low eight bits of `v`.
pub open spec fn splats_b(r: V128, v: int) -> bool {
    forall|i: int| 0 <= i < 16 ==> #[trigger] r.b(i) == v % 0x100
}

/// Every halfword lane holds the low sixteen bits of `v`.
pub open spec fn splats_h(r: V128, v: int) -> bool {
    forall|i: int| 0 <= i < 8 ==> #[trigger] r.h(i) == wrap16(v)
}

/// Every word lane holds `v`.
pub open spec fn splats_w(r: V128, v: int) -> bool {
    forall|i: int| 0 <= i < 4 ==> #[trigger] r.w(i) == wrap32(v)
}

/// `acc` plus the products of the even bytes, in halfword lanes.
pub open spec fn adds_even_products(r: V128, acc: V128, a: V128, b: V128) -> bool {
    forall|i: int|
        0 <= i < 8 ==> #[trigger] r.h(i) == wrap16(acc.h(i) + a.b(2 * i) * b.b(2 * i))
}

/// `acc` plus the products of the odd bytes, in halfword lanes.
pub open spec fn adds_odd_products(r: V128, acc: V128, a: V128, b: V128) -> bool {
    forall|i: int|
        0 <= i < 8 ==> #[trigger] r.h(i) == wrap16(acc.h(i) + a.b(2 * i + 1) * b.b(2 * i + 1))
}

/// `acc + a * b` in halfword lanes.
pub open spec fn adds_products_h(r: V128, acc: V128, a: V128, b: V128) -> bool {
    forall|i: int| 0 <= i < 8 ==> #[trigger] r.h(i) == wrap16(acc.h(i) + a.h(i) * b.h(i))
}

/// `acc + a * b` in word lanes.
pub open spec fn adds_products_w(r: V128, acc: V128, a: V128, b: V128) -> bool {
    forall|i: int| 0 <= i < 4 ==> #[trigger] r.w(i) == wrap32(acc.w(i) + a.w(i) * b.w(i))
}

/// Sums of the even bytes of `a` and `b`, widened to halfword lanes.
pub open spec fn adds_even_bytes(r: V128, a: V128, b: V128) -> bool {
    forall|i: int| 0 <= i < 8 ==> #[trigger] r.h(i) == a.b(2 * i) + b.b(2 * i)
}

/// Sums of the odd bytes of `a` and `b`, widened to halfword lanes.
pub open spec fn adds_odd_bytes(r: V128, a: V128, b: V128) -> bool {
    forall|i: int| 0 <= i < 8 ==> #[trigger] r.h(i) == a.b(2 * i + 1) + b.b(2 * i + 1)
}

/// Sums of the odd bytes of `a` and the even bytes of `b`, widened to halfword
/// lanes.
pub open spec fn adds_byte_pairs(r: V128, a: V128, b: V128) -> bool {
    forall|i: int| 0 <= i < 8 ==> #[trigger] r.h(i) == a.b(2 * i + 1) + b.b(2 * i)
}

/// `a + b` in halfword lanes.
pub open spec fn adds_h(r: V128, a: V128, b: V128) -> bool {
    forall|i: int| 0 <= i < 8 ==> #[trigger] r.h(i) == wrap16(a.h(i) + b.h(i))
}

/// Signed halfwords shifted right by `n`, rounding down.
pub open spec fn shifts_right_h(r: V128, a: V128, n: nat) -> bool {
    forall|i: int|
        0 <= i < 8 ==> #[trigger] r.h(i) == wrap16(signed16(a.h(i)) / (pow2(n) as int))
}

/// Signed halfwords shifted right by `n`, rounding half up.
pub open spec fn rounds_right_h(r: V128, a: V128, n: nat) -> bool {
    forall|i: int|
        0 <= i < 8 ==> #[trigger] r.h(i) == wrap16(
            if n == 0 {
                signed16(a.h(i))
            } else {
                (signed16(a.h(i)) + pow2((n - 1) as nat)) / (pow2(n) as int)
            },
        )
}

/// Unsigned halfwords shifted right by `n` and saturated to bytes, those of `b`
/// and then those of `a`.
pub open spec fn narrows_unsigned_h(r: V128, a: V128, b: V128, n: nat) -> bool {
    forall|i: int|
        0 <= i < 16 ==> #[trigger] r.b(i) == sat_u8(
            (if i < 8 {
                b.h(i)
            } else {
                a.h(i - 8)
            }) / (pow2(n) as int),
        )
}

/// Signed halfwords shifted right by `n` and saturated to unsigned bytes, those
/// of `b` and then those of `a`.
pub open spec fn narrows_signed_h(r: V128, a: V128, b: V128, n: nat) -> bool {
    forall|i: int|
        0 <= i < 16 ==> #[trigger] r.b(i) == sat_u8(
            signed16(
                if i < 8 {
                    b.h(i)
                } else {
                    a.h(i - 8)
                },
            ) / (pow2(n) as int),
        )
}

/// Signed words shifted right by `n` and saturated to signed halfwords, those of
/// `b` and then those of `a`.
pub open spec fn narrows_signed_w(r: V128, a: V128, b: V128, n: nat) -> bool {
    forall|i: int|
        0 <= i < 8 ==> #[trigger] r.h(i) == wrap16(
            sat_i16(
                signed32(
                    if i < 4 {
                        b.w(i)
                    } else {
                        a.w(i - 4)
                    },
                ) / (pow2(n) as int),
            ),
        )
}

/// `old` with `len` bytes of `v`, from byte `from` on, written at `off`.
pub open spec fn stores(
    new: Seq<u8>,
    old: Seq<u8>,
    off: int,
    v: V128,
    from: int,
    len: int,
) -> bool {
    &&& new.len() == old.len()
    &&& forall|k: int|
        0 <= k < old.len() ==> #[trigger] new[k] == (if off <= k < off + len {
            v.bytes[from + k - off]
        } else {
            old[k]
        })
}

// ---------------------------------------------------------------------------
// Memory
// ---------------------------------------------------------------------------

/// Loads the sixteen bytes of `src` at `off`.
pub fn lsx_vld(src: &[u8], off: usize) -> (r: V128)
    requires
        off + 16 <= src@.len(),
    ensures
        forall|i: int| 0 <= i < 16 ==> #[trigger] r.bytes[i] == src@[off + i],
{
    assert(src@.len() == src.len());
    let mut bytes = [0u8; 16];
    for k in 0..16usize
        invariant
            off + 16 <= src.len(),
            forall|j: int| 0 <= j < k ==> #[trigger] bytes[j] == src@[off + j],
    {
        bytes[k] = src[off + k];
    }
    V128 { bytes }
}

/// Stores all sixteen bytes of `v` at `off`.
pub fn lsx_vst(v: V128, dst: &mut [u8], off: usize)
    requires
        off + 16 <= old(dst)@.len(),
    ensures
        stores(final(dst)@, old(dst)@, off as int, v, 0, 16),
{
    let n = dst.len();
    for k in 0..16usize
        invariant
            off + 16 <= n,
            n == old(dst)@.len(),
            stores(dst@, old(dst)@, off as int, v, 0, k as int),
    {
        dst[off + k] = v.bytes[k];
    }
}

/// Stores doubleword `IDX` of `v` at `off`.
pub fn lsx_vstelm_d<const IDX: usize>(v: V128, dst: &mut [u8], off: usize)
    requires
        IDX < 2,
        off + 8 <= old(dst)@.len(),
    ensures
        stores(final(dst)@, old(dst)@, off as int, v, 8 * IDX, 8),
{
    let n = dst.len();
    for k in 0..8usize
        invariant
            IDX < 2,
            off + 8 <= n,
            n == old(dst)@.len(),
            stores(dst@, old(dst)@, off as int, v, 8 * IDX, k as int),
    {
        dst[off + k] = v.bytes[8 * IDX + k];
    }
}

// ---------------------------------------------------------------------------
// Byte permutations and broadcasts
// ---------------------------------------------------------------------------

/// `vpickev.b`: [`picks_even`].
pub fn lsx_vpickev_b(a: V128, b: V128) -> (r: V128)
    ensures
        picks_even(r, a, b),
{
    let mut bytes = [0u8; 16];
    for k in 0..8usize
        invariant
            forall|j: int| 0 <= j < k ==> #[trigger] bytes[j] == b.bytes[2 * j],
            forall|j: int| 8 <= j < 8 + k ==> #[trigger] bytes[j] == a.bytes[2 * j - 16],
    {
        bytes[k] = b.bytes[2 * k];
        bytes[8 + k] = a.bytes[2 * k];
    }
    V128 { bytes }
}

/// `vpickod.b`: [`picks_odd`].
pub fn lsx_vpickod_b(a: V128, b: V128) -> (r: V128)
    ensures
        picks_odd(r, a, b),
{
    let mut bytes = [0u8; 16];
    for k in 0..8usize
        invariant
            forall|j: int| 0 <= j < k ==> #[trigger] bytes[j] == b.bytes[2 * j + 1],
            forall|j: int| 8 <= j < 8 + k ==> #[trigger] bytes[j] == a.bytes[2 * j - 15],
    {
        bytes[k] = b.bytes[2 * k + 1];
        bytes[8 + k] = a.bytes[2 * k + 1];
    }
    V128 { bytes }
}

/// `vilvl.b`: [`interleaves_low`].
pub fn lsx_vilvl_b(a: V128, b: V128) -> (r: V128)
    ensures
        interleaves_low(r, a, b),
{
    let mut bytes = [0u8; 16];
    for k in 0..8usize
        invariant
            forall|j: int|
                0 <= j < 2 * k ==> #[trigger] bytes[j] == (if j % 2 == 0 {
                    b.bytes[j / 2]
                } else {
                    a.bytes[j / 2]
                }),
    {
        bytes[2 * k] = b.bytes[k];
        bytes[2 * k + 1] = a.bytes[k];
    }
    V128 { bytes }
}

/// `vshuf.b`: [`shuffles`].
pub fn lsx_vshuf_b(a: V128, b: V128, ctrl: V128) -> (r: V128)
    requires
        forall|i: int| 0 <= i < 16 ==> #[trigger] ctrl.b(i) < 32,
    ensures
        shuffles(r, a, b, ctrl),
{
    let mut bytes = [0u8; 16];
    for k in 0..16usize
        invariant
            forall|i: int| 0 <= i < 16 ==> #[trigger] ctrl.b(i) < 32,
            forall|j: int|
                0 <= j < k ==> #[trigger] bytes[j] as int == (if ctrl.b(j) < 16 {
                    b.b(ctrl.b(j))
                } else {
                    a.b(ctrl.b(j) - 16)
                }),
    {
        assert(ctrl.b(k as int) < 32);
        let c = ctrl.bytes[k] as usize;
        bytes[k] = if c < 16 { b.bytes[c] } else { a.bytes[c - 16] };
    }
    V128 { bytes }
}

/// `vreplgr2vr.b`: [`splats_b`].
pub fn lsx_vreplgr2vr_b(v: i32) -> (r: V128)
    ensures
        splats_b(r, v as int),
{
    proof {
        lemma_i32_casts(v);
    }
    V128 { bytes: [v as u8; 16] }
}

/// `vreplgr2vr.h`: [`splats_h`].
pub fn lsx_vreplgr2vr_h(v: i32) -> (r: V128)
    ensures
        splats_h(r, v as int),
{
    proof {
        lemma_i32_casts(v);
    }
    V128::from_halves([v as u16; 8])
}

/// `vreplgr2vr.w`: [`splats_w`].
pub fn lsx_vreplgr2vr_w(v: i32) -> (r: V128)
    ensures
        splats_w(r, v as int),
{
    proof {
        lemma_i32_casts(v);
    }
    V128::from_words([v as u32; 4])
}

// ---------------------------------------------------------------------------
// Halfword arithmetic
// ---------------------------------------------------------------------------

/// `vmaddwev.h.bu`: [`adds_even_products`].
pub fn lsx_vmaddwev_h_bu(acc: V128, a: V128, b: V128) -> (r: V128)
    ensures
        adds_even_products(r, acc, a, b),
{
    let mut lanes = [0u16; 8];
    for k in 0..8usize
        invariant
            forall|j: int|
                0 <= j < k ==> #[trigger] lanes[j] as int == wrap16(
                    acc.h(j) + a.b(2 * j) * b.b(2 * j),
                ),
    {
        let product = (a.bytes[2 * k] as u16).wrapping_mul(b.bytes[2 * k] as u16);
        lanes[k] = acc.half(k).wrapping_add(product);
    }
    V128::from_halves(lanes)
}

/// `vmaddwod.h.bu`: [`adds_odd_products`].
pub fn lsx_vmaddwod_h_bu(acc: V128, a: V128, b: V128) -> (r: V128)
    ensures
        adds_odd_products(r, acc, a, b),
{
    let mut lanes = [0u16; 8];
    for k in 0..8usize
        invariant
            forall|j: int|
                0 <= j < k ==> #[trigger] lanes[j] as int == wrap16(
                    acc.h(j) + a.b(2 * j + 1) * b.b(2 * j + 1),
                ),
    {
        let product = (a.bytes[2 * k + 1] as u16).wrapping_mul(b.bytes[2 * k + 1] as u16);
        lanes[k] = acc.half(k).wrapping_add(product);
    }
    V128::from_halves(lanes)
}

/// `vmadd.h`: [`adds_products_h`].
pub fn lsx_vmadd_h(acc: V128, a: V128, b: V128) -> (r: V128)
    ensures
        adds_products_h(r, acc, a, b),
{
    let mut lanes = [0u16; 8];
    for k in 0..8usize
        invariant
            forall|j: int|
                0 <= j < k ==> #[trigger] lanes[j] as int == wrap16(acc.h(j) + a.h(j) * b.h(j)),
    {
        let product = a.half(k).wrapping_mul(b.half(k));
        lanes[k] = acc.half(k).wrapping_add(product);
    }
    V128::from_halves(lanes)
}

/// `vaddwev.h.bu`: [`adds_even_bytes`].
pub fn lsx_vaddwev_h_bu(a: V128, b: V128) -> (r: V128)
    ensures
        adds_even_bytes(r, a, b),
{
    let mut lanes = [0u16; 8];
    for k in 0..8usize
        invariant
            forall|j: int| 0 <= j < k ==> #[trigger] lanes[j] as int == a.b(2 * j) + b.b(2 * j),
    {
        lanes[k] = a.bytes[2 * k] as u16 + b.bytes[2 * k] as u16;
    }
    V128::from_halves(lanes)
}

/// `vaddwod.h.bu`: [`adds_odd_bytes`].
pub fn lsx_vaddwod_h_bu(a: V128, b: V128) -> (r: V128)
    ensures
        adds_odd_bytes(r, a, b),
{
    let mut lanes = [0u16; 8];
    for k in 0..8usize
        invariant
            forall|j: int|
                0 <= j < k ==> #[trigger] lanes[j] as int == a.b(2 * j + 1) + b.b(2 * j + 1),
    {
        lanes[k] = a.bytes[2 * k + 1] as u16 + b.bytes[2 * k + 1] as u16;
    }
    V128::from_halves(lanes)
}

/// `vhaddw.hu.bu`: [`adds_byte_pairs`].
pub fn lsx_vhaddw_hu_bu(a: V128, b: V128) -> (r: V128)
    ensures
        adds_byte_pairs(r, a, b),
{
    let mut lanes = [0u16; 8];
    for k in 0..8usize
        invariant
            forall|j: int| 0 <= j < k ==> #[trigger] lanes[j] as int == a.b(2 * j + 1) + b.b(2 * j),
    {
        lanes[k] = a.bytes[2 * k + 1] as u16 + b.bytes[2 * k] as u16;
    }
    V128::from_halves(lanes)
}

/// `vadd.h`: [`adds_h`].
pub fn lsx_vadd_h(a: V128, b: V128) -> (r: V128)
    ensures
        adds_h(r, a, b),
{
    let mut lanes = [0u16; 8];
    for k in 0..8usize
        invariant
            forall|j: int| 0 <= j < k ==> #[trigger] lanes[j] as int == wrap16(a.h(j) + b.h(j)),
    {
        lanes[k] = a.half(k).wrapping_add(b.half(k));
    }
    V128::from_halves(lanes)
}

/// The two's complement reading of a halfword.
fn sign_half(x: u16) -> (r: i32)
    ensures
        r == signed16(x as int),
{
    if x >= 0x8000 {
        x as i32 - 0x1_0000
    } else {
        x as i32
    }
}

/// `x` shifted right by `n`, rounding down.
fn shift_right(x: i32, n: u32) -> (r: i32)
    requires
        n < 32,
    ensures
        r == x as int / (pow2(n as nat) as int),
{
    proof {
        lemma_i32_shr_is_div(x, n);
    }
    x >> n
}

/// `x` saturated to an unsigned byte.
fn saturate_u8(x: i32) -> (r: u8)
    ensures
        r as int == sat_u8(x as int),
{
    if x < 0 {
        0
    } else if x > 255 {
        255
    } else {
        x as u8
    }
}

/// `vsrai.h`: [`shifts_right_h`].
pub fn lsx_vsrai_h<const IMM: u32>(a: V128) -> (r: V128)
    requires
        IMM < 16,
    ensures
        shifts_right_h(r, a, IMM as nat),
{
    let mut lanes = [0u16; 8];
    for k in 0..8usize
        invariant
            IMM < 16,
            forall|j: int|
                0 <= j < k ==> #[trigger] lanes[j] as int == wrap16(
                    signed16(a.h(j)) / (pow2(IMM as nat) as int),
                ),
    {
        let x = shift_right(sign_half(a.half(k)), IMM);
        proof {
            lemma_i32_casts(x);
        }
        lanes[k] = x as u16;
    }
    V128::from_halves(lanes)
}

/// `vsrari.h`: [`rounds_right_h`].
pub fn lsx_vsrari_h<const IMM: u32>(a: V128) -> (r: V128)
    requires
        IMM < 16,
    ensures
        rounds_right_h(r, a, IMM as nat),
{
    let round: i32 = if IMM == 0 { 0 } else { 1 << (IMM - 1) };
    proof {
        if IMM > 0 {
            lemma_i32_one_shl((IMM - 1) as u32);
            if IMM - 1 < 15 {
                lemma_pow2_strictly_increases((IMM - 1) as nat, 15);
            }
            lemma2_to64();
        }
    }
    let mut lanes = [0u16; 8];
    for k in 0..8usize
        invariant
            IMM < 16,
            0 <= round <= 0x8000,
            IMM == 0 ==> round == 0,
            IMM > 0 ==> round == pow2((IMM - 1) as nat),
            forall|j: int|
                0 <= j < k ==> #[trigger] lanes[j] as int == wrap16(
                    if IMM == 0 {
                        signed16(a.h(j))
                    } else {
                        (signed16(a.h(j)) + pow2((IMM - 1) as nat)) / (pow2(IMM as nat) as int)
                    },
                ),
    {
        let x = shift_right(sign_half(a.half(k)) + round, IMM);
        proof {
            lemma2_to64();
            lemma_div_basics(signed16(a.h(k as int)));
            lemma_i32_casts(x);
        }
        lanes[k] = x as u16;
    }
    V128::from_halves(lanes)
}

/// `vssrlni.bu.h`: [`narrows_unsigned_h`].
pub fn lsx_vssrlni_bu_h<const IMM: u32>(a: V128, b: V128) -> (r: V128)
    requires
        IMM < 16,
    ensures
        narrows_unsigned_h(r, a, b, IMM as nat),
{
    let mut bytes = [0u8; 16];
    for k in 0..8usize
        invariant
            IMM < 16,
            forall|j: int|
                0 <= j < k ==> #[trigger] bytes[j] as int == sat_u8(
                    b.h(j) / (pow2(IMM as nat) as int),
                ),
            forall|j: int|
                8 <= j < 8 + k ==> #[trigger] bytes[j] as int == sat_u8(
                    a.h(j - 8) / (pow2(IMM as nat) as int),
                ),
    {
        bytes[k] = saturate_u8(shift_right(b.half(k) as i32, IMM));
        bytes[8 + k] = saturate_u8(shift_right(a.half(k) as i32, IMM));
    }
    V128 { bytes }
}

/// `vssrani.bu.h`: [`narrows_signed_h`].
pub fn lsx_vssrani_bu_h<const IMM: u32>(a: V128, b: V128) -> (r: V128)
    requires
        IMM < 16,
    ensures
        narrows_signed_h(r, a, b, IMM as nat),
{
    let mut bytes = [0u8; 16];
    for k in 0..8usize
        invariant
            IMM < 16,
            forall|j: int|
                0 <= j < k ==> #[trigger] bytes[j] as int == sat_u8(
                    signed16(b.h(j)) / (pow2(IMM as nat) as int),
                ),
            forall|j: int|
                8 <= j < 8 + k ==> #[trigger] bytes[j] as int == sat_u8(
                    signed16(a.h(j - 8)) / (pow2(IMM as nat) as int),
                ),
    {
        bytes[k] = saturate_u8(shift_right(sign_half(b.half(k)), IMM));
        bytes[8 + k] = saturate_u8(shift_right(sign_half(a.half(k)), IMM));
    }
    V128 { bytes }
}

// ---------------------------------------------------------------------------
// Widening and word arithmetic
// ---------------------------------------------------------------------------

/// `vsllwil.hu.bu`: the low eight bytes, zero-extended and shifted left.
pub fn lsx_vsllwil_hu_bu<const IMM: u32>(a: V128) -> (r: V128)
    requires
        IMM < 8,
    ensures
        forall|i: int| 0 <= i < 8 ==> #[trigger] r.h(i) == a.b(i) * pow2(IMM as nat),
{
    let mut lanes = [0u16; 8];
    for k in 0..8usize
        invariant
            IMM < 8,
            forall|j: int|
                0 <= j < k ==> #[trigger] lanes[j] as int == a.b(j) * pow2(IMM as nat),
    {
        let x = a.bytes[k] as u16;
        proof {
            lemma2_to64();
            if IMM < 7 {
                lemma_pow2_strictly_increases(IMM as nat, 7);
            }
            assert(x * pow2(IMM as nat) <= 0xffff) by (nonlinear_arith)
                requires
                    x <= 255,
                    pow2(IMM as nat) <= 128,
            ;
            lemma_u16_shl_is_mul(x, IMM as u16);
        }
        lanes[k] = x << IMM;
    }
    V128::from_halves(lanes)
}

/// `vexth.hu.bu`: the high eight bytes, zero-extended.
pub fn lsx_vexth_hu_bu(a: V128) -> (r: V128)
    ensures
        forall|i: int| 0 <= i < 8 ==> #[trigger] r.h(i) == a.b(i + 8),
{
    let mut lanes = [0u16; 8];
    for k in 0..8usize
        invariant
            forall|j: int| 0 <= j < k ==> #[trigger] lanes[j] as int == a.b(j + 8),
    {
        lanes[k] = a.bytes[k + 8] as u16;
    }
    V128::from_halves(lanes)
}

/// `vsllwil.wu.hu`: the low four halfwords, zero-extended and shifted left.
pub fn lsx_vsllwil_wu_hu<const IMM: u32>(a: V128) -> (r: V128)
    requires
        IMM < 16,
    ensures
        forall|i: int| 0 <= i < 4 ==> #[trigger] r.w(i) == a.h(i) * pow2(IMM as nat),
{
    let mut lanes = [0u32; 4];
    for k in 0..4usize
        invariant
            IMM < 16,
            forall|j: int|
                0 <= j < k ==> #[trigger] lanes[j] as int == a.h(j) * pow2(IMM as nat),
    {
        let x = a.half(k) as u32;
        proof {
            lemma2_to64();
            if IMM < 15 {
                lemma_pow2_strictly_increases(IMM as nat, 15);
            }
            assert(x * pow2(IMM as nat) <= 0xffff_ffff) by (nonlinear_arith)
                requires
                    x <= 0xffff,
                    pow2(IMM as nat) <= 0x8000,
            ;
            lemma_u32_shl_is_mul(x, IMM);
        }
        lanes[k] = x << IMM;
    }
    V128::from_words(lanes)
}

/// `vexth.wu.hu`: the high four halfwords, zero-extended.
pub fn lsx_vexth_wu_hu(a: V128) -> (r: V128)
    ensures
        forall|i: int| 0 <= i < 4 ==> #[trigger] r.w(i) == a.h(i + 4),
{
    let mut lanes = [0u32; 4];
    for k in 0..4usize
        invariant
            forall|j: int| 0 <= j < k ==> #[trigger] lanes[j] as int == a.h(j + 4),
    {
        lanes[k] = a.half(k + 4) as u32;
    }
    V128::from_words(lanes)
}

/// A halfword sign-extended to a word lane.
fn extend_half(x: u16) -> (r: u32)
    ensures
        r as int == wrap32(signed16(x as int)),
{
    if x >= 0x8000 {
        x as u32 + 0xffff_0000
    } else {
        x as u32
    }
}

/// `vsllwil.w.h`: the low four halfwords, sign-extended and shifted left.
pub fn lsx_vsllwil_w_h<const IMM: u32>(a: V128) -> (r: V128)
    requires
        IMM < 16,
    ensures
        forall|i: int|
            0 <= i < 4 ==> #[trigger] r.w(i) == wrap32(signed16(a.h(i)) * pow2(IMM as nat)),
{
    let mut lanes = [0u32; 4];
    for k in 0..4usize
        invariant
            IMM < 16,
            forall|j: int|
                0 <= j < k ==> #[trigger] lanes[j] as int == wrap32(
                    signed16(a.h(j)) * pow2(IMM as nat),
                ),
    {
        let x = extend_half(a.half(k));
        proof {
            lemma2_to64();
            if IMM < 15 {
                lemma_pow2_strictly_increases(IMM as nat, 15);
            }
            lemma_u32_shl_is_mul(1, IMM);
            lemma_mul_mod_noop_left(
                signed16(a.h(k as int)),
                pow2(IMM as nat) as int,
                0x1_0000_0000,
            );
        }
        lanes[k] = x.wrapping_mul(1 << IMM);
    }
    V128::from_words(lanes)
}

/// `vexth.w.h`: the high four halfwords, sign-extended.
pub fn lsx_vexth_w_h(a: V128) -> (r: V128)
    ensures
        forall|i: int| 0 <= i < 4 ==> #[trigger] r.w(i) == wrap32(signed16(a.h(i + 4))),
{
    let mut lanes = [0u32; 4];
    for k in 0..4usize
        invariant
            forall|j: int|
                0 <= j < k ==> #[trigger] lanes[j] as int == wrap32(signed16(a.h(j + 4))),
    {
        lanes[k] = extend_half(a.half(k + 4));
    }
    V128::from_words(lanes)
}

/// `vmadd.w`: [`adds_products_w`].
pub fn lsx_vmadd_w(acc: V128, a: V128, b: V128) -> (r: V128)
    ensures
        adds_products_w(r, acc, a, b),
{
    let mut lanes = [0u32; 4];
    for k in 0..4usize
        invariant
            forall|j: int|
                0 <= j < k ==> #[trigger] lanes[j] as int == wrap32(acc.w(j) + a.w(j) * b.w(j)),
    {
        let product = a.word(k).wrapping_mul(b.word(k));
        lanes[k] = acc.word(k).wrapping_add(product);
    }
    V128::from_words(lanes)
}

/// The word `x`, read as signed, shifted right by `n` and saturated to a signed
/// halfword.
fn narrow_word(x: u32, n: u32) -> (r: u16)
    requires
        n < 32,
    ensures
        r as int == wrap16(sat_i16(signed32(x as int) / (pow2(n as nat) as int))),
{
    proof {
        lemma_u32_as_i32(x);
    }
    let y = shift_right(x as i32, n);
    let z: i32 = if y < -0x8000 {
        -0x8000
    } else if y > 0x7fff {
        0x7fff
    } else {
        y
    };
    proof {
        lemma_i32_casts(z);
    }
    z as u16
}

/// `vssrani.h.w`: [`narrows_signed_w`].
pub fn lsx_vssrani_h_w<const IMM: u32>(a: V128, b: V128) -> (r: V128)
    requires
        IMM < 32,
    ensures
        narrows_signed_w(r, a, b, IMM as nat),
{
    let mut lanes = [0u16; 8];
    for k in 0..4usize
        invariant
            IMM < 32,
            forall|j: int|
                0 <= j < k ==> #[trigger] lanes[j] as int == wrap16(
                    sat_i16(signed32(b.w(j)) / (pow2(IMM as nat) as int)),
                ),
            forall|j: int|
                4 <= j < 4 + k ==> #[trigger] lanes[j] as int == wrap16(
                    sat_i16(signed32(a.w(j - 4)) / (pow2(IMM as nat) as int)),
                ),
    {
        lanes[k] = narrow_word(b.word(k), IMM);
        lanes[4 + k] = narrow_word(a.word(k), IMM);
    }
    V128::from_halves(lanes)
}

} // verus!
