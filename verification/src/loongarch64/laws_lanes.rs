//! Laws of the register lanes and of the blocks, stated on their bytes.

use super::arith::{sat_i16, sat_u8, signed16, signed32, wrap16, wrap32};
use super::convert8::Coeffs8;
use super::laws8::{law_pixel_luma, law_samples8};
use super::lsx::{interleaves_low, stores};
use super::simd::{encodes_block8, full_u, full_v, LsxBlock};
use super::utils::{box_lane, deinterleaved};
use super::vector::V128;
use crate::yuv_support::YuvSourceChannels;
use vstd::prelude::*;

verus! {

/// Lanes are little-endian: halfword `i` lies in bytes `2 * i` and the next, word `i`
/// in bytes `4 * i` to `4 * i + 3`.
pub proof fn law_lanes(v: V128, i: int)
    ensures
        v.b(i) == v.bytes[i],
        v.h(i) == v.bytes[2 * i] + 256 * v.bytes[2 * i + 1],
        v.w(i) == v.bytes[4 * i] + 256 * v.bytes[4 * i + 1] + 65536 * v.bytes[4 * i + 2]
            + 16777216 * v.bytes[4 * i + 3],
{
    reveal(V128::h);
    reveal(V128::w);
    assert(2 * (2 * i) == 4 * i && 2 * (2 * i + 1) == 4 * i + 2);
}

/// A lane keeps a number modulo its size, and its signed reading is the one in the
/// signed range.
pub proof fn law_wrapping(x: int)
    ensures
        0 <= wrap16(x) < 0x1_0000 && (wrap16(x) - x) % 0x1_0000 == 0,
        0 <= wrap32(x) < 0x1_0000_0000 && (wrap32(x) - x) % 0x1_0000_0000 == 0,
        i16::MIN <= signed16(wrap16(x)) <= i16::MAX,
        (signed16(wrap16(x)) - x) % 0x1_0000 == 0,
        i32::MIN <= signed32(wrap32(x)) <= i32::MAX,
        (signed32(wrap32(x)) - x) % 0x1_0000_0000 == 0,
{
}

/// Saturation keeps what fits and otherwise gives the nearer end of the range.
pub proof fn law_saturation(x: int)
    ensures
        0 <= x <= 255 ==> sat_u8(x) == x,
        x < 0 ==> sat_u8(x) == 0,
        x > 255 ==> sat_u8(x) == 255,
        i16::MIN <= x <= i16::MAX ==> sat_i16(x) == x,
        x < i16::MIN ==> sat_i16(x) == i16::MIN,
        x > i16::MAX ==> sat_i16(x) == i16::MAX,
{
}

/// Deinterleaving puts the channels of pixel `i` into lane `i`.
pub proof fn law_deinterleave(
    r: V128,
    g: V128,
    b: V128,
    code: u8,
    n: int,
    ro: int,
    bo: int,
    src: Seq<u8>,
    off: int,
    i: int,
)
    requires
        (code == 0 && n == 3 && ro == 0 && bo == 2) || (code == 1 && n == 4 && ro == 0 && bo == 2)
            || (code == 2 && n == 4 && ro == 2 && bo == 0) || (code == 3 && n == 3 && ro == 2
            && bo == 0),
        deinterleaved(r, g, b, YuvSourceChannels::decoded(code), src, off),
        0 <= i < 16,
    ensures
        r.bytes[i] == src[off + n * i + ro],
        g.bytes[i] == src[off + n * i + 1],
        b.bytes[i] == src[off + n * i + bo],
{
    if n == 3 {
        assert(n * i == 3 * i);
    } else {
        assert(n * i == 4 * i);
    }
    assert(r.b(i) == r.bytes[i]);
}

/// A box average is the mean of two neighbouring bytes of two rows, rounded to the
/// nearest and half up.
pub proof fn law_box_average(row0: V128, row1: V128, i: int)
    ensures
        ({
            let sum = row0.bytes[2 * i] + row0.bytes[2 * i + 1] + row1.bytes[2 * i] + row1.bytes[2
                * i + 1];
            -2 <= sum - 4 * box_lane(row0, row1, i) < 2
        }),
{
}

/// Interleaving alternates the low bytes of two registers, the last argument first.
pub proof fn law_interleave(r: V128, odd: V128, even: V128, i: int)
    requires
        interleaves_low(r, odd, even),
        0 <= i < 8,
    ensures
        r.bytes[2 * i] == even.bytes[i],
        r.bytes[2 * i + 1] == odd.bytes[i],
{
    assert(r.b(2 * i) == even.b(i));
    assert(r.b(2 * i + 1) == odd.b(i));
}

/// A store writes its bytes in order and keeps the rest.
pub proof fn law_store(
    new: Seq<u8>,
    old: Seq<u8>,
    off: int,
    v: V128,
    from: int,
    len: int,
    k: int,
)
    requires
        stores(new, old, off, v, from, len),
        0 <= off,
        off + len <= old.len(),
    ensures
        new.len() == old.len(),
        0 <= k < len ==> new[off + k] == v.bytes[from + k],
        0 <= k < old.len() && (k < off || off + len <= k) ==> new[k] == old[k],
{
}

/// An 8-bit block holds the luma of each of its pixels and the chroma of each of its
/// quads, taken from the bytes of the two source rows.
pub proof fn law_block8(
    blk: LsxBlock,
    c: Coeffs8,
    code: u8,
    n: int,
    ro: int,
    bo: int,
    row0: Seq<u8>,
    row1: Seq<u8>,
    cx: int,
    i: int,
)
    requires
        (code == 0 && n == 3 && ro == 0 && bo == 2) || (code == 1 && n == 4 && ro == 0 && bo == 2)
            || (code == 2 && n == 4 && ro == 2 && bo == 0) || (code == 3 && n == 3 && ro == 2
            && bo == 0),
        encodes_block8(blk, c, YuvSourceChannels::decoded(code), row0, row1, cx),
        0 <= i < 16,
    ensures
        ({
            let p = n * (cx + i);
            &&& blk.y0.bytes[i] == ((c.ry * row0[p + ro] + c.gy * row0[p + 1] + c.by * row0[p + bo]
                + c.ay) / 256) % 256
            &&& blk.y1.bytes[i] == ((c.ry * row1[p + ro] + c.gy * row1[p + 1] + c.by * row1[p + bo]
                + c.ay) / 256) % 256
        }),
        ({
            let p = n * (cx + 2 * i);
            let r = (row0[p + ro] + row0[p + n + ro] + row1[p + ro] + row1[p + n + ro] + 2) / 4;
            let g = (row0[p + 1] + row0[p + n + 1] + row1[p + 1] + row1[p + n + 1] + 2) / 4;
            let b = (row0[p + bo] + row0[p + n + bo] + row1[p + bo] + row1[p + n + bo] + 2) / 4;
            i < 8 ==> {
                &&& blk.u.bytes[i] == ((c.ru * r + c.gu * g + c.bu * b + c.auv) / 256) % 256
                &&& blk.v.bytes[i] == ((c.rv * r + c.gv * g + c.bv * b + c.auv) / 256) % 256
            }
        }),
{
    let sc = YuvSourceChannels::decoded(code);
    law_pixel_luma(c, code, n, ro, bo, row0, cx + i);
    law_pixel_luma(c, code, n, ro, bo, row1, cx + i);
    assert(blk.y0.b(i) == blk.y0.bytes[i] && blk.y1.b(i) == blk.y1.bytes[i]);
    if i < 8 {
        let x = cx + 2 * i;
        let p = n * x;
        if n == 3 {
            assert(p == 3 * x);
        } else {
            assert(p == 4 * x);
        }
        let r = (row0[p + ro] + row0[p + n + ro] + row1[p + ro] + row1[p + n + ro] + 2) / 4;
        let g = (row0[p + 1] + row0[p + n + 1] + row1[p + 1] + row1[p + n + 1] + 2) / 4;
        let b = (row0[p + bo] + row0[p + n + bo] + row1[p + bo] + row1[p + n + bo] + 2) / 4;
        law_samples8(c, r, g, b);
        assert(blk.u.b(i) == full_u(c, sc, row0, row1, x));
        assert(blk.v.b(i) == full_v(c, sc, row0, row1, x));
    }
}

} // verus!
