//! Fixed-width arithmetic on mathematical integers: wrapping, saturation and
//! the reading of shifts and casts as divisions and remainders.

use vstd::arithmetic::div_mod::*;
use vstd::arithmetic::mul::*;
use vstd::arithmetic::power2::*;
use vstd::prelude::*;

verus! {

/// The value of `x` in a 16-bit lane.
pub open spec fn wrap16(x: int) -> int {
    x % 0x1_0000
}

/// The value of `x` in a 32-bit lane.
pub open spec fn wrap32(x: int) -> int {
    x % 0x1_0000_0000
}

/// The two's complement reading of a 16-bit lane.
pub open spec fn signed16(x: int) -> int {
    if x >= 0x8000 {
        x - 0x1_0000
    } else {
        x
    }
}

/// The two's complement reading of a 32-bit lane.
pub open spec fn signed32(x: int) -> int {
    if x >= 0x8000_0000 {
        x - 0x1_0000_0000
    } else {
        x
    }
}

/// `x` brought into `lo..=hi`.
pub open spec fn clamp(x: int, lo: int, hi: int) -> int {
    if x < lo {
        lo
    } else if x > hi {
        hi
    } else {
        x
    }
}

/// `x` saturated to an unsigned byte.
pub open spec fn sat_u8(x: int) -> int {
    clamp(x, 0, 255)
}

/// `x` saturated to a signed 16-bit value.
pub open spec fn sat_i16(x: int) -> int {
    clamp(x, -0x8000, 0x7fff)
}

/// Dividing by `p` and then by two, rounding down, is dividing by `2 * p`.
proof fn lemma_halve_quotient(x: int, p: int)
    requires
        p > 0,
    ensures
        (x / p) / 2 == x / (2 * p),
{
    let q = x / p;
    let r = x % p;
    let half = q / 2;
    let low = q % 2;
    lemma_fundamental_div_mod(x, p);
    assert(x == half * (2 * p) + (p * low + r)) by (nonlinear_arith)
        requires
            x == p * q + r,
            q == 2 * half + low,
    ;
    assert(0 <= p * low + r < 2 * p) by (nonlinear_arith)
        requires
            0 <= r < p,
            low == 0 || low == 1,
    ;
    lemma_fundamental_div_mod_converse(x, 2 * p, half, p * low + r);
}

/// Arithmetic right shift is division by a power of two, rounded down.
pub proof fn lemma_i32_shr_is_div(x: i32, n: u32)
    requires
        n < 32,
    ensures
        (x >> n) as int == x as int / pow2(n as nat) as int,
    decreases n,
{
    lemma_pow2_pos(n as nat);
    if n == 0 {
        lemma2_to64();
        assert(x >> 0u32 == x) by (bit_vector);
        lemma_div_basics(x as int);
    } else {
        let m = (n - 1) as u32;
        lemma_i32_shr_is_div(x, m);
        assert((x >> n) as int == ((x >> m) as int) / 2) by (bit_vector)
            requires
                0 < n < 32,
                m == n - 1,
        ;
        lemma_pow2_pos(m as nat);
        lemma_pow2_unfold(n as nat);
        lemma_halve_quotient(x as int, pow2(m as nat) as int);
        assert(pow2(n as nat) == 2 * pow2(m as nat));
    }
}

/// One shifted left is a power of two, read in 32-bit two's complement.
pub proof fn lemma_i32_one_shl(n: u32)
    requires
        n < 32,
    ensures
        n < 31 ==> (1i32 << n) as int == pow2(n as nat),
        n == 31 ==> (1i32 << n) as int == -0x8000_0000,
    decreases n,
{
    if n == 0 {
        lemma2_to64();
        assert(1i32 << 0u32 == 1) by (bit_vector);
    } else if n == 31 {
        assert(1i32 << 31u32 == -0x8000_0000) by (bit_vector);
    } else {
        let m = (n - 1) as u32;
        lemma_i32_one_shl(m);
        assert((1i32 << n) as int == 2 * ((1i32 << m) as int)) by (bit_vector)
            requires
                0 < n < 31,
                m == n - 1,
        ;
        lemma_pow2_unfold(n as nat);
    }
}

/// Casts of a 32-bit value keep its low bits.
pub proof fn lemma_i32_casts(x: i32)
    ensures
        (x as u8) as int == x as int % 256,
        (x as u16) as int == x as int % 0x1_0000,
        (x as u32) as int == x as int % 0x1_0000_0000,
{
    assert((x as u8) as int == x as int % 256) by (bit_vector);
    assert((x as u16) as int == x as int % 0x1_0000) by (bit_vector);
    assert((x as u32) as int == x as int % 0x1_0000_0000) by (bit_vector);
}

/// A `u32` read as `i32` is its two's complement value.
pub proof fn lemma_u32_as_i32(x: u32)
    ensures
        (x as i32) as int == signed32(x as int),
{
    assert(x < 0x8000_0000 ==> (x as i32) as int == x as int) by (bit_vector);
    assert(x >= 0x8000_0000 ==> (x as i32) as int == x as int - 0x1_0000_0000) by (bit_vector);
}

/// The second byte of a number, read through a 16-bit lane or directly.
pub proof fn lemma_second_byte(x: int)
    ensures
        (x % 0x1_0000) / 256 == (x / 256) % 256,
{
}

/// Wrapping one summand first changes nothing after wrapping.
pub proof fn lemma_add_mod_noop_left(a: int, b: int, m: int)
    requires
        m > 0,
    ensures
        (a % m + b) % m == (a + b) % m,
{
    lemma_add_mod_noop(a, b, m);
    lemma_add_mod_noop(a % m, b, m);
    lemma_mod_twice(a, m);
}

/// Wrapping a factor first changes nothing after wrapping.
pub proof fn lemma_wrap_product(a: int, x: int, k: int, m: int)
    requires
        m > 0,
    ensures
        (a + x * (k % m)) % m == (a + x * k) % m,
{
    lemma_mul_mod_noop_right(x, k, m);
    lemma_add_mod_noop(a, x * (k % m), m);
    lemma_add_mod_noop(a, x * k, m);
}

} // verus!
