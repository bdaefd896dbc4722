//! Signed 16.16 fixed-point scalar arithmetic.
//!
//! A raw `i64` value `v` stands for the real number `v / 65536`. Multiplication
//! and division round toward zero, as the corresponding operations on binary
//! floating-point numbers do. Every executable operation is proved equal to a
//! spec-level counterpart on unbounded integers.

use vstd::prelude::*;

verus! {

/// Raw fixed-point value standing for 1.0.
pub const ONE: i64 = 65536;

/// Raw fixed-point value standing for 0.5.
pub const HALF: i64 = 32768;

/// Largest magnitude accepted by `fdiv` for the dividend.
pub const FDIV_MAX: i64 = 0x4000_0000_0000;

/// Absolute value of an integer.
pub open spec fn abs_i(a: int) -> int {
    if a < 0 {
        -a
    } else {
        a
    }
}

/// Integer division rounding toward zero, as hardware division does.
pub open spec fn tdiv(a: int, b: int) -> int
    recommends
        b != 0,
{
    if (a < 0) == (b < 0) {
        abs_i(a) / abs_i(b)
    } else {
        -(abs_i(a) / abs_i(b))
    }
}

/// Fixed-point product: the scaled, truncated product of two raw values.
pub open spec fn fmul_s(a: int, b: int) -> int {
    tdiv(a * b, ONE as int)
}

/// Fixed-point quotient of two raw values.
pub open spec fn fdiv_s(a: int, b: int) -> int
    recommends
        b != 0,
{
    tdiv(a * (ONE as int), b)
}

/// The bound under which a fixed-point product is accepted: the scaled result
/// then fits comfortably in an `i64`. The literal is 2^76.
pub open spec fn mul_ok(a: int, b: int) -> bool {
    -75557863725914323419136 <= a * b <= 75557863725914323419136
}

/// `r` is the integer square root of `n`.
pub open spec fn is_sqrt(n: int, r: int) -> bool {
    0 <= r && r * r <= n && n < (r + 1) * (r + 1)
}

/// The integer square root of `n` (meaningful for `n >= 0`).
pub open spec fn sqrt_i(n: int) -> int {
    choose|r: int| is_sqrt(n, r)
}

/// Fixed-point square root of a raw value: the scale is restored by
/// multiplying by `ONE` before taking the integer root.
pub open spec fn fsqrt_s(x: int) -> int {
    sqrt_i(x * (ONE as int))
}

/// Every nonnegative integer has an integer square root.
pub proof fn lemma_sqrt_exists(n: int) -> (r: int)
    requires
        0 <= n,
    ensures
        is_sqrt(n, r),
    decreases n,
{
    if n == 0 {
        assert(is_sqrt(0, 0)) by (nonlinear_arith);
        0
    } else {
        let p = lemma_sqrt_exists(n - 1);
        assert(p * p <= n);
        if (p + 1) * (p + 1) <= n {
            assert(n < (p + 2) * (p + 2)) by (nonlinear_arith)
                requires
                    is_sqrt(n - 1, p),
                    (p + 1) * (p + 1) <= n,
            ;
            p + 1
        } else {
            p
        }
    }
}

/// The integer square root is unique, so any witness equals `sqrt_i`.
pub proof fn lemma_sqrt_unique(n: int, r: int)
    requires
        is_sqrt(n, r),
    ensures
        sqrt_i(n) == r,
{
    assert(is_sqrt(n, sqrt_i(n)));
    let c = sqrt_i(n);
    assert(c == r) by (nonlinear_arith)
        requires
            is_sqrt(n, r),
            is_sqrt(n, c),
    ;
}

/// Truncating division shrinks magnitudes: a bound on the dividend in
/// multiples of the divisor bounds the quotient.
pub proof fn lemma_tdiv_le(a: int, b: int, m: int)
    requires
        b != 0,
        0 <= m,
        abs_i(a) <= m * abs_i(b),
    ensures
        abs_i(tdiv(a, b)) <= m,
{
    assert(abs_i(a) / abs_i(b) <= m) by (nonlinear_arith)
        requires
            abs_i(b) >= 1,
            0 <= abs_i(a),
            0 <= m,
            abs_i(a) <= m * abs_i(b),
    ;
}

/// A fixed-point product is bounded by the unscaled product bound.
pub proof fn lemma_fmul_bound(a: int, b: int, m: int)
    requires
        0 <= m,
        abs_i(a * b) <= m * (ONE as int),
    ensures
        abs_i(fmul_s(a, b)) <= m,
{
    lemma_tdiv_le(a * b, ONE as int, m);
}

/// Truncating division by a positive divisor leaves a remainder smaller
/// than the divisor.
pub proof fn lemma_tdiv_rem(x: int, s: int)
    requires
        1 <= s,
    ensures
        abs_i(tdiv(x, s) * s - x) < s,
{
    if x >= 0 {
        vstd::arithmetic::div_mod::lemma_fundamental_div_mod(x, s);
        vstd::arithmetic::div_mod::lemma_mod_division_less_than_divisor(x, s);
        assert(tdiv(x, s) == x / s);
        assert(tdiv(x, s) * s - x == -(x % s)) by (nonlinear_arith)
            requires
                x == s * (x / s) + (x % s),
                tdiv(x, s) == x / s,
        ;
    } else {
        vstd::arithmetic::div_mod::lemma_fundamental_div_mod(-x, s);
        vstd::arithmetic::div_mod::lemma_mod_division_less_than_divisor(-x, s);
        assert(tdiv(x, s) == -((-x) / s));
        assert(tdiv(x, s) * s - x == (-x) % s) by (nonlinear_arith)
            requires
                -x == s * ((-x) / s) + ((-x) % s),
                tdiv(x, s) == -((-x) / s),
        ;
    }
}

/// Truncating division by a positive divisor is monotone in the dividend.
pub proof fn lemma_tdiv_mono(a: int, b: int, d: int)
    requires
        a <= b,
        1 <= d,
    ensures
        tdiv(a, d) <= tdiv(b, d),
{
    if 0 <= a {
        vstd::arithmetic::div_mod::lemma_div_is_ordered(a, b, d);
    } else if b < 0 {
        vstd::arithmetic::div_mod::lemma_div_is_ordered(-b, -a, d);
    } else {
        vstd::arithmetic::div_mod::lemma_div_pos_is_pos(-a, d);
        vstd::arithmetic::div_mod::lemma_div_pos_is_pos(b, d);
    }
}

/// Truncating division of signed 128-bit values, the shared engine of the
/// fixed-point operations.
fn tdiv_i128(p: i128, q: i128) -> (r: i64)
    requires
        q != 0,
        abs_i(p as int) < 0x40000000000000000000000000000000,
        abs_i(q as int) < 0x40000000000000000000000000000000,
        abs_i(p as int) / abs_i(q as int) <= 0x7fff_ffff_ffff_ffff,
    ensures
        r as int == tdiv(p as int, q as int),
{
    let pn: bool = p < 0;
    let qn: bool = q < 0;
    let pa: u128 = if pn {
        (-p) as u128
    } else {
        p as u128
    };
    let qa: u128 = if qn {
        (-q) as u128
    } else {
        q as u128
    };
    let m: u128 = pa / qa;
    assert(pa as int == abs_i(p as int) && qa as int == abs_i(q as int));
    assert(m as int == abs_i(p as int) / abs_i(q as int));
    let mi: i64 = m as i64;
    if pn != qn {
        -mi
    } else {
        mi
    }
}

/// Fixed-point multiplication.
pub fn fmul(a: i64, b: i64) -> (r: i64)
    requires
        mul_ok(a as int, b as int),
    ensures
        r as int == fmul_s(a as int, b as int),
{
    let p: i128 = (a as i128) * (b as i128);
    assert(abs_i(p as int) / abs_i(ONE as int) <= 0x7fff_ffff_ffff_ffff) by {
        lemma_tdiv_le(p as int, ONE as int, 0x1000_0000_0000_0000);
    }
    tdiv_i128(p, 65536)
}

/// Fixed-point division; the divisor must not be zero.
pub fn fdiv(a: i64, b: i64) -> (r: i64)
    requires
        b != 0,
        -FDIV_MAX <= a <= FDIV_MAX,
    ensures
        r as int == fdiv_s(a as int, b as int),
{
    let p: i128 = (a as i128) * 65536;
    assert(abs_i(p as int) / abs_i(b as int) <= 0x7fff_ffff_ffff_ffff) by {
        lemma_tdiv_le(p as int, b as int, 0x4000_0000_0000_0000);
        assert(abs_i(p as int) <= 0x4000_0000_0000_0000 * abs_i(b as int)) by (nonlinear_arith)
            requires
                abs_i(p as int) <= 0x4000_0000_0000_0000,
                abs_i(b as int) >= 1,
        ;
    }
    tdiv_i128(p, b as i128)
}

/// Integer square root by binary search.
fn sqrt_u128(n: u128) -> (r: u64)
    requires
        (n as int) < 0x40000000000000000000000000000000,
    ensures
        is_sqrt(n as int, r as int),
{
    let mut lo: u128 = 0;
    let mut hi: u128 = 0x8000_0000_0000_0000;
    assert((hi as int) * (hi as int) == 0x40000000000000000000000000000000) by (nonlinear_arith)
        requires
            hi == 0x8000_0000_0000_0000,
    ;
    while hi - lo > 1
        invariant
            0 <= lo < hi <= 0x8000_0000_0000_0000,
            (lo as int) * (lo as int) <= n as int,
            (n as int) < (hi as int) * (hi as int),
        decreases hi - lo,
    {
        let mid: u128 = lo + (hi - lo) / 2;
        assert(lo < mid < hi);
        assert((mid as int) * (mid as int) < 0x40000000000000000000000000000000)
            by (nonlinear_arith)
            requires
                0 <= (mid as int) < 0x8000_0000_0000_0000,
        ;
        if mid * mid <= n {
            lo = mid;
        } else {
            hi = mid;
        }
    }
    assert(hi == lo + 1);
    lo as u64
}

/// Fixed-point square root of a nonnegative raw value.
pub fn fsqrt(x: i64) -> (r: i64)
    requires
        0 <= x,
    ensures
        r as int == fsqrt_s(x as int),
        0 <= r,
{
    let n: u128 = (x as u128) * 65536;
    let s: u64 = sqrt_u128(n);
    assert((s as int) * (s as int) <= n < 0x40000000000000000000000000000000);
    assert(s as int <= 0x7fff_ffff_ffff_ffff) by (nonlinear_arith)
        requires
            (s as int) * (s as int) < 0x40000000000000000000000000000000,
            0 <= s as int,
    ;
    proof {
        lemma_sqrt_unique(n as int, s as int);
    }
    s as i64
}

} // verus!
