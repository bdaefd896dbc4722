//! Three-component fixed-point vectors: arithmetic, dot product,
//! normalization, reflection and refraction.
//!
//! Every executable operation is proved equal to a spec-level counterpart on
//! the mathematical model `V3` of unbounded integers.

use vstd::prelude::*;

use crate::fx::{
    abs_i, fdiv, fdiv_s, fmul, fmul_s, fsqrt, fsqrt_s, is_sqrt, lemma_fmul_bound,
    lemma_sqrt_exists, lemma_sqrt_unique, lemma_tdiv_le, lemma_tdiv_rem, mul_ok, sqrt_i, tdiv,
    FDIV_MAX, ONE,
};

verus! {

/// Largest component magnitude accepted for scene geometry and rays.
pub const GEOM_LIM: i64 = 0x200_0000;

/// Component magnitude bound guaranteed for normalized vectors.
pub const UNIT_LIM: i64 = 0x10_0000;

/// Largest component magnitude accepted by `reflect`.
pub const REFL_LIM: i64 = 0x1000_0000;

/// Largest refraction ratio accepted by `refract`.
pub const NI_LIM: i64 = 0x80_0000;

/// Largest component magnitude accepted by `magn` and `sqr_magn`.
pub const MAGN_LIM: i64 = 0x4000_0000;

/// Mathematical model of a vector: three unbounded integers, each a raw
/// 16.16 fixed-point value.
pub ghost struct V3 {
    pub x: int,
    pub y: int,
    pub z: int,
}

/// A 3-component fixed-point vector, used as point, direction, or color.
#[derive(Clone, Copy, PartialEq, Eq, Structural, Debug)]
pub struct Vec3(pub i64, pub i64, pub i64);

impl View for Vec3 {
    type V = V3;

    open spec fn view(&self) -> V3 {
        V3 { x: self.0 as int, y: self.1 as int, z: self.2 as int }
    }
}

/// Componentwise sum.
pub open spec fn vadd(a: V3, b: V3) -> V3 {
    V3 { x: a.x + b.x, y: a.y + b.y, z: a.z + b.z }
}

/// Componentwise difference.
pub open spec fn vsub(a: V3, b: V3) -> V3 {
    V3 { x: a.x - b.x, y: a.y - b.y, z: a.z - b.z }
}

/// Componentwise negation.
pub open spec fn vneg(a: V3) -> V3 {
    V3 { x: -a.x, y: -a.y, z: -a.z }
}

/// Componentwise fixed-point product.
pub open spec fn vmul(a: V3, b: V3) -> V3 {
    V3 { x: fmul_s(a.x, b.x), y: fmul_s(a.y, b.y), z: fmul_s(a.z, b.z) }
}

/// Fixed-point scaling by a scalar.
pub open spec fn vscale(a: V3, s: int) -> V3 {
    V3 { x: fmul_s(a.x, s), y: fmul_s(a.y, s), z: fmul_s(a.z, s) }
}

/// Componentwise fixed-point quotient.
pub open spec fn vdiv(a: V3, b: V3) -> V3 {
    V3 { x: fdiv_s(a.x, b.x), y: fdiv_s(a.y, b.y), z: fdiv_s(a.z, b.z) }
}

/// Fixed-point division by a scalar.
pub open spec fn vdiv_scalar(a: V3, s: int) -> V3 {
    V3 { x: fdiv_s(a.x, s), y: fdiv_s(a.y, s), z: fdiv_s(a.z, s) }
}

/// Fixed-point dot product.
pub open spec fn dot_s(a: V3, b: V3) -> int {
    fmul_s(a.x, b.x) + fmul_s(a.y, b.y) + fmul_s(a.z, b.z)
}

/// Squared magnitude.
pub open spec fn sqr_magn_s(a: V3) -> int {
    dot_s(a, a)
}

/// Magnitude: fixed-point square root of the squared magnitude.
pub open spec fn magn_s(a: V3) -> int {
    fsqrt_s(sqr_magn_s(a))
}

/// Normalization: each component divided by the magnitude.
pub open spec fn unit_s(a: V3) -> V3 {
    vdiv_scalar(a, magn_s(a))
}

/// Mirror reflection of `v` about the normal `n`.
pub open spec fn reflect_s(v: V3, n: V3) -> V3 {
    vsub(v, vscale(vscale(n, 2 * (ONE as int)), dot_s(v, n)))
}

/// The Snell discriminant deciding between refraction and total internal
/// reflection.
pub open spec fn refract_disc_s(v: V3, n: V3, ni: int) -> int {
    let dt = dot_s(unit_s(v), n);
    (ONE as int) - fmul_s(fmul_s(ni, ni), (ONE as int) - fmul_s(dt, dt))
}

/// Snell refraction of `v` about the outward normal `n`; no value on total
/// internal reflection.
pub open spec fn refract_s(v: V3, n: V3, ni: int) -> Option<V3> {
    let uv = unit_s(v);
    let dt = dot_s(uv, n);
    let disc = refract_disc_s(v, n, ni);
    if disc > 0 {
        Some(vsub(vscale(vsub(uv, vscale(n, dt)), ni), vscale(n, fsqrt_s(disc))))
    } else {
        None
    }
}

/// All components bounded in magnitude by `l`.
pub open spec fn bounded(a: V3, l: int) -> bool {
    -l <= a.x <= l && -l <= a.y <= l && -l <= a.z <= l
}

/// Both operands of a dot product small enough that nothing can overflow.
pub open spec fn dot_ok(a: V3, b: V3) -> bool {
    mul_ok(a.x, b.x) && mul_ok(a.y, b.y) && mul_ok(a.z, b.z)
}

/// A fixed-point square is never negative.
pub proof fn lemma_sq_nonneg(x: int)
    ensures
        0 <= fmul_s(x, x),
{
    assert(0 <= x * x) by (nonlinear_arith);
}

/// A squared magnitude is never negative, and bounds each of its terms.
pub proof fn lemma_sqr_magn_nonneg(a: V3)
    ensures
        0 <= sqr_magn_s(a),
        fmul_s(a.x, a.x) <= sqr_magn_s(a),
        fmul_s(a.y, a.y) <= sqr_magn_s(a),
        fmul_s(a.z, a.z) <= sqr_magn_s(a),
{
    lemma_sq_nonneg(a.x);
    lemma_sq_nonneg(a.y);
    lemma_sq_nonneg(a.z);
}

/// A bound on one fixed-point product, from bounds on its factors.
pub proof fn lemma_fmul_abs(a: int, b: int, la: int, lb: int, m: int)
    requires
        abs_i(a) <= la,
        abs_i(b) <= lb,
        0 <= la,
        0 <= lb,
        la * lb <= m * (ONE as int),
        0 <= m <= 0x1000_0000_0000_0000,
    ensures
        mul_ok(a, b),
        abs_i(fmul_s(a, b)) <= m,
{
    assert(abs_i(a * b) <= la * lb) by (nonlinear_arith)
        requires
            abs_i(a) <= la,
            abs_i(b) <= lb,
            0 <= la,
            0 <= lb,
    ;
    assert(mul_ok(a, b)) by (nonlinear_arith)
        requires
            abs_i(a * b) <= la * lb,
            la * lb <= m * (ONE as int),
            0 <= m <= 0x1000_0000_0000_0000,
    ;
    lemma_fmul_bound(a, b, m);
}

/// A bound on a dot product, from bounds on its operands.
pub proof fn lemma_dot_bound(a: V3, b: V3, la: int, lb: int, m: int)
    requires
        bounded(a, la),
        bounded(b, lb),
        0 <= la,
        0 <= lb,
        la * lb <= m * (ONE as int),
        0 <= m <= 0x1000_0000_0000_0000,
    ensures
        dot_ok(a, b),
        abs_i(dot_s(a, b)) <= 3 * m,
{
    lemma_fmul_abs(a.x, b.x, la, lb, m);
    lemma_fmul_abs(a.y, b.y, la, lb, m);
    lemma_fmul_abs(a.z, b.z, la, lb, m);
}

/// A bound on a scaled vector, from bounds on the vector and the scalar.
pub proof fn lemma_scale_bound(a: V3, s: int, la: int, ls: int, m: int)
    requires
        bounded(a, la),
        abs_i(s) <= ls,
        0 <= la,
        0 <= ls,
        la * ls <= m * (ONE as int),
        0 <= m <= 0x1000_0000_0000_0000,
    ensures
        mul_ok(a.x, s),
        mul_ok(a.y, s),
        mul_ok(a.z, s),
        bounded(vscale(a, s), m),
{
    lemma_fmul_abs(a.x, s, la, ls, m);
    lemma_fmul_abs(a.y, s, la, ls, m);
    lemma_fmul_abs(a.z, s, la, ls, m);
}

/// An integer square root below a square is below the root.
pub proof fn lemma_sqrt_below(n: int, b: int)
    requires
        0 <= n,
        0 < b,
        n < b * b,
    ensures
        sqrt_i(n) < b,
        0 <= sqrt_i(n),
{
    let w = lemma_sqrt_exists(n);
    lemma_sqrt_unique(n, w);
    assert(sqrt_i(n) < b) by (nonlinear_arith)
        requires
            is_sqrt(n, sqrt_i(n)),
            0 < b,
            n < b * b,
    ;
}

/// The magnitude of a nonzero, geometry-bounded vector is at least 256 raw
/// units, and normalizing such a vector keeps every component below
/// `UNIT_LIM`.
pub proof fn lemma_unit_bound(a: V3)
    requires
        bounded(a, GEOM_LIM as int),
        1 <= sqr_magn_s(a),
    ensures
        256 <= magn_s(a),
        magn_s(a) <= 0x1_0000_0000,
        bounded(unit_s(a), UNIT_LIM as int),
{
    let sm = sqr_magn_s(a);
    let n = sm * (ONE as int);
    let m = magn_s(a);
    let w = lemma_sqrt_exists(n);
    lemma_sqrt_unique(n, w);
    assert(is_sqrt(n, m));
    assert(256 <= m) by (nonlinear_arith)
        requires
            is_sqrt(n, m),
            65536 <= n,
    ;
    lemma_sqr_magn_nonneg(a);
    lemma_fmul_abs(a.x, a.x, GEOM_LIM as int, GEOM_LIM as int, 0x4_0000_0000);
    lemma_fmul_abs(a.y, a.y, GEOM_LIM as int, GEOM_LIM as int, 0x4_0000_0000);
    lemma_fmul_abs(a.z, a.z, GEOM_LIM as int, GEOM_LIM as int, 0x4_0000_0000);
    assert(sm <= 0xc_0000_0000);
    assert(m <= 0x1_0000_0000) by (nonlinear_arith)
        requires
            is_sqrt(n, m),
            n <= 0xc_0000_0000 * 65536,
    ;
    lemma_unit_comp_bound(a.x, sm, m);
    lemma_unit_comp_bound(a.y, sm, m);
    lemma_unit_comp_bound(a.z, sm, m);
}

/// One component of a normalization stays below `UNIT_LIM`: the magnitude of
/// the whole vector cannot be much smaller than any single component.
proof fn lemma_unit_comp_bound(y: int, sm: int, m: int)
    requires
        -(GEOM_LIM as int) <= y <= GEOM_LIM as int,
        fmul_s(y, y) <= sm,
        1 <= sm,
        is_sqrt(sm * (ONE as int), m),
        256 <= m,
    ensures
        abs_i(tdiv(y * (ONE as int), m)) <= UNIT_LIM as int,
{
    let s = ONE as int;
    let ay = abs_i(y);
    if ay <= 4096 {
        assert(abs_i(y * s) <= (UNIT_LIM as int) * abs_i(m)) by (nonlinear_arith)
            requires
                abs_i(y) <= 4096,
                s == 65536,
                256 <= m,
                UNIT_LIM == 0x10_0000,
        ;
        lemma_tdiv_le(y * s, m, UNIT_LIM as int);
    } else {
        // the truncated square loses less than one scale unit
        assert(y * y >= 0) by (nonlinear_arith);
        assert(fmul_s(y, y) * s > y * y - s) by (nonlinear_arith)
            requires
                s == 65536,
                fmul_s(y, y) == abs_i(y * y) / s,
        ;
        // so the scaled squared magnitude dominates a quarter of y^2
        assert(4 * sm * s > y * y) by (nonlinear_arith)
            requires
                fmul_s(y, y) * s > y * y - s,
                fmul_s(y, y) <= sm,
                s == 65536,
                abs_i(y) > 4096,
        ;
        // hence the root dominates a quarter of |y|
        assert(4 * m >= ay) by (nonlinear_arith)
            requires
                is_sqrt(sm * s, m),
                4 * sm * s > y * y,
                ay == abs_i(y),
                ay > 4096,
        ;
        assert(abs_i(y * s) <= (UNIT_LIM as int) * abs_i(m)) by (nonlinear_arith)
            requires
                4 * m >= ay,
                ay == abs_i(y),
                256 <= m,
                s == 65536,
                UNIT_LIM == 0x10_0000,
        ;
        lemma_tdiv_le(y * s, m, UNIT_LIM as int);
    }
}

/// Law: reflecting a direction that merely grazes the surface — one whose
/// dot product with the normal is zero — returns the direction unchanged.
pub proof fn lemma_reflect_grazing(v: V3, n: V3)
    requires
        dot_s(v, n) == 0,
    ensures
        reflect_s(v, n) == v,
{
    let s = ONE as int;
    let w = vscale(n, 2 * s);
    assert(fmul_s(w.x, 0) == 0 && fmul_s(w.y, 0) == 0 && fmul_s(w.z, 0) == 0) by (nonlinear_arith)
        requires
            s == 65536,
            w == vscale(n, 2 * s),
    ;
    assert(vscale(w, 0) == (V3 { x: 0, y: 0, z: 0 }));
    assert(reflect_s(v, n) == v);
}

/// Fixed-point negation distributes over a product with minus one.
pub proof fn lemma_scale_neg_one_exact(c: int)
    ensures
        fmul_s(c, -(ONE as int)) == -c,
{
    let s = ONE as int;
    assert(tdiv(c * (-s), s) == -c) by (nonlinear_arith)
        requires
            s == 65536,
    ;
}

/// Negating one factor negates a fixed-point product.
pub proof fn lemma_fmul_neg_left(a: int, b: int)
    ensures
        fmul_s(-a, b) == -fmul_s(a, b),
{
    assert(tdiv((-a) * b, ONE as int) == -tdiv(a * b, ONE as int)) by (nonlinear_arith);
}

/// Law: reflecting the exact reverse of a unit normal about that normal
/// returns the normal itself — an anti-parallel incoming direction bounces
/// straight back.
pub proof fn lemma_reflect_antiparallel(n: V3)
    requires
        dot_s(n, n) == ONE as int,
    ensures
        reflect_s(vneg(n), n) == n,
{
    let s = ONE as int;
    lemma_fmul_neg_left(n.x, n.x);
    lemma_fmul_neg_left(n.y, n.y);
    lemma_fmul_neg_left(n.z, n.z);
    assert(dot_s(vneg(n), n) == -s);
    lemma_scale_two_exact(n.x);
    lemma_scale_two_exact(n.y);
    lemma_scale_two_exact(n.z);
    let w = vscale(n, 2 * s);
    assert(w == (V3 { x: 2 * n.x, y: 2 * n.y, z: 2 * n.z }));
    lemma_scale_neg_one_exact(2 * n.x);
    lemma_scale_neg_one_exact(2 * n.y);
    lemma_scale_neg_one_exact(2 * n.z);
    assert(vscale(w, -s) == (V3 { x: -2 * n.x, y: -2 * n.y, z: -2 * n.z }));
    assert(reflect_s(vneg(n), n) == n);
}

/// Every component of a vector of unit squared magnitude stays within one.
pub proof fn lemma_unit_norm_comps(n: V3)
    requires
        dot_s(n, n) == ONE as int,
    ensures
        abs_i(n.x) <= ONE as int,
        abs_i(n.y) <= ONE as int,
        abs_i(n.z) <= ONE as int,
{
    let s = ONE as int;
    lemma_sq_nonneg(n.x);
    lemma_sq_nonneg(n.y);
    lemma_sq_nonneg(n.z);
    lemma_unit_norm_comp(n.x, fmul_s(n.x, n.x));
    lemma_unit_norm_comp(n.y, fmul_s(n.y, n.y));
    lemma_unit_norm_comp(n.z, fmul_s(n.z, n.z));
}

/// One component whose truncated square is at most one is itself at most
/// one in magnitude.
proof fn lemma_unit_norm_comp(x: int, t: int)
    requires
        t == fmul_s(x, x),
        t <= ONE as int,
    ensures
        abs_i(x) <= ONE as int,
{
    let s = ONE as int;
    lemma_tdiv_rem(x * x, s);
    assert(abs_i(x) <= s) by (nonlinear_arith)
        requires
            abs_i(t * s - x * x) < s,
            t <= s,
            s == 65536,
    ;
}

/// The dot product of `n * (-k)` with a unit normal `n` is `-k` up to a
/// small rounding error.
pub proof fn lemma_dot_antiparallel_tol(n: V3, k: int)
    requires
        dot_s(n, n) == ONE as int,
        0 <= k <= 0x4000_0000,
    ensures
        abs_i(dot_s(vscale(n, -k), n) + k) <= tdiv(3 * k, ONE as int) + 6,
{
    let s = ONE as int;
    let v = vscale(n, -k);
    let d = dot_s(v, n);
    lemma_unit_norm_comps(n);
    // remainders of the scaled components
    lemma_tdiv_rem(n.x * -k, s);
    lemma_tdiv_rem(n.y * -k, s);
    lemma_tdiv_rem(n.z * -k, s);
    let ex = v.x * s - n.x * -k;
    let ey = v.y * s - n.y * -k;
    let ez = v.z * s - n.z * -k;
    // remainders of the dot terms
    lemma_tdiv_rem(v.x * n.x, s);
    lemma_tdiv_rem(v.y * n.y, s);
    lemma_tdiv_rem(v.z * n.z, s);
    let fx_ = fmul_s(v.x, n.x) * s - v.x * n.x;
    let fy_ = fmul_s(v.y, n.y) * s - v.y * n.y;
    let fz_ = fmul_s(v.z, n.z) * s - v.z * n.z;
    // remainders of the unit normal's squared terms
    lemma_tdiv_rem(n.x * n.x, s);
    lemma_tdiv_rem(n.y * n.y, s);
    lemma_tdiv_rem(n.z * n.z, s);
    let gx = fmul_s(n.x, n.x) * s - n.x * n.x;
    let gy = fmul_s(n.y, n.y) * s - n.y * n.y;
    let gz = fmul_s(n.z, n.z) * s - n.z * n.z;
    // one scaled dot term at a time
    lemma_dot_tol_term(n.x, v.x, k, ex, fx_, gx);
    lemma_dot_tol_term(n.y, v.y, k, ey, fy_, gy);
    lemma_dot_tol_term(n.z, v.z, k, ez, fz_, gz);
    // the unit terms sum to one, so the k-fold sum collapses
    assert(k * (fmul_s(n.x, n.x) * s) + k * (fmul_s(n.y, n.y) * s) + k * (fmul_s(n.z, n.z) * s)
        == k * s * s) by (nonlinear_arith)
        requires
            fmul_s(n.x, n.x) + fmul_s(n.y, n.y) + fmul_s(n.z, n.z) == s,
    ;
    assert(s * s * (d + k) == k * gx + k * gy + k * gz + (ex * n.x + ey * n.y + ez * n.z) + s * (
    fx_ + fy_ + fz_)) by (nonlinear_arith)
        requires
            s * s * fmul_s(v.x, n.x) == 0 - k * (fmul_s(n.x, n.x) * s) + k * gx + ex * n.x + s
                * fx_,
            s * s * fmul_s(v.y, n.y) == 0 - k * (fmul_s(n.y, n.y) * s) + k * gy + ey * n.y + s
                * fy_,
            s * s * fmul_s(v.z, n.z) == 0 - k * (fmul_s(n.z, n.z) * s) + k * gz + ez * n.z + s
                * fz_,
            k * (fmul_s(n.x, n.x) * s) + k * (fmul_s(n.y, n.y) * s) + k * (fmul_s(n.z, n.z) * s)
                == k * s * s,
            d == fmul_s(v.x, n.x) + fmul_s(v.y, n.y) + fmul_s(v.z, n.z),
            s == 65536,
    ;
    // bound each contribution
    assert(abs_i(k * gx + k * gy + k * gz) <= 3 * k * s) by (nonlinear_arith)
        requires
            abs_i(gx) < s,
            abs_i(gy) < s,
            abs_i(gz) < s,
            0 <= k,
            s == 65536,
    ;
    assert(abs_i(ex * n.x + ey * n.y + ez * n.z) <= 3 * s * s) by (nonlinear_arith)
        requires
            abs_i(ex) < s,
            abs_i(ey) < s,
            abs_i(ez) < s,
            abs_i(n.x) <= s,
            abs_i(n.y) <= s,
            abs_i(n.z) <= s,
            s == 65536,
    ;
    assert(abs_i(s * (fx_ + fy_ + fz_)) <= 3 * s * s) by (nonlinear_arith)
        requires
            abs_i(fx_) < s,
            abs_i(fy_) < s,
            abs_i(fz_) < s,
            s == 65536,
    ;
    vstd::arithmetic::div_mod::lemma_fundamental_div_mod(3 * k, s);
    vstd::arithmetic::div_mod::lemma_mod_division_less_than_divisor(3 * k, s);
    assert(abs_i(d + k) <= tdiv(3 * k, s) + 6) by (nonlinear_arith)
        requires
            abs_i(s * s * (d + k)) <= 3 * k * s + 6 * s * s,
            3 * k == s * ((3 * k) / s) + ((3 * k) % s),
            0 <= ((3 * k) % s) < s,
            tdiv(3 * k, s) == (3 * k) / s,
            s == 65536,
    ;
}

/// The scaled identity for one term of the anti-parallel dot product.
proof fn lemma_dot_tol_term(nx: int, vx: int, k: int, e: int, f: int, g: int)
    requires
        e == vx * (ONE as int) - nx * -k,
        f == fmul_s(vx, nx) * (ONE as int) - vx * nx,
        g == fmul_s(nx, nx) * (ONE as int) - nx * nx,
    ensures
        (ONE as int) * (ONE as int) * fmul_s(vx, nx) == 0 - k * (fmul_s(nx, nx) * (ONE as int)) + k
            * g + e * nx + (ONE as int) * f,
{
    let s = ONE as int;
    let t = fmul_s(vx, nx);
    let u = fmul_s(nx, nx);
    assert(nx * -k == -(k * nx)) by (nonlinear_arith);
    assert(vx * s == e - k * nx);
    assert((vx * s) * nx == e * nx - k * (nx * nx)) by (nonlinear_arith)
        requires
            vx * s == e - k * nx,
    ;
    assert(k * (nx * nx) == k * (u * s) - k * g) by (nonlinear_arith)
        requires
            nx * nx == u * s - g,
    ;
    assert(s * (vx * nx) == (vx * s) * nx) by (nonlinear_arith);
    assert(s * s * t == s * (vx * nx) + s * f) by (nonlinear_arith)
        requires
            t * s == vx * nx + f,
            s == 65536,
    ;
    assert(s * s * t == 0 - k * (u * s) + k * g + e * nx + s * f);
}

/// Law (tolerance form): a direction anti-parallel to a unit normal — built
/// as `n * (-k)` for any representable positive length `k` — reflects to
/// its exact reverse up to rounding: each component differs from the
/// reverse by at most `6 k / 2^16 + 15` raw units, a relative error of a
/// few parts in ten thousand. The exact equality holds for `k` equal to
/// one, as `lemma_reflect_antiparallel` states.
pub proof fn lemma_reflect_antiparallel_tol(n: V3, k: int)
    requires
        dot_s(n, n) == ONE as int,
        0 <= k <= 0x4000_0000,
    ensures
        abs_i(vadd(reflect_s(vscale(n, -k), n), vscale(n, -k)).x) <= 2 * tdiv(3 * k, ONE as int)
            + 15,
        abs_i(vadd(reflect_s(vscale(n, -k), n), vscale(n, -k)).y) <= 2 * tdiv(3 * k, ONE as int)
            + 15,
        abs_i(vadd(reflect_s(vscale(n, -k), n), vscale(n, -k)).z) <= 2 * tdiv(3 * k, ONE as int)
            + 15,
{
    let s = ONE as int;
    let v = vscale(n, -k);
    let d = dot_s(v, n);
    lemma_unit_norm_comps(n);
    lemma_dot_antiparallel_tol(n, k);
    let bb = tdiv(3 * k, s) + 6;
    lemma_scale_two_exact(n.x);
    lemma_scale_two_exact(n.y);
    lemma_scale_two_exact(n.z);
    lemma_tdiv_rem(n.x * -k, s);
    lemma_tdiv_rem(n.y * -k, s);
    lemma_tdiv_rem(n.z * -k, s);
    lemma_reflect_tol_comp(n.x, v.x, d, k, bb);
    lemma_reflect_tol_comp(n.y, v.y, d, k, bb);
    lemma_reflect_tol_comp(n.z, v.z, d, k, bb);
}

/// One component of the anti-parallel reflection stays within the bound.
proof fn lemma_reflect_tol_comp(nx: int, vx: int, d: int, k: int, bb: int)
    requires
        abs_i(vx * (ONE as int) - nx * -k) < ONE as int,
        abs_i(nx) <= ONE as int,
        abs_i(d + k) <= bb,
        0 <= bb,
    ensures
        abs_i((vx - fmul_s(2 * nx, d)) + vx) <= 2 * bb + 3,
{
    let s = ONE as int;
    lemma_tdiv_rem(2 * nx * d, s);
    let w = fmul_s(2 * nx, d);
    assert(s * ((vx - w) + vx) == 0 - 2 * nx * (k + d) + 2 * (vx * s - nx * -k) - (w * s - 2 * nx
        * d)) by (nonlinear_arith)
        requires
            w == fmul_s(2 * nx, d),
            w * s - 2 * nx * d == fmul_s(2 * nx, d) * s - 2 * nx * d,
    ;
    assert(abs_i(s * ((vx - w) + vx)) <= s * (2 * bb + 3)) by (nonlinear_arith)
        requires
            s * ((vx - w) + vx) == 0 - 2 * nx * (k + d) + 2 * (vx * s - nx * -k) - (w * s - 2 * nx
                * d),
            abs_i(nx) <= s,
            abs_i(d + k) <= bb,
            abs_i(vx * s - nx * -k) < s,
            abs_i(w * s - 2 * nx * d) < s,
            0 <= bb,
            s == 65536,
    ;
    assert(abs_i((vx - w) + vx) <= 2 * bb + 3) by (nonlinear_arith)
        requires
            abs_i(s * ((vx - w) + vx)) <= s * (2 * bb + 3),
            0 <= bb,
            s == 65536,
    ;
}

/// Law: refraction returns no value exactly when the Snell discriminant is
/// not positive — the total-internal-reflection boundary — and otherwise
/// returns the refracted direction given by the Snell formula.
pub proof fn lemma_refract_condition(v: V3, n: V3, ni: int)
    ensures
        refract_s(v, n, ni) is None <==> refract_disc_s(v, n, ni) <= 0,
        refract_disc_s(v, n, ni) > 0 ==> refract_s(v, n, ni) == Some(
            vsub(
                vscale(vsub(unit_s(v), vscale(n, dot_s(unit_s(v), n))), ni),
                vscale(n, fsqrt_s(refract_disc_s(v, n, ni))),
            ),
        ),
{
}

/// Scaling by two in fixed point is exact doubling.
pub proof fn lemma_scale_two_exact(c: int)
    ensures
        fmul_s(c, 2 * (ONE as int)) == 2 * c,
{
    let s = ONE as int;
    assert(tdiv(c * (2 * s), s) == 2 * c) by (nonlinear_arith)
        requires
            s == 65536,
    ;
}

impl Vec3 {
    /// Builds a vector from its three raw fixed-point components.
    pub fn new(x: i64, y: i64, z: i64) -> (r: Vec3)
        ensures
            r@ == (V3 { x: x as int, y: y as int, z: z as int }),
    {
        Vec3(x, y, z)
    }

    /// The zero vector.
    pub fn zero() -> (r: Vec3)
        ensures
            r@ == (V3 { x: 0, y: 0, z: 0 }),
    {
        Vec3(0, 0, 0)
    }

    /// Componentwise sum.
    pub fn add(self, o: Vec3) -> (r: Vec3)
        requires
            bounded(self@, 0x2000_0000_0000_0000),
            bounded(o@, 0x2000_0000_0000_0000),
        ensures
            r@ == vadd(self@, o@),
    {
        Vec3(self.0 + o.0, self.1 + o.1, self.2 + o.2)
    }

    /// Componentwise difference.
    pub fn sub(self, o: Vec3) -> (r: Vec3)
        requires
            bounded(self@, 0x2000_0000_0000_0000),
            bounded(o@, 0x2000_0000_0000_0000),
        ensures
            r@ == vsub(self@, o@),
    {
        Vec3(self.0 - o.0, self.1 - o.1, self.2 - o.2)
    }

    /// Componentwise negation.
    pub fn neg(self) -> (r: Vec3)
        requires
            bounded(self@, 0x2000_0000_0000_0000),
        ensures
            r@ == vneg(self@),
    {
        Vec3(-self.0, -self.1, -self.2)
    }

    /// Componentwise fixed-point product.
    pub fn mul(self, o: Vec3) -> (r: Vec3)
        requires
            dot_ok(self@, o@),
        ensures
            r@ == vmul(self@, o@),
    {
        Vec3(fmul(self.0, o.0), fmul(self.1, o.1), fmul(self.2, o.2))
    }

    /// Fixed-point scaling by a scalar.
    pub fn scale(self, s: i64) -> (r: Vec3)
        requires
            mul_ok(self@.x, s as int),
            mul_ok(self@.y, s as int),
            mul_ok(self@.z, s as int),
        ensures
            r@ == vscale(self@, s as int),
    {
        Vec3(fmul(self.0, s), fmul(self.1, s), fmul(self.2, s))
    }

    /// Componentwise fixed-point quotient; every divisor component must be
    /// nonzero.
    pub fn div(self, o: Vec3) -> (r: Vec3)
        requires
            o@.x != 0 && o@.y != 0 && o@.z != 0,
            bounded(self@, FDIV_MAX as int),
        ensures
            r@ == vdiv(self@, o@),
    {
        Vec3(fdiv(self.0, o.0), fdiv(self.1, o.1), fdiv(self.2, o.2))
    }

    /// Fixed-point division by a nonzero scalar.
    pub fn div_scalar(self, s: i64) -> (r: Vec3)
        requires
            s != 0,
            bounded(self@, FDIV_MAX as int),
        ensures
            r@ == vdiv_scalar(self@, s as int),
    {
        Vec3(fdiv(self.0, s), fdiv(self.1, s), fdiv(self.2, s))
    }

    /// Fixed-point dot product.
    pub fn dot(a: Vec3, b: Vec3) -> (r: i64)
        requires
            dot_ok(a@, b@),
        ensures
            r as int == dot_s(a@, b@),
    {
        proof {
            lemma_fmul_bound(a@.x, b@.x, 0x1000_0000_0000_0000);
            lemma_fmul_bound(a@.y, b@.y, 0x1000_0000_0000_0000);
            lemma_fmul_bound(a@.z, b@.z, 0x1000_0000_0000_0000);
        }
        fmul(a.0, b.0) + fmul(a.1, b.1) + fmul(a.2, b.2)
    }

    /// Squared magnitude.
    pub fn sqr_magn(&self) -> (r: i64)
        requires
            bounded(self@, MAGN_LIM as int),
        ensures
            r as int == sqr_magn_s(self@),
            0 <= r,
    {
        proof {
            lemma_dot_bound(self@, self@, MAGN_LIM as int, MAGN_LIM as int, 0x4000_0000_0000);
            lemma_sqr_magn_nonneg(self@);
        }
        Vec3::dot(*self, *self)
    }

    /// Magnitude.
    pub fn magn(&self) -> (r: i64)
        requires
            bounded(self@, MAGN_LIM as int),
        ensures
            r as int == magn_s(self@),
            0 <= r,
    {
        let sq: i64 = self.sqr_magn();
        fsqrt(sq)
    }

    /// Normalization; the vector must be nonzero in the fixed-point sense.
    pub fn to_unit(self) -> (r: Vec3)
        requires
            bounded(self@, GEOM_LIM as int),
            1 <= sqr_magn_s(self@),
        ensures
            r@ == unit_s(self@),
            bounded(r@, UNIT_LIM as int),
    {
        proof {
            lemma_unit_bound(self@);
        }
        let m: i64 = self.magn();
        self.div_scalar(m)
    }

    /// Reports whether every component's magnitude is within `lim`.
    pub fn in_bounds(&self, lim: i64) -> (b: bool)
        requires
            0 <= lim,
        ensures
            b == bounded(self@, lim as int),
    {
        -lim <= self.0 && self.0 <= lim && -lim <= self.1 && self.1 <= lim && -lim <= self.2
            && self.2 <= lim
    }

    /// Mirror reflection of `v` about the normal `n`.
    pub fn reflect(v: Vec3, n: Vec3) -> (r: Vec3)
        requires
            bounded(v@, REFL_LIM as int),
            bounded(n@, REFL_LIM as int),
        ensures
            r@ == reflect_s(v@, n@),
    {
        proof {
            let l = REFL_LIM as int;
            lemma_dot_bound(v@, n@, l, l, 0x100_0000_0000);
            lemma_scale_two_exact(n@.x);
            lemma_scale_two_exact(n@.y);
            lemma_scale_two_exact(n@.z);
            lemma_scale_bound(n@, 2 * (ONE as int), l, 2 * (ONE as int), 2 * l);
            lemma_scale_bound(
                vscale(n@, 2 * (ONE as int)),
                dot_s(v@, n@),
                2 * l,
                0x300_0000_0000,
                0x60_0000_0000_0000,
            );
        }
        let d: i64 = Vec3::dot(v, n);
        v.sub(n.scale(2 * ONE).scale(d))
    }

    /// Snell refraction of `v` about the outward normal `n` with refraction
    /// ratio `ni`; no value means total internal reflection.
    pub fn refract(v: Vec3, n: Vec3, ni_div_nt: i64) -> (r: Option<Vec3>)
        requires
            bounded(v@, GEOM_LIM as int),
            bounded(n@, GEOM_LIM as int),
            1 <= sqr_magn_s(v@),
            0 <= ni_div_nt <= NI_LIM as int,
        ensures
            r matches Some(w) ==> refract_s(v@, n@, ni_div_nt as int) == Some(w@),
            r is None <==> refract_s(v@, n@, ni_div_nt as int) is None,
    {
        let ni: i64 = ni_div_nt;
        proof {
            lemma_unit_bound(v@);
            lemma_dot_bound(unit_s(v@), n@, UNIT_LIM as int, GEOM_LIM as int, 0x2000_0000);
            lemma_fmul_abs(
                dot_s(unit_s(v@), n@),
                dot_s(unit_s(v@), n@),
                0x6000_0000,
                0x6000_0000,
                0x2400_0000_0000,
            );
            lemma_fmul_abs(ni as int, ni as int, NI_LIM as int, NI_LIM as int, 0x4000_0000);
            lemma_fmul_abs(
                fmul_s(ni as int, ni as int),
                (ONE as int) - fmul_s(dot_s(unit_s(v@), n@), dot_s(unit_s(v@), n@)),
                0x4000_0000,
                0x2401_0000_0000,
                0x1000_0000_0000_0000,
            );
        }
        let uv: Vec3 = v.to_unit();
        let dt: i64 = Vec3::dot(uv, n);
        let omd: i64 = ONE - fmul(dt, dt);
        let disc: i64 = ONE - fmul(fmul(ni, ni), omd);
        if disc > 0 {
            proof {
                assert((disc as int) * (ONE as int) < 0x80_0000_0000 * 0x80_0000_0000) by (
                nonlinear_arith)
                    requires
                        0 < disc as int <= 0x1000_0100_0000_0000,
                ;
                lemma_sqrt_below((disc as int) * (ONE as int), 0x80_0000_0000);
                lemma_scale_bound(n@, dt as int, GEOM_LIM as int, 0x6000_0000, 0xc000_0000_0000);
                lemma_scale_bound(
                    vsub(unit_s(v@), vscale(n@, dt as int)),
                    ni as int,
                    0xc010_0000_0000,
                    NI_LIM as int,
                    0x100_0000_0000_0000,
                );
                lemma_scale_bound(
                    n@,
                    fsqrt_s(disc as int),
                    GEOM_LIM as int,
                    0x80_0000_0000,
                    0x100_0000_0000_0000,
                );
            }
            let refr: Vec3 = uv.sub(n.scale(dt)).scale(ni).sub(n.scale(fsqrt(disc)));
            Some(refr)
        } else {
            None
        }
    }
}

} // verus!
