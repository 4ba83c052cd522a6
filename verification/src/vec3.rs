//! Three-component fixed-point vectors, used for points, directions and
//! RGB colors alike.
//!
//! The mathematical image of a [`Vec3`] is a [`V3`]: the three raw
//! component values as unbounded integers.  Every operation has an exact
//! specification function over `V3`, and each executable method ensures
//! equality with it.

use vstd::prelude::*;

use crate::fixed::{
    absi, fdiv, fits, fmul, fsqrt, isqrt_spec, lemma_fmul_bound, lemma_isqrt_bounds,
    lemma_tdiv_bound, lemma_tdiv_exact, tdiv, Fixed, SCALE,
};
use crate::rng::random_raw_in;

verus! {

/// Largest component magnitude accepted by the product-forming
/// operations (dot, cross, componentwise and scalar products): with both
/// arguments within it, no intermediate value can leave `i64`.
pub const PROD_ARG_MAX: i64 = 0x40_0000_0000;

/// The scene envelope: coordinates, directions, radii and parametric
/// distances of magnitude up to `1024.0` (raw `2^26`) are representable
/// with room to spare in every intermediate of the intersection
/// arithmetic.  Values outside it are treated as degenerate geometry.
pub const COORD_MAX: i64 = 0x400_0000;

/// The mathematical image of a vector: its raw components as integers.
pub struct V3 {
    pub x: int,
    pub y: int,
    pub z: int,
}

/// All three components have magnitude at most `m`.
pub open spec fn in_range(a: V3, m: int) -> bool {
    absi(a.x) <= m && absi(a.y) <= m && absi(a.z) <= m
}

pub open spec fn add3(a: V3, b: V3) -> V3 {
    V3 { x: a.x + b.x, y: a.y + b.y, z: a.z + b.z }
}

pub open spec fn sub3(a: V3, b: V3) -> V3 {
    V3 { x: a.x - b.x, y: a.y - b.y, z: a.z - b.z }
}

pub open spec fn neg3(a: V3) -> V3 {
    V3 { x: -a.x, y: -a.y, z: -a.z }
}

/// Componentwise (Hadamard) product, the color-blending product.
pub open spec fn mul3(a: V3, b: V3) -> V3 {
    V3 { x: fmul(a.x, b.x), y: fmul(a.y, b.y), z: fmul(a.z, b.z) }
}

/// Product with a scalar.
pub open spec fn scale3(a: V3, t: int) -> V3 {
    V3 { x: fmul(a.x, t), y: fmul(a.y, t), z: fmul(a.z, t) }
}

/// Quotient by a scalar.
pub open spec fn div3(a: V3, t: int) -> V3 {
    V3 { x: fdiv(a.x, t), y: fdiv(a.y, t), z: fdiv(a.z, t) }
}

pub open spec fn dot3(a: V3, b: V3) -> int {
    fmul(a.x, b.x) + fmul(a.y, b.y) + fmul(a.z, b.z)
}

pub open spec fn cross3(a: V3, b: V3) -> V3 {
    V3 {
        x: fmul(a.y, b.z) - fmul(a.z, b.y),
        y: fmul(a.z, b.x) - fmul(a.x, b.z),
        z: fmul(a.x, b.y) - fmul(a.y, b.x),
    }
}

pub open spec fn len_sq3(a: V3) -> int {
    dot3(a, a)
}

pub open spec fn len3(a: V3) -> int {
    fsqrt(len_sq3(a))
}

pub open spec fn unit3(a: V3) -> V3 {
    div3(a, len3(a))
}

/// Mirror reflection of `v` about the normal `n`.
pub open spec fn reflect3(v: V3, n: V3) -> V3 {
    sub3(v, scale3(n, 2 * dot3(v, n)))
}

/// Snell refraction of the unit direction `uv` at a surface of unit
/// normal `n`, for refraction ratio `eta`; the radicand is clamped at
/// zero where rounding would drive it below.
pub open spec fn refract3(uv: V3, n: V3, eta: int) -> V3 {
    let cos_theta = dot3(neg3(uv), n);
    let r_par = scale3(add3(uv, scale3(n, cos_theta)), eta);
    let k = SCALE as int - len_sq3(r_par);
    add3(r_par, scale3(n, -fsqrt(k)))
}

/// A square is never negative, so each diagonal product term of a dot
/// product is never negative.
pub proof fn lemma_fmul_square_nonneg(a: int)
    ensures
        fmul(a, a) >= 0,
{
    assert(a * a >= 0) by (nonlinear_arith);
}

/// Range of a dot product from ranges of its arguments.
pub proof fn lemma_dot3_bound(a: V3, b: V3, m: int, n: int)
    requires
        in_range(a, m),
        in_range(b, n),
    ensures
        absi(dot3(a, b)) <= 3 * ((m * n) / (SCALE as int)),
{
    lemma_fmul_bound(a.x, b.x, m, n);
    lemma_fmul_bound(a.y, b.y, m, n);
    lemma_fmul_bound(a.z, b.z, m, n);
}

/// Range of a cross product from ranges of its arguments.
pub proof fn lemma_cross3_bound(a: V3, b: V3, m: int, n: int)
    requires
        in_range(a, m),
        in_range(b, n),
    ensures
        in_range(cross3(a, b), 2 * ((m * n) / (SCALE as int))),
{
    lemma_fmul_bound(a.y, b.z, m, n);
    lemma_fmul_bound(a.z, b.y, m, n);
    lemma_fmul_bound(a.z, b.x, m, n);
    lemma_fmul_bound(a.x, b.z, m, n);
    lemma_fmul_bound(a.x, b.y, m, n);
    lemma_fmul_bound(a.y, b.x, m, n);
}

/// Range of a scalar product from ranges of its arguments.
pub proof fn lemma_scale3_bound(a: V3, t: int, m: int, n: int)
    requires
        in_range(a, m),
        absi(t) <= n,
    ensures
        in_range(scale3(a, t), (m * n) / (SCALE as int)),
{
    lemma_fmul_bound(a.x, t, m, n);
    lemma_fmul_bound(a.y, t, m, n);
    lemma_fmul_bound(a.z, t, m, n);
}

/// Range of a quotient by a positive scalar.
pub proof fn lemma_div3_bound(a: V3, t: int, m: int)
    requires
        in_range(a, m),
        t > 0,
        m >= 0,
    ensures
        in_range(div3(a, t), (m * (SCALE as int)) / t),
{
    assert(absi(a.x * SCALE) <= m * SCALE && absi(a.y * SCALE) <= m * SCALE
        && absi(a.z * SCALE) <= m * SCALE) by (nonlinear_arith)
        requires
            absi(a.x) <= m,
            absi(a.y) <= m,
            absi(a.z) <= m,
    ;
    lemma_tdiv_bound(a.x * SCALE, t, m * SCALE);
    lemma_tdiv_bound(a.y * SCALE, t, m * SCALE);
    lemma_tdiv_bound(a.z * SCALE, t, m * SCALE);
}

/// A squared length is never negative, and each component is bounded by
/// the squared length: `fmul(x, x) <= len_sq3`.
pub proof fn lemma_len_sq3_nonneg(a: V3)
    ensures
        len_sq3(a) >= 0,
        fmul(a.x, a.x) <= len_sq3(a),
        fmul(a.y, a.y) <= len_sq3(a),
        fmul(a.z, a.z) <= len_sq3(a),
        len3(a) >= 0,
{
    assert(a.x * a.x >= 0) by (nonlinear_arith);
    assert(a.y * a.y >= 0) by (nonlinear_arith);
    assert(a.z * a.z >= 0) by (nonlinear_arith);
    if len_sq3(a) > 0 {
        lemma_isqrt_bounds(len_sq3(a) * SCALE);
    }
}

/// A normalized vector has components of magnitude at most `4 * SCALE`.
pub proof fn lemma_unit3_bound(a: V3)
    requires
        len_sq3(a) >= 1,
    ensures
        in_range(unit3(a), 4 * (SCALE as int)),
        len3(a) >= 256,
{
    let s = SCALE as int;
    let ls = len_sq3(a);
    let ll = len3(a);
    lemma_len_sq3_nonneg(a);
    lemma_isqrt_bounds(ls * s);
    assert(ls * s >= 65536) by (nonlinear_arith)
        requires
            ls >= 1,
            s == 65536,
    ;
    assert(ll >= 256) by (nonlinear_arith)
        requires
            ll >= 0,
            ls * s >= 65536,
            ls * s < (ll + 1) * (ll + 1),
    ;
    lemma_unit3_component_bound(a, a.x);
    lemma_unit3_component_bound(a, a.y);
    lemma_unit3_component_bound(a, a.z);
}

/// One component of a normalized vector is within `4 * SCALE`, provided
/// its square is accounted for in the squared length.
proof fn lemma_unit3_component_bound(a: V3, c: int)
    requires
        len_sq3(a) >= 1,
        fmul(c, c) <= len_sq3(a),
        c == a.x || c == a.y || c == a.z,
    ensures
        absi(fdiv(c, len3(a))) <= 4 * (SCALE as int),
{
    let s = SCALE as int;
    let ls = len_sq3(a);
    let ll = len3(a);
    lemma_len_sq3_nonneg(a);
    lemma_isqrt_bounds(ls * s);
    assert(ll >= 256) by (nonlinear_arith)
        requires
            ll >= 0,
            ls >= 1,
            s == 65536,
            ls * s < (ll + 1) * (ll + 1),
    ;
    // c * c <= (ls + 1) * s, since fmul(c, c) = tdiv(c * c, s) <= ls
    crate::fixed::lemma_tdiv_error(c * c, s);
    assert(c * c >= 0) by (nonlinear_arith);
    assert(c * c <= ls * s + s) by (nonlinear_arith)
        requires
            c * c >= 0,
            c * c - tdiv(c * c, s) * s < s,
            tdiv(c * c, s) <= ls,
            s > 0,
    ;
    // hence |c| <= ll + 258
    assert(absi(c) <= ll + 258) by (nonlinear_arith)
        requires
            c * c <= ls * s + s,
            ls * s < (ll + 1) * (ll + 1),
            s == 65536,
            ll >= 256,
    ;
    // and |c * s / ll| <= (ll + 258) * s / ll <= s + 258 * s / 256
    lemma_tdiv_bound(c * s, ll, (ll + 258) * s);
    assert(absi(c * s) <= (ll + 258) * s) by (nonlinear_arith)
        requires
            absi(c) <= ll + 258,
            s > 0,
    ;
    assert(((ll + 258) * s) / ll <= 4 * s) by (nonlinear_arith)
        requires
            ll >= 256,
            s == 65536,
    ;
}

/// A dot product over exact integer products, before any fixed-point
/// rounding.
pub open spec fn dot3_exact(a: V3, b: V3) -> int {
    a.x * b.x + a.y * b.y + a.z * b.z
}

/// A cross product over exact integer products, before any fixed-point
/// rounding.
pub open spec fn cross3_exact(a: V3, b: V3) -> V3 {
    V3 {
        x: a.y * b.z - a.z * b.y,
        y: a.z * b.x - a.x * b.z,
        z: a.x * b.y - a.y * b.x,
    }
}

/// The cross product is orthogonal to both factors: exactly, before
/// rounding.
pub proof fn lemma_cross_orthogonal_exact(a: V3, b: V3)
    ensures
        dot3_exact(cross3_exact(a, b), a) == 0,
        dot3_exact(cross3_exact(a, b), b) == 0,
{
    assert((a.y * b.z - a.z * b.y) * a.x + (a.z * b.x - a.x * b.z) * a.y + (a.x * b.y - a.y
        * b.x) * a.z == 0) by (nonlinear_arith);
    assert((a.y * b.z - a.z * b.y) * b.x + (a.z * b.x - a.x * b.z) * b.y + (a.x * b.y - a.y
        * b.x) * b.z == 0) by (nonlinear_arith);
}

/// The computed dot product of a computed cross product with a vector
/// whose exact counterpart it is orthogonal to: at most `6 * m / SCALE
/// + 3` raw units from zero, for components within `m` — rounding is
/// the only deviation.
proof fn lemma_cross_dot_small(a: V3, b: V3, w: V3, m: int)
    requires
        in_range(a, m),
        in_range(b, m),
        in_range(w, m),
        m >= 0,
        dot3_exact(cross3_exact(a, b), w) == 0,
    ensures
        (SCALE as int) * absi(dot3(cross3(a, b), w)) <= 6 * m + 3 * (SCALE as int),
{
    let s = SCALE as int;
    let c = cross3(a, b);
    let u = cross3_exact(a, b);
    crate::fixed::lemma_tdiv_error(a.y * b.z, s);
    crate::fixed::lemma_tdiv_error(a.z * b.y, s);
    crate::fixed::lemma_tdiv_error(a.z * b.x, s);
    crate::fixed::lemma_tdiv_error(a.x * b.z, s);
    crate::fixed::lemma_tdiv_error(a.x * b.y, s);
    crate::fixed::lemma_tdiv_error(a.y * b.x, s);
    assert(absi(u.x - s * c.x) <= 2 * s);
    assert(absi(u.y - s * c.y) <= 2 * s);
    assert(absi(u.z - s * c.z) <= 2 * s);
    crate::fixed::lemma_tdiv_error(c.x * w.x, s);
    crate::fixed::lemma_tdiv_error(c.y * w.y, s);
    crate::fixed::lemma_tdiv_error(c.z * w.z, s);
    let dd = dot3(c, w);
    let q = c.x * w.x + c.y * w.y + c.z * w.z;
    assert(absi(s * dd - q) <= 3 * s);
    assert(s * (c.x * w.x) == u.x * w.x - (u.x - s * c.x) * w.x) by (nonlinear_arith);
    assert(s * (c.y * w.y) == u.y * w.y - (u.y - s * c.y) * w.y) by (nonlinear_arith);
    assert(s * (c.z * w.z) == u.z * w.z - (u.z - s * c.z) * w.z) by (nonlinear_arith);
    assert(absi((u.x - s * c.x) * w.x) <= 2 * s * m) by (nonlinear_arith)
        requires
            absi(u.x - s * c.x) <= 2 * s,
            absi(w.x) <= m,
            s == 65536,
    ;
    assert(absi((u.y - s * c.y) * w.y) <= 2 * s * m) by (nonlinear_arith)
        requires
            absi(u.y - s * c.y) <= 2 * s,
            absi(w.y) <= m,
            s == 65536,
    ;
    assert(absi((u.z - s * c.z) * w.z) <= 2 * s * m) by (nonlinear_arith)
        requires
            absi(u.z - s * c.z) <= 2 * s,
            absi(w.z) <= m,
            s == 65536,
    ;
    assert(u.x * w.x + u.y * w.y + u.z * w.z == 0);
    assert(absi(s * q) <= 6 * s * m) by (nonlinear_arith)
        requires
            s * q == s * (c.x * w.x) + s * (c.y * w.y) + s * (c.z * w.z),
            s * (c.x * w.x) == u.x * w.x - (u.x - s * c.x) * w.x,
            s * (c.y * w.y) == u.y * w.y - (u.y - s * c.y) * w.y,
            s * (c.z * w.z) == u.z * w.z - (u.z - s * c.z) * w.z,
            u.x * w.x + u.y * w.y + u.z * w.z == 0,
            absi((u.x - s * c.x) * w.x) <= 2 * s * m,
            absi((u.y - s * c.y) * w.y) <= 2 * s * m,
            absi((u.z - s * c.z) * w.z) <= 2 * s * m,
    ;
    assert(s * (s * dd) == s * q + s * (s * dd - q)) by (nonlinear_arith);
    assert(absi(s * (s * dd - q)) <= s * (3 * s)) by (nonlinear_arith)
        requires
            absi(s * dd - q) <= 3 * s,
            s == 65536,
    ;
    assert(s * absi(dd) <= 6 * m + 3 * s) by (nonlinear_arith)
        requires
            absi(s * (s * dd)) <= 6 * s * m + s * (3 * s),
            s == 65536,
    ;
}

/// Cross-product orthogonality: the computed `dot(cross(a, b), a)` and
/// `dot(cross(a, b), b)` lie within `6 * m / SCALE + 3` raw units of
/// zero for components within `m` — the exact products are orthogonal,
/// and only fixed-point rounding remains.
pub proof fn lemma_cross_orthogonal(a: V3, b: V3, m: int)
    requires
        in_range(a, m),
        in_range(b, m),
        m >= 0,
    ensures
        (SCALE as int) * absi(dot3(cross3(a, b), a)) <= 6 * m + 3 * (SCALE as int),
        (SCALE as int) * absi(dot3(cross3(a, b), b)) <= 6 * m + 3 * (SCALE as int),
{
    lemma_cross_orthogonal_exact(a, b);
    lemma_cross_dot_small(a, b, a, m);
    lemma_cross_dot_small(a, b, b, m);
}

/// Unit length after normalization: for every vector of length at
/// least one, the length of `unit_vector(v)` is within `8` raw units
/// (about `1.2e-4`) of one.  This is the fixed-point reading of the
/// floating-point tolerance: rounding is the only deviation.
pub proof fn lemma_unit_vector_length(v: V3)
    requires
        len_sq3(v) >= SCALE as int,
    ensures
        absi(len3(unit3(v)) - SCALE as int) <= 8,
{
    let s = SCALE as int;
    let ls = len_sq3(v);
    let ll = len3(v);
    lemma_len_sq3_nonneg(v);
    lemma_isqrt_bounds(ls * s);

    // The length is at least one: ls * s >= s * s.
    assert(ls * s >= s * s) by (nonlinear_arith)
        requires
            ls >= s,
            s == 65536,
    ;
    assert(ll >= s) by (nonlinear_arith)
        requires
            ll >= 0,
            ls * s >= s * s,
            ls * s < (ll + 1) * (ll + 1),
            s == 65536,
    ;

    // The exact squared norm SV deviates from s * ls by the three
    // rounding remainders of the squared-length terms.
    let sv = v.x * v.x + v.y * v.y + v.z * v.z;
    crate::fixed::lemma_tdiv_error(v.x * v.x, s);
    crate::fixed::lemma_tdiv_error(v.y * v.y, s);
    crate::fixed::lemma_tdiv_error(v.z * v.z, s);
    assert(absi(sv - s * ls) <= 3 * s);

    // Each component is within the length plus normalization slack.
    lemma_component_near_length(v, v.x);
    lemma_component_near_length(v, v.y);
    lemma_component_near_length(v, v.z);

    // The normalized components, scaled back by the length, deviate
    // from the scaled originals by less than the length itself.
    let w = unit3(v);
    crate::fixed::lemma_tdiv_error(v.x * s, ll);
    crate::fixed::lemma_tdiv_error(v.y * s, ll);
    crate::fixed::lemma_tdiv_error(v.z * s, ll);
    let gx = ll * w.x - v.x * s;
    let gy = ll * w.y - v.y * s;
    let gz = ll * w.z - v.z * s;
    assert(w.x == tdiv(v.x * s, ll) && w.y == tdiv(v.y * s, ll) && w.z == tdiv(v.z * s,
        ll));
    assert(absi(gx) <= ll && absi(gy) <= ll && absi(gz) <= ll) by (nonlinear_arith)
        requires
            absi(v.x * s - tdiv(v.x * s, ll) * ll) < ll,
            absi(v.y * s - tdiv(v.y * s, ll) * ll) < ll,
            absi(v.z * s - tdiv(v.z * s, ll) * ll) < ll,
            gx == ll * tdiv(v.x * s, ll) - v.x * s,
            gy == ll * tdiv(v.y * s, ll) - v.y * s,
            gz == ll * tdiv(v.z * s, ll) - v.z * s,
    ;

    // The exact squared norm of the normalized vector, scaled by the
    // squared length, expands into the original squared norm plus
    // bounded cross terms — one component at a time.
    let sw = w.x * w.x + w.y * w.y + w.z * w.z;
    lemma_scaled_square_expansion(ll, w.x, v.x, s, gx);
    lemma_scaled_square_expansion(ll, w.y, v.y, s, gy);
    lemma_scaled_square_expansion(ll, w.z, v.z, s, gz);
    lemma_sum3_distribute(ll * ll, w.x * w.x, w.y * w.y, w.z * w.z);
    lemma_sum3_distribute(s * s, v.x * v.x, v.y * v.y, v.z * v.z);
    lemma_sum3_distribute(2 * s, v.x * gx, v.y * gy, v.z * gz);
    assert(ll * ll * sw == s * s * sv + 2 * s * (v.x * gx + v.y * gy + v.z * gz) + (gx
        * gx + gy * gy + gz * gz));
    assert(absi(v.x * gx) <= (ll + 258) * ll && absi(v.y * gy) <= (ll + 258) * ll && absi(
        v.z * gz) <= (ll + 258) * ll) by (nonlinear_arith)
        requires
            absi(v.x) <= ll + 258,
            absi(v.y) <= ll + 258,
            absi(v.z) <= ll + 258,
            absi(gx) <= ll,
            absi(gy) <= ll,
            absi(gz) <= ll,
            ll >= 1,
    ;
    assert(absi(2 * s * (v.x * gx + v.y * gy + v.z * gz)) <= 6 * s * ll * (ll + 258))
        by (nonlinear_arith)
        requires
            absi(v.x * gx) <= (ll + 258) * ll,
            absi(v.y * gy) <= (ll + 258) * ll,
            absi(v.z * gz) <= (ll + 258) * ll,
            ll >= 1,
            s == 65536,
    ;
    assert(gx * gx + gy * gy + gz * gz <= 3 * ll * ll) by (nonlinear_arith)
        requires
            absi(gx) <= ll,
            absi(gy) <= ll,
            absi(gz) <= ll,
    ;

    // The squared length in turn sits just below the scaled squared
    // norm: ls * s = ll^2 + e with 0 <= e <= 2 * ll.
    assert(0 <= ls * s - ll * ll <= 2 * ll) by (nonlinear_arith)
        requires
            ll * ll <= ls * s,
            ls * s < (ll + 1) * (ll + 1),
            ll >= 0,
    ;

    // Assemble: |ll^2 * (sw - s^2)| <= 12 * s * ll^2, using ll >= s.
    assert(absi(ll * ll * sw - ll * ll * (s * s)) <= 12 * s * (ll * ll))
        by (nonlinear_arith)
        requires
            ll * ll * sw == s * s * sv + 2 * s * (v.x * gx + v.y * gy + v.z * gz) + (gx
                * gx + gy * gy + gz * gz),
            absi(sv - s * ls) <= 3 * s,
            0 <= ls * s - ll * ll <= 2 * ll,
            absi(2 * s * (v.x * gx + v.y * gy + v.z * gz)) <= 6 * s * ll * (ll + 258),
            gx * gx + gy * gy + gz * gz <= 3 * ll * ll,
            ll >= s,
            s == 65536,
    ;
    assert(absi(sw - s * s) <= 12 * s) by (nonlinear_arith)
        requires
            absi(ll * ll * sw - ll * ll * (s * s)) <= 12 * s * (ll * ll),
            ll >= 1,
    ;

    // From the exact squared norm to the computed squared length, then
    // through the square root.
    let lsw = len_sq3(w);
    crate::fixed::lemma_tdiv_error(w.x * w.x, s);
    crate::fixed::lemma_tdiv_error(w.y * w.y, s);
    crate::fixed::lemma_tdiv_error(w.z * w.z, s);
    assert(absi(s * lsw - sw) <= 3 * s);
    assert(s - 15 <= lsw <= s + 15) by (nonlinear_arith)
        requires
            absi(s * lsw - sw) <= 3 * s,
            absi(sw - s * s) <= 12 * s,
            s == 65536,
    ;
    assert(lsw * s > 0) by (nonlinear_arith)
        requires
            lsw >= s - 15,
            s == 65536,
    ;
    lemma_isqrt_bounds(lsw * s);
    let r = isqrt_spec(lsw * s);
    assert(len3(w) == r);
    assert(s - 8 <= r <= s + 8) by (nonlinear_arith)
        requires
            r >= 0,
            r * r <= lsw * s,
            lsw * s < (r + 1) * (r + 1),
            s - 15 <= lsw <= s + 15,
            s == 65536,
    ;
}

/// Multiplication distributes over a three-term sum.
proof fn lemma_sum3_distribute(a: int, x1: int, x2: int, x3: int)
    ensures
        a * (x1 + x2 + x3) == a * x1 + a * x2 + a * x3,
{
    assert(a * (x1 + x2 + x3) == a * x1 + a * x2 + a * x3) by (nonlinear_arith);
}

/// `(l * w)^2` expanded through `l * w = v * s + g`.
proof fn lemma_scaled_square_expansion(l: int, w: int, v: int, s: int, g: int)
    requires
        g == l * w - v * s,
    ensures
        l * l * (w * w) == s * s * (v * v) + 2 * s * (v * g) + g * g,
{
    assert(l * l * (w * w) == (l * w) * (l * w)) by (nonlinear_arith);
    assert((v * s + g) * (v * s + g) == s * s * (v * v) + 2 * s * (v * g) + g * g)
        by (nonlinear_arith);
}

/// A component's magnitude is within normalization slack of the
/// vector's computed length.
proof fn lemma_component_near_length(v: V3, c: int)
    requires
        len_sq3(v) >= 1,
        c == v.x || c == v.y || c == v.z,
    ensures
        absi(c) <= len3(v) + 258,
{
    let s = SCALE as int;
    let ls = len_sq3(v);
    let ll = len3(v);
    lemma_len_sq3_nonneg(v);
    lemma_isqrt_bounds(ls * s);
    assert(ll >= 256) by (nonlinear_arith)
        requires
            ll >= 0,
            ls >= 1,
            s == 65536,
            ls * s < (ll + 1) * (ll + 1),
    ;
    crate::fixed::lemma_tdiv_error(c * c, s);
    assert(c * c >= 0) by (nonlinear_arith);
    assert(c * c <= ls * s + s) by (nonlinear_arith)
        requires
            c * c >= 0,
            c * c - tdiv(c * c, s) * s < s,
            tdiv(c * c, s) <= ls,
            s > 0,
    ;
    assert(absi(c) <= ll + 258) by (nonlinear_arith)
        requires
            c * c <= ls * s + s,
            ls * s < (ll + 1) * (ll + 1),
            s == 65536,
            ll >= 256,
    ;
}

/// Normalization yields a vector of length exactly one on axis-aligned
/// vectors whose component is a multiple of `1/256` (a square then
/// divides the scale): exactness in place of a floating-point
/// tolerance.
pub proof fn lemma_unit_axis_length(c: int)
    requires
        c != 0,
        c % 256 == 0,
    ensures
        len3(unit3(V3 { x: c, y: 0, z: 0 })) == SCALE as int,
{
    let s = SCALE as int;
    let v = V3 { x: c, y: 0, z: 0 };
    let m = c / 256;
    assert(c == 256 * m);
    assert(0 * 0 == 0 && 0int / 65536 == 0);
    assert(fmul(0, 0) == 0);
    assert(c * c == (m * m) * s) by (nonlinear_arith)
        requires
            c == 256 * m,
            s == 65536,
    ;
    crate::fixed::lemma_tdiv_exact(m * m, s);
    assert(len_sq3(v) == m * m);
    let amc = absi(c);
    assert((m * m) * s == amc * amc && amc > 0 && m * m > 0) by (nonlinear_arith)
        requires
            c == 256 * m,
            s == 65536,
            amc == absi(c),
            c != 0,
    ;
    crate::fixed::lemma_isqrt_exact_square(amc);
    assert(len3(v) == amc);
    if c > 0 {
        crate::fixed::lemma_tdiv_exact(s, c);
        assert(c * s == s * c) by (nonlinear_arith);
        assert(fdiv(c, amc) == s);
    } else {
        crate::fixed::lemma_tdiv_exact(-s, -c);
        assert(c * s == (-s) * (-c)) by (nonlinear_arith);
        assert(fdiv(c, amc) == -s);
    }
    crate::fixed::lemma_tdiv_nonneg(0, amc);
    crate::fixed::lemma_tdiv_bound(0, amc, 0);
    assert(fdiv(0, amc) == 0);
    let uu = unit3(v);
    assert(uu.x == s || uu.x == -s);
    assert(uu.y == 0 && uu.z == 0);
    assert(uu.x * uu.x == s * s) by (nonlinear_arith)
        requires
            uu.x == s || uu.x == -s,
    ;
    crate::fixed::lemma_tdiv_exact(s, s);
    assert(len_sq3(uu) == s);
    crate::fixed::lemma_isqrt_exact_square(s);
    assert(s * s == 65536 * 65536);
    assert(len3(uu) == s);
}

/// A three-component fixed-point vector: a point, a free vector or an
/// RGB color, depending on use.
#[derive(Clone, Copy, PartialEq, Eq, Structural, Debug)]
pub struct Vec3 {
    pub x: Fixed,
    pub y: Fixed,
    pub z: Fixed,
}

impl View for Vec3 {
    type V = V3;

    open spec fn view(&self) -> V3 {
        V3 { x: self.x@, y: self.y@, z: self.z@ }
    }
}

impl Vec3 {
    /// The zero vector.
    pub fn new() -> (r: Vec3)
        ensures
            r@ === (V3 { x: 0, y: 0, z: 0 }),
    {
        Vec3 { x: Fixed::zero(), y: Fixed::zero(), z: Fixed::zero() }
    }

    /// The vector with the given components.
    pub fn from(x: Fixed, y: Fixed, z: Fixed) -> (r: Vec3)
        ensures
            r@ === (V3 { x: x@, y: y@, z: z@ }),
    {
        Vec3 { x, y, z }
    }

    /// The X component.
    pub fn x(&self) -> (r: Fixed)
        ensures
            r@ == self@.x,
    {
        self.x
    }

    /// The Y component.
    pub fn y(&self) -> (r: Fixed)
        ensures
            r@ == self@.y,
    {
        self.y
    }

    /// The Z component.
    pub fn z(&self) -> (r: Fixed)
        ensures
            r@ == self@.z,
    {
        self.z
    }

    /// Whether every component's magnitude is at most `m`.
    pub fn within(&self, m: i64) -> (r: bool)
        requires
            m >= 0,
        ensures
            r == in_range(self@, m as int),
    {
        -m <= self.x.raw && self.x.raw <= m && -m <= self.y.raw && self.y.raw <= m
            && -m <= self.z.raw && self.z.raw <= m
    }

    pub fn add(self, o: Vec3) -> (r: Vec3)
        requires
            fits(self@.x + o@.x),
            fits(self@.y + o@.y),
            fits(self@.z + o@.z),
        ensures
            r@ === add3(self@, o@),
    {
        Vec3 { x: self.x.add(o.x), y: self.y.add(o.y), z: self.z.add(o.z) }
    }

    pub fn sub(self, o: Vec3) -> (r: Vec3)
        requires
            fits(self@.x - o@.x),
            fits(self@.y - o@.y),
            fits(self@.z - o@.z),
        ensures
            r@ === sub3(self@, o@),
    {
        Vec3 { x: self.x.sub(o.x), y: self.y.sub(o.y), z: self.z.sub(o.z) }
    }

    pub fn neg(self) -> (r: Vec3)
        requires
            fits(-self@.x),
            fits(-self@.y),
            fits(-self@.z),
        ensures
            r@ === neg3(self@),
    {
        Vec3 { x: self.x.neg(), y: self.y.neg(), z: self.z.neg() }
    }

    /// Componentwise product: blends one color with another.
    pub fn mul(self, o: Vec3) -> (r: Vec3)
        requires
            in_range(self@, PROD_ARG_MAX as int),
            in_range(o@, PROD_ARG_MAX as int),
        ensures
            r@ === mul3(self@, o@),
    {
        proof {
            lemma_fmul_bound(self@.x, o@.x, PROD_ARG_MAX as int, PROD_ARG_MAX as int);
            lemma_fmul_bound(self@.y, o@.y, PROD_ARG_MAX as int, PROD_ARG_MAX as int);
            lemma_fmul_bound(self@.z, o@.z, PROD_ARG_MAX as int, PROD_ARG_MAX as int);
        }
        Vec3 { x: self.x.mul(o.x), y: self.y.mul(o.y), z: self.z.mul(o.z) }
    }

    /// Product with a scalar.
    pub fn scale(self, t: Fixed) -> (r: Vec3)
        requires
            in_range(self@, PROD_ARG_MAX as int),
            absi(t@) <= PROD_ARG_MAX as int,
        ensures
            r@ === scale3(self@, t@),
    {
        proof {
            lemma_fmul_bound(self@.x, t@, PROD_ARG_MAX as int, PROD_ARG_MAX as int);
            lemma_fmul_bound(self@.y, t@, PROD_ARG_MAX as int, PROD_ARG_MAX as int);
            lemma_fmul_bound(self@.z, t@, PROD_ARG_MAX as int, PROD_ARG_MAX as int);
        }
        Vec3 { x: self.x.mul(t), y: self.y.mul(t), z: self.z.mul(t) }
    }

    /// Quotient by a positive scalar.
    pub fn div(self, t: Fixed) -> (r: Vec3)
        requires
            t@ > 0,
            in_range(self@, PROD_ARG_MAX as int),
        ensures
            r@ === div3(self@, t@),
    {
        proof {
            lemma_div3_bound(self@, t@, PROD_ARG_MAX as int);
            assert((PROD_ARG_MAX as int * (SCALE as int)) / t@ <= PROD_ARG_MAX as int * (
            SCALE as int)) by (nonlinear_arith)
                requires
                    t@ >= 1,
                    PROD_ARG_MAX as int * (SCALE as int) >= 0,
            ;
        }
        Vec3 { x: self.x.div(t), y: self.y.div(t), z: self.z.div(t) }
    }

    /// Dot product.
    pub fn dot(&self, v: Vec3) -> (r: Fixed)
        requires
            in_range(self@, PROD_ARG_MAX as int),
            in_range(v@, PROD_ARG_MAX as int),
        ensures
            r@ == dot3(self@, v@),
    {
        proof {
            lemma_fmul_bound(self@.x, v@.x, PROD_ARG_MAX as int, PROD_ARG_MAX as int);
            lemma_fmul_bound(self@.y, v@.y, PROD_ARG_MAX as int, PROD_ARG_MAX as int);
            lemma_fmul_bound(self@.z, v@.z, PROD_ARG_MAX as int, PROD_ARG_MAX as int);
        }
        let a = self.x.mul(v.x);
        let b = self.y.mul(v.y);
        let c = self.z.mul(v.z);
        a.add(b).add(c)
    }

    /// Cross product.
    pub fn cross(&self, other: Vec3) -> (r: Vec3)
        requires
            in_range(self@, PROD_ARG_MAX as int),
            in_range(other@, PROD_ARG_MAX as int),
        ensures
            r@ === cross3(self@, other@),
    {
        proof {
            lemma_fmul_bound(self@.y, other@.z, PROD_ARG_MAX as int, PROD_ARG_MAX as int);
            lemma_fmul_bound(self@.z, other@.y, PROD_ARG_MAX as int, PROD_ARG_MAX as int);
            lemma_fmul_bound(self@.z, other@.x, PROD_ARG_MAX as int, PROD_ARG_MAX as int);
            lemma_fmul_bound(self@.x, other@.z, PROD_ARG_MAX as int, PROD_ARG_MAX as int);
            lemma_fmul_bound(self@.x, other@.y, PROD_ARG_MAX as int, PROD_ARG_MAX as int);
            lemma_fmul_bound(self@.y, other@.x, PROD_ARG_MAX as int, PROD_ARG_MAX as int);
        }
        Vec3 {
            x: self.y.mul(other.z).sub(self.z.mul(other.y)),
            y: self.z.mul(other.x).sub(self.x.mul(other.z)),
            z: self.x.mul(other.y).sub(self.y.mul(other.x)),
        }
    }

    /// Squared length.
    pub fn length_squared(&self) -> (r: Fixed)
        requires
            in_range(self@, PROD_ARG_MAX as int),
        ensures
            r@ == len_sq3(self@),
            r@ >= 0,
    {
        proof {
            lemma_len_sq3_nonneg(self@);
        }
        self.dot(*self)
    }

    /// Length.
    pub fn length(&self) -> (r: Fixed)
        requires
            in_range(self@, PROD_ARG_MAX as int),
        ensures
            r@ == len3(self@),
            r@ >= 0,
    {
        self.length_squared().sqrt()
    }

    /// The unit vector of the same direction.  The vector must not be
    /// vanishingly small: its squared length must carry at least one raw
    /// unit.
    pub fn unit_vector(&self) -> (r: Vec3)
        requires
            in_range(self@, PROD_ARG_MAX as int),
            len_sq3(self@) >= 1,
        ensures
            r@ === unit3(self@),
            in_range(r@, 4 * (SCALE as int)),
    {
        proof {
            lemma_unit3_bound(self@);
            lemma_div3_bound(self@, len3(self@), PROD_ARG_MAX as int);
            assert((PROD_ARG_MAX as int * (SCALE as int)) / len3(self@) <= PROD_ARG_MAX as int
                * (SCALE as int)) by (nonlinear_arith)
                requires
                    len3(self@) >= 1,
                    PROD_ARG_MAX as int * (SCALE as int) >= 0,
            ;
        }
        let l = self.length();
        self.div(l)
    }

    /// Mirror reflection about the normal `n`:
    /// `v - 2 * dot(v, n) * n`.  Both arguments are expected near unit
    /// length; `4 * SCALE` is the slack `unit_vector` guarantees.
    pub fn reflect(self, other: Vec3) -> (r: Vec3)
        requires
            in_range(self@, 4 * (SCALE as int)),
            in_range(other@, 4 * (SCALE as int)),
        ensures
            r@ === reflect3(self@, other@),
            in_range(r@, 388 * (SCALE as int)),
    {
        let ghost s = SCALE as int;
        let ghost s4 = 4 * s;
        proof {
            lemma_dot3_bound(self@, other@, s4, s4);
            assert((s4 * s4) / s == 16 * s && (s4 * (96 * s)) / s == 384 * s)
                by (nonlinear_arith)
                requires
                    s == 65536,
                    s4 == 4 * s,
            ;
            lemma_scale3_bound(other@, 2 * dot3(self@, other@), s4, 96 * s);
        }
        let d = self.dot(other);
        let two_d = d.add(d);
        self.sub(other.scale(two_d))
    }

    /// Snell refraction at a surface: `self` must be a unit direction and
    /// `n` a unit normal (within the normalization slack of `unit_vector`).
    pub fn refract(self, n: Vec3, etai_over_etat: Fixed) -> (r: Vec3)
        requires
            in_range(self@, 4 * (SCALE as int)),
            in_range(n@, 4 * (SCALE as int)),
            0 <= etai_over_etat@ <= 16 * (SCALE as int),
        ensures
            r@ === refract3(self@, n@, etai_over_etat@),
            in_range(r@, 3140 * (SCALE as int)),
    {
        let ghost s = SCALE as int;
        let ghost s4 = 4 * s;
        let ghost cos_g = dot3(neg3(self@), n@);
        let ghost par_g = scale3(add3(self@, scale3(n@, cos_g)), etai_over_etat@);
        proof {
            lemma_dot3_bound(neg3(self@), n@, s4, s4);
            assert((s4 * s4) / s == 16 * s && (s4 * (48 * s)) / s == 192 * s
                && ((196 * s) * (16 * s)) / s == 3136 * s && (s4 * s) / s == s * 4)
                by (nonlinear_arith)
                requires
                    s == 65536,
                    s4 == 4 * s,
            ;
            lemma_scale3_bound(n@, cos_g, s4, 48 * s);
            lemma_scale3_bound(add3(self@, scale3(n@, cos_g)), etai_over_etat@, 196 * s,
                16 * s);
            lemma_dot3_bound(par_g, par_g, 3136 * s, 3136 * s);
            assert(3 * (((3136 * s) * (3136 * s)) / s) == 29503488 * s)
                by (nonlinear_arith)
                requires
                    s == 65536,
            ;
        }
        let cos_theta = self.neg().dot(n);
        let r_out_parallel = self.add(n.scale(cos_theta)).scale(etai_over_etat);
        let k = Fixed::one().sub(r_out_parallel.length_squared());
        let ghost rk = s - len_sq3(par_g);
        proof {
            lemma_len_sq3_nonneg(par_g);
            if rk > 0 {
                lemma_isqrt_bounds(rk * s);
                assert(fsqrt(rk) <= s) by (nonlinear_arith)
                    requires
                        fsqrt(rk) >= 0,
                        fsqrt(rk) * fsqrt(rk) <= rk * s,
                        0 < rk <= s,
                        s == 65536,
                ;
            }
            lemma_scale3_bound(n@, -fsqrt(rk), s4, s);
        }
        let r_out_perpendicular = n.scale(k.sqrt().neg());
        r_out_parallel.add(r_out_perpendicular)
    }

    /// A random vector with each component drawn uniformly from `[0, 1)`.
    pub fn random() -> (r: Vec3)
        ensures
            0 <= r@.x < SCALE as int,
            0 <= r@.y < SCALE as int,
            0 <= r@.z < SCALE as int,
    {
        let x = random_raw_in(0, SCALE);
        let y = random_raw_in(0, SCALE);
        let z = random_raw_in(0, SCALE);
        Vec3 {
            x: Fixed::from_raw(x),
            y: Fixed::from_raw(y),
            z: Fixed::from_raw(z),
        }
    }

    /// A random vector with each component drawn uniformly from
    /// `[min, max)`.
    pub fn random_range(min: Fixed, max: Fixed) -> (r: Vec3)
        requires
            min@ < max@,
        ensures
            min@ <= r@.x < max@,
            min@ <= r@.y < max@,
            min@ <= r@.z < max@,
    {
        let x = random_raw_in(min.raw, max.raw);
        let y = random_raw_in(min.raw, max.raw);
        let z = random_raw_in(min.raw, max.raw);
        Vec3 {
            x: Fixed::from_raw(x),
            y: Fixed::from_raw(y),
            z: Fixed::from_raw(z),
        }
    }

    /// A random point strictly inside the unit ball, by rejection
    /// sampling from the enclosing cube.  The rejection loop is capped
    /// far beyond any realistic failure run; the cap falls back to the
    /// origin, which the contract also admits.
    pub fn random_in_unit_sphere() -> (r: Vec3)
        ensures
            len_sq3(r@) < SCALE as int,
            in_range(r@, SCALE as int),
    {
        let one = Fixed::one();
        let mut tries: usize = 0;
        while tries < 100000
            invariant
                one@ == SCALE as int,
            decreases 100000 - tries,
        {
            let p = Vec3::random_range(one.neg(), one);
            if p.length_squared().lt(one) {
                return p;
            }
            tries = tries + 1;
        }
        proof {
            lemma_len_sq3_nonneg(V3 { x: 0, y: 0, z: 0 });
        }
        Vec3::new()
    }

    /// A random point strictly inside the unit disk of the `z = 0`
    /// plane, by the same rejection scheme as `random_in_unit_sphere`.
    pub fn random_in_unit_disk() -> (r: Vec3)
        ensures
            len_sq3(r@) < SCALE as int,
            in_range(r@, SCALE as int),
            r@.z == 0,
    {
        let one = Fixed::one();
        let mut tries: usize = 0;
        while tries < 100000
            invariant
                one@ == SCALE as int,
            decreases 100000 - tries,
        {
            let x = random_raw_in(-SCALE, SCALE);
            let y = random_raw_in(-SCALE, SCALE);
            let p = Vec3 { x: Fixed::from_raw(x), y: Fixed::from_raw(y), z: Fixed::zero() };
            if p.length_squared().lt(one) {
                return p;
            }
            tries = tries + 1;
        }
        proof {
            lemma_len_sq3_nonneg(V3 { x: 0, y: 0, z: 0 });
        }
        Vec3::new()
    }

    /// A random direction distributed uniformly over the unit sphere:
    /// a rejection-sampled point of the unit ball, normalized.  Points
    /// too close to the center are rejected as well, so normalization is
    /// well conditioned; this leaves the direction distribution
    /// untouched.
    pub fn random_unit_vector() -> (r: Vec3)
        ensures
            in_range(r@, 4 * (SCALE as int)),
    {
        let one = Fixed::one();
        let floor = Fixed::from_raw(SCALE / 16);
        let mut tries: usize = 0;
        while tries < 100000
            invariant
                one@ == SCALE as int,
                floor@ == (SCALE as int) / 16,
            decreases 100000 - tries,
        {
            let p = Vec3::random_range(one.neg(), one);
            let ls = p.length_squared();
            if floor.le(ls) && ls.lt(one) {
                return p.unit_vector();
            }
            tries = tries + 1;
        }
        proof {
            assert(in_range(V3 { x: SCALE as int, y: 0, z: 0 }, 4 * (SCALE as int)));
        }
        Vec3 { x: Fixed::one(), y: Fixed::zero(), z: Fixed::zero() }
    }
}

} // verus!
