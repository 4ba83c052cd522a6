//! Signed 16.16 fixed-point scalars.
//!
//! A `Fixed` holds a real value `raw / 65536` in an `i64` field `raw`.
//! All rounding is toward zero.  The specification functions `fmul`,
//! `fdiv` and `fsqrt` give the exact integer value of each operation,
//! so every contract built on them pins its result completely.

use vstd::prelude::*;

verus! {

/// Number of raw units per 1.0: the fixed-point scale.
pub const SCALE: i64 = 65536;

/// Magnitude of an integer.
pub open spec fn absi(x: int) -> int {
    if x >= 0 {
        x
    } else {
        -x
    }
}

/// Division rounding toward zero, for a positive divisor.
pub open spec fn tdiv(n: int, d: int) -> int {
    if n >= 0 {
        n / d
    } else {
        -((-n) / d)
    }
}

/// Exact value of the fixed-point product of raw values `a` and `b`.
pub open spec fn fmul(a: int, b: int) -> int {
    tdiv(a * b, SCALE as int)
}

/// Exact value of the fixed-point quotient of raw values `a` and `b`
/// (meaningful for `b > 0`, the only case the executable code allows).
pub open spec fn fdiv(a: int, b: int) -> int {
    tdiv(a * SCALE, b)
}

/// Integer square root, by the classical digit recurrence.
pub open spec fn isqrt_spec(n: int) -> int
    decreases n,
{
    if n < 1 {
        0
    } else {
        let r = isqrt_spec(n / 4);
        if (2 * r + 1) * (2 * r + 1) <= n {
            2 * r + 1
        } else {
            2 * r
        }
    }
}

/// Exact value of the fixed-point square root of raw value `a`:
/// negative arguments are clamped to zero.
pub open spec fn fsqrt(a: int) -> int {
    if a <= 0 {
        0
    } else {
        isqrt_spec(a * (SCALE as int))
    }
}

/// Whether a mathematical integer is representable as a raw `i64` value.
pub open spec fn fits(x: int) -> bool {
    i64::MIN <= x <= i64::MAX
}

/// `isqrt_spec` really is the integer square root.
pub proof fn lemma_isqrt_bounds(n: int)
    requires
        n >= 0,
    ensures
        isqrt_spec(n) >= 0,
        isqrt_spec(n) * isqrt_spec(n) <= n,
        n < (isqrt_spec(n) + 1) * (isqrt_spec(n) + 1),
    decreases n,
{
    if n < 1 {
    } else {
        let q = n / 4;
        assert(0 <= q < n);
        lemma_isqrt_bounds(q);
        let r = isqrt_spec(q);
        assert(4 * q <= n < 4 * q + 4) by (nonlinear_arith)
            requires
                q == n / 4,
                n >= 1,
        ;
        assert((2 * r) * (2 * r) <= 4 * q && 4 * q + 4 <= (2 * r + 2) * (2 * r + 2))
            by (nonlinear_arith)
            requires
                r * r <= q < (r + 1) * (r + 1),
        ;
        if (2 * r + 1) * (2 * r + 1) <= n {
            assert(isqrt_spec(n) == 2 * r + 1);
            assert(n < (2 * r + 2) * (2 * r + 2));
        } else {
            assert(isqrt_spec(n) == 2 * r);
        }
    }
}

/// Truncating division keeps the magnitude within `m / d` whenever the
/// dividend's magnitude is within `m`.
pub proof fn lemma_tdiv_bound(n: int, d: int, m: int)
    requires
        d > 0,
        absi(n) <= m,
    ensures
        absi(tdiv(n, d)) <= m / d,
        absi(tdiv(n, d)) <= absi(n),
{
    if n >= 0 {
        assert(0 <= n / d <= m / d && n / d <= n) by (nonlinear_arith)
            requires
                d > 0,
                0 <= n <= m,
        ;
    } else {
        assert(0 <= (-n) / d <= m / d && (-n) / d <= -n) by (nonlinear_arith)
            requires
                d > 0,
                0 < -n <= m,
        ;
    }
}

/// Truncating division of a non-negative value by a positive one is
/// non-negative.
pub proof fn lemma_tdiv_nonneg(n: int, d: int)
    requires
        n >= 0,
        d > 0,
    ensures
        tdiv(n, d) >= 0,
{
    assert(n / d >= 0) by (nonlinear_arith)
        requires
            n >= 0,
            d > 0,
    ;
}

/// Truncating division is exact on multiples of the divisor.
pub proof fn lemma_tdiv_exact(k: int, d: int)
    requires
        d > 0,
    ensures
        tdiv(k * d, d) == k,
{
    if k >= 0 {
        assert((k * d) >= 0 && (k * d) / d == k) by (nonlinear_arith)
            requires
                d > 0,
                k >= 0,
        ;
    } else {
        assert((k * d) < 0 && (-(k * d)) == (-k) * d && ((-k) * d) / d == -k)
            by (nonlinear_arith)
            requires
                d > 0,
                k < 0,
        ;
    }
}

/// Truncating division is monotone in the dividend.
pub proof fn lemma_tdiv_monotone(n1: int, n2: int, d: int)
    requires
        n1 <= n2,
        d > 0,
    ensures
        tdiv(n1, d) <= tdiv(n2, d),
{
    if n1 >= 0 {
        assert(n1 / d <= n2 / d) by (nonlinear_arith)
            requires
                0 <= n1 <= n2,
                d > 0,
        ;
    } else if n2 < 0 {
        assert((-n2) / d <= (-n1) / d) by (nonlinear_arith)
            requires
                0 < -n2,
                -n2 <= -n1,
                d > 0,
        ;
    } else {
        assert(0 <= (-n1) / d && 0 <= n2 / d) by (nonlinear_arith)
            requires
                n1 < 0 <= n2,
                d > 0,
        ;
    }
}

/// The integer square root is exact on perfect squares.
pub proof fn lemma_isqrt_exact_square(x: int)
    requires
        x >= 0,
    ensures
        isqrt_spec(x * x) == x,
{
    assert(x * x >= 0) by (nonlinear_arith);
    lemma_isqrt_bounds(x * x);
    let r = isqrt_spec(x * x);
    assert(r == x) by (nonlinear_arith)
        requires
            r >= 0,
            x >= 0,
            r * r <= x * x,
            x * x < (r + 1) * (r + 1),
    ;
}

/// How far truncating division may fall from the exact quotient.
pub proof fn lemma_tdiv_error(n: int, d: int)
    requires
        d > 0,
    ensures
        absi(n - tdiv(n, d) * d) < d,
        tdiv(n, d) * d <= n || n < 0,
        n <= tdiv(n, d) * d || n >= 0,
{
    if n >= 0 {
        assert(n / d * d <= n < n / d * d + d) by (nonlinear_arith)
            requires
                d > 0,
                n >= 0,
        ;
    } else {
        let p = -n;
        assert(p / d * d <= p < p / d * d + d) by (nonlinear_arith)
            requires
                d > 0,
                p > 0,
        ;
        assert(tdiv(n, d) * d == -(p / d * d)) by (nonlinear_arith)
            requires
                p == -n,
                n < 0,
                tdiv(n, d) == -(p / d),
        ;
    }
}

/// A fixed-point product of values within `a_max` and `b_max` stays
/// within `a_max * b_max / SCALE`.
pub proof fn lemma_fmul_bound(a: int, b: int, a_max: int, b_max: int)
    requires
        absi(a) <= a_max,
        absi(b) <= b_max,
    ensures
        absi(fmul(a, b)) <= (a_max * b_max) / (SCALE as int),
        absi(a * b) <= a_max * b_max,
{
    assert(absi(a * b) <= a_max * b_max) by (nonlinear_arith)
        requires
            absi(a) <= a_max,
            absi(b) <= b_max,
    ;
    lemma_tdiv_bound(a * b, SCALE as int, a_max * b_max);
}

/// Multiplying values drawn from `[0, SCALE]` (the unit interval) stays
/// inside `[0, SCALE]`: attenuation never amplifies a color channel.
pub proof fn lemma_fmul_unit(a: int, b: int)
    requires
        0 <= a <= SCALE as int,
        0 <= b <= SCALE as int,
    ensures
        0 <= fmul(a, b) <= SCALE as int,
        fmul(a, b) <= a,
        fmul(a, b) <= b,
{
    assert(0 <= a * b <= a * 65536 && a * b <= b * 65536) by (nonlinear_arith)
        requires
            0 <= a <= 65536,
            0 <= b <= 65536,
    ;
    assert(fmul(a, b) == (a * b) / 65536);
    assert((a * b) / 65536 >= 0 && (a * b) / 65536 <= (a * 65536) / 65536
        && (a * b) / 65536 <= (b * 65536) / 65536) by (nonlinear_arith)
        requires
            0 <= a * b,
            a * b <= a * 65536,
            a * b <= b * 65536,
    ;
    assert((a * 65536) / 65536 == a) by (nonlinear_arith);
    assert((b * 65536) / 65536 == b) by (nonlinear_arith);
}

/// A signed 16.16 fixed-point number: the real value is `raw / 65536`.
#[derive(Clone, Copy, PartialEq, Eq, Structural, Debug)]
pub struct Fixed {
    pub raw: i64,
}

impl View for Fixed {
    type V = int;

    open spec fn view(&self) -> int {
        self.raw as int
    }
}

/// Division of an `i128` rounding toward zero, against the `tdiv` model.
fn tdiv_i128(n: i128, d: i128) -> (r: i128)
    requires
        d > 0,
        n > i128::MIN,
    ensures
        r == tdiv(n as int, d as int),
{
    if n >= 0 {
        let q = (n as u128) / (d as u128);
        proof {
            lemma_tdiv_bound(n as int, d as int, n as int);
        }
        q as i128
    } else {
        let p = -n;
        let q = (p as u128) / (d as u128);
        proof {
            lemma_tdiv_bound(n as int, d as int, -(n as int));
        }
        -(q as i128)
    }
}

impl Fixed {
    /// The value zero.
    pub fn zero() -> (r: Fixed)
        ensures
            r@ == 0,
    {
        Fixed { raw: 0 }
    }

    /// The value one (`SCALE` raw units).
    pub fn one() -> (r: Fixed)
        ensures
            r@ == SCALE as int,
    {
        Fixed { raw: SCALE }
    }

    /// A value given directly in raw 16.16 units.
    pub fn from_raw(raw: i64) -> (r: Fixed)
        ensures
            r@ == raw as int,
    {
        Fixed { raw }
    }

    /// The fixed-point image of a small integer.
    pub fn from_int(i: i64) -> (r: Fixed)
        requires
            absi(i as int) <= 0x4000_0000_0000,
        ensures
            r@ == i * (SCALE as int),
    {
        Fixed { raw: i * SCALE }
    }

    pub fn add(self, o: Fixed) -> (r: Fixed)
        requires
            fits(self@ + o@),
        ensures
            r@ == self@ + o@,
    {
        Fixed { raw: self.raw + o.raw }
    }

    pub fn sub(self, o: Fixed) -> (r: Fixed)
        requires
            fits(self@ - o@),
        ensures
            r@ == self@ - o@,
    {
        Fixed { raw: self.raw - o.raw }
    }

    pub fn neg(self) -> (r: Fixed)
        requires
            fits(-self@),
        ensures
            r@ == -self@,
    {
        Fixed { raw: -self.raw }
    }

    /// Fixed-point multiplication, exact per `fmul`.
    pub fn mul(self, o: Fixed) -> (r: Fixed)
        requires
            fits(fmul(self@, o@)),
        ensures
            r@ == fmul(self@, o@),
    {
        proof {
            lemma_fmul_bound(self@, o@, absi(self@), absi(o@));
            assert(absi(self@) * absi(o@) <= 0x8000_0000_0000_0000 * 0x8000_0000_0000_0000)
                by (nonlinear_arith)
                requires
                    absi(self@) <= 0x8000_0000_0000_0000,
                    absi(o@) <= 0x8000_0000_0000_0000,
                    absi(self@) >= 0,
                    absi(o@) >= 0,
            ;
        }
        let p: i128 = (self.raw as i128) * (o.raw as i128);
        let q = tdiv_i128(p, SCALE as i128);
        Fixed { raw: q as i64 }
    }

    /// Fixed-point division by a positive value, exact per `fdiv`.
    pub fn div(self, o: Fixed) -> (r: Fixed)
        requires
            o@ > 0,
            fits(fdiv(self@, o@)),
        ensures
            r@ == fdiv(self@, o@),
    {
        let p: i128 = (self.raw as i128) * (SCALE as i128);
        let q = tdiv_i128(p, o.raw as i128);
        Fixed { raw: q as i64 }
    }

    /// The value divided by a positive integer count: an average's
    /// denominator is a count, not a fixed-point value.
    pub fn div_int(self, n: i64) -> (r: Fixed)
        requires
            n >= 1,
        ensures
            r@ == tdiv(self@, n as int),
    {
        proof {
            lemma_tdiv_bound(self@, n as int, absi(self@));
        }
        let q = tdiv_i128(self.raw as i128, n as i128);
        Fixed { raw: q as i64 }
    }

    /// Fixed-point square root, exact per `fsqrt`; negative arguments
    /// are clamped to zero.
    pub fn sqrt(self) -> (r: Fixed)
        ensures
            r@ == fsqrt(self@),
            r@ >= 0,
    {
        if self.raw <= 0 {
            Fixed { raw: 0 }
        } else {
            let n: u128 = (self.raw as u128) * (SCALE as u128);
            proof {
                lemma_isqrt_bounds(n as int);
                assert(isqrt_spec(n as int) * isqrt_spec(n as int) <= n as int);
                assert(n < 0x8000_0000_0000_0000u128 * 65536);
                assert(isqrt_spec(n as int) < 0x1_0000_0000_0000) by (nonlinear_arith)
                    requires
                        isqrt_spec(n as int) >= 0,
                        isqrt_spec(n as int) * isqrt_spec(n as int) <= n as int,
                        n < 0x8000_0000_0000_0000u128 * 65536,
                ;
            }
            let r = isqrt_u128(n);
            Fixed { raw: r as i64 }
        }
    }

    /// The smaller of two values.
    pub fn min(self, o: Fixed) -> (r: Fixed)
        ensures
            r@ == if self@ <= o@ { self@ } else { o@ },
    {
        if self.raw <= o.raw {
            self
        } else {
            o
        }
    }

    /// The larger of two values.
    pub fn max(self, o: Fixed) -> (r: Fixed)
        ensures
            r@ == if self@ >= o@ { self@ } else { o@ },
    {
        if self.raw >= o.raw {
            self
        } else {
            o
        }
    }

    pub fn lt(self, o: Fixed) -> (r: bool)
        ensures
            r == (self@ < o@),
    {
        self.raw < o.raw
    }

    pub fn le(self, o: Fixed) -> (r: bool)
        ensures
            r == (self@ <= o@),
    {
        self.raw <= o.raw
    }
}

/// Integer square root on `u128`, by the digit recurrence of `isqrt_spec`.
fn isqrt_u128(n: u128) -> (r: u128)
    requires
        n < 0x10_0000_0000_0000_0000_0000_0000,
    ensures
        r == isqrt_spec(n as int),
        r * r <= n,
    decreases n,
{
    proof {
        lemma_isqrt_bounds(n as int);
    }
    if n < 1 {
        0
    } else {
        let q = n / 4;
        let r = isqrt_u128(q);
        proof {
            lemma_isqrt_bounds(q as int);
            assert(isqrt_spec(q as int) * isqrt_spec(q as int) <= q as int);
            assert(r < 0x4_0000_0000_0000_0000_0000_0000) by (nonlinear_arith)
                requires
                    r >= 0,
                    r * r <= q as int,
                    q < 0x4_0000_0000_0000_0000_0000_0000,
            ;
        }
        let c = 2 * r + 1;
        if c <= n / c {
            proof {
                assert(c * c <= n) by (nonlinear_arith)
                    requires
                        c > 0,
                        c <= n / c,
                        n >= 1,
                ;
            }
            c
        } else {
            proof {
                assert(c * c > n) by (nonlinear_arith)
                    requires
                        c > 0,
                        c > n / c,
                        n >= 1,
                ;
            }
            2 * r
        }
    }
}

} // verus!
