//! Planar geometry in fixed point: points, vector arithmetic, an exact
//! Euclidean norm (integer square root), and a rational approximation of
//! sine and cosine over milli-degree headings.

use crate::utils::{div_trunc, isqrt_u128, tdiv};
use crate::{DIR_SCALE, FULL_TURN};
use vstd::prelude::*;

verus! {

/// A planar point or vector with fixed-point coordinates.
#[derive(Clone, Copy, Debug, PartialEq, Eq, Structural)]
pub struct Point {
    pub x: i64,
    pub y: i64,
}

/// The floor of the square root of a non-negative integer.
pub open spec fn sqrt_floor(n: int) -> int {
    choose|r: int| 0 <= r && #[trigger] (r * r) <= n && n < (r + 1) * (r + 1)
}

/// The square-root floor is unique, so any witness equals `sqrt_floor`.
pub proof fn lemma_sqrt_floor_unique(n: int, r: int)
    requires
        0 <= r,
        r * r <= n,
        n < (r + 1) * (r + 1),
    ensures
        sqrt_floor(n) == r,
{
    let s = sqrt_floor(n);
    assert(0 <= s && s * s <= n && n < (s + 1) * (s + 1)) by {
        assert(0 <= r && r * r <= n && n < (r + 1) * (r + 1));
    }
    assert(s == r) by (nonlinear_arith)
        requires
            0 <= r,
            r * r <= n,
            n < (r + 1) * (r + 1),
            0 <= s,
            s * s <= n,
            n < (s + 1) * (s + 1),
    ;
}

impl Point {
    /// Component-wise sum.
    pub fn add(self, other: Point) -> (r: Point)
        requires
            i64::MIN <= self.x + other.x <= i64::MAX,
            i64::MIN <= self.y + other.y <= i64::MAX,
        ensures
            r.x == self.x + other.x,
            r.y == self.y + other.y,
    {
        Point { x: self.x + other.x, y: self.y + other.y }
    }

    /// Component-wise difference.
    pub fn sub(self, other: Point) -> (r: Point)
        requires
            i64::MIN <= self.x - other.x <= i64::MAX,
            i64::MIN <= self.y - other.y <= i64::MAX,
        ensures
            r.x == self.x - other.x,
            r.y == self.y - other.y,
    {
        Point { x: self.x - other.x, y: self.y - other.y }
    }

    /// Scale both components by an integer factor.
    pub fn mul(self, scalar: i64) -> (r: Point)
        requires
            i64::MIN <= self.x * scalar <= i64::MAX,
            i64::MIN <= self.y * scalar <= i64::MAX,
        ensures
            r.x == self.x * scalar,
            r.y == self.y * scalar,
    {
        Point { x: self.x.checked_mul(scalar).unwrap(), y: self.y.checked_mul(scalar).unwrap() }
    }

    /// Divide both components (truncating) by a positive scalar.
    pub fn div(self, scalar: i64) -> (r: Point)
        requires
            scalar > 0,
            self.x > i64::MIN,
            self.y > i64::MIN,
        ensures
            r.x == tdiv(self.x as int, scalar as int),
            r.y == tdiv(self.y as int, scalar as int),
    {
        Point { x: div_trunc(self.x, scalar), y: div_trunc(self.y, scalar) }
    }

    /// Euclidean length, rounded down to an integer.
    pub fn norm(&self) -> (r: i64)
        requires
            -6_000_000_000_000_000_000 <= self.x <= 6_000_000_000_000_000_000,
            -6_000_000_000_000_000_000 <= self.y <= 6_000_000_000_000_000_000,
        ensures
            r == sqrt_floor(self.x * self.x + self.y * self.y),
            r * r <= self.x * self.x + self.y * self.y,
            self.x * self.x + self.y * self.y < (r + 1) * (r + 1),
            0 <= r <= 8_500_000_000_000_000_000,
    {
        let xi: i128 = self.x as i128;
        let yi: i128 = self.y as i128;
        assert(xi * xi + yi * yi <= 72_000_000_000_000_000_000_000_000_000_000_000_000)
            by (nonlinear_arith)
            requires
                -6_000_000_000_000_000_000 <= xi <= 6_000_000_000_000_000_000,
                -6_000_000_000_000_000_000 <= yi <= 6_000_000_000_000_000_000,
        ;
        assert(xi * xi >= 0 && yi * yi >= 0) by (nonlinear_arith);
        let sq: u128 = (xi * xi + yi * yi) as u128;
        let r = isqrt_u128(sq);
        proof {
            lemma_sqrt_floor_unique(sq as int, r as int);
            assert(r as int * (r as int) <= 72_000_000_000_000_000_000_000_000_000_000_000_000);
            assert(r <= 8_500_000_000_000_000_000) by (nonlinear_arith)
                requires
                    r as int * (r as int) <= 72_000_000_000_000_000_000_000_000_000_000_000_000,
                    r >= 0,
            ;
        }
        r as i64
    }
}

/// Bhaskara's rational approximation of the sine over `[0, 180]` degrees,
/// with the angle in milli-degrees and the result scaled by `DIR_SCALE`.
pub open spec fn sin_arch_spec(theta: int) -> int {
    let p = theta * (180_000 - theta);
    (4 * p * 1_000_000) / (40_500_000_000 - p)
}

/// Approximate sine of a heading in `[0, 360_000)` milli-degrees,
/// scaled by `DIR_SCALE`.
pub open spec fn sin_md_spec(theta: int) -> int {
    if theta <= 180_000 {
        sin_arch_spec(theta)
    } else {
        -sin_arch_spec(theta - 180_000)
    }
}

/// Approximate cosine of a heading, as the sine of the shifted angle.
pub open spec fn cos_md_spec(theta: int) -> int {
    sin_md_spec((theta + 90_000) % 360_000)
}

/// Sine (scaled by `DIR_SCALE`) of an angle within the first half turn.
fn sin_arch(theta: i64) -> (r: i64)
    requires
        0 <= theta <= 180_000,
    ensures
        r == sin_arch_spec(theta as int),
        0 <= r <= DIR_SCALE,
{
    proof {
        assert(0 <= theta * (180_000 - theta) <= 8_100_000_000) by (nonlinear_arith)
            requires
                0 <= theta <= 180_000,
        ;
    }
    let p: i64 = theta * (180_000 - theta);
    let num: i64 = 4 * p * 1_000_000;
    let den: i64 = 40_500_000_000 - p;
    let r = num / den;
    assert(0 <= r <= DIR_SCALE) by (nonlinear_arith)
        requires
            0 <= p <= 8_100_000_000,
            num == 4 * p * 1_000_000,
            den == 40_500_000_000 - p,
            r == num / den,
    ;
    r
}

/// Approximate sine of a heading in milli-degrees.
pub fn sin_md(theta: i64) -> (r: i64)
    requires
        0 <= theta < FULL_TURN,
    ensures
        r == sin_md_spec(theta as int),
        -DIR_SCALE <= r <= DIR_SCALE,
{
    if theta <= 180_000 {
        sin_arch(theta)
    } else {
        -sin_arch(theta - 180_000)
    }
}

/// Approximate cosine of a heading in milli-degrees.
pub fn cos_md(theta: i64) -> (r: i64)
    requires
        0 <= theta < FULL_TURN,
    ensures
        r == cos_md_spec(theta as int),
        -DIR_SCALE <= r <= DIR_SCALE,
{
    let shifted = if theta < 270_000 {
        theta + 90_000
    } else {
        theta - 270_000
    };
    proof {
        if theta < 270_000 {
            vstd::arithmetic::div_mod::lemma_small_mod((theta + 90_000) as nat, 360_000nat);
        } else {
            assert((theta + 90_000) % 360_000 == (theta - 270_000) % 360_000) by {
                vstd::arithmetic::div_mod::lemma_mod_add_multiples_vanish(
                    (theta - 270_000) as int,
                    360_000int,
                );
            }
            vstd::arithmetic::div_mod::lemma_small_mod((theta - 270_000) as nat, 360_000nat);
        }
    }
    sin_md(shifted)
}

/// The unit direction vector (scaled by `DIR_SCALE`) of a heading: the
/// approximate cosine/sine pair, renormalized to counter the approximation
/// error; a zero vector falls back to the unit vector along the x axis.
pub open spec fn dir_from_heading_spec(h: int) -> Point {
    let x = cos_md_spec(h);
    let y = sin_md_spec(h);
    let n = sqrt_floor(x * x + y * y);
    if n == 0 {
        Point { x: DIR_SCALE, y: 0 }
    } else {
        Point { x: tdiv(x * DIR_SCALE, n) as i64, y: tdiv(y * DIR_SCALE, n) as i64 }
    }
}

/// Compute the (renormalized) unit direction vector of a heading.
pub fn dir_from_heading(h: i64) -> (r: Point)
    requires
        0 <= h < FULL_TURN,
    ensures
        r == dir_from_heading_spec(h as int),
        -DIR_SCALE <= r.x <= DIR_SCALE,
        -DIR_SCALE <= r.y <= DIR_SCALE,
{
    let x = cos_md(h);
    let y = sin_md(h);
    let v = Point { x, y };
    let n = v.norm();
    if n == 0 {
        Point { x: DIR_SCALE, y: 0 }
    } else {
        proof {
            assert(x * x >= 0 && y * y >= 0) by (nonlinear_arith);
            assert(-n <= x <= n && -n <= y <= n) by (nonlinear_arith)
                requires
                    n >= 1,
                    x * x < (n + 1) * (n + 1),
                    y * y < (n + 1) * (n + 1),
            ;
            assert(
                -DIR_SCALE <= tdiv(x * DIR_SCALE, n as int) <= DIR_SCALE
                && -DIR_SCALE <= tdiv(y * DIR_SCALE, n as int) <= DIR_SCALE
            ) by (nonlinear_arith)
                requires
                    n >= 1,
                    -n <= x <= n,
                    -n <= y <= n,
            ;
        }
        let rx = div_trunc(x.checked_mul(DIR_SCALE).unwrap(), n);
        let ry = div_trunc(y.checked_mul(DIR_SCALE).unwrap(), n);
        Point { x: rx, y: ry }
    }
}

/// Wrap a perturbed heading back into `[0, FULL_TURN)`; the result is the
/// Euclidean remainder of the input modulo a full turn.
pub fn wrap_heading(h: i64) -> (r: i64)
    requires
        -FULL_TURN <= h < 2 * FULL_TURN,
    ensures
        r == (h as int) % (FULL_TURN as int),
        0 <= r < FULL_TURN,
{
    let r = if h < 0 {
        h + FULL_TURN
    } else if h >= FULL_TURN {
        h - FULL_TURN
    } else {
        h
    };
    proof {
        if h < 0 {
            vstd::arithmetic::div_mod::lemma_mod_add_multiples_vanish(h as int, FULL_TURN as int);
            vstd::arithmetic::div_mod::lemma_small_mod((h + FULL_TURN) as nat, FULL_TURN as nat);
        } else if h >= FULL_TURN {
            vstd::arithmetic::div_mod::lemma_mod_add_multiples_vanish(
                (h - FULL_TURN) as int,
                FULL_TURN as int,
            );
            vstd::arithmetic::div_mod::lemma_small_mod((h - FULL_TURN) as nat, FULL_TURN as nat);
        } else {
            vstd::arithmetic::div_mod::lemma_small_mod(h as nat, FULL_TURN as nat);
        }
    }
    r
}

} // verus!
