//! Fixed-point units shared by the whole library.
use vstd::prelude::*;

verus! {

/// One grid cell, one radian, one second, and the factor 1.0, in fixed point.
pub const SCALE: i64 = 1_000_000;

/// 2π in microradians, rounded to the nearest unit.
pub const TWO_PI: i64 = 6_283_185;

/// π/2 in microradians.
pub const HALF_PI: i64 = 1_570_796;

/// Largest magnitude a world coordinate may have.
pub const MAX_COORD: i64 = 1_000_000_000_000;

/// Cell index of a fixed-point coordinate: the floor of `x` in grid units.
pub open spec fn cell_of(x: int) -> int {
    x / (SCALE as int)
}

/// Fractional part of a fixed-point coordinate, in `[0, SCALE)`.
pub open spec fn fract_of(x: int) -> int {
    x % (SCALE as int)
}

/// Floor of `x / SCALE` for any `i64`.
pub fn floor_cell(x: i64) -> (r: i64)
    ensures
        r == cell_of(x as int),
{
    if x >= 0 {
        x / SCALE
    } else {
        let m: i64 = (-(x + 1)) / SCALE;
        -m - 1
    }
}

/// The part of `x` past the start of its cell, in `[0, SCALE)`.
pub fn fract_part(x: i64) -> (r: i64)
    ensures
        r == fract_of(x as int),
        0 <= r < SCALE,
{
    if x >= 0 {
        x % SCALE
    } else {
        let m: i64 = (-(x + 1)) % SCALE;
        SCALE - 1 - m
    }
}

/// A direction as a fixed-point unit vector `(cos θ, sin θ)`, each component
/// rounded toward zero.
#[derive(Clone, Copy, Debug, PartialEq, Eq)]
pub struct Dir {
    pub c: i64,
    pub s: i64,
}

impl Dir {
    /// Unit length up to rounding: the squared length lies within
    /// `[SCALE² - 4·SCALE, SCALE²]`.
    pub open spec fn wf(&self) -> bool {
        &&& -SCALE <= self.c <= SCALE
        &&& -SCALE <= self.s <= SCALE
        &&& SCALE * SCALE - 4 * SCALE <= self.c * self.c + self.s * self.s <= SCALE * SCALE
    }

    /// Accepts the components when they form a unit vector up to rounding.
    pub fn new(c: i64, s: i64) -> (r: Option<Dir>)
        ensures
            r.is_some() <==> (Dir { c, s }).wf(),
            r.is_some() ==> r.unwrap() == (Dir { c, s }),
    {
        if c < -SCALE || c > SCALE || s < -SCALE || s > SCALE {
            return None;
        }
        assert(0 <= c * c <= 1_000_000_000_000) by (nonlinear_arith)
            requires -1_000_000 <= c <= 1_000_000;
        assert(0 <= s * s <= 1_000_000_000_000) by (nonlinear_arith)
            requires -1_000_000 <= s <= 1_000_000;
        let n: i64 = c * c + s * s;
        if n < SCALE * SCALE - 4 * SCALE || n > SCALE * SCALE {
            None
        } else {
            Some(Dir { c, s })
        }
    }
}

} // verus!

verus! {

/// Floor of `a / b` for a positive divisor.
pub fn floor_div(a: i128, b: i128) -> (r: i128)
    requires
        b > 0,
        a > i128::MIN,
    ensures
        r == a as int / b as int,
{
    if a >= 0 {
        a / b
    } else {
        let m: i128 = (-(a + 1)) / b;
        let rem: i128 = (-(a + 1)) % b;
        proof {
            vstd::arithmetic::div_mod::lemma_fundamental_div_mod(-(a + 1), b as int);
            assert(-(a + 1) == b * m + rem);
            assert(a == (-m - 1) * b + (b - 1 - rem)) by (nonlinear_arith)
                requires -(a + 1) == b * m + rem;
            vstd::arithmetic::div_mod::lemma_fundamental_div_mod_converse(
                a as int,
                b as int,
                -m - 1,
                b - 1 - rem,
            );
        }
        -m - 1
    }
}

} // verus!
