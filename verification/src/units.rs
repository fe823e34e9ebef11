//! Fixed-point scalar arithmetic shared by the whole engine.
//!
//! Lengths, speeds and colour channels are `i64` values carrying [`SCALE`]
//! fractional steps per unit. Headings are `i64` angle units with a full turn
//! equal to [`ANGLE_FULL`] (one unit is 1/[`SCALE`] of a degree), kept wrapped
//! to `[0, ANGLE_FULL)` by true modular arithmetic.

use vstd::prelude::*;

verus! {

use vstd::arithmetic::div_mod::lemma_mod_multiples_vanish;
use vstd::arithmetic::div_mod::lemma_mod_bound;
use vstd::arithmetic::div_mod::lemma_small_mod;
use vstd::arithmetic::div_mod::lemma_div_is_ordered;
use vstd::arithmetic::div_mod::lemma_div_multiples_vanish;

/// Fractional steps per world unit (and per whole colour channel).
pub const SCALE: i64 = 1024;

/// Angle units in a full turn: one unit is 1/1024 of a degree.
pub const ANGLE_FULL: i64 = 360 * 1024;

/// Angle units in a half turn (the fixed-point stand-in for pi radians).
pub const ANGLE_HALF: i64 = 180 * 1024;

/// Angle units in a quarter turn.
pub const ANGLE_QUARTER: i64 = 90 * 1024;

/// Positions are confined to `[-POS_LIMIT, POS_LIMIT]` (2^60) so that squared
/// distances of any two positions fit comfortably in an `i128`.
pub const POS_LIMIT: i64 = 1152921504606846976;

/// Bound on a ruleset's per-step turning parameters (1024 full turns).
pub const TURN_LIMIT: i64 = 1024 * (360 * 1024);

/// Bound on a ruleset's forward speed (2^32, about four million world units).
pub const SPEED_LIMIT: i64 = 4294967296;

/// A multiple of `ANGLE_FULL` large enough to shift any turn that
/// [`wrap_turn`] accepts into non-negative territory.
const WRAP_SHIFT: i128 = (360 * 1024) * 100000000000000000000000000;

/// A heading wrapped into `[0, ANGLE_FULL)`.
pub open spec fn wrap_angle(t: int) -> int {
    t % (ANGLE_FULL as int)
}

/// Wraps an accumulated turn back into `[0, ANGLE_FULL)`.
pub fn wrap_turn(t: i128) -> (r: i64)
    requires
        -10000000000000000000000000000 < t < 10000000000000000000000000000,
    ensures
        r == wrap_angle(t as int),
        0 <= r < ANGLE_FULL,
{
    proof {
        lemma_mod_multiples_vanish(
            100000000000000000000000000,
            t as int,
            ANGLE_FULL as int,
        );
        lemma_mod_bound(t as int + WRAP_SHIFT as int, ANGLE_FULL as int);
    }
    let shifted: i128 = t + WRAP_SHIFT;
    let m: u128 = (shifted as u128) % (ANGLE_FULL as u128);
    m as i64
}

/// The quadratic half-wave: a parabola through `0` at `0` and `ANGLE_HALF`,
/// peaking at exactly `SCALE` for a quarter turn.
pub open spec fn spec_sin_half(a: int) -> int {
    (4 * a * (ANGLE_HALF - a) * SCALE) / ((ANGLE_HALF * ANGLE_HALF) as int)
}

/// Fixed-point sine of a heading in `[0, ANGLE_FULL)`, scaled by `SCALE`.
pub open spec fn spec_sin(a: int) -> int {
    if a < ANGLE_HALF {
        spec_sin_half(a)
    } else {
        -spec_sin_half(a - ANGLE_HALF)
    }
}

/// Fixed-point cosine of a heading in `[0, ANGLE_FULL)`, scaled by `SCALE`.
pub open spec fn spec_cos(a: int) -> int {
    spec_sin(wrap_angle(a + ANGLE_QUARTER))
}

/// The half-wave stays within the unit amplitude.
pub proof fn lemma_sin_half_bounds(a: int)
    requires
        0 <= a <= ANGLE_HALF,
    ensures
        0 <= 4 * a * (ANGLE_HALF - a) <= ANGLE_HALF * ANGLE_HALF,
        0 <= spec_sin_half(a) <= SCALE,
{
    let h = ANGLE_HALF as int;
    let s = SCALE as int;
    assert(0 <= 4 * a * (h - a) && 4 * a * (h - a) <= h * h) by (nonlinear_arith)
        requires 0 <= a && a <= h && 0 < h;
    assert(4 * a * (h - a) * s <= h * h * s) by (nonlinear_arith)
        requires 4 * a * (h - a) <= h * h && 0 <= s;
    assert(0 <= 4 * a * (h - a) * s) by (nonlinear_arith)
        requires 0 <= 4 * a * (h - a) && 0 <= s;
    lemma_div_is_ordered(0, 4 * a * (h - a) * s, h * h);
    lemma_div_is_ordered(4 * a * (h - a) * s, h * h * s, h * h);
    lemma_div_multiples_vanish(s, h * h);
}

/// The sine stays within the unit amplitude.
pub proof fn lemma_sin_bounds(a: int)
    requires
        0 <= a < ANGLE_FULL,
    ensures
        -SCALE <= spec_sin(a) <= SCALE,
{
    if a < ANGLE_HALF {
        lemma_sin_half_bounds(a);
    } else {
        lemma_sin_half_bounds(a - ANGLE_HALF);
    }
}

/// The cosine stays within the unit amplitude.
pub proof fn lemma_cos_bounds(a: int)
    requires
        0 <= a < ANGLE_FULL,
    ensures
        -SCALE <= spec_cos(a) <= SCALE,
{
    lemma_mod_bound(a + ANGLE_QUARTER, ANGLE_FULL as int);
    lemma_sin_bounds(wrap_angle(a + ANGLE_QUARTER));
}

fn sin_half(a: i64) -> (r: i64)
    requires
        0 <= a <= ANGLE_HALF,
    ensures
        r == spec_sin_half(a as int),
        0 <= r <= SCALE,
{
    proof {
        lemma_sin_half_bounds(a as int);
    }
    let n: u64 = (4 * a * (ANGLE_HALF - a)) as u64 * (SCALE as u64);
    let q: u64 = n / ((ANGLE_HALF * ANGLE_HALF) as u64);
    q as i64
}

/// Fixed-point sine of a wrapped heading; exact at every quarter turn.
pub fn sin_units(a: i64) -> (r: i64)
    requires
        0 <= a < ANGLE_FULL,
    ensures
        r == spec_sin(a as int),
        -SCALE <= r <= SCALE,
{
    if a < ANGLE_HALF {
        sin_half(a)
    } else {
        -sin_half(a - ANGLE_HALF)
    }
}

/// Fixed-point cosine of a wrapped heading; exact at every quarter turn.
pub fn cos_units(a: i64) -> (r: i64)
    requires
        0 <= a < ANGLE_FULL,
    ensures
        r == spec_cos(a as int),
        -SCALE <= r <= SCALE,
{
    let shifted: i64 = if a + ANGLE_QUARTER >= ANGLE_FULL {
        a + ANGLE_QUARTER - ANGLE_FULL
    } else {
        a + ANGLE_QUARTER
    };
    proof {
        if a + ANGLE_QUARTER >= ANGLE_FULL {
            lemma_mod_multiples_vanish(-1, a + ANGLE_QUARTER as int, ANGLE_FULL as int);
        }
        lemma_small_mod(shifted as nat, ANGLE_FULL as nat);
    }
    sin_units(shifted)
}

/// The integer square root: the greatest `r` with `r * r <= n`.
pub open spec fn spec_isqrt(n: int) -> int
    decreases n,
{
    if n <= 0 {
        0
    } else if (spec_isqrt(n - 1) + 1) * (spec_isqrt(n - 1) + 1) <= n {
        spec_isqrt(n - 1) + 1
    } else {
        spec_isqrt(n - 1)
    }
}

/// The integer square root brackets its argument between adjacent squares.
pub proof fn lemma_isqrt_bracket(n: int)
    requires
        0 <= n,
    ensures
        0 <= spec_isqrt(n),
        spec_isqrt(n) * spec_isqrt(n) <= n,
        n < (spec_isqrt(n) + 1) * (spec_isqrt(n) + 1),
    decreases n,
{
    if n == 0 {
    } else {
        lemma_isqrt_bracket(n - 1);
        let p = spec_isqrt(n - 1);
        if (p + 1) * (p + 1) <= n {
            assert(n <= (p + 1) * (p + 1)) by {
                assert(n - 1 < (p + 1) * (p + 1));
            }
            assert(n < (p + 2) * (p + 2)) by (nonlinear_arith)
                requires n == (p + 1) * (p + 1), 0 <= p;
        }
    }
}

/// Any value bracketed between adjacent squares is the integer square root.
proof fn lemma_isqrt_unique(n: int, r: int)
    requires
        0 <= n,
        0 <= r,
        r * r <= n,
        n < (r + 1) * (r + 1),
    ensures
        r == spec_isqrt(n),
{
    lemma_isqrt_bracket(n);
    let s = spec_isqrt(n);
    assert(r == s) by (nonlinear_arith)
        requires
            0 <= r,
            0 <= s,
            r * r <= n,
            n < (r + 1) * (r + 1),
            s * s <= n,
            n < (s + 1) * (s + 1);
}

/// Computes the integer square root by search; the inputs the engine hands it
/// are at most `SCALE * SCALE`.
pub fn isqrt(x: u64) -> (r: u64)
    requires
        x <= 1000000000000,
    ensures
        r == spec_isqrt(x as int),
        r * r <= x,
        x < (r + 1) * (r + 1),
{
    let mut r: u64 = 0;
    loop
        invariant
            x <= 1000000000000,
            r <= 1000000,
            r * r <= x,
        ensures
            r * r <= x,
            x < (r + 1) * (r + 1),
        decreases x - r * r,
    {
        let next: u64 = r + 1;
        proof {
            assert(next * next <= 1000001 * 1000001) by (nonlinear_arith)
                requires next <= 1000001;
        }
        if next * next <= x {
            proof {
                assert(next <= 1000000) by (nonlinear_arith)
                    requires next * next <= 1000000000000 && 0 <= next;
                assert(r * r < next * next) by (nonlinear_arith)
                    requires next == r + 1 && 0 <= r;
            }
            r = next;
        } else {
            break;
        }
    }
    proof {
        lemma_isqrt_unique(x as int, r as int);
    }
    r
}

/// The product of two fixed-point values, scaled back down by `SCALE` and
/// truncated toward zero.
pub open spec fn spec_mul_units(a: int, b: int) -> int {
    if a * b >= 0 {
        (a * b) / (SCALE as int)
    } else {
        -((-(a * b)) / (SCALE as int))
    }
}

/// Multiplies two fixed-point values and rescales, truncating toward zero.
pub fn mul_units(a: i64, b: i64) -> (r: i64)
    requires
        -(POS_LIMIT as int) * (SCALE as int) <= (a as int) * (b as int)
            <= (POS_LIMIT as int) * (SCALE as int),
    ensures
        r == spec_mul_units(a as int, b as int),
        -POS_LIMIT <= r <= POS_LIMIT,
{
    let p: i128 = (a as i128) * (b as i128);
    proof {
        lemma_div_multiples_vanish(POS_LIMIT as int, SCALE as int);
        if p >= 0 {
            lemma_div_is_ordered(p as int, (SCALE as int) * (POS_LIMIT as int), SCALE as int);
        } else {
            lemma_div_is_ordered(-(p as int), (SCALE as int) * (POS_LIMIT as int), SCALE as int);
        }
    }
    if p >= 0 {
        ((p as u128) / (SCALE as u128)) as i64
    } else {
        -((((-p) as u128) / (SCALE as u128)) as i64)
    }
}

/// A position saturated at the representable world range.
pub open spec fn spec_clamp_pos(t: int) -> int {
    if t > POS_LIMIT {
        POS_LIMIT as int
    } else if t < -POS_LIMIT {
        -POS_LIMIT as int
    } else {
        t
    }
}

/// Saturates a position at the representable world range.
pub fn clamp_pos(t: i64) -> (r: i64)
    ensures
        r == spec_clamp_pos(t as int),
        -POS_LIMIT <= r <= POS_LIMIT,
{
    if t > POS_LIMIT {
        POS_LIMIT
    } else if t < -POS_LIMIT {
        -POS_LIMIT
    } else {
        t
    }
}

/// A scaled product by a factor within `[-SCALE, SCALE]` never exceeds the
/// other operand in magnitude: a step moves a particle by at most its
/// ruleset's speed along each axis.
pub proof fn lemma_mul_units_bounded(c: int, v: int)
    requires
        -SCALE <= c <= SCALE,
        0 <= v,
    ensures
        -v <= spec_mul_units(c, v) <= v,
{
    lemma_div_multiples_vanish(v, SCALE as int);
    if c * v >= 0 {
        assert(c * v <= (SCALE as int) * v) by (nonlinear_arith)
            requires c <= SCALE && 0 <= v;
        lemma_div_is_ordered(0, c * v, SCALE as int);
        lemma_div_is_ordered(c * v, (SCALE as int) * v, SCALE as int);
    } else {
        assert(-(c * v) <= (SCALE as int) * v) by (nonlinear_arith)
            requires -SCALE <= c && 0 <= v;
        lemma_div_is_ordered(0, -(c * v), SCALE as int);
        lemma_div_is_ordered(-(c * v), (SCALE as int) * v, SCALE as int);
    }
}

/// Half of a doubled position, truncated toward zero.
pub open spec fn spec_half(t: int) -> int {
    if t >= 0 {
        t / 2
    } else {
        -((-t) / 2)
    }
}

/// Halves a sum of two positions, truncating toward zero.
pub fn halve(t: i64) -> (r: i64)
    requires
        -2 * (POS_LIMIT as int) <= t <= 2 * (POS_LIMIT as int),
    ensures
        r == spec_half(t as int),
        -POS_LIMIT <= r <= POS_LIMIT,
{
    if t >= 0 {
        ((t as u64) / 2) as i64
    } else {
        -((((-t) as u64) / 2) as i64)
    }
}

} // verus!
