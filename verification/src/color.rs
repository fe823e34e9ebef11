//! Fixed-point colours for the rulesets' visualisation gradients.
//!
//! A channel runs from `0` to [`crate::units::SCALE`], standing for the unit
//! range. Random ruleset colours take a uniformly drawn hue at full
//! saturation and value.

use vstd::prelude::*;

verus! {

use crate::units::SCALE;
use vstd::arithmetic::div_mod::lemma_div_is_ordered;
use vstd::arithmetic::div_mod::lemma_div_multiples_vanish;

/// A four-channel colour; each channel lies in `[0, SCALE]`.
#[derive(Clone, Copy, PartialEq, Eq, Structural, Debug)]
pub struct Color {
    pub r: i64,
    pub g: i64,
    pub b: i64,
    pub a: i64,
}

/// A byte channel mapped onto `[0, SCALE]`.
pub open spec fn spec_byte_channel(b: int) -> int {
    (b * SCALE) / 255
}

/// The colour of a hue in `[0, 6 * SCALE)` at full saturation and value:
/// six linear sectors of the standard hue wheel.
pub open spec fn spec_hue_color(h: int) -> Color {
    let sector = h / (SCALE as int);
    let f = h % (SCALE as int);
    if sector == 0 {
        Color { r: SCALE, g: f as i64, b: 0, a: SCALE }
    } else if sector == 1 {
        Color { r: (SCALE - f) as i64, g: SCALE, b: 0, a: SCALE }
    } else if sector == 2 {
        Color { r: 0, g: SCALE, b: f as i64, a: SCALE }
    } else if sector == 3 {
        Color { r: 0, g: (SCALE - f) as i64, b: SCALE, a: SCALE }
    } else if sector == 4 {
        Color { r: f as i64, g: 0, b: SCALE, a: SCALE }
    } else {
        Color { r: SCALE, g: 0, b: (SCALE - f) as i64, a: SCALE }
    }
}

/// A channel interpolated from `c1` toward `c2` by `t / SCALE`.
pub open spec fn spec_lerp(c1: int, c2: int, t: int) -> int {
    if c2 >= c1 {
        c1 + (c2 - c1) * t / (SCALE as int)
    } else {
        c1 - (c1 - c2) * t / (SCALE as int)
    }
}

impl Color {
    /// Every channel lies in the unit range.
    pub open spec fn wf(self) -> bool {
        &&& 0 <= self.r <= SCALE
        &&& 0 <= self.g <= SCALE
        &&& 0 <= self.b <= SCALE
        &&& 0 <= self.a <= SCALE
    }

    /// A colour from four byte channels.
    pub fn from_rgba(r: u8, g: u8, b: u8, a: u8) -> (c: Color)
        ensures
            c == (Color {
                r: spec_byte_channel(r as int) as i64,
                g: spec_byte_channel(g as int) as i64,
                b: spec_byte_channel(b as int) as i64,
                a: spec_byte_channel(a as int) as i64,
            }),
            c.wf(),
    {
        Color {
            r: (r as i64 * SCALE / 255) as i64,
            g: (g as i64 * SCALE / 255) as i64,
            b: (b as i64 * SCALE / 255) as i64,
            a: (a as i64 * SCALE / 255) as i64,
        }
    }

    /// The colour of a hue in `[0, 6 * SCALE)` at full saturation and value.
    pub fn from_hue(h: i64) -> (c: Color)
        requires
            0 <= h < 6 * SCALE,
        ensures
            c == spec_hue_color(h as int),
            c.wf(),
    {
        let sector: u64 = (h as u64) / (SCALE as u64);
        let f: i64 = ((h as u64) % (SCALE as u64)) as i64;
        if sector == 0 {
            Color { r: SCALE, g: f, b: 0, a: SCALE }
        } else if sector == 1 {
            Color { r: SCALE - f, g: SCALE, b: 0, a: SCALE }
        } else if sector == 2 {
            Color { r: 0, g: SCALE, b: f, a: SCALE }
        } else if sector == 3 {
            Color { r: 0, g: SCALE - f, b: SCALE, a: SCALE }
        } else if sector == 4 {
            Color { r: f, g: 0, b: SCALE, a: SCALE }
        } else {
            Color { r: SCALE, g: 0, b: SCALE - f, a: SCALE }
        }
    }
}

/// Interpolates one channel from `c1` toward `c2` by `t / SCALE`; the result
/// stays in the unit range, so the clamp of the colour mapping never bites.
pub fn lerp_channel(c1: i64, c2: i64, t: i64) -> (r: i64)
    requires
        0 <= c1 <= SCALE,
        0 <= c2 <= SCALE,
        0 <= t <= SCALE,
    ensures
        r == spec_lerp(c1 as int, c2 as int, t as int),
        0 <= r <= SCALE,
{
    proof {
        if c2 >= c1 {
            assert((c2 - c1) * t <= (c2 - c1) * SCALE && 0 <= (c2 - c1) * t) by (nonlinear_arith)
                requires 0 <= c2 - c1 && 0 <= t <= SCALE;
            lemma_div_is_ordered((c2 - c1) * t, (c2 - c1) * (SCALE as int), SCALE as int);
            lemma_div_multiples_vanish(c2 - c1, SCALE as int);
        } else {
            assert((c1 - c2) * t <= (c1 - c2) * SCALE && 0 <= (c1 - c2) * t) by (nonlinear_arith)
                requires 0 <= c1 - c2 && 0 <= t <= SCALE;
            lemma_div_is_ordered((c1 - c2) * t, (c1 - c2) * (SCALE as int), SCALE as int);
            lemma_div_multiples_vanish(c1 - c2, SCALE as int);
        }
    }
    if c2 >= c1 {
        c1 + ((((c2 - c1) as u64) * (t as u64)) / (SCALE as u64)) as i64
    } else {
        c1 - ((((c1 - c2) as u64) * (t as u64)) / (SCALE as u64)) as i64
    }
}

} // verus!
