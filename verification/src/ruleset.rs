//! A ruleset: one group's motion-rule parameters and its colour-gradient
//! mapping. Rulesets are identified by their index in the system's ruleset
//! sequence; particles refer to them by that index.

use vstd::prelude::*;

verus! {

use crate::color::Color;
use crate::color::spec_hue_color;
use crate::rng::Rng;
use crate::rng::spec_next;
use crate::rng::spec_draw;
use crate::units::SCALE;
use crate::units::ANGLE_HALF;
use crate::units::TURN_LIMIT;
use crate::units::SPEED_LIMIT;

/// One group's parameters.
///
/// `alpha` is the constant turn per step and `beta` the turn per sensed
/// neighbour, both in angle units, signed. `r` is the sensing radius and `v`
/// the forward speed per step, both fixed-point and non-negative. The two
/// colours and the two neighbour-count thresholds define the visualisation
/// gradient.
#[derive(Clone, Copy, PartialEq, Eq, Structural, Debug)]
pub struct Ruleset {
    pub alpha: i64,
    pub beta: i64,
    pub r: i64,
    pub v: i64,
    pub col1: Color,
    pub col2: Color,
    pub col_scale_min: i64,
    pub col_scale_max: i64,
}

/// The generator state after the eight draws of a randomisation.
pub open spec fn spec_random_state(s: u64) -> u64 {
    spec_next(
        spec_next(spec_next(spec_next(spec_next(spec_next(spec_next(spec_next(s)))))))
    )
}

/// The ruleset produced by the eight draws of a randomisation starting from
/// generator state `s`: turning parameters uniform over a half turn either
/// way, radius in `[1, 40]` units, speed in `[1, 3]` units, colours of
/// uniform hue at full saturation and value, and gradient thresholds in
/// `[1, 10]` and `[30, 70]` neighbours.
pub open spec fn spec_random_ruleset(s: u64) -> Ruleset {
    let s1 = spec_next(s);
    let s2 = spec_next(s1);
    let s3 = spec_next(s2);
    let s4 = spec_next(s3);
    let s5 = spec_next(s4);
    let s6 = spec_next(s5);
    let s7 = spec_next(s6);
    Ruleset {
        alpha: (spec_draw(s, 368641) - ANGLE_HALF) as i64,
        beta: (spec_draw(s1, 368641) - ANGLE_HALF) as i64,
        r: (spec_draw(s2, 39937) + SCALE) as i64,
        v: (spec_draw(s3, 2049) + SCALE) as i64,
        col1: spec_hue_color(spec_draw(s4, 6144) as int),
        col2: spec_hue_color(spec_draw(s5, 6144) as int),
        col_scale_min: (spec_draw(s6, 10) + 1) as i64,
        col_scale_max: (spec_draw(s7, 41) + 30) as i64,
    }
}

impl Ruleset {
    /// The bounds every ruleset in a system keeps: turning parameters within
    /// `TURN_LIMIT`, a non-negative radius, a speed within `SPEED_LIMIT`,
    /// unit-range colours, and ordered gradient thresholds.
    pub open spec fn wf(self) -> bool {
        &&& -TURN_LIMIT <= self.alpha <= TURN_LIMIT
        &&& -TURN_LIMIT <= self.beta <= TURN_LIMIT
        &&& 0 <= self.r
        &&& 0 <= self.v <= SPEED_LIMIT
        &&& self.col1.wf()
        &&& self.col2.wf()
        &&& 0 <= self.col_scale_min < self.col_scale_max <= 4294967296
    }

    /// Builds a ruleset with the turning parameters given in whole degrees;
    /// the remaining fields are stored verbatim.
    pub fn from_degrees(
        alpha: i64,
        beta: i64,
        r: i64,
        v: i64,
        col1: Color,
        col2: Color,
        col_scale_min: i64,
        col_scale_max: i64,
    ) -> (rs: Ruleset)
        requires
            -TURN_LIMIT <= alpha * SCALE <= TURN_LIMIT,
            -TURN_LIMIT <= beta * SCALE <= TURN_LIMIT,
            0 <= r,
            0 <= v <= SPEED_LIMIT,
            col1.wf(),
            col2.wf(),
            0 <= col_scale_min < col_scale_max <= 4294967296,
        ensures
            rs == (Ruleset {
                alpha: (alpha * SCALE) as i64,
                beta: (beta * SCALE) as i64,
                r,
                v,
                col1,
                col2,
                col_scale_min,
                col_scale_max,
            }),
            rs.wf(),
    {
        Ruleset {
            alpha: alpha * SCALE,
            beta: beta * SCALE,
            r,
            v,
            col1,
            col2,
            col_scale_min,
            col_scale_max,
        }
    }

    /// A ruleset drawn entirely from the generator.
    pub fn random(rng: &mut Rng) -> (rs: Ruleset)
        ensures
            rs == spec_random_ruleset(old(rng).state),
            final(rng).state == spec_random_state(old(rng).state),
            rs.wf(),
    {
        let alpha = rng.draw_range(-ANGLE_HALF, ANGLE_HALF);
        let beta = rng.draw_range(-ANGLE_HALF, ANGLE_HALF);
        let r = rng.draw_range(SCALE, 40 * SCALE);
        let v = rng.draw_range(SCALE, 3 * SCALE);
        let col1 = Color::from_hue(rng.draw(6144) as i64);
        let col2 = Color::from_hue(rng.draw(6144) as i64);
        let col_scale_min = rng.draw_range(1, 10);
        let col_scale_max = rng.draw_range(30, 70);
        Ruleset { alpha, beta, r, v, col1, col2, col_scale_min, col_scale_max }
    }

    /// Redraws every field of this ruleset from the generator.
    pub fn randomize(&mut self, rng: &mut Rng)
        ensures
            *final(self) == spec_random_ruleset(old(rng).state),
            final(rng).state == spec_random_state(old(rng).state),
            final(self).wf(),
    {
        *self = Ruleset::random(rng);
    }
}

} // verus!
