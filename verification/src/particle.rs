//! A particle: one agent's kinematic and sensory state.
//!
//! A particle belongs to exactly one ruleset by index. Each step it first
//! registers every neighbour within its ruleset's radius, classifying it as
//! left or right of its heading, and then updates: it turns by `alpha` plus
//! a `beta`-weighted asymmetry term, advances along its heading, and resets
//! its per-step counters.

use vstd::prelude::*;

verus! {

use crate::color::Color;
use crate::color::lerp_channel;
use crate::color::spec_lerp;
use crate::ruleset::Ruleset;
use crate::rng::Rng;
use crate::rng::spec_draw;
use crate::rng::spec_next;
use crate::units::ANGLE_FULL;
use crate::units::POS_LIMIT;
use crate::units::SCALE;
use crate::units::SPEED_LIMIT;
use crate::units::clamp_pos;
use crate::units::cos_units;
use crate::units::halve;
use crate::units::mul_units;
use crate::units::sin_units;
use crate::units::spec_clamp_pos;
use crate::units::spec_cos;
use crate::units::spec_half;
use crate::units::spec_mul_units;
use crate::units::spec_sin;
use crate::units::wrap_angle;
use crate::units::wrap_turn;
use vstd::arithmetic::div_mod::lemma_div_is_ordered;
use vstd::arithmetic::div_mod::lemma_div_multiples_vanish;

/// One agent.
///
/// `x`, `y` are the current position and `last_x`, `last_y` the position
/// before the most recent update (used only for interpolated rendering).
/// `angle` is the heading, kept wrapped to `[0, ANGLE_FULL)`. `others`,
/// `left` and `right` are the per-step neighbour counters, and
/// `last_others` retains the previous step's total for the colour mapping.
#[derive(Clone, Copy, PartialEq, Eq, Structural, Debug)]
pub struct Particle {
    pub x: i64,
    pub y: i64,
    pub angle: i64,
    pub ruleset: usize,
    pub others: u32,
    pub right: u32,
    pub left: u32,
    pub last_x: i64,
    pub last_y: i64,
    pub last_others: u32,
}

/// The squared Euclidean distance between two positions.
pub open spec fn spec_dist2(x1: int, y1: int, x2: int, y2: int) -> int {
    (x2 - x1) * (x2 - x1) + (y2 - y1) * (y2 - y1)
}

/// Whether the displacement `(dx, dy)` lies to the left of a heading:
/// strictly left of the heading line, or exactly behind. A displacement
/// exactly on the forward heading ray is never left (the degenerate
/// tie-break classifies it right).
pub open spec fn spec_is_left(angle: int, dx: int, dy: int) -> bool {
    let c = spec_cos(angle);
    let s = spec_sin(angle);
    c * dy - s * dx > 0 || (c * dy - s * dx == 0 && c * dx + s * dy < 0)
}

/// The particle after sensing `o`: if `o` lies strictly within the sensing
/// radius of `p`'s ruleset, the total counter and the left or right counter
/// grow by one; otherwise `p` is unchanged.
pub open spec fn spec_register(p: Particle, o: Particle, rs: Seq<Ruleset>) -> Particle {
    let rr = rs[p.ruleset as int];
    if spec_dist2(p.x as int, p.y as int, o.x as int, o.y as int) < (rr.r as int) * (rr.r as int) {
        if spec_is_left(p.angle as int, o.x - p.x, o.y - p.y) {
            Particle { others: (p.others + 1) as u32, left: (p.left + 1) as u32, ..p }
        } else {
            Particle { others: (p.others + 1) as u32, right: (p.right + 1) as u32, ..p }
        }
    } else {
        p
    }
}

/// The turn an update applies: `alpha`, plus `beta` per sensed neighbour
/// toward the crowded side when the left and right counts differ.
pub open spec fn spec_turn(p: Particle, rr: Ruleset) -> int {
    if p.left > p.right {
        rr.alpha + rr.beta * p.others
    } else if p.right > p.left {
        rr.alpha - rr.beta * p.others
    } else {
        rr.alpha as int
    }
}

/// The particle after an update: position snapshotted, heading turned and
/// wrapped, position advanced along the new heading by the ruleset's speed
/// (saturating at the world range), the total count retained for the colour
/// mapping, and all three counters reset.
pub open spec fn spec_update(p: Particle, rs: Seq<Ruleset>) -> Particle {
    let rr = rs[p.ruleset as int];
    let na = wrap_angle(p.angle + spec_turn(p, rr));
    Particle {
        x: spec_clamp_pos(p.x + spec_mul_units(spec_cos(na), rr.v as int)) as i64,
        y: spec_clamp_pos(p.y + spec_mul_units(spec_sin(na), rr.v as int)) as i64,
        angle: na as i64,
        ruleset: p.ruleset,
        others: 0,
        right: 0,
        left: 0,
        last_x: p.x,
        last_y: p.y,
        last_others: p.others,
    }
}

/// The colour-ramp position of a retained neighbour count: a linear ramp
/// from `0` at the lower threshold to `SCALE` at the upper one, clamped.
pub open spec fn spec_ramp(count: int, rr: Ruleset) -> int {
    if count <= rr.col_scale_min {
        0
    } else if count >= rr.col_scale_max {
        SCALE as int
    } else {
        ((count - rr.col_scale_min) * SCALE) / (rr.col_scale_max - rr.col_scale_min)
    }
}

/// The colour a count maps to: each channel interpolated from `col1` toward
/// `col2` by the ramp position.
pub open spec fn spec_color_map(count: int, rr: Ruleset) -> Color {
    let t = spec_ramp(count, rr);
    Color {
        r: spec_lerp(rr.col1.r as int, rr.col2.r as int, t) as i64,
        g: spec_lerp(rr.col1.g as int, rr.col2.g as int, t) as i64,
        b: spec_lerp(rr.col1.b as int, rr.col2.b as int, t) as i64,
        a: spec_lerp(rr.col1.a as int, rr.col2.a as int, t) as i64,
    }
}

impl Particle {
    /// Kinematic well-formedness against a ruleset table of `n` entries:
    /// a valid ruleset index, positions within the world range, and a
    /// wrapped heading.
    pub open spec fn wf(self, n: int) -> bool {
        &&& self.ruleset < n
        &&& -POS_LIMIT <= self.x <= POS_LIMIT
        &&& -POS_LIMIT <= self.y <= POS_LIMIT
        &&& -POS_LIMIT <= self.last_x <= POS_LIMIT
        &&& -POS_LIMIT <= self.last_y <= POS_LIMIT
        &&& 0 <= self.angle < ANGLE_FULL
    }

    /// All three per-step counters are zero, as they are between steps.
    pub open spec fn counters_zero(self) -> bool {
        self.others == 0 && self.left == 0 && self.right == 0
    }

    /// A particle at the given position, bound to the given ruleset, with a
    /// heading drawn from the generator and all counters zero.
    pub fn new(x: i64, y: i64, ruleset: usize, rng: &mut Rng) -> (p: Particle)
        requires
            -POS_LIMIT <= x <= POS_LIMIT,
            -POS_LIMIT <= y <= POS_LIMIT,
        ensures
            p == (Particle {
                x,
                y,
                angle: spec_draw(old(rng).state, 368640) as i64,
                ruleset,
                others: 0,
                right: 0,
                left: 0,
                last_x: x,
                last_y: y,
                last_others: 0,
            }),
            final(rng).state == spec_next(old(rng).state),
            0 <= p.angle < ANGLE_FULL,
            p.counters_zero(),
    {
        let angle = rng.draw(ANGLE_FULL as u64) as i64;
        Particle {
            x,
            y,
            angle,
            ruleset,
            others: 0,
            right: 0,
            left: 0,
            last_x: x,
            last_y: y,
            last_others: 0,
        }
    }

    /// Senses one neighbour: if `other` lies strictly within this particle's
    /// sensing radius, counts it, classifying it left or right of the
    /// current heading. `other` is unaffected; pairwise sensing calls this
    /// once in each direction.
    pub fn register(&mut self, other: &Particle, rulesets: &Vec<Ruleset>)
        requires
            old(self).ruleset < rulesets@.len(),
            old(self).wf(rulesets@.len() as int),
            -POS_LIMIT <= other.x <= POS_LIMIT,
            -POS_LIMIT <= other.y <= POS_LIMIT,
            old(self).others < u32::MAX,
            old(self).left < u32::MAX,
            old(self).right < u32::MAX,
        ensures
            *final(self) == spec_register(*old(self), *other, rulesets@),
    {
        let rr = rulesets[self.ruleset];
        let dx: i64 = other.x - self.x;
        let dy: i64 = other.y - self.y;
        proof {
            assert(0 <= (dx as int) * (dx as int) <= 5316911983139663491615228241121378304int)
                by (nonlinear_arith)
                requires -2305843009213693952 <= dx <= 2305843009213693952;
            assert(0 <= (dy as int) * (dy as int) <= 5316911983139663491615228241121378304int)
                by (nonlinear_arith)
                requires -2305843009213693952 <= dy <= 2305843009213693952;
            assert(0 <= (rr.r as int) * (rr.r as int) <= 85070591730234615865843651857942052864int)
                by (nonlinear_arith)
                requires -9223372036854775808 <= rr.r <= 9223372036854775807;
        }
        let d2: i128 = (dx as i128) * (dx as i128) + (dy as i128) * (dy as i128);
        let r2: i128 = (rr.r as i128) * (rr.r as i128);
        if d2 < r2 {
            self.others = self.others + 1;
            let c = cos_units(self.angle);
            let s = sin_units(self.angle);
            proof {
                assert(
                    -2361183241434822606848int <= (c as int) * (dy as int)
                        <= 2361183241434822606848int
                    && -2361183241434822606848int <= (s as int) * (dx as int)
                        <= 2361183241434822606848int
                    && -2361183241434822606848int <= (c as int) * (dx as int)
                        <= 2361183241434822606848int
                    && -2361183241434822606848int <= (s as int) * (dy as int)
                        <= 2361183241434822606848int
                ) by (nonlinear_arith)
                    requires
                        -1024 <= c <= 1024,
                        -1024 <= s <= 1024,
                        -2305843009213693952 <= dx <= 2305843009213693952,
                        -2305843009213693952 <= dy <= 2305843009213693952;
            }
            let cross: i128 = (c as i128) * (dy as i128) - (s as i128) * (dx as i128);
            let dot: i128 = (c as i128) * (dx as i128) + (s as i128) * (dy as i128);
            if cross > 0 || (cross == 0 && dot < 0) {
                self.left = self.left + 1;
            } else {
                self.right = self.right + 1;
            }
        }
    }

    /// One motion update, consuming the accumulated counters.
    pub fn update(&mut self, rulesets: &Vec<Ruleset>)
        requires
            old(self).ruleset < rulesets@.len(),
            old(self).wf(rulesets@.len() as int),
            rulesets@[old(self).ruleset as int].wf(),
        ensures
            *final(self) == spec_update(*old(self), rulesets@),
            final(self).wf(rulesets@.len() as int),
            final(self).counters_zero(),
            final(self).last_others == old(self).others,
            final(self).last_x == old(self).x,
            final(self).last_y == old(self).y,
            0 <= final(self).angle < ANGLE_FULL,
    {
        let rr = rulesets[self.ruleset];
        self.last_x = self.x;
        self.last_y = self.y;
        proof {
            assert(
                -2000000000000000000000int <= (rr.beta as int) * (self.others as int)
                    <= 2000000000000000000000int
            ) by (nonlinear_arith)
                requires
                    -377487360 <= rr.beta <= 377487360,
                    0 <= self.others <= 4294967295;
        }
        let turn: i128 = if self.left > self.right {
            rr.alpha as i128 + (rr.beta as i128) * (self.others as i128)
        } else if self.right > self.left {
            rr.alpha as i128 - (rr.beta as i128) * (self.others as i128)
        } else {
            rr.alpha as i128
        };
        let na = wrap_turn(self.angle as i128 + turn);
        self.angle = na;
        let c = cos_units(na);
        let s = sin_units(na);
        proof {
            assert(
                -(1152921504606846976int * 1024) <= (c as int) * (rr.v as int)
                    <= 1152921504606846976int * 1024
                && -(1152921504606846976int * 1024) <= (s as int) * (rr.v as int)
                    <= 1152921504606846976int * 1024
            ) by (nonlinear_arith)
                requires
                    -1024 <= c <= 1024,
                    -1024 <= s <= 1024,
                    0 <= rr.v <= 4294967296;
        }
        let mx = mul_units(c, rr.v);
        let my = mul_units(s, rr.v);
        self.x = clamp_pos(self.x + mx);
        self.y = clamp_pos(self.y + my);
        self.last_others = self.others;
        self.others = 0;
        self.right = 0;
        self.left = 0;
    }

    /// The interpolated rendering abscissa: the midpoint of the previous and
    /// current positions.
    pub fn get_draw_x(&self) -> (r: i64)
        requires
            -POS_LIMIT <= self.x <= POS_LIMIT,
            -POS_LIMIT <= self.last_x <= POS_LIMIT,
        ensures
            r == spec_half(self.last_x + self.x),
    {
        halve(self.last_x + self.x)
    }

    /// The interpolated rendering ordinate: the midpoint of the previous and
    /// current positions.
    pub fn get_draw_y(&self) -> (r: i64)
        requires
            -POS_LIMIT <= self.y <= POS_LIMIT,
            -POS_LIMIT <= self.last_y <= POS_LIMIT,
        ensures
            r == spec_half(self.last_y + self.y),
    {
        halve(self.last_y + self.y)
    }

    /// Maps a retained neighbour count through the ruleset's colour ramp.
    pub fn get_color(&self, others: u32, rs: &Ruleset) -> (c: Color)
        requires
            rs.wf(),
        ensures
            c == spec_color_map(others as int, *rs),
            c.wf(),
    {
        let t: i64 = if (others as i64) <= rs.col_scale_min {
            0
        } else if (others as i64) >= rs.col_scale_max {
            SCALE
        } else {
            let num: u64 = ((others as i64 - rs.col_scale_min) as u64) * (SCALE as u64);
            let den: u64 = (rs.col_scale_max - rs.col_scale_min) as u64;
            proof {
                assert(
                    (others - rs.col_scale_min) * (SCALE as int)
                        <= (rs.col_scale_max - rs.col_scale_min) * (SCALE as int)
                ) by (nonlinear_arith)
                    requires
                        others < rs.col_scale_max,
                        0 <= rs.col_scale_min < rs.col_scale_max;
                lemma_div_is_ordered(
                    (others - rs.col_scale_min) * (SCALE as int),
                    (rs.col_scale_max - rs.col_scale_min) * (SCALE as int),
                    rs.col_scale_max - rs.col_scale_min,
                );
                lemma_div_multiples_vanish(
                    SCALE as int,
                    rs.col_scale_max - rs.col_scale_min,
                );
            }
            (num / den) as i64
        };
        Color {
            r: lerp_channel(rs.col1.r, rs.col2.r, t),
            g: lerp_channel(rs.col1.g, rs.col2.g, t),
            b: lerp_channel(rs.col1.b, rs.col2.b, t),
            a: lerp_channel(rs.col1.a, rs.col2.a, t),
        }
    }
}

/// A neighbour exactly on a particle's forward heading ray — displaced by a
/// positive multiple `t` of the heading vector — is classified right, never
/// left: the degenerate tie-break of the left/right classification.
pub proof fn lemma_on_heading_ray_is_right(angle: int, dx: int, dy: int, t: int)
    requires
        dx == t * spec_cos(angle),
        dy == t * spec_sin(angle),
        t > 0,
        !(spec_cos(angle) == 0 && spec_sin(angle) == 0),
    ensures
        !spec_is_left(angle, dx, dy),
{
    let c = spec_cos(angle);
    let s = spec_sin(angle);
    assert(c * (t * s) - s * (t * c) == 0) by (nonlinear_arith);
    assert(c * (t * c) + s * (t * s) > 0) by (nonlinear_arith)
        requires t > 0, !(c == 0 && s == 0);
}

} // verus!
