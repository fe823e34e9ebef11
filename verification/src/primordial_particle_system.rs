//! The particle system: owner of the particle and ruleset collections, sole
//! mutator of both, driver of the per-step simulation loop and of all
//! spatial editing operations.
//!
//! A step performs all-pairs mutual registration — every particle senses
//! every other — and only then updates each particle, so that every update
//! consumes fully accumulated neighbour counts.

use vstd::prelude::*;

verus! {

use crate::color::Color;
use crate::particle::Particle;
use crate::particle::spec_dist2;
use crate::particle::spec_register;
use crate::particle::spec_update;
use crate::ruleset::Ruleset;
use crate::rng::Rng;
use crate::rng::spec_draw;
use crate::rng::spec_next;
use crate::units::ANGLE_FULL;
use crate::units::POS_LIMIT;
use crate::units::SCALE;
use crate::units::clamp_pos;
use crate::units::cos_units;
use crate::units::isqrt;
use crate::units::mul_units;
use crate::units::sin_units;
use crate::units::spec_clamp_pos;
use crate::units::spec_cos;
use crate::units::spec_isqrt;
use crate::units::spec_mul_units;
use crate::units::spec_sin;
use crate::units::SPEED_LIMIT;
use crate::units::lemma_mul_units_bounded;
use crate::units::lemma_cos_bounds;
use crate::units::lemma_sin_bounds;
use vstd::arithmetic::div_mod::lemma_small_mod;
use vstd::arithmetic::div_mod::lemma_div_is_ordered;
use vstd::arithmetic::div_mod::lemma_div_multiples_vanish;
use vstd::pervasive::VecAdditionalExecFns;

/// The engine: an ordered particle collection (order irrelevant to the
/// dynamics), an ordered ruleset collection (order is the group-id space),
/// and the explicitly seeded generator all randomness is drawn from.
pub struct PrimordialParticleSystem {
    pub particles: Vec<Particle>,
    pub rulesets: Vec<Ruleset>,
    pub rng: Rng,
}

/// Whether `p` senses `o`: `o` lies strictly within the sensing radius of
/// `p`'s ruleset.
pub open spec fn senses(p: Particle, o: Particle, rs: Seq<Ruleset>) -> bool {
    let rr = rs[p.ruleset as int];
    spec_dist2(p.x as int, p.y as int, o.x as int, o.y as int) < (rr.r as int) * (rr.r as int)
}

/// How many of the first `k` particles other than `i` particle `i` senses.
pub open spec fn count_within(ps: Seq<Particle>, rs: Seq<Ruleset>, i: int, k: int) -> int
    decreases k,
{
    if k <= 0 {
        0
    } else {
        count_within(ps, rs, i, k - 1) + if k - 1 != i && senses(ps[i], ps[k - 1], rs) {
            1int
        } else {
            0int
        }
    }
}

/// Particle `i` after registering the first `k` particles other than
/// itself, in storage order.
pub open spec fn reg_prefix(ps: Seq<Particle>, rs: Seq<Ruleset>, i: int, k: int) -> Particle
    decreases k,
{
    if k <= 0 {
        ps[i]
    } else if k - 1 == i {
        reg_prefix(ps, rs, i, k - 1)
    } else {
        spec_register(reg_prefix(ps, rs, i, k - 1), ps[k - 1], rs)
    }
}

/// Particle `i` after the full registration pass of a step.
pub open spec fn spec_registered(ps: Seq<Particle>, rs: Seq<Ruleset>, i: int) -> Particle {
    reg_prefix(ps, rs, i, ps.len() as int)
}

/// Two particles agreeing on everything but the per-step counters.
pub open spec fn same_kinematics(a: Particle, b: Particle) -> bool {
    &&& a.x == b.x
    &&& a.y == b.y
    &&& a.angle == b.angle
    &&& a.ruleset == b.ruleset
    &&& a.last_x == b.last_x
    &&& a.last_y == b.last_y
    &&& a.last_others == b.last_others
}

/// Registration touches only the counters of the registering particle, and
/// reads only the position of the sensed one.
pub proof fn lemma_register_position_only(p: Particle, o1: Particle, o2: Particle, rs: Seq<Ruleset>)
    requires
        o1.x == o2.x,
        o1.y == o2.y,
    ensures
        spec_register(p, o1, rs) == spec_register(p, o2, rs),
{
}

/// The registration fold leaves the kinematic fields untouched, counts at
/// most one neighbour per particle visited, grows the total by exactly the
/// number of sensed neighbours, and splits that growth between the left and
/// right counters.
pub proof fn lemma_reg_prefix_counts(ps: Seq<Particle>, rs: Seq<Ruleset>, i: int, k: int)
    requires
        0 <= i < ps.len(),
        0 <= k <= ps.len(),
        ps[i].others + k <= u32::MAX,
        ps[i].left + k <= u32::MAX,
        ps[i].right + k <= u32::MAX,
    ensures
        0 <= count_within(ps, rs, i, k) <= k,
        same_kinematics(reg_prefix(ps, rs, i, k), ps[i]),
        reg_prefix(ps, rs, i, k).others == ps[i].others + count_within(ps, rs, i, k),
        reg_prefix(ps, rs, i, k).left + reg_prefix(ps, rs, i, k).right == ps[i].left
            + ps[i].right + count_within(ps, rs, i, k),
        reg_prefix(ps, rs, i, k).left >= ps[i].left,
        reg_prefix(ps, rs, i, k).right >= ps[i].right,
    decreases k,
{
    if k > 0 {
        lemma_reg_prefix_counts(ps, rs, i, k - 1);
    }
}

/// After a full registration pass from zeroed counters, a particle's total
/// equals the number of other particles strictly within its ruleset's
/// radius, and its left and right counts sum to that total.
pub proof fn lemma_registration_counts(ps: Seq<Particle>, rs: Seq<Ruleset>, i: int)
    requires
        0 <= i < ps.len(),
        ps.len() <= u32::MAX,
        ps[i].counters_zero(),
    ensures
        spec_registered(ps, rs, i).others == count_within(ps, rs, i, ps.len() as int),
        spec_registered(ps, rs, i).left + spec_registered(ps, rs, i).right == count_within(
            ps,
            rs,
            i,
            ps.len() as int,
        ),
        same_kinematics(spec_registered(ps, rs, i), ps[i]),
{
    lemma_reg_prefix_counts(ps, rs, i, ps.len() as int);
}

/// The fixed default ruleset a fresh system starts with: a half-turn
/// `alpha`, seventeen degrees of `beta` per neighbour, radius 15, speed 2,
/// a blue-to-orange gradient and thresholds 1 to 30.
pub open spec fn spec_default_ruleset() -> Ruleset {
    Ruleset {
        alpha: 184320,
        beta: 17408,
        r: 15360,
        v: 2048,
        col1: Color { r: 0, g: 0, b: 1024, a: 1024 },
        col2: Color { r: 1024, g: 401, b: 0, a: 1024 },
        col_scale_min: 1,
        col_scale_max: 30,
    }
}

/// The particle a paint operation appends: scattered uniformly over the
/// brush disk (radius scaled by the square root of a uniform sample, a
/// uniform scatter direction), with a uniform heading, counters zero, and
/// the previous position equal to the current one.
pub open spec fn spec_added_particle(s: u64, x: int, y: int, r: int, ruleset: usize) -> Particle {
    let u = spec_draw(s, 1025);
    let s1 = spec_next(s);
    let theta = spec_draw(s1, 368640);
    let s2 = spec_next(s1);
    let heading = spec_draw(s2, 368640);
    let d = (r * spec_isqrt(u * SCALE)) / (SCALE as int);
    let px = spec_clamp_pos(x + spec_mul_units(d, spec_cos(theta as int)));
    let py = spec_clamp_pos(y + spec_mul_units(d, spec_sin(theta as int)));
    Particle {
        x: px as i64,
        y: py as i64,
        angle: heading as i64,
        ruleset,
        others: 0,
        right: 0,
        left: 0,
        last_x: px as i64,
        last_y: py as i64,
        last_others: 0,
    }
}

/// The particles surviving an erase of the circle of radius `r` at
/// `(x, y)` among the first `k`: exactly those at squared distance at least
/// `r * r`, in storage order, untouched.
pub open spec fn spec_erase(ps: Seq<Particle>, x: int, y: int, r: int, k: int) -> Seq<Particle>
    decreases k,
{
    if k <= 0 {
        Seq::empty()
    } else {
        let prefix = spec_erase(ps, x, y, r, k - 1);
        if spec_dist2(ps[k - 1].x as int, ps[k - 1].y as int, x, y) < r * r {
            prefix
        } else {
            prefix.push(ps[k - 1])
        }
    }
}

/// The indices among the first `k` particles strictly within the circle of
/// radius `r` at `(x, y)`, in increasing order.
pub open spec fn spec_hovered(ps: Seq<Particle>, x: int, y: int, r: int, k: int) -> Seq<usize>
    decreases k,
{
    if k <= 0 {
        Seq::empty()
    } else {
        let prefix = spec_hovered(ps, x, y, r, k - 1);
        if spec_dist2(ps[k - 1].x as int, ps[k - 1].y as int, x, y) < r * r {
            prefix.push((k - 1) as usize)
        } else {
            prefix
        }
    }
}

/// A particle translated by `(dx, dy)` (saturating at the world range),
/// with its previous position overwritten so a drag causes no interpolated
/// jump on the next render.
pub open spec fn spec_dragged(p: Particle, dx: int, dy: int) -> Particle {
    let nx = spec_clamp_pos(p.x + dx) as i64;
    let ny = spec_clamp_pos(p.y + dy) as i64;
    Particle { x: nx, y: ny, last_x: nx, last_y: ny, ..p }
}

/// The particles after dragging those named by the first `k` entries of
/// `idx`, in order (an index named twice is dragged twice).
pub open spec fn spec_drag(
    ps: Seq<Particle>,
    idx: Seq<usize>,
    dx: int,
    dy: int,
    k: int,
) -> Seq<Particle>
    decreases k,
{
    if k <= 0 {
        ps
    } else {
        let prev = spec_drag(ps, idx, dx, dy, k - 1);
        let i = idx[k - 1] as int;
        prev.update(i, spec_dragged(prev[i], dx, dy))
    }
}

/// A particle's ruleset index after ruleset `i` is deleted: rebound to the
/// default group `0` if it was `i`, shifted down by one if it was greater,
/// unchanged otherwise.
pub open spec fn spec_rebound(old_index: usize, i: usize) -> usize {
    if old_index == i {
        0
    } else if old_index > i {
        (old_index - 1) as usize
    } else {
        old_index
    }
}

impl PrimordialParticleSystem {
    /// The system invariant: at least one ruleset, every ruleset within the
    /// engine's parameter bounds, every particle kinematically well formed
    /// with zeroed counters, and few enough particles for the counters
    /// never to saturate.
    pub open spec fn wf(self) -> bool {
        &&& 1 <= self.rulesets@.len()
        &&& self.particles@.len() <= u32::MAX
        &&& forall|j: int|
            0 <= j < self.rulesets@.len() ==> (#[trigger] self.rulesets@[j]).wf()
        &&& forall|i: int|
            0 <= i < self.particles@.len() ==> (#[trigger] self.particles@[i]).wf(
                self.rulesets@.len() as int,
            )
        &&& forall|i: int|
            0 <= i < self.particles@.len() ==> (#[trigger] self.particles@[i]).counters_zero()
    }

    /// A fresh system: the fixed default ruleset, no particles, and the
    /// generator seeded as given.
    pub fn new(seed: u64) -> (s: PrimordialParticleSystem)
        ensures
            s.rulesets@.len() == 1,
            s.rulesets@[0] == spec_default_ruleset(),
            s.particles@.len() == 0,
            s.rng.state == seed,
            s.wf(),
    {
        let mut rulesets: Vec<Ruleset> = Vec::new();
        rulesets.push(
            Ruleset::from_degrees(
                180,
                17,
                15 * SCALE,
                2 * SCALE,
                Color::from_rgba(0, 0, 255, 255),
                Color::from_rgba(255, 100, 0, 255),
                1,
                30,
            ),
        );
        PrimordialParticleSystem { particles: Vec::new(), rulesets, rng: Rng::new(seed) }
    }

    /// Deletes ruleset `i`, rebinding every particle of group `i` to the
    /// default group and shifting every higher group index down by one.
    /// The caller keeps at least one ruleset alive.
    #[verifier::loop_isolation(false)]
    pub fn delete_ruleset(&mut self, i: usize)
        requires
            old(self).wf(),
            1 < old(self).rulesets@.len(),
            i < old(self).rulesets@.len(),
        ensures
            final(self).wf(),
            final(self).rulesets@ == old(self).rulesets@.remove(i as int),
            final(self).rng == old(self).rng,
            final(self).particles@.len() == old(self).particles@.len(),
            forall|j: int|
                0 <= j < old(self).particles@.len() ==> final(self).particles@[j] == (Particle {
                    ruleset: spec_rebound(old(self).particles@[j].ruleset, i),
                    ..old(self).particles@[j]
                }),
    {
        let ghost ps0 = self.particles@;
        let n = self.particles.len();
        let mut j: usize = 0;
        while j < n
            invariant
                j <= n,
                n == ps0.len(),
                self.particles@.len() == n,
                self.rulesets == old(self).rulesets,
                self.rng == old(self).rng,
                i < self.rulesets@.len(),
                forall|m: int| j <= m < n ==> self.particles@[m] == ps0[m],
                forall|m: int|
                    0 <= m < j ==> self.particles@[m] == (Particle {
                        ruleset: spec_rebound(ps0[m].ruleset, i),
                        ..ps0[m]
                    }),
                forall|m: int| 0 <= m < n ==> (#[trigger] ps0[m]).wf(self.rulesets@.len() as int),
            decreases n - j,
        {
            let mut p = self.particles[j];
            if p.ruleset == i {
                p.ruleset = 0;
            } else if p.ruleset > i {
                p.ruleset = p.ruleset - 1;
            }
            self.particles.set(j, p);
            j = j + 1;
        }
        self.rulesets.remove(i);
        proof {
            assert forall|m: int| 0 <= m < self.particles@.len() implies (
                #[trigger] self.particles@[m]).wf(self.rulesets@.len() as int) by {
                assert(self.particles@[m] == (Particle {
                    ruleset: spec_rebound(ps0[m].ruleset, i),
                    ..ps0[m]
                }));
                assert(ps0[m].wf(old(self).rulesets@.len() as int));
            }
        }
    }

    /// Paints one particle: a point sampled uniformly within the brush disk
    /// of radius `r` at `(x, y)`, bound to the given ruleset, appended to
    /// the collection.
    #[verifier::rlimit(60)]
    pub fn add(&mut self, x: i64, y: i64, r: i64, ruleset: usize)
        requires
            old(self).wf(),
            ruleset < old(self).rulesets@.len(),
            -POS_LIMIT <= x <= POS_LIMIT,
            -POS_LIMIT <= y <= POS_LIMIT,
            0 <= r <= POS_LIMIT,
            old(self).particles@.len() < u32::MAX,
        ensures
            final(self).wf(),
            final(self).rulesets == old(self).rulesets,
            final(self).particles@ == old(self).particles@.push(
                spec_added_particle(old(self).rng.state, x as int, y as int, r as int, ruleset),
            ),
            final(self).rng.state == spec_next(spec_next(spec_next(old(self).rng.state))),
    {
        let u = self.rng.draw(1025);
        let sq = isqrt(u * (SCALE as u64));
        let theta = self.rng.draw(ANGLE_FULL as u64) as i64;
        proof {
            assert(sq <= 1024) by (nonlinear_arith)
                requires sq * sq <= 1048576;
            assert((r as int) * (sq as int) <= (r as int) * 1024 && 0 <= (r as int) * (sq as int))
                by (nonlinear_arith)
                requires 0 <= r, 0 <= sq <= 1024;
            lemma_div_is_ordered((r as int) * (sq as int), (r as int) * 1024, 1024);
            lemma_div_multiples_vanish(r as int, 1024);
        }
        let d: i64 = (((r as u128) * (sq as u128)) / (SCALE as u128)) as i64;
        let c = cos_units(theta);
        let s = sin_units(theta);
        proof {
            assert(
                -(1152921504606846976int * 1024) <= (d as int) * (c as int)
                    <= 1152921504606846976int * 1024
                && -(1152921504606846976int * 1024) <= (d as int) * (s as int)
                    <= 1152921504606846976int * 1024
            ) by (nonlinear_arith)
                requires
                    0 <= d <= 1152921504606846976,
                    -1024 <= c <= 1024,
                    -1024 <= s <= 1024;
        }
        let ox = mul_units(d, c);
        let oy = mul_units(d, s);
        let px = clamp_pos(x + ox);
        let py = clamp_pos(y + oy);
        let p = Particle::new(px, py, ruleset, &mut self.rng);
        self.particles.push(p);
    }

    /// Erases every particle strictly within the circle of radius `r` at
    /// `(x, y)`; the survivors keep their fields and their relative order.
    #[verifier::loop_isolation(false)]
    pub fn erase(&mut self, x: i64, y: i64, r: i64)
        requires
            old(self).wf(),
            -POS_LIMIT <= x <= POS_LIMIT,
            -POS_LIMIT <= y <= POS_LIMIT,
        ensures
            final(self).wf(),
            final(self).rulesets == old(self).rulesets,
            final(self).rng == old(self).rng,
            final(self).particles@ == spec_erase(
                old(self).particles@,
                x as int,
                y as int,
                r as int,
                old(self).particles@.len() as int,
            ),
    {
        let ghost ps0 = self.particles@;
        let n = self.particles.len();
        let mut kept: Vec<Particle> = Vec::new();
        let mut j: usize = 0;
        while j < n
            invariant
                j <= n,
                n == ps0.len(),
                self.particles@ == ps0,
                kept@ == spec_erase(ps0, x as int, y as int, r as int, j as int),
                kept@.len() <= j,
                forall|m: int|
                    0 <= m < kept@.len() ==> (#[trigger] kept@[m]).wf(
                        self.rulesets@.len() as int,
                    ) && kept@[m].counters_zero(),
                forall|m: int| 0 <= m < n ==> -POS_LIMIT <= #[trigger] ps0[m].x <= POS_LIMIT
                    && -POS_LIMIT <= ps0[m].y <= POS_LIMIT,
            decreases n - j,
        {
            let p = self.particles[j];
            let dx: i64 = x - p.x;
            let dy: i64 = y - p.y;
            proof {
                assert(0 <= (dx as int) * (dx as int) <= 5316911983139663491615228241121378304int)
                    by (nonlinear_arith)
                    requires -2305843009213693952 <= dx <= 2305843009213693952;
                assert(0 <= (dy as int) * (dy as int) <= 5316911983139663491615228241121378304int)
                    by (nonlinear_arith)
                    requires -2305843009213693952 <= dy <= 2305843009213693952;
                assert(0 <= (r as int) * (r as int) <= 85070591730234615865843651857942052864int)
                    by (nonlinear_arith)
                    requires -9223372036854775808 <= r <= 9223372036854775807;
            }
            let d2: i128 = (dx as i128) * (dx as i128) + (dy as i128) * (dy as i128);
            let r2: i128 = (r as i128) * (r as i128);
            if !(d2 < r2) {
                kept.push(p);
            }
            j = j + 1;
        }
        self.particles = kept;
    }

    /// Translates each named particle by `(dx, dy)` and overwrites its
    /// previous position, so the next render shows no interpolated jump.
    /// Every named index refers to a live particle.
    #[verifier::loop_isolation(false)]
    pub fn drag(&mut self, hovered: &Vec<usize>, dx: i64, dy: i64)
        requires
            old(self).wf(),
            forall|k: int|
                0 <= k < hovered@.len() ==> (#[trigger] hovered@[k]) < old(
                    self,
                ).particles@.len(),
        ensures
            final(self).wf(),
            final(self).rulesets == old(self).rulesets,
            final(self).rng == old(self).rng,
            final(self).particles@ == spec_drag(
                old(self).particles@,
                hovered@,
                dx as int,
                dy as int,
                hovered@.len() as int,
            ),
    {
        let ghost ps0 = self.particles@;
        let n = hovered.len();
        let mut k: usize = 0;
        while k < n
            invariant
                k <= n,
                n == hovered@.len(),
                self.rulesets == old(self).rulesets,
                self.rng == old(self).rng,
                self.particles@ == spec_drag(ps0, hovered@, dx as int, dy as int, k as int),
                self.particles@.len() == ps0.len(),
                forall|m: int| 0 <= m < n ==> (#[trigger] hovered@[m]) < ps0.len(),
                forall|m: int|
                    0 <= m < ps0.len() ==> (#[trigger] self.particles@[m]).wf(
                        self.rulesets@.len() as int,
                    ),
                forall|m: int|
                    0 <= m < ps0.len() ==> (#[trigger] self.particles@[m]).counters_zero(),
            decreases n - k,
        {
            let i = hovered[k];
            let mut p = self.particles[i];
            let nx = clamp_pos_wide((p.x as i128) + (dx as i128));
            let ny = clamp_pos_wide((p.y as i128) + (dy as i128));
            p.x = nx;
            p.y = ny;
            p.last_x = nx;
            p.last_y = ny;
            self.particles.set(i, p);
            k = k + 1;
        }
    }

    /// The indices of the particles strictly within the circle of radius
    /// `r` at `(x, y)`, in increasing order; valid until the next
    /// structural mutation of the collection.
    #[verifier::loop_isolation(false)]
    pub fn get_all_hovered(&mut self, x: i64, y: i64, r: i64) -> (hovered: Vec<usize>)
        requires
            old(self).wf(),
            -POS_LIMIT <= x <= POS_LIMIT,
            -POS_LIMIT <= y <= POS_LIMIT,
        ensures
            *final(self) == *old(self),
            hovered@ == spec_hovered(
                old(self).particles@,
                x as int,
                y as int,
                r as int,
                old(self).particles@.len() as int,
            ),
    {
        let mut hovered: Vec<usize> = Vec::new();
        let n = self.particles.len();
        let mut j: usize = 0;
        while j < n
            invariant
                j <= n,
                n == self.particles@.len(),
                *self == *old(self),
                hovered@ == spec_hovered(
                    self.particles@,
                    x as int,
                    y as int,
                    r as int,
                    j as int,
                ),
                forall|m: int|
                    0 <= m < n ==> -POS_LIMIT <= #[trigger] self.particles@[m].x <= POS_LIMIT
                        && -POS_LIMIT <= self.particles@[m].y <= POS_LIMIT,
            decreases n - j,
        {
            let p = self.particles[j];
            let dx: i64 = x - p.x;
            let dy: i64 = y - p.y;
            proof {
                assert(0 <= (dx as int) * (dx as int) <= 5316911983139663491615228241121378304int)
                    by (nonlinear_arith)
                    requires -2305843009213693952 <= dx <= 2305843009213693952;
                assert(0 <= (dy as int) * (dy as int) <= 5316911983139663491615228241121378304int)
                    by (nonlinear_arith)
                    requires -2305843009213693952 <= dy <= 2305843009213693952;
                assert(0 <= (r as int) * (r as int) <= 85070591730234615865843651857942052864int)
                    by (nonlinear_arith)
                    requires -9223372036854775808 <= r <= 9223372036854775807;
            }
            let d2: i128 = (dx as i128) * (dx as i128) + (dy as i128) * (dy as i128);
            let r2: i128 = (r as i128) * (r as i128);
            if d2 < r2 {
                hovered.push(j);
            }
            j = j + 1;
        }
        hovered
    }

    /// Rebinds every particle strictly within the circle of radius `r` at
    /// `(x, y)` to the given ruleset; positions are untouched.
    #[verifier::loop_isolation(false)]
    pub fn rerule(&mut self, x: i64, y: i64, r: i64, ruleset: usize)
        requires
            old(self).wf(),
            ruleset < old(self).rulesets@.len(),
            -POS_LIMIT <= x <= POS_LIMIT,
            -POS_LIMIT <= y <= POS_LIMIT,
        ensures
            final(self).wf(),
            final(self).rulesets == old(self).rulesets,
            final(self).rng == old(self).rng,
            final(self).particles@.len() == old(self).particles@.len(),
            forall|m: int|
                0 <= m < old(self).particles@.len() ==> final(self).particles@[m] == (
                if spec_dist2(
                    old(self).particles@[m].x as int,
                    old(self).particles@[m].y as int,
                    x as int,
                    y as int,
                ) < (r as int) * (r as int) {
                    (Particle { ruleset, ..old(self).particles@[m] })
                } else {
                    old(self).particles@[m]
                }),
    {
        let ghost ps0 = self.particles@;
        let n = self.particles.len();
        let mut j: usize = 0;
        while j < n
            invariant
                j <= n,
                n == ps0.len(),
                self.particles@.len() == n,
                self.rulesets == old(self).rulesets,
                self.rng == old(self).rng,
                ruleset < self.rulesets@.len(),
                forall|m: int| j <= m < n ==> self.particles@[m] == ps0[m],
                forall|m: int|
                    0 <= m < j ==> self.particles@[m] == (
                    if spec_dist2(
                        ps0[m].x as int,
                        ps0[m].y as int,
                        x as int,
                        y as int,
                    ) < (r as int) * (r as int) {
                        (Particle { ruleset, ..ps0[m] })
                    } else {
                        ps0[m]
                    }),
                forall|m: int| 0 <= m < n ==> (#[trigger] ps0[m]).wf(self.rulesets@.len() as int),
                forall|m: int| 0 <= m < n ==> (#[trigger] ps0[m]).counters_zero(),
            decreases n - j,
        {
            let mut p = self.particles[j];
            proof {
                assert(p == ps0[j as int]);
                assert(ps0[j as int].wf(self.rulesets@.len() as int));
            }
            let dx: i64 = x - p.x;
            let dy: i64 = y - p.y;
            proof {
                assert(0 <= (dx as int) * (dx as int) <= 5316911983139663491615228241121378304int)
                    by (nonlinear_arith)
                    requires -2305843009213693952 <= dx <= 2305843009213693952;
                assert(0 <= (dy as int) * (dy as int) <= 5316911983139663491615228241121378304int)
                    by (nonlinear_arith)
                    requires -2305843009213693952 <= dy <= 2305843009213693952;
                assert(0 <= (r as int) * (r as int) <= 85070591730234615865843651857942052864int)
                    by (nonlinear_arith)
                    requires -9223372036854775808 <= r <= 9223372036854775807;
            }
            let d2: i128 = (dx as i128) * (dx as i128) + (dy as i128) * (dy as i128);
            let r2: i128 = (r as i128) * (r as i128);
            if d2 < r2 {
                p.ruleset = ruleset;
                self.particles.set(j, p);
            }
            j = j + 1;
        }
    }

    /// Empties the particle collection; rulesets and generator survive.
    pub fn clear(&mut self)
        requires
            old(self).wf(),
        ensures
            final(self).wf(),
            final(self).particles@.len() == 0,
            final(self).rulesets == old(self).rulesets,
            final(self).rng == old(self).rng,
    {
        self.particles.clear();
    }

    /// One simulation step: all-pairs mutual registration, then one update
    /// per particle. Every update consumes a fully accumulated count: all
    /// registrations happen before any update.
    #[verifier::loop_isolation(false)]
    pub fn update(&mut self)
        requires
            old(self).wf(),
        ensures
            final(self).wf(),
            final(self).rulesets == old(self).rulesets,
            final(self).rng == old(self).rng,
            final(self).particles@.len() == old(self).particles@.len(),
            forall|i: int|
                0 <= i < old(self).particles@.len() ==> final(self).particles@[i] == spec_update(
                    spec_registered(old(self).particles@, old(self).rulesets@, i),
                    old(self).rulesets@,
                ),
    {
        let ghost ps0 = self.particles@;
        let ghost rs0 = self.rulesets@;
        let n = self.particles.len();
        let mut i: usize = 0;
        while i < n
            invariant
                i <= n,
                n == ps0.len(),
                n <= u32::MAX,
                self.particles@.len() == n,
                self.rulesets == old(self).rulesets,
                self.rulesets@ == rs0,
                self.rng == old(self).rng,
                1 <= rs0.len(),
                forall|m: int| 0 <= m < rs0.len() ==> (#[trigger] rs0[m]).wf(),
                forall|m: int| 0 <= m < n ==> (#[trigger] ps0[m]).wf(rs0.len() as int),
                forall|m: int| 0 <= m < n ==> (#[trigger] ps0[m]).counters_zero(),
                forall|m: int|
                    0 <= m < n ==> same_kinematics(#[trigger] self.particles@[m], ps0[m]),
                forall|m: int| i <= m < n ==> self.particles@[m] == ps0[m],
                forall|m: int|
                    0 <= m < i ==> self.particles@[m] == spec_registered(ps0, rs0, m),
            decreases n - i,
        {
            let mut p = self.particles[i];
            let mut j: usize = 0;
            while j < n
                invariant
                    j <= n,
                    n == ps0.len(),
                    n <= u32::MAX,
                    i < n,
                    self.particles@.len() == n,
                    self.rulesets == old(self).rulesets,
                    self.rulesets@ == rs0,
                    1 <= rs0.len(),
                    forall|m: int| 0 <= m < rs0.len() ==> (#[trigger] rs0[m]).wf(),
                    forall|m: int| 0 <= m < n ==> (#[trigger] ps0[m]).wf(rs0.len() as int),
                    forall|m: int| 0 <= m < n ==> (#[trigger] ps0[m]).counters_zero(),
                    forall|m: int|
                        0 <= m < n ==> same_kinematics(#[trigger] self.particles@[m], ps0[m]),
                    p == reg_prefix(ps0, rs0, i as int, j as int),
                decreases n - j,
            {
                if j != i {
                    proof {
                        assert(ps0[i as int].counters_zero());
                        lemma_reg_prefix_counts(ps0, rs0, i as int, j as int);
                    }
                    let o = self.particles[j];
                    p.register(&o, &self.rulesets);
                    proof {
                        lemma_register_position_only(
                            reg_prefix(ps0, rs0, i as int, j as int),
                            o,
                            ps0[j as int],
                            rs0,
                        );
                    }
                }
                j = j + 1;
            }
            proof {
                assert(ps0[i as int].counters_zero());
                lemma_reg_prefix_counts(ps0, rs0, i as int, n as int);
            }
            self.particles.set(i, p);
            i = i + 1;
        }
        i = 0;
        while i < n
            invariant
                i <= n,
                n == ps0.len(),
                n <= u32::MAX,
                self.particles@.len() == n,
                self.rulesets == old(self).rulesets,
                self.rulesets@ == rs0,
                self.rng == old(self).rng,
                1 <= rs0.len(),
                forall|m: int| 0 <= m < rs0.len() ==> (#[trigger] rs0[m]).wf(),
                forall|m: int| 0 <= m < n ==> (#[trigger] ps0[m]).wf(rs0.len() as int),
                forall|m: int| 0 <= m < n ==> (#[trigger] ps0[m]).counters_zero(),
                forall|m: int| i <= m < n ==> self.particles@[m] == spec_registered(ps0, rs0, m),
                forall|m: int|
                    0 <= m < i ==> self.particles@[m] == spec_update(
                        spec_registered(ps0, rs0, m),
                        rs0,
                    ),
                forall|m: int|
                    0 <= m < i ==> (#[trigger] self.particles@[m]).wf(rs0.len() as int)
                        && self.particles@[m].counters_zero(),
            decreases n - i,
        {
            let mut p = self.particles[i];
            proof {
                lemma_registration_counts(ps0, rs0, i as int);
            }
            p.update(&self.rulesets);
            self.particles.set(i, p);
            i = i + 1;
        }
    }
}

/// An erase removes exactly the particles strictly within the circle:
/// every survivor lies at squared distance at least `r * r` from the
/// centre and is one of the originals with all its fields untouched, and
/// every original at least that far away survives.
pub proof fn lemma_erase_exact(ps: Seq<Particle>, x: int, y: int, r: int, k: int)
    requires
        0 <= k <= ps.len(),
    ensures
        spec_erase(ps, x, y, r, k).len() <= k,
        forall|m: int|
            0 <= m < spec_erase(ps, x, y, r, k).len() ==> spec_dist2(
                (#[trigger] spec_erase(ps, x, y, r, k)[m]).x as int,
                spec_erase(ps, x, y, r, k)[m].y as int,
                x,
                y,
            ) >= r * r,
        forall|m: int|
            0 <= m < spec_erase(ps, x, y, r, k).len() ==> ps.contains(
                #[trigger] spec_erase(ps, x, y, r, k)[m],
            ),
        forall|j: int|
            0 <= j < k && spec_dist2(ps[j].x as int, ps[j].y as int, x, y) >= r * r
                ==> spec_erase(ps, x, y, r, k).contains(#[trigger] ps[j]),
    decreases k,
{
    if k > 0 {
        lemma_erase_exact(ps, x, y, r, k - 1);
        let prefix = spec_erase(ps, x, y, r, k - 1);
        let result = spec_erase(ps, x, y, r, k);
        if spec_dist2(ps[k - 1].x as int, ps[k - 1].y as int, x, y) < r * r {
            assert(result == prefix);
        } else {
            assert(result == prefix.push(ps[k - 1]));
            assert(result[result.len() - 1] == ps[k - 1]);
            assert(ps.contains(ps[k - 1]));
        }
        assert forall|j: int|
            0 <= j < k && spec_dist2(ps[j].x as int, ps[j].y as int, x, y) >= r * r
                implies result.contains(#[trigger] ps[j]) by {
            if j < k - 1 {
                assert(prefix.contains(ps[j]));
                let w = choose|w: int| 0 <= w < prefix.len() && prefix[w] == ps[j];
                assert(result[w] == ps[j]);
            } else {
                assert(result[result.len() - 1] == ps[j]);
            }
        }
    }
}

/// A drag touches exactly the particles it names: the collection keeps its
/// length, and every particle whose index is not named keeps all its
/// fields.
pub proof fn lemma_drag_untouched(ps: Seq<Particle>, idx: Seq<usize>, dx: int, dy: int, k: int)
    requires
        0 <= k <= idx.len(),
        forall|j: int| 0 <= j < idx.len() ==> (#[trigger] idx[j]) < ps.len(),
    ensures
        spec_drag(ps, idx, dx, dy, k).len() == ps.len(),
        forall|m: int|
            0 <= m < ps.len() && !(exists|j: int| 0 <= j < k && idx[j] == m)
                ==> spec_drag(ps, idx, dx, dy, k)[m] == ps[m],
    decreases k,
{
    if k > 0 {
        lemma_drag_untouched(ps, idx, dx, dy, k - 1);
        let prev = spec_drag(ps, idx, dx, dy, k - 1);
        let result = spec_drag(ps, idx, dx, dy, k);
        assert forall|m: int|
            0 <= m < ps.len() && !(exists|j: int| 0 <= j < k && idx[j] == m)
                implies result[m] == ps[m] by {
            if exists|j: int| 0 <= j < k - 1 && idx[j] == m {
                let j = choose|j: int| 0 <= j < k - 1 && idx[j] == m;
                assert(0 <= j < k && idx[j] == m);
            }
            assert(idx[k - 1] != m);
            assert(result[m] == prev[m]);
        }
    }
}

/// A hover query returns exactly the indices of the particles strictly
/// within the circle, each a live index, in strictly increasing order.
pub proof fn lemma_hovered_exact(ps: Seq<Particle>, x: int, y: int, r: int, k: int)
    requires
        0 <= k <= ps.len(),
        ps.len() <= usize::MAX,
    ensures
        forall|m: int|
            0 <= m < spec_hovered(ps, x, y, r, k).len() ==> (
            #[trigger] spec_hovered(ps, x, y, r, k)[m]) < k && spec_dist2(
                ps[spec_hovered(ps, x, y, r, k)[m] as int].x as int,
                ps[spec_hovered(ps, x, y, r, k)[m] as int].y as int,
                x,
                y,
            ) < r * r,
        forall|j: int|
            0 <= j < k && spec_dist2(ps[j].x as int, ps[j].y as int, x, y) < r * r
                ==> spec_hovered(ps, x, y, r, k).contains(j as usize),
        forall|m1: int, m2: int|
            0 <= m1 < m2 < spec_hovered(ps, x, y, r, k).len() ==> #[trigger] spec_hovered(
                ps,
                x,
                y,
                r,
                k,
            )[m1] < #[trigger] spec_hovered(ps, x, y, r, k)[m2],
    decreases k,
{
    if k > 0 {
        lemma_hovered_exact(ps, x, y, r, k - 1);
        let prefix = spec_hovered(ps, x, y, r, k - 1);
        let result = spec_hovered(ps, x, y, r, k);
        assert forall|m: int|
            0 <= m < result.len() implies (#[trigger] result[m]) < k && spec_dist2(
                ps[result[m] as int].x as int,
                ps[result[m] as int].y as int,
                x,
                y,
            ) < r * r by {
            if m < prefix.len() {
                assert(result[m] == prefix[m]);
            } else {
                assert(result[m] == (k - 1) as usize);
            }
        }
        assert forall|j: int|
            0 <= j < k && spec_dist2(ps[j].x as int, ps[j].y as int, x, y) < r * r
                implies result.contains(j as usize) by {
            if j < k - 1 {
                assert(prefix.contains(j as usize));
                let w = choose|w: int| 0 <= w < prefix.len() && prefix[w] == j as usize;
                assert(result[w] == j as usize);
            } else {
                assert(result[result.len() - 1] == j as usize);
            }
        }
        assert forall|m1: int, m2: int|
            0 <= m1 < m2 < result.len() implies #[trigger] result[m1]
                < #[trigger] result[m2] by {
            if m2 < prefix.len() {
                assert(result[m1] == prefix[m1] && result[m2] == prefix[m2]);
            } else {
                assert(result[m1] == prefix[m1]);
                assert(prefix[m1] < k - 1);
                assert(result[m2] == (k - 1) as usize);
            }
        }
    }
}

/// A particle painted with brush radius zero lands exactly at the brush
/// point, with zeroed counters and a wrapped heading.
pub proof fn lemma_added_at_center(s: u64, x: int, y: int, ruleset: usize)
    requires
        -POS_LIMIT <= x <= POS_LIMIT,
        -POS_LIMIT <= y <= POS_LIMIT,
    ensures
        spec_added_particle(s, x, y, 0, ruleset).x == x,
        spec_added_particle(s, x, y, 0, ruleset).y == y,
        spec_added_particle(s, x, y, 0, ruleset).ruleset == ruleset,
        spec_added_particle(s, x, y, 0, ruleset).counters_zero(),
        0 <= spec_added_particle(s, x, y, 0, ruleset).angle < ANGLE_FULL,
{
}

/// One step of a system holding a single particle senses no neighbours, so
/// the heading turns only by `alpha` — with `alpha` zero it is unchanged —
/// and the particle advances by exactly its ruleset's speed along that
/// heading: together with `lemma_added_at_center`, painting with radius
/// zero and stepping once moves the particle by exactly the speed-scaled
/// heading vector of its initial heading.
pub proof fn lemma_solo_step(p: Particle, rs: Seq<Ruleset>)
    requires
        p.counters_zero(),
        p.ruleset < rs.len(),
        rs[p.ruleset as int].wf(),
        rs[p.ruleset as int].alpha == 0,
        0 <= p.angle < ANGLE_FULL,
        -(POS_LIMIT - SPEED_LIMIT) <= p.x <= POS_LIMIT - SPEED_LIMIT,
        -(POS_LIMIT - SPEED_LIMIT) <= p.y <= POS_LIMIT - SPEED_LIMIT,
    ensures
        spec_registered(seq![p], rs, 0) == p,
        spec_update(p, rs).angle == p.angle,
        spec_update(p, rs).x == p.x + spec_mul_units(
            spec_cos(p.angle as int),
            rs[p.ruleset as int].v as int,
        ),
        spec_update(p, rs).y == p.y + spec_mul_units(
            spec_sin(p.angle as int),
            rs[p.ruleset as int].v as int,
        ),
{
    let ps = seq![p];
    assert(spec_registered(ps, rs, 0) == reg_prefix(ps, rs, 0, 1));
    assert(reg_prefix(ps, rs, 0, 1) == reg_prefix(ps, rs, 0, 0));
    assert(reg_prefix(ps, rs, 0, 0) == p);
    lemma_small_mod(p.angle as nat, ANGLE_FULL as nat);
    let rr = rs[p.ruleset as int];
    lemma_cos_bounds(p.angle as int);
    lemma_sin_bounds(p.angle as int);
    lemma_mul_units_bounded(spec_cos(p.angle as int), rr.v as int);
    lemma_mul_units_bounded(spec_sin(p.angle as int), rr.v as int);
}

/// Saturates a wide position sum at the representable world range.
fn clamp_pos_wide(t: i128) -> (r: i64)
    ensures
        r == spec_clamp_pos(t as int),
        -POS_LIMIT <= r <= POS_LIMIT,
{
    if t > POS_LIMIT as i128 {
        POS_LIMIT
    } else if t < -(POS_LIMIT as i128) {
        -POS_LIMIT
    } else {
        t as i64
    }
}

} // verus!
