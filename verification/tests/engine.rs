use primordial::color::Color;
use primordial::particle::Particle;
use primordial::primordial_particle_system::PrimordialParticleSystem;
use primordial::rng::Rng;
use primordial::ruleset::Ruleset;
use primordial::units::{cos_units, isqrt, sin_units, wrap_turn, ANGLE_FULL, SCALE};

fn blank_particle(x: i64, y: i64, angle: i64, ruleset: usize) -> Particle {
    Particle {
        x,
        y,
        angle,
        ruleset,
        others: 0,
        right: 0,
        left: 0,
        last_x: x,
        last_y: y,
        last_others: 0,
    }
}

#[test]
fn default_system() {
    let s = PrimordialParticleSystem::new(7);
    assert_eq!(s.particles.len(), 0);
    assert_eq!(s.rulesets.len(), 1);
    let rs = &s.rulesets[0];
    assert_eq!(rs.alpha, 180 * 1024);
    assert_eq!(rs.beta, 17 * 1024);
    assert_eq!(rs.r, 15 * 1024);
    assert_eq!(rs.v, 2 * 1024);
    assert_eq!(rs.col1, Color { r: 0, g: 0, b: 1024, a: 1024 });
    assert_eq!(rs.col2, Color { r: 1024, g: 401, b: 0, a: 1024 });
    assert_eq!(rs.col_scale_min, 1);
    assert_eq!(rs.col_scale_max, 30);
    assert_eq!(s.rng.state, 7);
}

#[test]
fn trig_quarter_values() {
    assert_eq!(sin_units(0), 0);
    assert_eq!(sin_units(90 * 1024), 1024);
    assert_eq!(sin_units(180 * 1024), 0);
    assert_eq!(sin_units(270 * 1024), -1024);
    assert_eq!(cos_units(0), 1024);
    assert_eq!(cos_units(90 * 1024), 0);
    assert_eq!(cos_units(180 * 1024), -1024);
    assert_eq!(cos_units(270 * 1024), 0);
}

#[test]
fn wrap_turn_into_range() {
    assert_eq!(wrap_turn(0), 0);
    assert_eq!(wrap_turn((ANGLE_FULL as i128) + 10), 10);
    assert_eq!(wrap_turn(-5), ANGLE_FULL - 5);
    assert_eq!(wrap_turn(-3 * (ANGLE_FULL as i128)), 0);
}

#[test]
fn isqrt_brackets() {
    assert_eq!(isqrt(0), 0);
    assert_eq!(isqrt(1), 1);
    assert_eq!(isqrt(3), 1);
    assert_eq!(isqrt(4), 2);
    assert_eq!(isqrt(1048575), 1023);
    assert_eq!(isqrt(1048576), 1024);
}

#[test]
fn rng_deterministic() {
    let mut a = Rng::new(42);
    let mut b = Rng::new(42);
    for _ in 0..16 {
        let x = a.draw(368640);
        let y = b.draw(368640);
        assert_eq!(x, y);
        assert!(x < 368640);
    }
    let lo = -100;
    let hi = 100;
    for _ in 0..16 {
        let v = a.draw_range(lo, hi);
        assert!(lo <= v && v <= hi);
    }
}

#[test]
fn from_degrees_exact() {
    let rs = Ruleset::from_degrees(
        180,
        17,
        15 * SCALE,
        2 * SCALE,
        Color::from_rgba(0, 0, 255, 255),
        Color::from_rgba(255, 100, 0, 255),
        1,
        30,
    );
    assert_eq!(rs.alpha, 184320);
    assert_eq!(rs.beta, 17408);
}

#[test]
fn randomize_ranges() {
    let mut rng = Rng::new(99);
    for _ in 0..8 {
        let rs = Ruleset::random(&mut rng);
        assert!(-184320 <= rs.alpha && rs.alpha <= 184320);
        assert!(-184320 <= rs.beta && rs.beta <= 184320);
        assert!(1024 <= rs.r && rs.r <= 40 * 1024);
        assert!(1024 <= rs.v && rs.v <= 3 * 1024);
        assert!(1 <= rs.col_scale_min && rs.col_scale_min <= 10);
        assert!(30 <= rs.col_scale_max && rs.col_scale_max <= 70);
    }
}

#[test]
fn color_from_rgba_and_hue() {
    assert_eq!(Color::from_rgba(255, 100, 0, 255), Color { r: 1024, g: 401, b: 0, a: 1024 });
    assert_eq!(Color::from_hue(0), Color { r: 1024, g: 0, b: 0, a: 1024 });
    assert_eq!(Color::from_hue(1024), Color { r: 1024, g: 1024, b: 0, a: 1024 });
    assert_eq!(Color::from_hue(3 * 1024), Color { r: 0, g: 1024, b: 1024, a: 1024 });
}

#[test]
fn color_ramp_endpoints() {
    let s = PrimordialParticleSystem::new(1);
    let rs = s.rulesets[0];
    let p = blank_particle(0, 0, 0, 0);
    assert_eq!(p.get_color(0, &rs), rs.col1);
    assert_eq!(p.get_color(1, &rs), rs.col1);
    assert_eq!(p.get_color(30, &rs), rs.col2);
    assert_eq!(p.get_color(40, &rs), rs.col2);
    let mid = p.get_color(15, &rs);
    let t = (15 - 1) * 1024 / (30 - 1);
    assert_eq!(mid.r, 0 + (1024 - 0) * t / 1024);
    assert_eq!(mid.b, 1024 - (1024 - 0) * t / 1024);
}

#[test]
fn tie_break_on_ray_is_right() {
    let s = PrimordialParticleSystem::new(1);
    let mut p = blank_particle(0, 0, 0, 0);
    let on_ray = blank_particle(1024, 0, 0, 0);
    p.register(&on_ray, &s.rulesets);
    assert_eq!(p.others, 1);
    assert_eq!(p.right, 1);
    assert_eq!(p.left, 0);
}

#[test]
fn register_classifies_sides() {
    let s = PrimordialParticleSystem::new(1);
    let mut p = blank_particle(0, 0, 0, 0);
    let above = blank_particle(0, 1024, 0, 0);
    let below = blank_particle(0, -1024, 0, 0);
    let behind = blank_particle(-1024, 0, 0, 0);
    let far = blank_particle(100 * 1024, 0, 0, 0);
    p.register(&above, &s.rulesets);
    assert_eq!((p.others, p.left, p.right), (1, 1, 0));
    p.register(&below, &s.rulesets);
    assert_eq!((p.others, p.left, p.right), (2, 1, 1));
    p.register(&behind, &s.rulesets);
    assert_eq!((p.others, p.left, p.right), (3, 2, 1));
    p.register(&far, &s.rulesets);
    assert_eq!((p.others, p.left, p.right), (3, 2, 1));
}

#[test]
fn update_resets_counters() {
    let s = PrimordialParticleSystem::new(1);
    let mut p = blank_particle(0, 0, 0, 0);
    p.others = 5;
    p.left = 3;
    p.right = 2;
    p.update(&s.rulesets);
    assert_eq!(p.others, 0);
    assert_eq!(p.left, 0);
    assert_eq!(p.right, 0);
    assert_eq!(p.last_others, 5);
}

#[test]
fn update_wraps_heading() {
    let mut s = PrimordialParticleSystem::new(1);
    s.rulesets[0].alpha = 184320;
    s.rulesets[0].beta = 184320;
    let mut p = blank_particle(0, 0, 368639, 0);
    p.others = 7;
    p.left = 7;
    p.update(&s.rulesets);
    assert!(0 <= p.angle && p.angle < ANGLE_FULL);
    let mut q = blank_particle(0, 0, 0, 0);
    q.others = 7;
    q.right = 7;
    s.rulesets[0].alpha = 0;
    q.update(&s.rulesets);
    assert!(0 <= q.angle && q.angle < ANGLE_FULL);
    assert_eq!(q.angle, ANGLE_FULL - 7 * 184320 % ANGLE_FULL);
}

#[test]
fn draw_position_is_midpoint() {
    let mut p = blank_particle(0, 0, 0, 0);
    p.last_x = 0;
    p.x = 1024;
    p.last_y = -3;
    p.y = 0;
    assert_eq!(p.get_draw_x(), 512);
    assert_eq!(p.get_draw_y(), -1);
}

#[test]
fn erase_is_strict_and_keeps_boundary() {
    let mut s = PrimordialParticleSystem::new(1);
    s.particles.push(blank_particle(0, 0, 0, 0));
    s.particles.push(blank_particle(5, 0, 100, 0));
    s.particles.push(blank_particle(3, 4, 200, 0));
    s.erase(0, 0, 5);
    assert_eq!(s.particles.len(), 2);
    assert_eq!(s.particles[0].x, 5);
    assert_eq!(s.particles[0].angle, 100);
    assert_eq!(s.particles[1].x, 3);
    assert_eq!(s.particles[1].y, 4);
    assert_eq!(s.particles[1].angle, 200);
}

#[test]
fn delete_ruleset_rebinds() {
    let mut s = PrimordialParticleSystem::new(1);
    let mut rng = Rng::new(5);
    s.rulesets.push(Ruleset::random(&mut rng));
    s.rulesets.push(Ruleset::random(&mut rng));
    let kept = s.rulesets[2];
    s.particles.push(blank_particle(0, 0, 0, 0));
    s.particles.push(blank_particle(10, 0, 0, 1));
    s.particles.push(blank_particle(20, 0, 0, 2));
    s.delete_ruleset(1);
    assert_eq!(s.rulesets.len(), 2);
    assert_eq!(s.rulesets[1], kept);
    assert_eq!(s.particles[0].ruleset, 0);
    assert_eq!(s.particles[1].ruleset, 0);
    assert_eq!(s.particles[2].ruleset, 1);
}

#[test]
fn delete_bound_ruleset_rebinds_to_default() {
    let mut s = PrimordialParticleSystem::new(1);
    let mut rng = Rng::new(5);
    s.rulesets.push(Ruleset::random(&mut rng));
    s.particles.push(blank_particle(0, 0, 0, 1));
    s.delete_ruleset(1);
    assert_eq!(s.particles[0].ruleset, 0);
    assert_eq!(s.rulesets.len(), 1);
}

#[test]
fn drag_moves_and_snapshots() {
    let mut s = PrimordialParticleSystem::new(1);
    s.particles.push(blank_particle(100, 200, 0, 0));
    s.particles.push(blank_particle(-50, 0, 0, 0));
    let hovered = vec![0usize, 1usize, 0usize];
    s.drag(&hovered, 10, -20);
    assert_eq!(s.particles[0].x, 120);
    assert_eq!(s.particles[0].y, 160);
    assert_eq!(s.particles[0].last_x, 120);
    assert_eq!(s.particles[0].last_y, 160);
    assert_eq!(s.particles[1].x, -40);
    assert_eq!(s.particles[1].last_y, -20);
}

#[test]
fn rerule_in_circle() {
    let mut s = PrimordialParticleSystem::new(1);
    let mut rng = Rng::new(5);
    s.rulesets.push(Ruleset::random(&mut rng));
    s.particles.push(blank_particle(0, 0, 0, 0));
    s.particles.push(blank_particle(9000, 0, 0, 0));
    s.rerule(0, 0, 100, 1);
    assert_eq!(s.particles[0].ruleset, 1);
    assert_eq!(s.particles[1].ruleset, 0);
}

#[test]
fn clear_empties() {
    let mut s = PrimordialParticleSystem::new(1);
    s.add(0, 0, 0, 0);
    s.add(100, 100, 1024, 0);
    assert_eq!(s.particles.len(), 2);
    s.clear();
    assert_eq!(s.particles.len(), 0);
    assert_eq!(s.rulesets.len(), 1);
}

#[test]
fn hovered_empty_and_center() {
    let mut s = PrimordialParticleSystem::new(1);
    assert_eq!(s.get_all_hovered(0, 0, 100).len(), 0);
    s.add(77, -33, 0, 0);
    let hovered = s.get_all_hovered(77, -33, 1);
    assert_eq!(hovered, vec![0usize]);
    let far = s.get_all_hovered(1000000, 0, 1);
    assert_eq!(far.len(), 0);
}

#[test]
fn solo_round_trip() {
    let mut s = PrimordialParticleSystem::new(3);
    s.rulesets[0].alpha = 0;
    s.add(4096, -2048, 0, 0);
    assert_eq!(s.particles[0].x, 4096);
    assert_eq!(s.particles[0].y, -2048);
    let angle = s.particles[0].angle;
    let v = s.rulesets[0].v;
    let c = cos_units(angle) as i64;
    let sn = sin_units(angle) as i64;
    let mx = if c >= 0 { c * v / 1024 } else { -(-c * v / 1024) };
    let my = if sn >= 0 { sn * v / 1024 } else { -(-sn * v / 1024) };
    s.update();
    assert_eq!(s.particles[0].angle, angle);
    assert_eq!(s.particles[0].x, 4096 + mx);
    assert_eq!(s.particles[0].y, -2048 + my);
    assert_eq!(s.particles[0].last_x, 4096);
    assert_eq!(s.particles[0].last_others, 0);
}

#[test]
fn two_particles_straight() {
    let mut s = PrimordialParticleSystem::new(1);
    s.rulesets[0].alpha = 0;
    s.rulesets[0].beta = 0;
    s.rulesets[0].r = 5 * 1024;
    s.rulesets[0].v = 1024;
    s.particles.push(blank_particle(0, 0, 0, 0));
    s.particles.push(blank_particle(1024, 0, 0, 0));
    s.update();
    assert_eq!(s.particles[0].x, 1024);
    assert_eq!(s.particles[0].y, 0);
    assert_eq!(s.particles[0].angle, 0);
    assert_eq!(s.particles[0].last_others, 1);
    assert_eq!(s.particles[1].x, 2048);
    assert_eq!(s.particles[1].y, 0);
    assert_eq!(s.particles[1].angle, 0);
    assert_eq!(s.particles[1].last_others, 1);
}

#[test]
fn step_counts_all_neighbours() {
    let mut s = PrimordialParticleSystem::new(1);
    s.rulesets[0].alpha = 0;
    s.rulesets[0].beta = 0;
    s.rulesets[0].r = 10 * 1024;
    s.rulesets[0].v = 0;
    s.particles.push(blank_particle(0, 0, 0, 0));
    s.particles.push(blank_particle(1024, 0, 0, 0));
    s.particles.push(blank_particle(0, 1024, 0, 0));
    s.particles.push(blank_particle(400 * 1024, 0, 0, 0));
    s.update();
    assert_eq!(s.particles[0].last_others, 2);
    assert_eq!(s.particles[1].last_others, 2);
    assert_eq!(s.particles[2].last_others, 2);
    assert_eq!(s.particles[3].last_others, 0);
    for p in s.particles.iter() {
        assert_eq!(p.others, 0);
        assert_eq!(p.left + p.right, 0);
    }
}
