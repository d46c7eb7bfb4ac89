use bounce_sim::body::Body;
use bounce_sim::burst::Burst;
use bounce_sim::burst::Particle;
use bounce_sim::config::Config;
use bounce_sim::config::DEFAULT_ACCEL;
use bounce_sim::config::DEFAULT_ADMISSION_PERIOD;
use bounce_sim::config::DEFAULT_BOTTOM;
use bounce_sim::config::DEFAULT_CAP;
use bounce_sim::config::DEFAULT_COLLISION_RADIUS;
use bounce_sim::config::DEFAULT_FRAME_WIDTH;
use bounce_sim::config::DEFAULT_PARTICLES_PER_BURST;
use bounce_sim::rng::Lcg;

#[test]
fn demo_config_has_reference_geometry() {
    let cfg = Config::demo();
    assert_eq!(cfg.frame_width, DEFAULT_FRAME_WIDTH);
    assert_eq!(cfg.frame_width, 64000);
    assert_eq!(cfg.bottom, DEFAULT_BOTTOM);
    assert_eq!(cfg.bottom, 48000);
    assert_eq!(cfg.accel, DEFAULT_ACCEL);
    assert_eq!(cfg.accel, 5);
    assert_eq!(cfg.collision_radius, DEFAULT_COLLISION_RADIUS);
    assert_eq!(cfg.collision_radius, 1000);
    assert_eq!(cfg.cap, DEFAULT_CAP);
    assert_eq!(cfg.cap, 25);
    assert_eq!(cfg.particles_per_burst, DEFAULT_PARTICLES_PER_BURST);
    assert_eq!(cfg.particles_per_burst, 80);
    assert_eq!(cfg.admission_period, DEFAULT_ADMISSION_PERIOD);
    assert_eq!(cfg.admission_period, 10);
}

#[test]
fn gravity_raises_body_velocity_each_free_fall_tick() {
    let cfg = Config::demo();
    let mut b = Body::new(10000, 0, 100, 0);
    for tick in 1..=20i64 {
        b.advance(&cfg);
        assert_eq!(b.vy, tick * 5);
    }
}

#[test]
fn gravity_raises_particle_velocity_every_tick() {
    let cfg = Config::demo();
    let src = Body::new(10000, 47900, 0, 0);
    let mut p = Particle::new(&src, 0, -300);
    for tick in 1..=100i64 {
        p.advance(&cfg);
        assert_eq!(p.vy, -300 + tick * 5);
    }
}

#[test]
fn body_integrates_position_from_velocity() {
    let cfg = Config::demo();
    let mut b = Body::new(10000, 0, 100, 0);
    b.advance(&cfg);
    assert_eq!(b.x, 10100);
    assert_eq!(b.y, 5);
    b.advance(&cfg);
    assert_eq!(b.x, 10200);
    assert_eq!(b.y, 15);
}

#[test]
fn wall_bounce_negates_fallen_velocity_without_clamp() {
    // The drawn-unit picture: a body at y = 481 falling at 2 units per tick
    // picks up gravity to 2.05, stays past the boundary and leaves with
    // vy = -2.05; its position is integrated, never clamped.
    let cfg = Config::demo();
    let mut b = Body::new(10000, 48100, 100, 200);
    b.advance(&cfg);
    assert_eq!(b.vy, -205);
    assert_eq!(b.y, 48305);
    assert_eq!(b.x, 10100);
    assert_eq!(b.vx, 100);
}

#[test]
fn body_crossing_bottom_gets_velocity_flipped() {
    let cfg = Config::demo();
    let mut b = Body::new(10000, 47999, 0, 100);
    b.advance(&cfg);
    assert_eq!(b.y, 48104);
    assert_eq!(b.vy, -105);
}

#[test]
fn right_wall_reflects_horizontal_velocity() {
    let cfg = Config::demo();
    let mut b = Body::new(63950, 1000, 100, 0);
    b.advance(&cfg);
    assert_eq!(b.x, 64050);
    assert_eq!(b.vx, -100);
}

#[test]
fn left_wall_reflects_horizontal_velocity() {
    let cfg = Config::demo();
    let mut b = Body::new(50, 1000, -100, 0);
    b.advance(&cfg);
    assert_eq!(b.x, -50);
    assert_eq!(b.vx, 100);
}

#[test]
fn particles_never_bounce_off_walls() {
    let cfg = Config::demo();
    let src = Body::new(63950, 1000, 100, 0);
    let mut p = Particle::new(&src, 100, -200);
    p.advance(&cfg);
    assert_eq!(p.x, 64150);
    assert_eq!(p.vx, 200);
}

#[test]
fn spawned_bodies_start_on_top_inside_the_frame() {
    let cfg = Config::demo();
    let mut xs: Vec<i64> = Vec::new();
    for _ in 0..100 {
        let b = Body::spawn(&cfg);
        assert_eq!(b.y, 0);
        assert_eq!(b.vy, 0);
        assert!(0 <= b.x && b.x < cfg.frame_width);
        assert!(-200 <= b.vx && b.vx <= 200);
        xs.push(b.x);
    }
    assert!(xs.iter().any(|x| *x != xs[0]));
}

#[test]
fn fresh_bursts_jitter_around_their_source() {
    let cfg = Config::demo();
    let src = Body::new(10000, 20000, 50, 300);
    let burst = Burst::create(&src, &cfg);
    assert_eq!(burst.particles.len(), 80);
    for p in burst.particles.iter() {
        assert_eq!(p.x, 10000);
        assert_eq!(p.y, 20000);
        assert!(50 - 150 <= p.vx && p.vx <= 50 + 150);
        assert!(300 - 300 <= p.vy && p.vy <= 300 - 150);
    }
}

#[test]
fn burst_runs_out_and_stays_exhausted() {
    let cfg = Config::demo();
    let src = Body::new(10000, 47000, 0, 500);
    let mut burst = Burst::create(&src, &cfg);
    assert_eq!(burst.particle_count(), 80);
    assert!(!burst.is_exhausted());
    let mut ticks = 0;
    while !burst.is_exhausted() {
        burst.advance(&cfg);
        ticks += 1;
        assert!(ticks < 10000, "burst never ran out");
    }
    assert_eq!(burst.particle_count(), 0);
    let before = burst.clone_burst();
    burst.advance(&cfg);
    assert!(burst.is_exhausted());
    assert_eq!(burst, before);
}

#[test]
fn seeded_generator_is_reproducible_and_in_range() {
    let mut a = Lcg::new(20260207);
    let mut b = Lcg::new(20260207);
    let mut seen_distinct = false;
    let mut last = i64::MIN;
    for _ in 0..200 {
        let x = a.draw(-5, 5);
        let y = b.draw(-5, 5);
        assert_eq!(x, y);
        assert!(-5 <= x && x <= 5);
        if last != i64::MIN && x != last {
            seen_distinct = true;
        }
        last = x;
    }
    assert!(seen_distinct);
    let mut c = Lcg::new(1);
    let one_value = c.draw(7, 7);
    assert_eq!(one_value, 7);
}
