use bounce_sim::body::Body;
use bounce_sim::config::Config;
use bounce_sim::rng::Lcg;
use bounce_sim::world::World;

fn tight_config() -> Config {
    let mut cfg = Config::demo();
    cfg.cap = 3;
    cfg.admission_period = 1;
    cfg
}

#[test]
fn new_world_is_empty() {
    let w = World::new();
    assert!(w.bodies.is_empty());
    assert!(w.bursts.is_empty());
    assert_eq!(w.phase, 0);
}

#[test]
fn first_tick_admits_one_body() {
    let cfg = Config::demo();
    let mut w = World::new();
    w.step(&cfg);
    assert_eq!(w.bodies.len(), 1);
    let b = &w.bodies[0];
    // The admitted body has already fallen one tick.
    assert_eq!(b.vy, 5);
    assert_eq!(b.y, 5);
    assert!(-200 <= b.vx && b.vx <= 200);
}

#[test]
fn admission_waits_for_the_cadence() {
    let cfg = Config::demo();
    let mut w = World::new();
    w.step(&cfg);
    assert_eq!(w.bodies.len(), 1);
    for tick in 2..=10 {
        w.step(&cfg);
        // Ticks 2 through 10 are off-cycle: still one body (a lone body
        // cannot collide).
        assert_eq!(w.bodies.len(), 1, "tick {tick}");
    }
    w.step(&cfg);
    // Tick 11 starts the next cycle: a second body is admitted, unless the
    // two bodies landed close enough to collide this very tick.
    assert!(
        w.bodies.len() == 2 || (w.bodies.len() == 0 && w.bursts.len() == 2),
        "bodies {} bursts {}",
        w.bodies.len(),
        w.bursts.len()
    );
}

#[test]
fn population_never_exceeds_the_cap() {
    let cfg = tight_config();
    let mut w = World::new();
    for _ in 0..200 {
        w.step(&cfg);
        assert!(w.bodies.len() <= cfg.cap);
    }
}

#[test]
fn population_never_exceeds_the_cap_seeded() {
    let cfg = tight_config();
    let mut w = World::new();
    let mut rng = Lcg::new(7);
    for _ in 0..500 {
        w.step_seeded(&cfg, &mut rng);
        assert!(w.bodies.len() <= cfg.cap);
    }
}

#[test]
fn colliding_pair_is_removed_and_seeds_bursts() {
    let cfg = Config::demo();
    let mut w = World {
        bodies: vec![Body::new(10000, 20000, 0, 0), Body::new(10050, 20000, 0, 0)],
        bursts: Vec::new(),
        phase: 1,
    };
    w.step(&cfg);
    assert_eq!(w.bodies.len(), 0);
    assert_eq!(w.bursts.len(), 2);
    for burst in w.bursts.iter() {
        assert_eq!(burst.particles.len(), 80);
    }
    // Bursts are seeded from the removed bodies after this tick's advance.
    for p in w.bursts[0].particles.iter() {
        assert_eq!(p.x, 10000);
        assert_eq!(p.y, 20005);
        assert!(-150 <= p.vx && p.vx <= 150);
        assert!(5 - 300 <= p.vy && p.vy <= 5 - 150);
    }
    for p in w.bursts[1].particles.iter() {
        assert_eq!(p.x, 10050);
        assert_eq!(p.y, 20005);
    }
}

#[test]
fn distant_bodies_do_not_collide() {
    let cfg = Config::demo();
    let mut w = World {
        bodies: vec![Body::new(10000, 20000, 0, 0), Body::new(12000, 20000, 0, 0)],
        bursts: Vec::new(),
        phase: 1,
    };
    w.step(&cfg);
    assert_eq!(w.bodies.len(), 2);
    assert_eq!(w.bursts.len(), 0);
}

#[test]
fn equal_valued_bodies_still_collide() {
    // Slots, not field values, tell a pair apart: two bodies with identical
    // state sit at distance zero and are both removed.
    let cfg = Config::demo();
    let mut w = World {
        bodies: vec![Body::new(30000, 10000, 0, 0), Body::new(30000, 10000, 0, 0)],
        bursts: Vec::new(),
        phase: 1,
    };
    w.step(&cfg);
    assert_eq!(w.bodies.len(), 0);
    assert_eq!(w.bursts.len(), 2);
}

#[test]
fn exhausted_bursts_are_pruned_on_the_cycle_only() {
    let cfg = Config::demo();
    // A world holding one exhausted burst, off-cycle: the burst stays.
    let mut off_cycle = World {
        bodies: Vec::new(),
        bursts: vec![bounce_sim::burst::Burst { particles: Vec::new() }],
        phase: 1,
    };
    off_cycle.step(&cfg);
    assert_eq!(off_cycle.bursts.len(), 1);
    // The same world on-cycle: the burst is pruned.
    let mut on_cycle = World {
        bodies: Vec::new(),
        bursts: vec![bounce_sim::burst::Burst { particles: Vec::new() }],
        phase: 0,
    };
    on_cycle.step(&cfg);
    assert_eq!(on_cycle.bursts.len(), 0);
}

#[test]
fn seeded_runs_with_equal_seeds_match_frame_for_frame() {
    let cfg = tight_config();
    let mut w1 = World::new();
    let mut w2 = World::new();
    let mut r1 = Lcg::new(123456789);
    let mut r2 = Lcg::new(123456789);
    for _ in 0..300 {
        w1.step_seeded(&cfg, &mut r1);
        w2.step_seeded(&cfg, &mut r2);
        assert_eq!(r1, r2);
        assert_eq!(w1, w2);
    }
}

#[test]
fn seeded_runs_with_different_seeds_diverge() {
    let cfg = tight_config();
    let mut w1 = World::new();
    let mut w2 = World::new();
    let mut r1 = Lcg::new(1);
    let mut r2 = Lcg::new(2);
    let mut diverged = false;
    for _ in 0..50 {
        w1.step_seeded(&cfg, &mut r1);
        w2.step_seeded(&cfg, &mut r2);
        if w1 != w2 {
            diverged = true;
        }
    }
    assert!(diverged);
}

#[test]
fn full_simulation_keeps_running_with_bursts_in_flight() {
    // A long seeded run through admissions, collisions, burst decay and
    // pruning: the world stays inside its cap and bursts eventually drain.
    let cfg = tight_config();
    let mut w = World::new();
    let mut rng = Lcg::new(42);
    let mut saw_burst = false;
    for _ in 0..2000 {
        w.step_seeded(&cfg, &mut rng);
        assert!(w.bodies.len() <= cfg.cap);
        if !w.bursts.is_empty() {
            saw_burst = true;
        }
        for burst in w.bursts.iter() {
            assert!(burst.particles.len() <= cfg.particles_per_burst);
        }
    }
    assert!(saw_burst, "no collision happened in 2000 seeded ticks");
}
