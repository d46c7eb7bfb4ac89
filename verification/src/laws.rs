//! The laws of the simulation, stated over the models and proved once and
//! for all: gravity's exact effect tick after tick, the two elastic
//! reflections, what the collision pass owes a colliding pair, the no-op on
//! an exhausted burst, and determinism of a seeded tick.

use crate::body::BodyModel;
use crate::body::body_advanced;
use crate::burst::ParticleModel;
use crate::burst::burst_advanced;
use crate::burst::particle_advanced;
use crate::config::Config;
use crate::world::WorldModel;
use crate::world::close;
use crate::world::collided;
use crate::world::collided_upto;
use crate::world::collides;
use crate::world::lemma_collided_contains;
use crate::world::step_model;
use crate::world::survivors;
use crate::world::survivors_upto;
use vstd::prelude::*;

verus! {

/// A particle after `n` ticks of integration.
pub open spec fn particle_after(p: ParticleModel, cfg: Config, n: nat) -> ParticleModel
    decreases n,
{
    if n == 0 {
        p
    } else {
        particle_after(particle_advanced(p, cfg), cfg, (n - 1) as nat)
    }
}

/// A body after `n` ticks of integration.
pub open spec fn body_after(b: BodyModel, cfg: Config, n: nat) -> BodyModel
    decreases n,
{
    if n == 0 {
        b
    } else {
        body_after(body_advanced(b, cfg), cfg, (n - 1) as nat)
    }
}

/// Whether this tick leaves the body short of the bottom boundary, so that
/// no vertical bounce happens.
pub open spec fn free_fall_tick(b: BodyModel, cfg: Config) -> bool {
    b.y + b.vy + cfg.accel as int <= cfg.bottom as int
}

/// Whether the body crosses no bottom boundary during its next `n` ticks.
pub open spec fn free_fall_for(b: BodyModel, cfg: Config, n: nat) -> bool
    decreases n,
{
    n == 0 || (free_fall_tick(b, cfg) && free_fall_for(body_advanced(b, cfg), cfg, (n - 1) as nat))
}

/// Gravity monotonicity for particles: a particle never bounces, so `n`
/// ticks raise its downward velocity by exactly `n` times the gravity
/// increment — strictly each tick, since the increment is positive.
pub proof fn lemma_particle_gravity_monotonic(p: ParticleModel, cfg: Config, n: nat)
    requires
        cfg.wf(),
    ensures
        particle_after(p, cfg, n).vy == p.vy + n * cfg.accel as int,
    decreases n,
{
    if n > 0 {
        assert(particle_after(p, cfg, n) == particle_after(
            particle_advanced(p, cfg),
            cfg,
            (n - 1) as nat,
        ));
        lemma_particle_gravity_monotonic(particle_advanced(p, cfg), cfg, (n - 1) as nat);
        assert((n - 1) as nat * cfg.accel as int + cfg.accel as int == n * cfg.accel as int)
            by (nonlinear_arith)
            requires
                n >= 1,
        ;
    } else {
        assert(particle_after(p, cfg, n) == p);
        assert(n * cfg.accel as int == 0) by (nonlinear_arith)
            requires
                n == 0,
        ;
    }
}

/// Gravity monotonicity for bodies: over ticks that cross no boundary, the
/// downward velocity rises by exactly the gravity increment each tick.
pub proof fn lemma_body_gravity_monotonic(b: BodyModel, cfg: Config, n: nat)
    requires
        cfg.wf(),
        free_fall_for(b, cfg, n),
    ensures
        body_after(b, cfg, n).vy == b.vy + n * cfg.accel as int,
    decreases n,
{
    if n > 0 {
        assert(body_after(b, cfg, n) == body_after(body_advanced(b, cfg), cfg, (n - 1) as nat));
        assert(free_fall_for(body_advanced(b, cfg), cfg, (n - 1) as nat));
        lemma_body_gravity_monotonic(body_advanced(b, cfg), cfg, (n - 1) as nat);
        assert((n - 1) as nat * cfg.accel as int + cfg.accel as int == n * cfg.accel as int)
            by (nonlinear_arith)
            requires
                n >= 1,
        ;
    } else {
        assert(body_after(b, cfg, n) == b);
        assert(n * cfg.accel as int == 0) by (nonlinear_arith)
            requires
                n == 0,
        ;
    }
}

/// Wall-bounce sign flip: a body past the bottom boundary whose tick leaves
/// it past the boundary comes out with the exact negation of its pre-bounce
/// fallen velocity, and its position is never clamped. (A body past the
/// boundary that is rising fast enough to come back above it in this very
/// tick does not bounce; such inputs are left out.)
pub proof fn lemma_wall_bounce_flips_vy(b: BodyModel, cfg: Config)
    requires
        cfg.wf(),
        b.y > cfg.bottom as int,
        b.y + b.vy + cfg.accel as int > cfg.bottom as int,
    ensures
        body_advanced(b, cfg).vy == -(b.vy + cfg.accel as int),
        body_advanced(b, cfg).y == b.y + b.vy + cfg.accel as int,
{
}

/// Side-wall reflection: a body whose horizontal update leaves the frame
/// comes out with its horizontal velocity negated and its position kept as
/// updated, never clamped.
pub proof fn lemma_side_wall_reflects_vx(b: BodyModel, cfg: Config)
    requires
        cfg.wf(),
        b.x + b.vx < 0 || b.x + b.vx > cfg.frame_width as int,
    ensures
        body_advanced(b, cfg).vx == -b.vx,
        body_advanced(b, cfg).x == b.x + b.vx,
{
}

/// Every element of the survivor sequence is a non-colliding slot of the
/// scanned sequence.
proof fn lemma_survivors_elements(s: Seq<BodyModel>, n: int, cfg: Config)
    requires
        0 <= n <= s.len(),
    ensures
        forall|t: int|
            0 <= t < survivors_upto(s, n, cfg).len() ==> exists|k: int|
                0 <= k < n && !collides(s, k, cfg) && #[trigger] survivors_upto(s, n, cfg)[t] == s[k],
    decreases n,
{
    if n > 0 {
        lemma_survivors_elements(s, n - 1, cfg);
        let rest = survivors_upto(s, n - 1, cfg);
        let whole = survivors_upto(s, n, cfg);
        assert forall|t: int| 0 <= t < whole.len() implies exists|k: int|
            0 <= k < n && !collides(s, k, cfg) && #[trigger] whole[t] == s[k] by {
            if t < rest.len() {
                assert(whole[t] == rest[t]);
                let k = choose|k: int|
                    0 <= k < n - 1 && !collides(s, k, cfg) && rest[t] == s[k];
                assert(0 <= k < n && !collides(s, k, cfg) && whole[t] == s[k]);
            } else {
                assert(!collides(s, n - 1, cfg) && whole[t] == s[n - 1]);
            }
        }
    }
}

/// Overlap is symmetric in its two bodies.
pub proof fn lemma_close_symmetric(a: BodyModel, b: BodyModel, cfg: Config)
    ensures
        close(a, b, cfg) == close(b, a, cfg),
{
    assert((a.x - b.x) * (a.x - b.x) == (b.x - a.x) * (b.x - a.x)) by (nonlinear_arith);
    assert((a.y - b.y) * (a.y - b.y) == (b.y - a.y) * (b.y - a.y)) by (nonlinear_arith);
}

/// Collision symmetry: when two distinct slots overlap, both slots collide,
/// both bodies are reported removed — so at least one burst is spawned from
/// the collision — and neither body survives, not even as an equal-valued
/// copy in another slot.
pub proof fn lemma_collision_symmetry(s: Seq<BodyModel>, i: int, j: int, cfg: Config)
    requires
        cfg.wf(),
        0 <= i < s.len(),
        0 <= j < s.len(),
        i != j,
        close(s[i], s[j], cfg),
    ensures
        collides(s, i, cfg),
        collides(s, j, cfg),
        collided(s, cfg).contains(s[i]),
        collided(s, cfg).contains(s[j]),
        collided(s, cfg).len() >= 2,
        !survivors(s, cfg).contains(s[i]),
        !survivors(s, cfg).contains(s[j]),
{
    lemma_close_symmetric(s[i], s[j], cfg);
    assert(collides(s, i, cfg));
    assert(collides(s, j, cfg));
    lemma_collided_contains(s, s.len() as int, i, cfg);
    lemma_collided_contains(s, s.len() as int, j, cfg);
    lemma_collided_two(s, s.len() as int, i, j, cfg);
    lemma_survivors_elements(s, s.len() as int, cfg);
    assert(0 < cfg.collision_radius as int * (cfg.collision_radius as int)) by (nonlinear_arith)
        requires
            0 < cfg.collision_radius,
    ;
    assert forall|t: int| 0 <= t < survivors(s, cfg).len() implies survivors(s, cfg)[t] != s[i]
        && survivors(s, cfg)[t] != s[j] by {
        let k = choose|k: int|
            0 <= k < s.len() && !collides(s, k, cfg) && #[trigger] survivors(s, cfg)[t] == s[k];
        if s[k] == s[i] {
            if k != j {
                lemma_close_symmetric(s[k], s[j], cfg);
                assert(close(s[k], s[j], cfg));
                assert(collides(s, k, cfg));
            } else {
                assert(close(s[k], s[i], cfg));
                assert(collides(s, k, cfg));
            }
        }
        if s[k] == s[j] {
            if k != i {
                lemma_close_symmetric(s[i], s[k], cfg);
                assert(close(s[k], s[i], cfg));
                assert(collides(s, k, cfg));
            } else {
                assert(close(s[k], s[j], cfg));
                assert(collides(s, k, cfg));
            }
        }
    }
    if survivors(s, cfg).contains(s[i]) {
        let t = choose|t: int| 0 <= t < survivors(s, cfg).len() && survivors(s, cfg)[t] == s[i];
    }
    if survivors(s, cfg).contains(s[j]) {
        let t = choose|t: int| 0 <= t < survivors(s, cfg).len() && survivors(s, cfg)[t] == s[j];
    }
}

/// Two distinct colliding slots put at least two bodies on the removed list.
proof fn lemma_collided_two(s: Seq<BodyModel>, n: int, i: int, j: int, cfg: Config)
    requires
        0 <= i < n <= s.len(),
        0 <= j < n,
        i != j,
        collides(s, i, cfg),
        collides(s, j, cfg),
    ensures
        collided_upto(s, n, cfg).len() >= 2,
    decreases n,
{
    let lo = if i < j {
        i
    } else {
        j
    };
    let hi = if i < j {
        j
    } else {
        i
    };
    if hi == n - 1 {
        lemma_collided_one(s, n - 1, lo, cfg);
    } else {
        lemma_collided_two(s, n - 1, i, j, cfg);
    }
}

/// A colliding slot puts at least one body on the removed list.
proof fn lemma_collided_one(s: Seq<BodyModel>, n: int, i: int, cfg: Config)
    requires
        0 <= i < n <= s.len(),
        collides(s, i, cfg),
    ensures
        collided_upto(s, n, cfg).len() >= 1,
    decreases n,
{
    if i < n - 1 {
        lemma_collided_one(s, n - 1, i, cfg);
    }
}

/// Burst exhaustion is stable: advancing an exhausted burst changes nothing.
pub proof fn lemma_exhausted_burst_noop(ps: Seq<ParticleModel>, cfg: Config)
    requires
        ps.len() == 0,
    ensures
        burst_advanced(ps, cfg) == ps,
{
    assert(burst_advanced(ps, cfg) =~= ps);
}

/// Determinism under a fixed random source: a seeded tick is a function of
/// the world and the generator state, so two runs from equal worlds with
/// equal seeds produce equal worlds and equal states, tick after tick.
/// `World::step_seeded` returns exactly this function's value.
pub proof fn lemma_seeded_step_deterministic(
    w1: WorldModel,
    w2: WorldModel,
    s1: nat,
    s2: nat,
    cfg: Config,
)
    requires
        w1 == w2,
        s1 == s2,
    ensures
        step_model(w1, cfg, s1) == step_model(w2, cfg, s2),
{
}

} // verus!

