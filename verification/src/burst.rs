//! Particles and bursts. A particle is a lightweight point with the same
//! kinematics as a body minus wall bounce; a burst is the fixed-size group of
//! particles spawned together from one collision, advanced each tick and
//! exhausted once every particle has fallen past the bottom boundary.

use crate::body::Body;
use crate::body::BodyModel;
use crate::config::Config;
use crate::config::JITTER_VX_LIMIT;
use crate::config::JITTER_VY_HIGH;
use crate::config::JITTER_VY_LOW;
use crate::config::MOVED_BODY_LIMIT;
use crate::config::PARTICLE_LIMIT;
use crate::rng::Lcg;
use crate::rng::lcg_next;
use crate::rng::lcg_val;
use crate::rng::lemma_lcg_val_in_range;
use crate::rng::lemma_rng_after_add;
use crate::rng::rand_inclusive;
use crate::rng::rng_after;
use vstd::prelude::*;

verus! {

/// The mathematical value of a particle: its four fields as unbounded
/// integers.
pub ghost struct ParticleModel {
    pub x: int,
    pub y: int,
    pub vx: int,
    pub vy: int,
}

impl ParticleModel {
    /// Fixed-point headroom of a particle: a machine limit, looser than a
    /// body's because particles never enter the squared-distance test.
    pub open spec fn fits(self) -> bool {
        &&& -PARTICLE_LIMIT as int <= self.x <= PARTICLE_LIMIT as int
        &&& -PARTICLE_LIMIT as int <= self.y <= PARTICLE_LIMIT as int
        &&& -PARTICLE_LIMIT as int <= self.vx <= PARTICLE_LIMIT as int
        &&& -PARTICLE_LIMIT as int <= self.vy <= PARTICLE_LIMIT as int
    }
}

/// One tick of a particle: gravity only, no wall bounce and no horizontal
/// boundary check.
pub open spec fn particle_advanced(p: ParticleModel, cfg: Config) -> ParticleModel {
    ParticleModel {
        x: p.x + p.vx,
        y: p.y + p.vy + cfg.accel as int,
        vx: p.vx,
        vy: p.vy + cfg.accel as int,
    }
}

/// A particle survives the tick while it has not fallen past the bottom
/// boundary.
pub open spec fn particle_alive(p: ParticleModel, cfg: Config) -> bool {
    p.y <= cfg.bottom as int
}

/// Every particle of the sequence within headroom.
pub open spec fn all_particles_fit(ps: Seq<ParticleModel>) -> bool {
    forall|i: int| 0 <= i < ps.len() ==> #[trigger] ps[i].fits()
}

/// One tick of a whole burst: every particle advances under gravity, and the
/// ones past the bottom boundary are dropped, the others kept in order.
pub open spec fn burst_advanced(ps: Seq<ParticleModel>, cfg: Config) -> Seq<ParticleModel>
    decreases ps.len(),
{
    if ps.len() == 0 {
        Seq::empty()
    } else {
        let rest = burst_advanced(ps.drop_last(), cfg);
        let q = particle_advanced(ps.last(), cfg);
        if particle_alive(q, cfg) {
            rest.push(q)
        } else {
            rest
        }
    }
}

/// What holds of every particle of a fresh burst: it starts at its source
/// body's position, with the source's velocity plus a horizontal jitter in
/// `[-JITTER_VX_LIMIT, JITTER_VX_LIMIT]` and an upward vertical jitter in
/// `[JITTER_VY_LOW, JITTER_VY_HIGH]`.
pub open spec fn jittered_from(p: ParticleModel, src: BodyModel) -> bool {
    &&& p.x == src.x
    &&& p.y == src.y
    &&& src.vx - JITTER_VX_LIMIT as int <= p.vx <= src.vx + JITTER_VX_LIMIT as int
    &&& src.vy + JITTER_VY_LOW as int <= p.vy <= src.vy + JITTER_VY_HIGH as int
}

/// What holds of a fresh burst as a whole: exactly `particles_per_burst`
/// particles, each jittered from the source body.
pub open spec fn burst_ok_for(ps: Seq<ParticleModel>, src: BodyModel, cfg: Config) -> bool {
    &&& ps.len() == cfg.particles_per_burst as int
    &&& forall|i: int| 0 <= i < ps.len() ==> jittered_from(#[trigger] ps[i], src)
}

/// The particle two seeded draws from state `s` produce: the first draw is
/// the horizontal jitter, the second the vertical one.
pub open spec fn seeded_particle(src: BodyModel, s: nat) -> ParticleModel {
    ParticleModel {
        x: src.x,
        y: src.y,
        vx: src.vx + lcg_val(s, -JITTER_VX_LIMIT as int, JITTER_VX_LIMIT as int),
        vy: src.vy + lcg_val(lcg_next(s), JITTER_VY_LOW as int, JITTER_VY_HIGH as int),
    }
}

/// The burst of `n` particles a seeded creation from state `s` produces:
/// particle `i` consumes draws `2*i` and `2*i + 1`.
pub open spec fn burst_model(src: BodyModel, n: nat, s: nat) -> Seq<ParticleModel>
    decreases n,
{
    if n == 0 {
        Seq::empty()
    } else {
        burst_model(src, (n - 1) as nat, s).push(
            seeded_particle(src, rng_after(s, 2 * (n - 1) as nat)),
        )
    }
}

/// A lightweight point member of a burst, in scaled fixed-point units.
#[derive(Clone, Copy, PartialEq, Debug)]
pub struct Particle {
    pub x: i64,
    pub y: i64,
    pub vx: i64,
    pub vy: i64,
}

impl View for Particle {
    type V = ParticleModel;

    open spec fn view(&self) -> ParticleModel {
        ParticleModel { x: self.x as int, y: self.y as int, vx: self.vx as int, vy: self.vy as int }
    }
}

impl DeepView for Particle {
    type V = ParticleModel;

    open spec fn deep_view(&self) -> ParticleModel {
        self.view()
    }
}

impl Particle {
    /// A particle at the source body's position, with the source's velocity
    /// shifted by the given jitter.
    pub fn new(source: &Body, jx: i64, jy: i64) -> (p: Particle)
        requires
            source@.within(MOVED_BODY_LIMIT as int),
            -JITTER_VX_LIMIT <= jx <= JITTER_VX_LIMIT,
            JITTER_VY_LOW <= jy <= JITTER_VY_HIGH,
        ensures
            p@ == (ParticleModel {
                x: source@.x,
                y: source@.y,
                vx: source@.vx + jx as int,
                vy: source@.vy + jy as int,
            }),
            jittered_from(p@, source@),
            p@.fits(),
    {
        Particle { x: source.x, y: source.y, vx: source.vx + jx, vy: source.vy + jy }
    }

    /// One tick of integration: the new value is exactly
    /// `particle_advanced(old(self)@, *cfg)`.
    pub fn advance(&mut self, cfg: &Config)
        requires
            cfg.wf(),
            old(self)@.fits(),
        ensures
            final(self)@ == particle_advanced(old(self)@, *cfg),
    {
        self.vy = self.vy + cfg.accel;
        self.x = self.x + self.vx;
        self.y = self.y + self.vy;
    }
}

/// A fixed-size group of particles spawned together from one collision.
#[derive(PartialEq, Debug)]
pub struct Burst {
    pub particles: Vec<Particle>,
}

impl View for Burst {
    type V = Seq<ParticleModel>;

    open spec fn view(&self) -> Seq<ParticleModel> {
        self.particles.deep_view()
    }
}

impl DeepView for Burst {
    type V = Seq<ParticleModel>;

    open spec fn deep_view(&self) -> Seq<ParticleModel> {
        self.view()
    }
}

impl Burst {
    /// A fresh burst seeded from a source body, its jitters drawn from the
    /// process-wide random source.
    pub fn create(source: &Body, cfg: &Config) -> (b: Burst)
        requires
            cfg.wf(),
            source@.within(MOVED_BODY_LIMIT as int),
        ensures
            burst_ok_for(b@, source@, *cfg),
            all_particles_fit(b@),
    {
        let mut particles: Vec<Particle> = Vec::new();
        let n = cfg.particles_per_burst;
        for i in 0..n
            invariant
                cfg.wf(),
                source@.within(MOVED_BODY_LIMIT as int),
                n == cfg.particles_per_burst,
                particles.deep_view().len() == i as int,
                forall|k: int|
                    0 <= k < i as int ==> jittered_from(
                        #[trigger] particles.deep_view()[k],
                        source@,
                    ),
                forall|k: int|
                    0 <= k < i as int ==> (#[trigger] particles.deep_view()[k]).fits(),
        {
            let jx = rand_inclusive(-JITTER_VX_LIMIT, JITTER_VX_LIMIT);
            let jy = rand_inclusive(JITTER_VY_LOW, JITTER_VY_HIGH);
            let p = Particle::new(source, jx, jy);
            let ghost before: Seq<ParticleModel> = particles.deep_view();
            particles.push(p);
            proof {
                assert(particles.deep_view() =~= before.push(p@));
            }
        }
        Burst { particles }
    }

    /// A fresh burst seeded from a source body, its jitters drawn from a
    /// seeded generator: the outcome is fixed by the generator's state, which
    /// advances by two draws per particle.
    pub fn create_seeded(source: &Body, cfg: &Config, rng: &mut Lcg) -> (b: Burst)
        requires
            cfg.wf(),
            source@.within(MOVED_BODY_LIMIT as int),
            old(rng).wf(),
        ensures
            final(rng).wf(),
            final(rng)@ == rng_after(old(rng)@, 2 * cfg.particles_per_burst as nat),
            b@ == burst_model(source@, cfg.particles_per_burst as nat, old(rng)@),
            burst_ok_for(b@, source@, *cfg),
            all_particles_fit(b@),
    {
        let ghost s0: nat = old(rng)@;
        let mut particles: Vec<Particle> = Vec::new();
        let n = cfg.particles_per_burst;
        for i in 0..n
            invariant
                cfg.wf(),
                source@.within(MOVED_BODY_LIMIT as int),
                n == cfg.particles_per_burst,
                rng.wf(),
                rng@ == rng_after(s0, 2 * i as nat),
                particles.deep_view() == burst_model(source@, i as nat, s0),
                particles.deep_view().len() == i as int,
                forall|k: int|
                    0 <= k < i as int ==> (#[trigger] particles.deep_view()[k]).fits(),
        {
            proof {
                reveal_with_fuel(rng_after, 2);
                lemma_lcg_val_in_range(
                    rng@,
                    -JITTER_VX_LIMIT as int,
                    JITTER_VX_LIMIT as int,
                );
                lemma_lcg_val_in_range(
                    lcg_next(rng@),
                    JITTER_VY_LOW as int,
                    JITTER_VY_HIGH as int,
                );
            }
            let ghost si: nat = rng@;
            let jx = rng.draw(-JITTER_VX_LIMIT, JITTER_VX_LIMIT);
            let jy = rng.draw(JITTER_VY_LOW, JITTER_VY_HIGH);
            let p = Particle::new(source, jx, jy);
            particles.push(p);
            proof {
                assert(p@ == seeded_particle(source@, si));
                assert(burst_model(source@, (i + 1) as nat, s0) == burst_model(
                    source@,
                    i as nat,
                    s0,
                ).push(seeded_particle(source@, rng_after(s0, 2 * i as nat))));
                assert(particles.deep_view() =~= burst_model(source@, (i + 1) as nat, s0));
                assert(rng@ == rng_after(s0, 2 * (i + 1) as nat)) by {
                    lemma_rng_after_add(s0, 2 * i as nat, 2);
                    reveal_with_fuel(rng_after, 3);
                }
            }
        }
        proof {
            lemma_burst_ok(source@, cfg.particles_per_burst as nat, s0, *cfg);
        }
        Burst { particles }
    }

    /// One tick of the whole burst: the new contents are exactly
    /// `burst_advanced(old(self)@, *cfg)`.
    pub fn advance(&mut self, cfg: &Config)
        requires
            cfg.wf(),
            all_particles_fit(old(self)@),
        ensures
            final(self)@ == burst_advanced(old(self)@, *cfg),
    {
        let ghost orig: Seq<ParticleModel> = self@;
        let mut kept: Vec<Particle> = Vec::new();
        let n = self.particles.len();
        for i in 0..n
            invariant
                cfg.wf(),
                all_particles_fit(orig),
                orig == self.particles.deep_view(),
                n == self.particles.len(),
                kept.deep_view() == burst_advanced(orig.subrange(0, i as int), *cfg),
        {
            let mut p = self.particles[i];
            proof {
                assert(p@ == orig[i as int]);
                assert(orig[i as int].fits());
            }
            p.advance(cfg);
            if p.y <= cfg.bottom {
                kept.push(p);
            }
            proof {
                assert(orig.subrange(0, i + 1).drop_last() =~= orig.subrange(0, i as int));
                assert(orig.subrange(0, i + 1).last() == orig[i as int]);
                if particle_alive(particle_advanced(orig[i as int], *cfg), *cfg) {
                    assert(kept.deep_view() =~= burst_advanced(
                        orig.subrange(0, i as int),
                        *cfg,
                    ).push(particle_advanced(orig[i as int], *cfg)));
                }
            }
        }
        proof {
            assert(orig.subrange(0, n as int) =~= orig);
        }
        self.particles = kept;
    }

    /// A copy with the same particles.
    pub fn clone_burst(&self) -> (b: Burst)
        ensures
            b@ == self@,
    {
        let mut particles: Vec<Particle> = Vec::new();
        let n = self.particles.len();
        for i in 0..n
            invariant
                n == self.particles.len(),
                particles.deep_view() == self.particles.deep_view().subrange(0, i as int),
        {
            let ghost before: Seq<ParticleModel> = particles.deep_view();
            particles.push(self.particles[i]);
            proof {
                assert(particles.deep_view() =~= before.push(self.particles.deep_view()[i as int]));
                assert(particles.deep_view() =~= self.particles.deep_view().subrange(0, i + 1));
            }
        }
        proof {
            assert(self.particles.deep_view().subrange(0, n as int) =~= self.particles.deep_view());
        }
        Burst { particles }
    }

    /// Whether the burst has run out of particles; an exhausted burst is
    /// removed from the world at the next pruning cycle.
    pub fn is_exhausted(&self) -> (r: bool)
        ensures
            r == (self@.len() == 0),
    {
        self.particles.len() == 0
    }

    /// How many particles remain.
    pub fn particle_count(&self) -> (n: usize)
        ensures
            n == self@.len(),
    {
        self.particles.len()
    }
}

/// A seeded burst meets the same description as a burst drawn from the
/// process-wide source: the right count, every particle jittered from the
/// source body.
pub proof fn lemma_burst_ok(src: BodyModel, n: nat, s: nat, cfg: Config)
    requires
        cfg.wf(),
    ensures
        burst_model(src, n, s).len() == n,
        forall|i: int|
            0 <= i < n ==> jittered_from(#[trigger] burst_model(src, n, s)[i], src),
    decreases n,
{
    if n > 0 {
        lemma_burst_ok(src, (n - 1) as nat, s, cfg);
        let prev = burst_model(src, (n - 1) as nat, s);
        let last = seeded_particle(src, rng_after(s, 2 * (n - 1) as nat));
        lemma_lcg_val_in_range(
            rng_after(s, 2 * (n - 1) as nat),
            -JITTER_VX_LIMIT as int,
            JITTER_VX_LIMIT as int,
        );
        lemma_lcg_val_in_range(
            lcg_next(rng_after(s, 2 * (n - 1) as nat)),
            JITTER_VY_LOW as int,
            JITTER_VY_HIGH as int,
        );
        assert(jittered_from(last, src));
        assert(forall|i: int|
            0 <= i < (n - 1) ==> burst_model(src, n, s)[i] == #[trigger] prev[i]);
    }
}

} // verus!
