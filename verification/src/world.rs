//! The world: the live bodies and bursts, the admission/pruning clock, the
//! pairwise collision resolver, and the per-tick stepper that ties the phases
//! together in the frame order: admit and prune, advance, resolve collisions
//! and spawn bursts.

use crate::body::Body;
use crate::body::BodyModel;
use crate::body::body_advanced;
use crate::body::body_spawn_model;
use crate::body::spawned_ok;
use crate::burst::Burst;
use crate::burst::ParticleModel;
use crate::burst::all_particles_fit;
use crate::burst::burst_advanced;
use crate::burst::burst_model;
use crate::burst::burst_ok_for;
use crate::config::Config;
use crate::config::MOVED_BODY_LIMIT;
use crate::rng::Lcg;
use crate::rng::lemma_rng_after_add;
use crate::rng::rng_after;
use vstd::prelude::*;

verus! {

/// Whether two bodies overlap: their centers closer than the collision
/// radius, stated on squares so that no root is needed.
pub open spec fn close(a: BodyModel, b: BodyModel, cfg: Config) -> bool {
    (a.x - b.x) * (a.x - b.x) + (a.y - b.y) * (a.y - b.y) < (cfg.collision_radius as int) * (
    cfg.collision_radius as int)
}

/// Whether the body at slot `i` overlaps some other slot below `n`. Slots,
/// not field values, tell the pair apart, so two bodies of equal state still
/// collide with each other.
pub open spec fn collides_below(s: Seq<BodyModel>, i: int, n: int, cfg: Config) -> bool {
    exists|j: int| 0 <= j < n && j != i && close(s[i], #[trigger] s[j], cfg)
}

/// Whether the body at slot `i` overlaps any other body of the sequence.
pub open spec fn collides(s: Seq<BodyModel>, i: int, cfg: Config) -> bool {
    collides_below(s, i, s.len() as int, cfg)
}

/// The non-colliding bodies among the first `n` slots, in order.
pub open spec fn survivors_upto(s: Seq<BodyModel>, n: int, cfg: Config) -> Seq<BodyModel>
    decreases n,
{
    if n <= 0 {
        Seq::empty()
    } else {
        let rest = survivors_upto(s, n - 1, cfg);
        if collides(s, n - 1, cfg) {
            rest
        } else {
            rest.push(s[n - 1])
        }
    }
}

/// The bodies that survive the collision pass: exactly those that overlap no
/// other body, in order.
pub open spec fn survivors(s: Seq<BodyModel>, cfg: Config) -> Seq<BodyModel> {
    survivors_upto(s, s.len() as int, cfg)
}

/// The colliding bodies among the first `n` slots, in order; each reported
/// once however many others it overlaps.
pub open spec fn collided_upto(s: Seq<BodyModel>, n: int, cfg: Config) -> Seq<BodyModel>
    decreases n,
{
    if n <= 0 {
        Seq::empty()
    } else {
        let rest = collided_upto(s, n - 1, cfg);
        if collides(s, n - 1, cfg) {
            rest.push(s[n - 1])
        } else {
            rest
        }
    }
}

/// The bodies removed by the collision pass, in order.
pub open spec fn collided(s: Seq<BodyModel>, cfg: Config) -> Seq<BodyModel> {
    collided_upto(s, s.len() as int, cfg)
}

/// Every body of the sequence advanced one tick.
pub open spec fn advanced_bodies(s: Seq<BodyModel>, cfg: Config) -> Seq<BodyModel> {
    Seq::new(s.len(), |i: int| body_advanced(s[i], cfg))
}

/// The non-exhausted bursts, in order.
pub open spec fn pruned_bursts(bs: Seq<Seq<ParticleModel>>) -> Seq<Seq<ParticleModel>>
    decreases bs.len(),
{
    if bs.len() == 0 {
        Seq::empty()
    } else {
        let rest = pruned_bursts(bs.drop_last());
        if bs.last().len() == 0 {
            rest
        } else {
            rest.push(bs.last())
        }
    }
}

/// Every burst of the sequence advanced one tick.
pub open spec fn advanced_bursts(bs: Seq<Seq<ParticleModel>>, cfg: Config) -> Seq<
    Seq<ParticleModel>,
> {
    Seq::new(bs.len(), |i: int| burst_advanced(bs[i], cfg))
}

/// Every body of the sequence within headroom.
pub open spec fn all_bodies_fit(s: Seq<BodyModel>) -> bool {
    forall|i: int| 0 <= i < s.len() ==> (#[trigger] s[i]).fits()
}

/// Every burst of the sequence made of particles within headroom.
pub open spec fn all_bursts_fit(bs: Seq<Seq<ParticleModel>>) -> bool {
    forall|i: int| 0 <= i < bs.len() ==> all_particles_fit(#[trigger] bs[i])
}

/// The mathematical value of a world.
#[verifier::ext_equal]
pub ghost struct WorldModel {
    pub bodies: Seq<BodyModel>,
    pub bursts: Seq<Seq<ParticleModel>>,
    pub phase: int,
}

impl WorldModel {
    /// Well-formedness against a configuration: the clock inside its period,
    /// the population at or under the cap, and every field within fixed-point
    /// headroom.
    pub open spec fn wf(self, cfg: Config) -> bool {
        &&& 0 <= self.phase < cfg.admission_period as int
        &&& self.bodies.len() <= cfg.cap as int
        &&& all_bodies_fit(self.bodies)
        &&& all_bursts_fit(self.bursts)
    }
}

/// The aggregate owner of all live bodies and bursts, with the admission
/// clock.
#[derive(PartialEq, Debug)]
pub struct World {
    /// The live bodies.
    pub bodies: Vec<Body>,
    /// The live bursts; an exhausted one may linger until the next pruning
    /// cycle.
    pub bursts: Vec<Burst>,
    /// Ticks since the last admission cycle; admission happens when it is 0.
    pub phase: u32,
}

impl View for World {
    type V = WorldModel;

    open spec fn view(&self) -> WorldModel {
        WorldModel {
            bodies: self.bodies.deep_view(),
            bursts: self.bursts.deep_view(),
            phase: self.phase as int,
        }
    }
}

/// Whether this tick starts an admission cycle and has room for one more
/// body.
pub open spec fn spawn_due(w: WorldModel, cfg: Config) -> bool {
    w.phase == 0 && w.bodies.len() < cfg.cap as int
}

/// One tick of the whole world, related to a possible outcome: the spawned
/// body `sb` (used only when one is due) and the jitters of the fresh bursts
/// are random, so the relation fixes everything else and bounds them.
///
/// The tick runs in frame order: on an admission cycle the exhausted bursts
/// are pruned and, below the cap, one body is admitted; every body and burst
/// advances; the collision pass removes every overlapping body and spawns one
/// burst from each removed body, each reported once. (The pairwise scan of
/// the screen demo could spawn two bursts for one two-body collision, once
/// per direction of the scan; here each removed body seeds exactly one
/// burst.)
pub open spec fn step_rel_with(pre: WorldModel, post: WorldModel, cfg: Config, sb: BodyModel) -> bool {
    let pruned = if pre.phase == 0 {
        pruned_bursts(pre.bursts)
    } else {
        pre.bursts
    };
    let base = if spawn_due(pre, cfg) {
        pre.bodies.push(sb)
    } else {
        pre.bodies
    };
    let moved = advanced_bodies(base, cfg);
    let coll = collided(moved, cfg);
    let kept = advanced_bursts(pruned, cfg);
    &&& (spawn_due(pre, cfg) ==> spawned_ok(sb, cfg))
    &&& post.bodies == survivors(moved, cfg)
    &&& post.phase == (pre.phase + 1) % (cfg.admission_period as int)
    &&& post.bursts.len() == kept.len() + coll.len()
    &&& (forall|i: int| 0 <= i < kept.len() ==> post.bursts[i] == #[trigger] kept[i])
    &&& (forall|k: int|
        0 <= k < coll.len() ==> burst_ok_for(
            #[trigger] post.bursts[kept.len() + k],
            coll[k],
            cfg,
        ))
}

/// One tick of the whole world, for some admitted body and some jitters.
pub open spec fn step_rel(pre: WorldModel, post: WorldModel, cfg: Config) -> bool {
    exists|sb: BodyModel| step_rel_with(pre, post, cfg, sb)
}

/// The fresh bursts a seeded tick appends: one per removed body, in slot
/// order, each consuming two draws per particle.
pub open spec fn seeded_bursts(coll: Seq<BodyModel>, cfg: Config, s: nat) -> Seq<Seq<ParticleModel>>
    decreases coll.len(),
{
    if coll.len() == 0 {
        Seq::empty()
    } else {
        seeded_bursts(coll.drop_last(), cfg, s).push(
            burst_model(
                coll.last(),
                cfg.particles_per_burst as nat,
                rng_after(s, 2 * (cfg.particles_per_burst as nat) * ((coll.len() - 1) as nat)),
            ),
        )
    }
}

/// One tick of the whole world under a seeded generator: the exact new world
/// and the exact new generator state, as a function of the old ones.
pub open spec fn step_model(pre: WorldModel, cfg: Config, s: nat) -> (WorldModel, nat) {
    let pruned = if pre.phase == 0 {
        pruned_bursts(pre.bursts)
    } else {
        pre.bursts
    };
    let s1 = if spawn_due(pre, cfg) {
        rng_after(s, 2)
    } else {
        s
    };
    let base = if spawn_due(pre, cfg) {
        pre.bodies.push(body_spawn_model(cfg, s))
    } else {
        pre.bodies
    };
    let moved = advanced_bodies(base, cfg);
    let coll = collided(moved, cfg);
    let kept = advanced_bursts(pruned, cfg);
    let fresh = seeded_bursts(coll, cfg, s1);
    (
        WorldModel {
            bodies: survivors(moved, cfg),
            bursts: kept + fresh,
            phase: (pre.phase + 1) % (cfg.admission_period as int),
        },
        rng_after(s1, 2 * (cfg.particles_per_burst as nat) * (coll.len() as nat)),
    )
}

/// Extending the removed-body sequence by one appends one burst, seeded at
/// the generator state the earlier bursts leave behind.
pub proof fn lemma_seeded_bursts_snoc(coll: Seq<BodyModel>, k: int, cfg: Config, s: nat)
    requires
        0 <= k < coll.len(),
    ensures
        seeded_bursts(coll.subrange(0, k + 1), cfg, s) == seeded_bursts(
            coll.subrange(0, k),
            cfg,
            s,
        ).push(
            burst_model(
                coll[k],
                cfg.particles_per_burst as nat,
                rng_after(s, 2 * (cfg.particles_per_burst as nat) * (k as nat)),
            ),
        ),
{
    let cs = coll.subrange(0, k + 1);
    assert(cs.drop_last() =~= coll.subrange(0, k));
    assert(cs.last() == coll[k]);
    assert(cs.len() - 1 == k);
}

/// Pruning keeps only bursts that were already there, so headroom carries
/// over.
pub proof fn lemma_pruned_bursts_fit(bs: Seq<Seq<ParticleModel>>)
    requires
        all_bursts_fit(bs),
    ensures
        all_bursts_fit(pruned_bursts(bs)),
    decreases bs.len(),
{
    if bs.len() > 0 {
        assert(all_bursts_fit(bs.drop_last()));
        lemma_pruned_bursts_fit(bs.drop_last());
        let rest = pruned_bursts(bs.drop_last());
        if bs.last().len() != 0 {
            assert(forall|k: int|
                0 <= k < rest.len() ==> pruned_bursts(bs)[k] == #[trigger] rest[k]);
        }
    }
}

/// There are no more survivors than bodies.
pub proof fn lemma_survivors_len(s: Seq<BodyModel>, n: int, cfg: Config)
    requires
        0 <= n <= s.len(),
    ensures
        survivors_upto(s, n, cfg).len() <= n,
    decreases n,
{
    if n > 0 {
        lemma_survivors_len(s, n - 1, cfg);
    }
}

/// Every reported colliding body is a body of the sequence that collides;
/// and every colliding slot is reported.
pub proof fn lemma_collided_contains(s: Seq<BodyModel>, n: int, i: int, cfg: Config)
    requires
        0 <= i < n <= s.len(),
        collides(s, i, cfg),
    ensures
        collided_upto(s, n, cfg).contains(s[i]),
    decreases n,
{
    if i == n - 1 {
        assert(collided_upto(s, n, cfg).last() == s[i]);
    } else {
        lemma_collided_contains(s, n - 1, i, cfg);
        let rest = collided_upto(s, n - 1, cfg);
        let k = choose|k: int| 0 <= k < rest.len() && rest[k] == s[i];
        assert(collided_upto(s, n, cfg)[k] == s[i]);
    }
}

/// Bodies reported by the collision pass stay within the resolver's bound.
pub proof fn lemma_collided_within(s: Seq<BodyModel>, n: int, cfg: Config)
    requires
        n <= s.len(),
        forall|i: int| 0 <= i < s.len() ==> (#[trigger] s[i]).within(MOVED_BODY_LIMIT as int),
    ensures
        forall|k: int|
            0 <= k < collided_upto(s, n, cfg).len() ==> (#[trigger] collided_upto(s, n, cfg)[k])
                .within(MOVED_BODY_LIMIT as int),
    decreases n,
{
    if n > 0 {
        lemma_collided_within(s, n - 1, cfg);
        let rest = collided_upto(s, n - 1, cfg);
        if collides(s, n - 1, cfg) {
            assert(forall|k: int|
                0 <= k < rest.len() ==> collided_upto(s, n, cfg)[k] == #[trigger] rest[k]);
        }
    }
}

impl World {
    /// An empty world: no bodies, no bursts, the clock at the start of an
    /// admission cycle.
    pub fn new() -> (w: World)
        ensures
            w@.bodies.len() == 0,
            w@.bursts.len() == 0,
            w@.phase == 0,
            forall|cfg: Config| cfg.wf() ==> w@.wf(cfg),
    {
        World { bodies: Vec::new(), bursts: Vec::new(), phase: 0 }
    }

    /// Drop every exhausted burst, keeping the rest in order.
    fn prune(&mut self)
        ensures
            final(self).bodies == old(self).bodies,
            final(self).phase == old(self).phase,
            final(self)@.bursts == pruned_bursts(old(self)@.bursts),
    {
        let ghost orig: Seq<Seq<ParticleModel>> = self@.bursts;
        let mut kept: Vec<Burst> = Vec::new();
        let n = self.bursts.len();
        for i in 0..n
            invariant
                orig == self.bursts.deep_view(),
                n == self.bursts.len(),
                kept.deep_view() == pruned_bursts(orig.subrange(0, i as int)),
        {
            let alive = self.bursts[i].particles.len() > 0;
            proof {
                assert(self.bursts[i as int]@ == orig[i as int]);
                assert(orig.subrange(0, i + 1).drop_last() =~= orig.subrange(0, i as int));
                assert(orig.subrange(0, i + 1).last() == orig[i as int]);
            }
            if alive {
                let ghost before: Seq<Seq<ParticleModel>> = kept.deep_view();
                let b = self.bursts[i].clone_burst();
                kept.push(b);
                proof {
                    assert(kept.deep_view() =~= before.push(orig[i as int]));
                }
            }
        }
        proof {
            assert(orig.subrange(0, n as int) =~= orig);
        }
        self.bursts = kept;
    }

    /// Advance every live body one tick.
    fn advance_bodies(&mut self, cfg: &Config)
        requires
            cfg.wf(),
            all_bodies_fit(old(self)@.bodies),
        ensures
            final(self)@.bodies == advanced_bodies(old(self)@.bodies, *cfg),
            final(self).bursts == old(self).bursts,
            final(self).phase == old(self).phase,
    {
        let ghost orig: Seq<BodyModel> = self@.bodies;
        let mut moved: Vec<Body> = Vec::new();
        let n = self.bodies.len();
        for i in 0..n
            invariant
                cfg.wf(),
                all_bodies_fit(orig),
                orig == self.bodies.deep_view(),
                n == self.bodies.len(),
                moved.deep_view().len() == i as int,
                forall|k: int|
                    0 <= k < i as int ==> moved.deep_view()[k] == body_advanced(
                        #[trigger] orig[k],
                        *cfg,
                    ),
        {
            let mut b = self.bodies[i];
            proof {
                assert(b@ == orig[i as int]);
                assert(orig[i as int].fits());
            }
            b.advance(cfg);
            let ghost before: Seq<BodyModel> = moved.deep_view();
            moved.push(b);
            proof {
                assert(moved.deep_view() =~= before.push(b@));
            }
        }
        proof {
            assert(moved.deep_view() =~= advanced_bodies(orig, *cfg));
        }
        self.bodies = moved;
    }

    /// Advance every live burst one tick.
    fn advance_bursts(&mut self, cfg: &Config)
        requires
            cfg.wf(),
            all_bursts_fit(old(self)@.bursts),
        ensures
            final(self)@.bursts == advanced_bursts(old(self)@.bursts, *cfg),
            final(self).bodies == old(self).bodies,
            final(self).phase == old(self).phase,
    {
        let ghost orig: Seq<Seq<ParticleModel>> = self@.bursts;
        let mut moved: Vec<Burst> = Vec::new();
        let n = self.bursts.len();
        for i in 0..n
            invariant
                cfg.wf(),
                all_bursts_fit(orig),
                orig == self.bursts.deep_view(),
                n == self.bursts.len(),
                moved.deep_view().len() == i as int,
                forall|k: int|
                    0 <= k < i as int ==> moved.deep_view()[k] == burst_advanced(
                        #[trigger] orig[k],
                        *cfg,
                    ),
        {
            let mut b = self.bursts[i].clone_burst();
            proof {
                assert(b@ == orig[i as int]);
                assert(all_particles_fit(orig[i as int]));
            }
            b.advance(cfg);
            let ghost before: Seq<Seq<ParticleModel>> = moved.deep_view();
            moved.push(b);
            proof {
                assert(moved.deep_view() =~= before.push(b@));
            }
        }
        proof {
            assert(moved.deep_view() =~= advanced_bursts(orig, *cfg));
        }
        self.bursts = moved;
    }

    /// The collision pass: keep the bodies that overlap no other body, and
    /// return the removed ones, each reported once, in slot order.
    fn resolve_collisions(&mut self, cfg: &Config) -> (hit: Vec<Body>)
        requires
            cfg.wf(),
            forall|i: int|
                0 <= i < old(self)@.bodies.len() ==> (#[trigger] old(self)@.bodies[i]).within(
                    MOVED_BODY_LIMIT as int,
                ),
        ensures
            final(self)@.bodies == survivors(old(self)@.bodies, *cfg),
            hit.deep_view() == collided(old(self)@.bodies, *cfg),
            final(self).bursts == old(self).bursts,
            final(self).phase == old(self).phase,
    {
        let ghost orig: Seq<BodyModel> = self@.bodies;
        let mut kept: Vec<Body> = Vec::new();
        let mut hit: Vec<Body> = Vec::new();
        let n = self.bodies.len();
        for i in 0..n
            invariant
                cfg.wf(),
                orig == self.bodies.deep_view(),
                n == self.bodies.len(),
                forall|k: int|
                    0 <= k < orig.len() ==> (#[trigger] orig[k]).within(MOVED_BODY_LIMIT as int),
                kept.deep_view() == survivors_upto(orig, i as int, *cfg),
                hit.deep_view() == collided_upto(orig, i as int, *cfg),
        {
            let mut found = false;
            for j in 0..n
                invariant
                    cfg.wf(),
                    orig == self.bodies.deep_view(),
                    n == self.bodies.len(),
                    i < n,
                    forall|k: int|
                        0 <= k < orig.len() ==> (#[trigger] orig[k]).within(
                            MOVED_BODY_LIMIT as int,
                        ),
                    found == collides_below(orig, i as int, j as int, *cfg),
            {
                if j != i {
                    let a = self.bodies[i];
                    let b = self.bodies[j];
                    proof {
                        assert(a@ == orig[i as int]);
                        assert(b@ == orig[j as int]);
                        assert(orig[i as int].within(MOVED_BODY_LIMIT as int));
                        assert(orig[j as int].within(MOVED_BODY_LIMIT as int));
                    }
                    let dx = a.x - b.x;
                    let dy = a.y - b.y;
                    proof {
                        assert(0 <= dx * dx <= 4_410_000_000_000_000_000) by (nonlinear_arith)
                            requires
                                -2_100_000_000 <= dx <= 2_100_000_000,
                        ;
                        assert(0 <= dy * dy <= 4_410_000_000_000_000_000) by (nonlinear_arith)
                            requires
                                -2_100_000_000 <= dy <= 2_100_000_000,
                        ;
                        assert(0 <= cfg.collision_radius * cfg.collision_radius
                            <= 1_000_000_000_000) by (nonlinear_arith)
                            requires
                                0 < cfg.collision_radius <= 1_000_000,
                        ;
                    }
                    if dx * dx + dy * dy < cfg.collision_radius * cfg.collision_radius {
                        found = true;
                        proof {
                            assert(close(orig[i as int], orig[j as int], *cfg));
                        }
                    }
                }
            }
            let body = self.bodies[i];
            proof {
                assert(body@ == orig[i as int]);
                assert(found == collides(orig, i as int, *cfg));
            }
            if found {
                let ghost before: Seq<BodyModel> = hit.deep_view();
                hit.push(body);
                proof {
                    assert(hit.deep_view() =~= before.push(body@));
                }
            } else {
                let ghost before: Seq<BodyModel> = kept.deep_view();
                kept.push(body);
                proof {
                    assert(kept.deep_view() =~= before.push(body@));
                }
            }
        }
        self.bodies = kept;
        hit
    }

    /// One tick, its random draws taken from the process-wide source: on an
    /// admission cycle exhausted bursts are pruned and, below the cap, one
    /// body is admitted; every body and burst advances; colliding bodies are
    /// removed and each seeds one fresh burst. The live population never
    /// leaves the cap behind.
    pub fn step(&mut self, cfg: &Config)
        requires
            cfg.wf(),
            old(self)@.wf(*cfg),
        ensures
            step_rel(old(self)@, final(self)@, *cfg),
            final(self)@.bodies.len() <= cfg.cap as int,
            0 <= final(self)@.phase < cfg.admission_period as int,
    {
        let ghost pre: WorldModel = self@;
        let ghost mut sb: BodyModel = BodyModel { x: 0, y: 0, vx: 0, vy: 0 };
        if self.phase == 0 {
            self.prune();
            proof {
                lemma_pruned_bursts_fit(pre.bursts);
            }
            if self.bodies.len() < cfg.cap {
                let b = Body::spawn(cfg);
                proof {
                    sb = b@;
                }
                let ghost before: Seq<BodyModel> = self.bodies.deep_view();
                self.bodies.push(b);
                proof {
                    assert(self.bodies.deep_view() =~= before.push(b@));
                }
            }
        }
        let ghost pruned: Seq<Seq<ParticleModel>> = if pre.phase == 0 {
            pruned_bursts(pre.bursts)
        } else {
            pre.bursts
        };
        let ghost base: Seq<BodyModel> = if spawn_due(pre, *cfg) {
            pre.bodies.push(sb)
        } else {
            pre.bodies
        };
        proof {
            assert(self@.bodies == base);
            assert(self@.bursts == pruned);
            assert(all_bodies_fit(base));
            assert(all_bursts_fit(pruned));
        }
        self.advance_bodies(cfg);
        self.advance_bursts(cfg);
        let ghost moved: Seq<BodyModel> = advanced_bodies(base, *cfg);
        let ghost kept: Seq<Seq<ParticleModel>> = advanced_bursts(pruned, *cfg);
        proof {
            assert(self@.bodies == moved);
            assert(self@.bursts == kept);
            assert forall|i: int| 0 <= i < moved.len() implies (#[trigger] moved[i]).within(
                MOVED_BODY_LIMIT as int,
            ) by {
                crate::body::lemma_advanced_within(base[i], *cfg);
            }
        }
        let hit = self.resolve_collisions(cfg);
        let ghost coll: Seq<BodyModel> = collided(moved, *cfg);
        proof {
            lemma_collided_within(moved, moved.len() as int, *cfg);
        }
        self.spawn_bursts(&hit, cfg);
        self.phase = (self.phase + 1) % cfg.admission_period;
        proof {
            lemma_survivors_len(moved, moved.len() as int, *cfg);
            assert(base.len() <= cfg.cap as int);
            assert(step_rel_with(pre, self@, *cfg, sb));
        }
    }

    /// Append one fresh burst per removed body, in slot order, jitters drawn
    /// from the process-wide source.
    fn spawn_bursts(&mut self, hit: &Vec<Body>, cfg: &Config)
        requires
            cfg.wf(),
            forall|t: int|
                0 <= t < hit.deep_view().len() ==> (#[trigger] hit.deep_view()[t]).within(
                    MOVED_BODY_LIMIT as int,
                ),
        ensures
            final(self).bodies == old(self).bodies,
            final(self).phase == old(self).phase,
            final(self)@.bursts.len() == old(self)@.bursts.len() + hit.deep_view().len(),
            forall|i: int|
                0 <= i < old(self)@.bursts.len() ==> final(self)@.bursts[i] == #[trigger] old(
                    self,
                )@.bursts[i],
            forall|t: int|
                0 <= t < hit.deep_view().len() ==> burst_ok_for(
                    #[trigger] final(self)@.bursts[old(self)@.bursts.len() + t],
                    hit.deep_view()[t],
                    *cfg,
                ),
    {
        let ghost kept: Seq<Seq<ParticleModel>> = self@.bursts;
        let ghost coll: Seq<BodyModel> = hit.deep_view();
        let m = hit.len();
        for k in 0..m
            invariant
                cfg.wf(),
                m == hit.len(),
                coll == hit.deep_view(),
                forall|t: int|
                    0 <= t < coll.len() ==> (#[trigger] coll[t]).within(MOVED_BODY_LIMIT as int),
                self.bodies == old(self).bodies,
                self.phase == old(self).phase,
                self.bursts.deep_view().len() == kept.len() + k as int,
                forall|i: int|
                    0 <= i < kept.len() ==> self.bursts.deep_view()[i] == #[trigger] kept[i],
                forall|t: int|
                    0 <= t < k as int ==> burst_ok_for(
                        #[trigger] self.bursts.deep_view()[kept.len() + t],
                        coll[t],
                        *cfg,
                    ),
        {
            let src = hit[k];
            proof {
                assert(src@ == coll[k as int]);
            }
            let b = Burst::create(&src, cfg);
            let ghost before: Seq<Seq<ParticleModel>> = self.bursts.deep_view();
            self.bursts.push(b);
            proof {
                assert(self.bursts.deep_view() =~= before.push(b@));
            }
        }
    }

    /// One tick, its random draws taken from a seeded generator: the same
    /// frame order as `step`, with the new world and the new generator state
    /// fixed exactly by the old ones. Two worlds stepped from equal states
    /// with equal generators stay equal.
    pub fn step_seeded(&mut self, cfg: &Config, rng: &mut Lcg)
        requires
            cfg.wf(),
            old(self)@.wf(*cfg),
            old(rng).wf(),
        ensures
            final(self)@ == step_model(old(self)@, *cfg, old(rng)@).0,
            final(rng)@ == step_model(old(self)@, *cfg, old(rng)@).1,
            final(rng).wf(),
            final(self)@.bodies.len() <= cfg.cap as int,
            0 <= final(self)@.phase < cfg.admission_period as int,
    {
        let ghost pre: WorldModel = self@;
        let ghost s0: nat = rng@;
        if self.phase == 0 {
            self.prune();
            proof {
                lemma_pruned_bursts_fit(pre.bursts);
            }
            if self.bodies.len() < cfg.cap {
                let b = Body::spawn_seeded(cfg, rng);
                let ghost before: Seq<BodyModel> = self.bodies.deep_view();
                self.bodies.push(b);
                proof {
                    assert(self.bodies.deep_view() =~= before.push(b@));
                }
            }
        }
        let ghost s1: nat = if spawn_due(pre, *cfg) {
            rng_after(s0, 2)
        } else {
            s0
        };
        let ghost pruned: Seq<Seq<ParticleModel>> = if pre.phase == 0 {
            pruned_bursts(pre.bursts)
        } else {
            pre.bursts
        };
        let ghost base: Seq<BodyModel> = if spawn_due(pre, *cfg) {
            pre.bodies.push(body_spawn_model(*cfg, s0))
        } else {
            pre.bodies
        };
        proof {
            assert(rng@ == s1);
            assert(self@.bodies == base);
            assert(self@.bursts == pruned);
            assert(all_bodies_fit(base));
            assert(all_bursts_fit(pruned));
        }
        self.advance_bodies(cfg);
        self.advance_bursts(cfg);
        let ghost moved: Seq<BodyModel> = advanced_bodies(base, *cfg);
        let ghost kept: Seq<Seq<ParticleModel>> = advanced_bursts(pruned, *cfg);
        proof {
            assert forall|i: int| 0 <= i < moved.len() implies (#[trigger] moved[i]).within(
                MOVED_BODY_LIMIT as int,
            ) by {
                crate::body::lemma_advanced_within(base[i], *cfg);
            }
        }
        let hit = self.resolve_collisions(cfg);
        let ghost coll: Seq<BodyModel> = collided(moved, *cfg);
        proof {
            lemma_collided_within(moved, moved.len() as int, *cfg);
        }
        self.spawn_bursts_seeded(&hit, cfg, rng);
        self.phase = (self.phase + 1) % cfg.admission_period;
        proof {
            lemma_survivors_len(moved, moved.len() as int, *cfg);
            assert(self.bursts.deep_view() =~= kept + seeded_bursts(coll, *cfg, s1));
            assert(self@ =~= step_model(pre, *cfg, s0).0);
        }
    }

    /// Append one fresh burst per removed body, in slot order, jitters drawn
    /// from a seeded generator: two draws per particle, burst after burst.
    #[verifier::rlimit(100)]
    fn spawn_bursts_seeded(&mut self, hit: &Vec<Body>, cfg: &Config, rng: &mut Lcg)
        requires
            cfg.wf(),
            old(rng).wf(),
            forall|t: int|
                0 <= t < hit.deep_view().len() ==> (#[trigger] hit.deep_view()[t]).within(
                    MOVED_BODY_LIMIT as int,
                ),
        ensures
            final(self).bodies == old(self).bodies,
            final(self).phase == old(self).phase,
            final(self)@.bursts == old(self)@.bursts + seeded_bursts(
                hit.deep_view(),
                *cfg,
                old(rng)@,
            ),
            final(rng).wf(),
            final(rng)@ == rng_after(
                old(rng)@,
                2 * (cfg.particles_per_burst as nat) * (hit.deep_view().len() as nat),
            ),
    {
        let ghost kept: Seq<Seq<ParticleModel>> = self@.bursts;
        let ghost coll: Seq<BodyModel> = hit.deep_view();
        let ghost s1: nat = rng@;
        let ghost count: nat = cfg.particles_per_burst as nat;
        let m = hit.len();
        for k in 0..m
            invariant
                cfg.wf(),
                m == hit.len(),
                coll == hit.deep_view(),
                count == cfg.particles_per_burst as nat,
                forall|t: int|
                    0 <= t < coll.len() ==> (#[trigger] coll[t]).within(MOVED_BODY_LIMIT as int),
                self.bodies == old(self).bodies,
                self.phase == old(self).phase,
                rng.wf(),
                rng@ == rng_after(s1, 2 * count * k as nat),
                self.bursts.deep_view().len() == kept.len() + k as int,
                forall|i: int|
                    0 <= i < kept.len() ==> self.bursts.deep_view()[i] == #[trigger] kept[i],
                self.bursts.deep_view().subrange(
                    kept.len() as int,
                    self.bursts.deep_view().len() as int,
                ) == seeded_bursts(coll.subrange(0, k as int), *cfg, s1),
        {
            let src = hit[k];
            proof {
                assert(src@ == coll[k as int]);
            }
            let ghost sk: nat = rng@;
            let b = Burst::create_seeded(&src, cfg, rng);
            let ghost before: Seq<Seq<ParticleModel>> = self.bursts.deep_view();
            self.bursts.push(b);
            proof {
                assert(self.bursts.deep_view() =~= before.push(b@));
                lemma_seeded_bursts_snoc(coll, k as int, *cfg, s1);
                assert(b@ == burst_model(coll[k as int], count, sk));
                assert(self.bursts.deep_view().subrange(
                    kept.len() as int,
                    self.bursts.deep_view().len() as int,
                ) =~= seeded_bursts(coll.subrange(0, k + 1), *cfg, s1));
                lemma_rng_after_add(s1, 2 * count * (k as nat), 2 * count);
                assert(2 * count * ((k + 1) as nat) == 2 * count * (k as nat) + 2 * count)
                    by (nonlinear_arith);
                assert(rng@ == rng_after(s1, 2 * count * ((k + 1) as nat)));
            }
        }
        proof {
            assert(coll.subrange(0, m as int) =~= coll);
            assert(self.bursts.deep_view() =~= kept + seeded_bursts(coll, *cfg, s1));
        }
    }
}

} // verus!
