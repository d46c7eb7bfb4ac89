//! A free-falling disc: position and velocity in scaled fixed-point units,
//! integrated under gravity with elastic reflection off the bottom boundary
//! and the two side walls.

use crate::config::BODY_LIMIT;
use crate::config::Config;
use crate::config::MOVED_BODY_LIMIT;
use crate::config::SPAWN_VX_LIMIT;
use crate::rng::Lcg;
use crate::rng::lcg_next;
use crate::rng::lcg_val;
use crate::rng::rand_inclusive;
use crate::rng::rng_after;
use vstd::prelude::*;

verus! {

/// The mathematical value of a body: its four fields as unbounded integers.
pub ghost struct BodyModel {
    pub x: int,
    pub y: int,
    pub vx: int,
    pub vy: int,
}

impl BodyModel {
    /// Every field within `m` in magnitude.
    pub open spec fn within(self, m: int) -> bool {
        &&& -m <= self.x <= m
        &&& -m <= self.y <= m
        &&& -m <= self.vx <= m
        &&& -m <= self.vy <= m
    }

    /// Fixed-point headroom of a live body: enough room for one tick of
    /// integration and one squared distance. A machine limit, not a rule of
    /// the simulation.
    pub open spec fn fits(self) -> bool {
        self.within(BODY_LIMIT as int)
    }
}

/// One tick of a body: gravity is added to the vertical velocity, the new
/// velocity moves the body down, and a body past the bottom boundary has its
/// vertical velocity negated (an elastic bounce, never a position clamp);
/// then the horizontal velocity moves the body sideways, and a body outside
/// `[0, frame_width]` has its horizontal velocity negated.
pub open spec fn body_advanced(b: BodyModel, cfg: Config) -> BodyModel {
    let vy_fall = b.vy + cfg.accel as int;
    let y_new = b.y + vy_fall;
    let vy_new = if y_new > cfg.bottom as int {
        -vy_fall
    } else {
        vy_fall
    };
    let x_new = b.x + b.vx;
    let vx_new = if x_new < 0 || x_new > cfg.frame_width as int {
        -b.vx
    } else {
        b.vx
    };
    BodyModel { x: x_new, y: y_new, vx: vx_new, vy: vy_new }
}

/// A body advanced from headroom bounds stays within the looser bound the
/// collision resolver accepts.
pub proof fn lemma_advanced_within(b: BodyModel, cfg: Config)
    requires
        cfg.wf(),
        b.fits(),
    ensures
        body_advanced(b, cfg).within(MOVED_BODY_LIMIT as int),
{
}

/// What holds of every freshly spawned body: it sits on the top boundary at
/// rest vertically, its horizontal position is inside `[0, frame_width)` and
/// its horizontal velocity inside `[-SPAWN_VX_LIMIT, SPAWN_VX_LIMIT]`.
pub open spec fn spawned_ok(b: BodyModel, cfg: Config) -> bool {
    &&& b.y == 0
    &&& b.vy == 0
    &&& 0 <= b.x < cfg.frame_width as int
    &&& -SPAWN_VX_LIMIT as int <= b.vx <= SPAWN_VX_LIMIT as int
}

/// The body a seeded spawn produces: the horizontal position is the first
/// draw, the horizontal velocity the second.
pub open spec fn body_spawn_model(cfg: Config, s: nat) -> BodyModel {
    BodyModel {
        x: lcg_val(s, 0, cfg.frame_width - 1),
        y: 0,
        vx: lcg_val(rng_after(s, 1), -SPAWN_VX_LIMIT as int, SPAWN_VX_LIMIT as int),
        vy: 0,
    }
}

/// A free-falling disc in scaled fixed-point units.
#[derive(Clone, Copy, PartialEq, Debug)]
pub struct Body {
    pub x: i64,
    pub y: i64,
    pub vx: i64,
    pub vy: i64,
}

impl View for Body {
    type V = BodyModel;

    open spec fn view(&self) -> BodyModel {
        BodyModel { x: self.x as int, y: self.y as int, vx: self.vx as int, vy: self.vy as int }
    }
}

impl DeepView for Body {
    type V = BodyModel;

    open spec fn deep_view(&self) -> BodyModel {
        self.view()
    }
}

impl Body {
    /// A body with the given fields.
    pub fn new(x: i64, y: i64, vx: i64, vy: i64) -> (b: Body)
        ensures
            b@ == (BodyModel { x: x as int, y: y as int, vx: vx as int, vy: vy as int }),
    {
        Body { x, y, vx, vy }
    }

    /// A randomly placed body on the top boundary, drawn from the
    /// process-wide random source.
    pub fn spawn(cfg: &Config) -> (b: Body)
        requires
            cfg.wf(),
        ensures
            spawned_ok(b@, *cfg),
            b@.fits(),
    {
        let x = rand_inclusive(0, cfg.frame_width - 1);
        let vx = rand_inclusive(-SPAWN_VX_LIMIT, SPAWN_VX_LIMIT);
        Body { x, y: 0, vx, vy: 0 }
    }

    /// A randomly placed body on the top boundary, drawn from a seeded
    /// generator: the outcome is fixed by the generator's state.
    pub fn spawn_seeded(cfg: &Config, rng: &mut Lcg) -> (b: Body)
        requires
            cfg.wf(),
            old(rng).wf(),
        ensures
            final(rng).wf(),
            final(rng)@ == rng_after(old(rng)@, 2),
            b@ == body_spawn_model(*cfg, old(rng)@),
            spawned_ok(b@, *cfg),
            b@.fits(),
    {
        proof {
            reveal_with_fuel(rng_after, 3);
            assert(rng_after(old(rng)@, 1) == lcg_next(old(rng)@));
            assert(rng_after(old(rng)@, 2) == lcg_next(rng_after(old(rng)@, 1)));
        }
        let x = rng.draw(0, cfg.frame_width - 1);
        let vx = rng.draw(-SPAWN_VX_LIMIT, SPAWN_VX_LIMIT);
        Body { x, y: 0, vx, vy: 0 }
    }

    /// One tick of integration: the new value is exactly
    /// `body_advanced(old(self)@, *cfg)`.
    pub fn advance(&mut self, cfg: &Config)
        requires
            cfg.wf(),
            old(self)@.fits(),
        ensures
            final(self)@ == body_advanced(old(self)@, *cfg),
    {
        self.vy = self.vy + cfg.accel;
        self.y = self.y + self.vy;
        if self.y > cfg.bottom {
            self.vy = -self.vy;
        }
        self.x = self.x + self.vx;
        if self.x < 0 || self.x > cfg.frame_width {
            self.vx = -self.vx;
        }
    }
}

} // verus!
