//! Configuration of the simulation: frame geometry, gravity, population cap,
//! burst size, collision radius and admission cadence, together with the
//! fixed-point headroom bounds that keep every arithmetic step inside `i64`.

use vstd::prelude::*;

verus! {

/// Fixed-point scale: sub-units per drawn unit. A drawn coordinate of 640
/// units is stored as `640 * SCALE = 64000`.
pub const SCALE: i64 = 100;

/// Scaled frame width of the demo geometry (640 drawn units).
pub const DEFAULT_FRAME_WIDTH: i64 = 64000;

/// Scaled bottom boundary of the demo geometry (480 drawn units).
pub const DEFAULT_BOTTOM: i64 = 48000;

/// Scaled gravity increment per tick (0.05 drawn units per tick squared).
pub const DEFAULT_ACCEL: i64 = 5;

/// Scaled collision radius (10 drawn units: twice a body's drawn radius of 5).
pub const DEFAULT_COLLISION_RADIUS: i64 = 1000;

/// Live bodies admitted at most up to this population.
pub const DEFAULT_CAP: usize = 25;

/// Particles created per burst.
pub const DEFAULT_PARTICLES_PER_BURST: usize = 80;

/// Ticks between admission/pruning cycles.
pub const DEFAULT_ADMISSION_PERIOD: u32 = 10;

/// Largest scaled magnitude of a spawned body's horizontal velocity
/// (2 drawn units per tick).
pub const SPAWN_VX_LIMIT: i64 = 200;

/// Largest scaled magnitude of a particle's horizontal jitter
/// (1.5 drawn units per tick).
pub const JITTER_VX_LIMIT: i64 = 150;

/// Lowest scaled vertical jitter of a particle (-3 drawn units per tick).
pub const JITTER_VY_LOW: i64 = -300;

/// Highest scaled vertical jitter of a particle (-1.5 drawn units per tick).
pub const JITTER_VY_HIGH: i64 = -150;

/// Headroom bound on a body's fields. Bodies enter the squared-distance
/// collision test, so this bound is chosen to keep `dx*dx + dy*dy` inside
/// `i64` even after one tick of integration: a machine limit, not a rule of
/// the simulation.
pub const BODY_LIMIT: i64 = 500_000_000;

/// Headroom bound on a body's fields after one tick of integration; what the
/// collision resolver accepts. Small enough that `dx*dx + dy*dy` of two such
/// bodies stays inside `i64`.
pub const MOVED_BODY_LIMIT: i64 = 1_050_000_000;

/// Headroom bound on a particle's fields. Particles are never squared, so the
/// bound is looser.
pub const PARTICLE_LIMIT: i64 = 1_000_000_000_000;

/// The tuning constants of one simulation: all scaled by `SCALE` except the
/// three counts.
#[derive(Clone, Copy, PartialEq, Debug)]
pub struct Config {
    /// Scaled width of the frame; bodies reflect off `x == 0` and
    /// `x == frame_width`.
    pub frame_width: i64,
    /// Scaled bottom boundary; bodies reflect off it, particles die past it.
    pub bottom: i64,
    /// Scaled gravity increment added to a vertical velocity each tick.
    pub accel: i64,
    /// Scaled distance under which two bodies collide.
    pub collision_radius: i64,
    /// Largest number of live bodies the spawner admits.
    pub cap: usize,
    /// Number of particles a collision burst is created with.
    pub particles_per_burst: usize,
    /// A body is admitted and exhausted bursts are pruned every this many
    /// ticks.
    pub admission_period: u32,
}

impl Config {
    /// A usable configuration: positive geometry and cadence, with every
    /// constant small enough that one tick of integration and one squared
    /// distance stay inside `i64`.
    pub open spec fn wf(self) -> bool {
        &&& 0 < self.frame_width <= 100_000_000
        &&& 0 < self.bottom <= 100_000_000
        &&& 0 < self.accel <= 1_000_000
        &&& 0 < self.collision_radius <= 1_000_000
        &&& self.cap <= 1_000_000
        &&& 0 < self.particles_per_burst <= 1_000_000
        &&& 0 < self.admission_period <= 1_000_000
    }

    /// The geometry and tuning of the reference demo: a 640 by 480 frame,
    /// gravity 0.05 units per tick squared, collision radius 10 units, at
    /// most 25 bodies, 80 particles per burst, admission every 10 ticks.
    pub fn demo() -> (c: Config)
        ensures
            c.wf(),
            c == (Config {
                frame_width: DEFAULT_FRAME_WIDTH,
                bottom: DEFAULT_BOTTOM,
                accel: DEFAULT_ACCEL,
                collision_radius: DEFAULT_COLLISION_RADIUS,
                cap: DEFAULT_CAP,
                particles_per_burst: DEFAULT_PARTICLES_PER_BURST,
                admission_period: DEFAULT_ADMISSION_PERIOD,
            }),
    {
        Config {
            frame_width: DEFAULT_FRAME_WIDTH,
            bottom: DEFAULT_BOTTOM,
            accel: DEFAULT_ACCEL,
            collision_radius: DEFAULT_COLLISION_RADIUS,
            cap: DEFAULT_CAP,
            particles_per_burst: DEFAULT_PARTICLES_PER_BURST,
            admission_period: DEFAULT_ADMISSION_PERIOD,
        }
    }
}

} // verus!
