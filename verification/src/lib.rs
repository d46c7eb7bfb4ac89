//! A small verified 2D physics core: free-falling bodies that bounce off the
//! frame walls, pairwise collision detection, and short-lived particle bursts
//! spawned at collision sites, all driven one tick at a time by a world stepper.
//!
//! Coordinates, velocities and the gravity constant are fixed-point integers:
//! every quantity is scaled by `config::SCALE` sub-units per drawn unit, so the
//! kinematics are exact and free of rounding.

pub mod body;
pub mod burst;
pub mod config;
pub mod laws;
pub mod rng;
pub mod world;
