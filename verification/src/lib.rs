//! Core of a small offline ray tracer: vector math, a fixed-orientation
//! camera that maps image-plane coordinates to rays, hit records
//! describing ray-surface intersections, and a metallic material with
//! fuzzy reflection.
//!
//! Quantities are carried as fixed-point integers: a raw value `q`
//! stands for the real number `q / SCALE`. Contracts are stated over an
//! unbounded-integer model of each value, so the rounding of every
//! operation is pinned down exactly.

pub mod camera;
pub mod fixed;
pub mod materials;
pub mod ray;
pub mod rng;
pub mod vector3;
