//! A Monte Carlo ray tracer with a verified rendering kernel.
//!
//! The kernel works over an exact rational scalar type whose every operation
//! is pinned down by a specification-level model, so the whole estimator is a
//! deterministic function of its inputs and of the random draws it consumes.

pub mod camera;
pub mod hittable;
pub mod laws;
pub mod material;
pub mod cvec;
pub mod ray;
pub mod rng;
pub mod rtweekend;
pub mod scalar;
pub mod sphere;
pub mod tracer;
