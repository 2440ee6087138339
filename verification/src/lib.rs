//! Core of a stochastic light-transport renderer, with its discrete logic
//! verified: tile partitioning of the output image, the job-queue and
//! counting-fence bookkeeping of the thread pool, the control skeleton of the
//! recursive path integrator, the Perlin permutation tables, and the
//! order-level geometry (bounding-box union and bounding-volume-hierarchy
//! construction) over an integer coordinate scale.
//!
//! Floating-point sampling, shading and intersection arithmetic cannot be
//! verified and live with the callers; they hand this crate plain values.

pub mod aabb;
pub mod bvh;
pub mod jobs;
pub mod material;
pub mod math;
pub mod noise;
pub mod random;
pub mod rect;
pub mod texture;
pub mod trace;
