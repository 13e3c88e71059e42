//! Seamless procedural texture synthesis on a torus, in fixed-point arithmetic.
//!
//! The pipeline: a toroidal Voronoi distance field, a fractal (multi-octave)
//! noise accumulator, and an anisotropic directional blur driven per pixel by a
//! direction field, with iterative blur-then-normalize refinement rounds.
//! Coordinates on the unit torus are held as fixed-point integers in units of
//! 1/65536, so every stage is exact integer arithmetic.

pub mod math;
pub mod trig;
pub mod geometry;
pub mod field;
pub mod sites;
pub mod voronoi;
pub mod fractal;
pub mod blur;
pub mod normalize;
pub mod pipeline;
