//! A Monte Carlo path tracer over fixed-point arithmetic: vector algebra,
//! ray/sphere and ray/plane intersection, point lights with hard shadows,
//! the recursive radiance estimator, the pinhole camera, and the per-pixel
//! work and image buffer of the renderer.
pub mod fixed;
pub mod vect;
pub mod vect3;
pub mod geometry;
pub mod scene;
pub mod tracer;
pub mod camera;
pub mod loader;
