//! A small ray tracer verified end to end over fixed-point arithmetic.
//!
//! Every geometric quantity is an integer count of `1/SCALE` steps, so the
//! whole pipeline — vector algebra, ray–sphere intersection, nearest-hit
//! selection, camera ray generation and colour quantization — has an exact
//! mathematical model that the executable code provably follows.

pub mod fixed;
pub mod math;
pub mod ray;
pub mod geometry;
pub mod color;
pub mod camera;
