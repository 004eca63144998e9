//! Geometric and numerical core of a Monte-Carlo ray tracer: a 3-component
//! fixed-point vector algebra, a parametric ray, a thin-lens camera, and a
//! color quantizer, with contracts stating each result exactly.

pub mod fix;
pub mod util;
pub mod vec;
pub mod ray;
pub mod camera;
pub mod color;
