//! A CPU ray tracer over fixed-point arithmetic.
//!
//! Every quantity that the renderer manipulates (coordinates, directions,
//! colours, radiances) is a signed integer holding the real value scaled by
//! `fixed::SCALE`.  All arithmetic is therefore exact and fully specified,
//! and every rendering function is proved to return precisely the value of
//! its mathematical model.

pub mod fixed;
pub mod framebuffer;
pub mod lights;
pub mod obj;
pub mod optics;
pub mod polygon;
pub mod renderer;
pub mod scene;
pub mod shapes;
pub mod sphere;
pub mod triangle;
pub mod vec3;
