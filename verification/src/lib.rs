//! Undistorting images: a distorted frame is described by points along its
//! four edges, interpolated by polynomials, and points are mapped out of the
//! distortion and back into it. Coordinates are `i64`.
pub mod checks;
pub mod environment;
pub mod matrix;
pub mod point;
pub mod poly;
pub mod util;
pub mod values;

pub use crate::environment::{get_distorted_environment, Environment};
pub use crate::point::{Point, Points};
