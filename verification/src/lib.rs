//! The core of a small scene renderer with planar mirrors: a frame-rate
//! estimator, the construction of a geodesic sphere, the order of the
//! draw passes of a frame, and what a mirror shows.
//!
//! Nothing here computes with rounded numbers. The sphere is given by
//! its construction, and its geometry and that of the mirrors are stated
//! and proved over the real numbers.

pub mod algebra;
pub mod fps;
pub mod geometry;
pub mod mirror;
pub mod ring;
pub mod scene;
pub mod shapes;
pub mod watertight;
