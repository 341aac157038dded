//! The integer side of a path tracer: the decisions of the renderer that
//! do not rest on the arithmetic of colours and directions, each with a
//! contract that Verus proves.
//!
//! * [`driver`]: the order in which the pixels of an image are sampled
//!   and emitted.
//! * [`path`]: what the integrator does after each segment of a light
//!   path, and the bound on its bounces.
//! * [`hit`]: which crossing of one surface counts as the hit, and which
//!   hit of a scene is the nearest.
//! * [`ordinal`]: distances as integers in the order of the distances.
//! * [`ppm`]: the text of a plain PPM image, and the count of its pixels.

pub mod driver;
pub mod hit;
pub mod ordinal;
pub mod path;
pub mod ppm;
