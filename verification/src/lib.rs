//! Self-similar turtle-graphics fractal curves: the Heighway dragon curve and
//! its Levy-C variant, optionally mirrored, at an arbitrary recursion depth.
//!
//! The heart of the crate is the curve's segment sequence and its
//! depth-adjustment algorithm: growing doubles the sequence by the subdivision
//! rule, while shrinking exploits prefix self-similarity so that it only costs
//! time proportional to the target resolution.

pub mod curve;
pub mod dir;
pub mod laws;

pub use curve::CurveFlags;
pub use curve::DragonCurve;
pub use dir::Dir;
