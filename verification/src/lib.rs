//! The integer core of a Monte Carlo path tracer: which surface a ray meets
//! first, how a bounded light path ends, and where a pixel's bytes go.
//!
//! Distances along a ray appear here as ordering keys, unsigned integers that
//! compare as the distances they stand for.

pub mod distance;
pub mod estimator;
pub mod frame;
pub mod interval;
pub mod surface;
pub mod world;
