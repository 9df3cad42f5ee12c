//! The discrete core of a path tracer: where finished pixels land in the
//! output image, which of the intersections along a ray is the nearest, and
//! how long a light path may grow.
//!
//! Distances along a ray are handled as integer keys whose order is the order
//! of the distances they stand for; colours arrive already quantised to bytes.

pub mod integrator;
pub mod intersect;
pub mod key;
pub mod raster;
