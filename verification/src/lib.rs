//! A coordinate-transform decorator for pixel-addressable drawing surfaces.
//!
//! The decorator wraps a drawing surface and remaps the coordinates of every
//! drawing operation according to a fixed combination of three boolean axes:
//! mirror-X, mirror-Y and transpose. The three steps are always applied in
//! that order. Compositions of the three axes yield all multiples of a
//! 90-degree rotation.

pub mod geometry;
pub mod surface;
pub mod transform;
