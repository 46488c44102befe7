//! A verified raster core for a path-tracing renderer: 8-bit RGB pixels,
//! a row-major image buffer, and the plain-text image serialization that
//! the renderer's output format requires.

pub mod digits;
pub mod ppm;
