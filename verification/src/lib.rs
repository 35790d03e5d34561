//! Core of a small CPU ray tracer: the discrete parts of the rendering
//! pipeline that can be stated and proved exactly — pixel-grid storage and
//! traversal, the generic matrix container with its entry-moving
//! operations (transpose, submatrix), byte-per-channel colors, PPM text
//! assembly, and command-line configuration. The floating-point geometry
//! (tuple algebra, matrix arithmetic, rays, shading) lives in the
//! surrounding application, which instantiates and feeds the types defined
//! here.

pub mod canvas;
pub mod color;
pub mod config;
pub mod matrices;
pub mod ppm;
