//! The integer side of a Monte Carlo path tracer: the pixel buffer and its encoding as
//! a BMP file, the plain-text pixel line, the assembly of rendered scanlines into an
//! image (top row first), progress display helpers, and the reader for the ASCII STL
//! mesh format. The floating-point rendering itself is done by the caller.
use vstd::prelude::*;

pub mod bitmap;
pub mod colour;
pub mod render;
pub mod stl;
pub mod util;

verus! {

} // verus!
