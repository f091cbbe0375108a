//! Verified core of a small path tracer.
//!
//! The verifier reasons about integers and sequences, so this crate holds the
//! discrete half of the renderer: the raster that receives the result, the
//! order in which the render loop fills it, the choice of the nearest hit among
//! candidate distances, the branch taken by the radiance integrator, the choice
//! of an aperture wedge, and the text form of a finished image. Distances
//! cross the boundary as IEEE-754 binary32 bit patterns.

pub mod camera;
pub mod image;
pub mod integrator;
pub mod ppm;
pub mod render;
pub mod scene;

pub use image::Image;
pub use ppm::write_pgm;
pub use render::render;
