//! The aperture of the camera: a regular polygon, cut into wedges.

use rand::Rng;
use vstd::prelude::*;

verus! {

/// Draws a number below `sides` from the thread's random generator.
///
/// Calls `rand::Rng::sample` with `rand::distributions::Uniform::new(0, sides)`,
/// which panics where `sides` is zero and otherwise samples the half-open
/// range from zero to `sides`. Nothing else is claimed of the outcome. The
/// generator is seeded from the operating system when a thread first uses it;
/// should that fail, the call panics.
#[verifier::external_body]
fn sample_below(sides: u32) -> (segment: u32)
    requires
        sides > 0,
    ensures
        segment < sides,
{
    rand::thread_rng().sample(rand::distributions::Uniform::new(0, sides))
}

/// Picks at random the wedge of a polygonal aperture with `sides` sides in
/// which a lens sample falls. A polygon without sides has no wedge.
pub fn pick_segment(sides: u32) -> (segment: Option<u32>)
    ensures
        sides == 0 <==> segment is None,
        segment matches Some(s) ==> s < sides,
{
    if sides == 0 {
        None
    } else {
        Some(sample_below(sides))
    }
}

} // verus!
