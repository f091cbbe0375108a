//! The branch that the radiance integrator takes for one ray.

use vstd::prelude::*;

verus! {

/// What becomes of a ray.
#[derive(Debug)]
pub enum Step<T> {
    /// The recursion limit is reached: the ray contributes black, and the
    /// scene is not asked.
    Exhausted,
    /// The ray hits nothing: it sees the background.
    Escaped,
    /// The ray hits a surface that scatters nothing: it contributes black.
    Absorbed,
    /// The ray hits a surface that scatters it. Each scattered ray is
    /// followed with the remaining depth, and the ray contributes the
    /// arithmetic mean of what they bring back.
    Scattered { scatters: Vec<T>, depth: usize },
}

/// The step that belongs to a depth and to what the scene answered: `None`
/// for a miss, else what the surface scattered.
pub open spec fn step_of<T>(depth: usize, answer: Option<Vec<T>>, step: Step<T>) -> bool {
    match answer {
        None => step is Escaped,
        Some(scatters) => if scatters@.len() == 0 {
            step is Absorbed
        } else {
            step == (Step::Scattered { scatters, depth: (depth - 1) as usize })
        },
    }
}

/// Decides what becomes of a ray that may still be followed `depth` times.
///
/// `trace` asks the scene: it answers `None` where the ray hits nothing, and
/// otherwise with what the surface at the nearest hit scatters. It is called
/// once where `depth` is positive, and not at all where it is zero.
pub fn step<T, F: FnOnce() -> Option<Vec<T>>>(depth: usize, trace: F) -> (step: Step<T>)
    requires
        depth > 0 ==> call_requires(trace, ()),
    ensures
        depth == 0 ==> step is Exhausted,
        depth > 0 ==> exists|answer: Option<Vec<T>>|
            call_ensures(trace, (), answer) && #[trigger] step_of(depth, answer, step),
{
    if depth == 0 {
        return Step::Exhausted;
    }
    let answer = trace();
    let ghost witness = answer;
    let step = match answer {
        None => Step::Escaped,
        Some(scatters) => if scatters.len() == 0 {
            Step::Absorbed
        } else {
            Step::Scattered { scatters, depth: depth - 1 }
        },
    };
    assert(step_of(depth, witness, step));
    step
}

} // verus!
