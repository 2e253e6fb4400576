use vstd::prelude::*;

verus! {

/// Bounces after which a light path is given up as black.
pub const MAX_DEPTH: usize = 50;

/// What became of a ray sent into the scene.
#[derive(Clone, Copy, Debug, PartialEq, Eq, Structural)]
pub enum Bounce {
    /// It hit nothing.
    Missed,
    /// It hit a surface that absorbed it.
    Absorbed,
    /// It hit a surface that sent it on.
    Scattered,
}

/// How a light path goes on after a bounce.
#[derive(Clone, Copy, Debug, PartialEq, Eq, Structural)]
pub enum PathStep {
    /// Follow the scattered ray.
    Continue,
    /// Stop with the background seen along the ray, times the attenuation so far.
    Background,
    /// Stop with black.
    Black,
}

pub open spec fn spec_next_step(depth: nat, bounce: Bounce) -> PathStep {
    match bounce {
        Bounce::Missed => PathStep::Background,
        Bounce::Absorbed => PathStep::Black,
        Bounce::Scattered => if depth + 1 < MAX_DEPTH {
            PathStep::Continue
        } else {
            PathStep::Black
        },
    }
}

/// The decision after the ray of bounce number `depth` (from 0) was sent: a
/// miss shows the background, an absorption ends in black, and a scattered
/// ray is followed unless it would be bounce number `MAX_DEPTH`, where the
/// path ends in black.
pub fn next_step(depth: usize, bounce: Bounce) -> (r: PathStep)
    requires
        depth < MAX_DEPTH,
    ensures
        r == spec_next_step(depth as nat, bounce),
{
    match bounce {
        Bounce::Missed => PathStep::Background,
        Bounce::Absorbed => PathStep::Black,
        Bounce::Scattered => if depth + 1 < MAX_DEPTH {
            PathStep::Continue
        } else {
            PathStep::Black
        },
    }
}

} // verus!
