use vstd::prelude::*;

verus! {

/// What a traced ray met.
#[derive(Debug, PartialEq, Eq, Structural, Clone, Copy)]
pub enum Bounce {
    /// Nothing in the scene: the ray sees the background.
    Miss,
    /// A surface whose material declines to scatter: only its emission counts.
    Absorbed,
    /// A surface whose material scattered the ray on.
    Scattered,
}

/// How the radiance estimate along one ray is formed.
#[derive(Debug, PartialEq, Eq, Structural, Clone, Copy)]
pub enum Step {
    /// No light: the depth budget is spent.
    Black,
    /// The background colour.
    Background,
    /// The emitted radiance of the surface alone.
    Emitted,
    /// The emitted radiance plus the attenuation times the estimate along the
    /// scattered ray, taken with budget `depth_budget`.
    EmittedPlusScattered { depth_budget: u32 },
}

/// The step for a ray traced with `depth_budget` that met `bounce`.
pub open spec fn step_of(depth_budget: u32, bounce: Bounce) -> Step {
    if depth_budget == 0 {
        Step::Black
    } else {
        match bounce {
            Bounce::Miss => Step::Background,
            Bounce::Absorbed => Step::Emitted,
            Bounce::Scattered => Step::EmittedPlusScattered { depth_budget: (depth_budget - 1) as u32 },
        }
    }
}

/// Whether a ray with this budget is traced at all: with no budget left the
/// estimate is black whatever the scene holds.
pub fn needs_trace(depth_budget: u32) -> (r: bool)
    ensures
        r == (depth_budget > 0),
        !r ==> forall|b: Bounce| step_of(depth_budget, b) == Step::Black,
{
    depth_budget > 0
}

/// The step of the estimator for a ray traced with `depth_budget` that met
/// `bounce`. A scattered ray continues with one unit of budget less, so the
/// recursion ends after at most `depth_budget` scatterings.
pub fn estimate_step(depth_budget: u32, bounce: Bounce) -> (r: Step)
    ensures
        r == step_of(depth_budget, bounce),
        depth_budget == 0 ==> r == Step::Black,
        r matches Step::EmittedPlusScattered { depth_budget: d } ==> d < depth_budget,
{
    if depth_budget == 0 {
        Step::Black
    } else {
        match bounce {
            Bounce::Miss => Step::Background,
            Bounce::Absorbed => Step::Emitted,
            Bounce::Scattered => Step::EmittedPlusScattered { depth_budget: depth_budget - 1 },
        }
    }
}

} // verus!
