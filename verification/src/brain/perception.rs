//! What a unit can see: [`Perception`]. Nothing yet: the pipeline has a step
//! for it, and a named empty reads as a plan.

use vstd::prelude::*;

verus! {

/// What a unit can currently see.
#[derive(Clone, Copy, PartialEq, Eq, Structural, Debug, Default)]
pub struct Perception;

} // verus!
