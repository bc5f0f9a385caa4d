//! The routines that arrange a brain's priorities, as far as they are not
//! arithmetic on needs.

use vstd::prelude::*;

verus! {

/// The floor the list rests on: wander, a little, always.
#[derive(Clone, Copy, PartialEq, Eq, Structural, Debug, Default)]
pub struct StayBusyRoutine;

} // verus!
