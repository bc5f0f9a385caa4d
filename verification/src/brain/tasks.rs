//! What each task decides while it runs. A task asks the body for an action
//! — a walk, a use of something, a wait — and reads how that action went;
//! how long an action lasts and how far along it is are the clock's, and
//! whatever the task decides from them is here.

use vstd::prelude::*;

use crate::brain::task::{spec_result_of, ActionState, Step, TaskResult};
use crate::item::ItemKind;
use crate::map::{grid_distance, Point};

verus! {

/// Walk until standing in the middle of `cell`.
#[derive(Clone, Copy, PartialEq, Eq, Structural, Debug)]
pub struct MoveTo {
    pub cell: Point,
}

/// Which action is under way, as far as the task is concerned.
#[derive(Clone, Copy, PartialEq, Eq, Structural, Debug)]
pub enum Doing {
    Nothing,
    Moving,
    Interacting,
    Consuming,
    Waiting,
}

/// What a task asks of the body this tick.
#[derive(Clone, Copy, PartialEq, Eq, Structural, Debug)]
pub enum Order {
    /// Nothing to start: the task has failed.
    Fail,
    /// Start walking a route to `cell`; no route is a failed task.
    WalkTo(Point),
    /// Step into `cell`, the feature's own, to use it from inside.
    Enter(Point),
    /// Start using the feature in `cell`, for as long as the step takes.
    Interact(Point),
    /// Start using up what is in hand.
    Consume,
    /// Start standing still.
    Wait,
    /// Carry on with the action under way, and say how it went.
    Advance,
}

/// What comes of an action that was carried on with, besides the result.
#[derive(Clone, Copy, PartialEq, Eq, Structural, Debug)]
pub enum Outcome {
    Nothing,
    /// Got into the feature in `cell`: now use it.
    Interact(Point),
    /// The toilet was used.
    Relieved,
    /// A stretch was slept.
    Slept,
    /// A go was had on a computer.
    Entertained,
    /// `item` is now in hand.
    Took(ItemKind),
    /// `item` was used up, and the hand is empty.
    Consumed(ItemKind),
}

/// What a task orders, standing at `here`, with `has_body` whether the unit
/// has needs a use could meet, `hand` what it holds (`None` for a kind with
/// no hands at all), and `doing` the action under way. A use of something is
/// from beside it or inside it, and fails from further away; a toilet and a
/// bed are stepped into first.
pub open spec fn order_for(step: Step, here: Point, has_body: bool, hand: Option<Option<ItemKind>>, doing: Doing) -> Order {
    match step {
        Step::MoveTo { cell } => if doing == Doing::Nothing {
            Order::WalkTo(cell)
        } else {
            Order::Advance
        },
        Step::Take { from, item } => if grid_distance(here, from) > 1 || hand is None {
            Order::Fail
        } else if doing == Doing::Nothing {
            if hand->0 is Some {
                Order::Fail
            } else {
                Order::Interact(from)
            }
        } else {
            Order::Advance
        },
        Step::Consume { item } => if hand != Some(Some(item)) || !has_body {
            Order::Fail
        } else if doing == Doing::Nothing {
            Order::Consume
        } else {
            Order::Advance
        },
        Step::UseToilet { toilet } => entered(toilet, here, has_body, doing),
        Step::Sleep { bed } => entered(bed, here, has_body, doing),
        Step::UseComputer { computer } => if grid_distance(here, computer) > 1 || !has_body {
            Order::Fail
        } else if doing == Doing::Nothing {
            Order::Interact(computer)
        } else {
            Order::Advance
        },
        Step::Wait => if doing == Doing::Nothing {
            Order::Wait
        } else {
            Order::Advance
        },
    }
}

/// The cell whose contents a step uses, for a step that uses one.
pub open spec fn used_cell(step: Step) -> Option<Point> {
    match step {
        Step::Take { from, .. } => Some(from),
        Step::UseToilet { toilet } => Some(toilet),
        Step::Sleep { bed } => Some(bed),
        Step::UseComputer { computer } => Some(computer),
        _ => None,
    }
}

/// What a step may order is held to what the body can reach and has:
/// - a step that uses something more than a step away fails without
///   starting, and whatever is used or stepped into is the step's own cell,
///   within a step — and stepped into only from beside it;
/// - a take starts only with an empty hand, and a use only of the step's own
///   item in hand;
/// - a kind with no needs to meet fails every use;
/// - only a walk walks, to its own cell;
/// - with an action under way, a step either fails or carries it on, and
///   with none it never claims to carry one on;
/// - within reach and with what it needs, a step starts: a walk walks, a
///   wait waits, a take or a computer is used from where the unit stands, a
///   toilet or a bed is stepped into and then used, and a held item is used
///   up.
pub proof fn lemma_orders_stay_within_reach(
    step: Step,
    here: Point,
    has_body: bool,
    hand: Option<Option<ItemKind>>,
    doing: Doing,
)
    ensures
        ({
            let o = order_for(step, here, has_body, hand, doing);
            &&& match used_cell(step) {
                Some(c) => grid_distance(here, c) > 1 ==> o == Order::Fail,
                None => true,
            }
            &&& match o {
                Order::Interact(c) => grid_distance(here, c) <= 1 && used_cell(step) == Some(c),
                Order::Enter(c) => grid_distance(here, c) == 1 && used_cell(step) == Some(c),
                Order::WalkTo(c) => step == (Step::MoveTo { cell: c }),
                Order::Consume => step is Consume && hand == Some(Some(step->Consume_item)) && has_body,
                _ => true,
            }
            &&& (step is Take && o !is Fail && doing == Doing::Nothing) ==> hand == Some(None::<ItemKind>)
            &&& (step is Take && hand is None) ==> o == Order::Fail
            &&& (!has_body && (step is Consume || step is UseToilet || step is Sleep || step is UseComputer))
                ==> o == Order::Fail
            &&& doing != Doing::Nothing ==> (o == Order::Fail || o == Order::Advance)
            &&& doing == Doing::Nothing ==> o != Order::Advance
            &&& doing == Doing::Nothing ==> match step {
                Step::MoveTo { cell } => o == Order::WalkTo(cell),
                Step::Wait => o == Order::Wait,
                Step::Take { from, .. } => (grid_distance(here, from) <= 1 && hand == Some(None::<ItemKind>))
                    ==> o == Order::Interact(from),
                Step::Consume { item } => (has_body && hand == Some(Some(item))) ==> o == Order::Consume,
                Step::UseComputer { computer } => (has_body && grid_distance(here, computer) <= 1) ==> o
                    == Order::Interact(computer),
                Step::UseToilet { toilet } => (has_body && grid_distance(here, toilet) <= 1) ==> o == if here
                    == toilet {
                    Order::Interact(toilet)
                } else {
                    Order::Enter(toilet)
                },
                Step::Sleep { bed } => (has_body && grid_distance(here, bed) <= 1) ==> o == if here == bed {
                    Order::Interact(bed)
                } else {
                    Order::Enter(bed)
                },
            }
        }),
{
}

/// What a task says of the action it carried on with: only an action that
/// finished can make it succeed, and then what comes of it is the step's
/// own — the item taken or used up is the step's item, a toilet relieves, a
/// bed rests, a computer entertains; stepping into a toilet or a bed is not
/// yet its use, which starts in that cell. An action still running or
/// failed says so and brings nothing about.
pub proof fn lemma_conclusions_are_the_steps_own(step: Step, doing: Doing, state: ActionState)
    ensures
        ({
            let (r, out) = concluded(step, doing, state);
            &&& state == ActionState::Running ==> r == TaskResult::Executing && out == Outcome::Nothing
            &&& state == ActionState::Failed ==> r == TaskResult::Failed && out == Outcome::Nothing
            &&& r == TaskResult::Success ==> state == ActionState::Finished
            &&& state == ActionState::Finished ==> match step {
                Step::Take { item, .. } => r == TaskResult::Success && out == Outcome::Took(item),
                Step::Consume { item } => r == TaskResult::Success && out == Outcome::Consumed(item),
                Step::UseToilet { toilet } => if doing == Doing::Moving {
                    r == TaskResult::Executing && out == Outcome::Interact(toilet)
                } else {
                    r == TaskResult::Success && out == Outcome::Relieved
                },
                Step::Sleep { bed } => if doing == Doing::Moving {
                    r == TaskResult::Executing && out == Outcome::Interact(bed)
                } else {
                    r == TaskResult::Success && out == Outcome::Slept
                },
                Step::UseComputer { .. } => r == TaskResult::Success && out == Outcome::Entertained,
                _ => r == TaskResult::Success && out == Outcome::Nothing,
            }
        }),
{
}

/// The order for a feature used from inside its own cell.
pub open spec fn entered(cell: Point, here: Point, has_body: bool, doing: Doing) -> Order {
    if grid_distance(here, cell) > 1 || !has_body {
        Order::Fail
    } else if doing == Doing::Nothing {
        if here == cell {
            Order::Interact(cell)
        } else {
            Order::Enter(cell)
        }
    } else {
        Order::Advance
    }
}

/// What the task says after the action under way, `doing`, was carried on
/// with and reached `state`, and what else comes of it.
pub open spec fn concluded(step: Step, doing: Doing, state: ActionState) -> (TaskResult, Outcome) {
    if state != ActionState::Finished {
        (spec_result_of(state), Outcome::Nothing)
    } else {
        match step {
            Step::UseToilet { toilet } => if doing == Doing::Moving {
                (TaskResult::Executing, Outcome::Interact(toilet))
            } else {
                (TaskResult::Success, Outcome::Relieved)
            },
            Step::Sleep { bed } => if doing == Doing::Moving {
                (TaskResult::Executing, Outcome::Interact(bed))
            } else {
                (TaskResult::Success, Outcome::Slept)
            },
            Step::UseComputer { .. } => (TaskResult::Success, Outcome::Entertained),
            Step::Take { item, .. } => (TaskResult::Success, Outcome::Took(item)),
            Step::Consume { item } => (TaskResult::Success, Outcome::Consumed(item)),
            _ => (TaskResult::Success, Outcome::Nothing),
        }
    }
}

/// What the task says on the tick it gave `order`, other than to carry on:
/// failed with nothing started, or with no route to walk; otherwise under
/// way.
pub open spec fn started_with(order: Order, route_found: bool) -> TaskResult {
    match order {
        Order::Fail => TaskResult::Failed,
        Order::WalkTo(_) => if route_found {
            TaskResult::Executing
        } else {
            TaskResult::Failed
        },
        _ => TaskResult::Executing,
    }
}

fn entered_order(cell: Point, here: Point, has_body: bool, doing: Doing) -> (o: Order)
    ensures
        o == entered(cell, here, has_body, doing),
{
    if here.distance(cell) > 1 || !has_body {
        Order::Fail
    } else if doing == Doing::Nothing {
        if here == cell {
            Order::Interact(cell)
        } else {
            Order::Enter(cell)
        }
    } else {
        Order::Advance
    }
}

impl Step {
    /// What this step orders this tick; see [`order_for`].
    pub fn order(self, here: Point, has_body: bool, hand: Option<Option<ItemKind>>, doing: Doing) -> (o: Order)
        ensures
            o == order_for(self, here, has_body, hand, doing),
    {
        match self {
            Step::MoveTo { cell } => if doing == Doing::Nothing {
                Order::WalkTo(cell)
            } else {
                Order::Advance
            },
            Step::Take { from, item } => {
                let held = match hand {
                    None => return Order::Fail,
                    Some(held) => held,
                };
                if here.distance(from) > 1 {
                    Order::Fail
                } else if doing == Doing::Nothing {
                    if held.is_some() {
                        Order::Fail
                    } else {
                        Order::Interact(from)
                    }
                } else {
                    Order::Advance
                }
            },
            Step::Consume { item } => {
                let holding = match hand {
                    Some(Some(held)) => held == item,
                    _ => false,
                };
                if !holding || !has_body {
                    Order::Fail
                } else if doing == Doing::Nothing {
                    Order::Consume
                } else {
                    Order::Advance
                }
            },
            Step::UseToilet { toilet } => entered_order(toilet, here, has_body, doing),
            Step::Sleep { bed } => entered_order(bed, here, has_body, doing),
            Step::UseComputer { computer } => if here.distance(computer) > 1 || !has_body {
                Order::Fail
            } else if doing == Doing::Nothing {
                Order::Interact(computer)
            } else {
                Order::Advance
            },
            Step::Wait => if doing == Doing::Nothing {
                Order::Wait
            } else {
                Order::Advance
            },
        }
    }

    /// What this step says after its action, `doing`, reached `state`; see
    /// [`concluded`].
    pub fn conclude(self, doing: Doing, state: ActionState) -> (r: (TaskResult, Outcome))
        ensures
            r == concluded(self, doing, state),
    {
        if state != ActionState::Finished {
            return (TaskResult::of(state), Outcome::Nothing);
        }
        match self {
            Step::UseToilet { toilet } => if doing == Doing::Moving {
                (TaskResult::Executing, Outcome::Interact(toilet))
            } else {
                (TaskResult::Success, Outcome::Relieved)
            },
            Step::Sleep { bed } => if doing == Doing::Moving {
                (TaskResult::Executing, Outcome::Interact(bed))
            } else {
                (TaskResult::Success, Outcome::Slept)
            },
            Step::UseComputer { .. } => (TaskResult::Success, Outcome::Entertained),
            Step::Take { item, .. } => (TaskResult::Success, Outcome::Took(item)),
            Step::Consume { item } => (TaskResult::Success, Outcome::Consumed(item)),
            _ => (TaskResult::Success, Outcome::Nothing),
        }
    }
}

impl Order {
    /// What the task says on the tick it gave this order, other than
    /// [`Order::Advance`]; see [`started_with`].
    pub fn started(self, route_found: bool) -> (r: TaskResult)
        ensures
            r == started_with(self, route_found),
    {
        match self {
            Order::Fail => TaskResult::Failed,
            Order::WalkTo(_) => if route_found {
                TaskResult::Executing
            } else {
                TaskResult::Failed
            },
            _ => TaskResult::Executing,
        }
    }
}

} // verus!
