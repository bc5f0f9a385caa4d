//! [`RelieveGoal`]: walk beside the nearest toilet and use it.
//!
//! Nothing in hand matters here: a human carrying food to the toilet carries
//! it back out again, and eats it when eating is next in charge.

use vstd::prelude::*;

use crate::brain::goal::GoalProgress;
use crate::brain::goals::visit::{unvisited, used_by, visit_next, visit_planned, Purpose, Visit};
use crate::brain::goals::{GoalCtx, Note};
use crate::brain::task::{Step, TaskResult, Tasks};
use crate::feature::{nearest_of, FeatureKind};
use crate::map::Point;

verus! {

/// What the goal remembers: the toilet it chose, and how many walks there in
/// a row a body has been in the way of. A toilet is never busy — there is no
/// occupancy on a prop, only on the cells beside it.
#[derive(Clone, Copy, PartialEq, Eq, Structural, Debug, Default)]
pub struct RelieveGoal {
    pub visit: Visit,
}

impl RelieveGoal {
    pub open spec fn spec_visit(&self) -> Visit {
        self.visit
    }

    pub open spec fn spec_target(&self) -> Option<Point> {
        self.spec_visit().target
    }

    pub open spec fn spec_retries(&self) -> u8 {
        self.spec_visit().retries
    }

    /// Nothing chosen, nothing tried.
    pub fn new() -> (g: RelieveGoal)
        ensures
            g.spec_visit() == unvisited(),
    {
        RelieveGoal { visit: Visit::new() }
    }

    /// The toilet it chose, if it has.
    pub fn target(&self) -> (t: Option<Point>)
        ensures
            t == self.spec_target(),
    {
        self.visit.target
    }

    /// Start the next one from scratch.
    pub fn forget(&mut self)
        ensures
            final(self).spec_visit() == unvisited(),
    {
        self.visit.forget();
    }

    /// Just put in charge: the half-walked route is gone, the toilet is not.
    pub fn prioritized(&mut self, ctx: &GoalCtx, tasks: &mut Tasks<Step>)
        requires
            ctx.world.wf(),
            old(tasks).wf(),
        ensures
            final(tasks).wf(),
            final(tasks).spec_result() == old(tasks).spec_result(),
            old(self).spec_target() is None ==> *final(self) == *old(self) && final(tasks).view_tasks()
                == old(tasks).view_tasks(),
            old(self).spec_target() is Some ==> {
                let (q, ok) = visit_planned(old(self).spec_visit(), Purpose::Relief, *ctx, old(tasks).view_tasks());
                &&& final(tasks).view_tasks() == q
                &&& final(self).spec_visit() == if ok {
                    Visit { retries: 0, ..old(self).spec_visit() }
                } else {
                    unvisited()
                }
            },
    {
        self.visit.prioritized(Purpose::Relief, ctx, tasks);
    }

    /// Using the toilet empties the bladder, so the routine lets go before
    /// this goal has heard that it is done: it hears here.
    pub fn deprioritized(&mut self, ctx: &GoalCtx, tasks: &Tasks<Step>, notes: &mut Vec<Note>)
        ensures
            tasks.spec_result() == TaskResult::Success ==> (used_by(Purpose::Relief, ctx.finished) matches Some(toilet)
                ==> {
                &&& final(self).spec_visit() == unvisited()
                &&& final(notes)@ == old(notes)@.push(Note::Relieved { uid: ctx.uid, toilet })
            }),
            !(tasks.spec_result() == TaskResult::Success && used_by(Purpose::Relief, ctx.finished) is Some) ==> {
                &&& *final(self) == *old(self)
                &&& final(notes)@ == old(notes)@
            },
    {
        if let Some(toilet) = self.visit.deprioritized(Purpose::Relief, ctx, tasks) {
            notes.push(Note::Relieved { uid: ctx.uid, toilet });
        }
    }

    /// Work on the goal; see [`visit_next`] for what each ending of the last
    /// task leads to. When it has to choose, it goes to the nearest toilet.
    pub fn process(&mut self, ctx: &GoalCtx, tasks: &mut Tasks<Step>, notes: &mut Vec<Note>, last: TaskResult) -> (progress: GoalProgress)
        requires
            ctx.world.wf(),
            old(tasks).wf(),
        ensures
            final(tasks).wf(),
            final(tasks).spec_result() == old(tasks).spec_result(),
            ({
                let choice = nearest_of(*ctx.world.features, FeatureKind::Toilet, ctx.here);
                let (v, q, p, done) = visit_next(old(self).spec_visit(), Purpose::Relief, *ctx, old(tasks).view_tasks(), last, choice);
                &&& final(self).spec_visit() == v
                &&& final(tasks).view_tasks() == q
                &&& progress == p
                &&& final(notes)@ == match done {
                    Some(toilet) => old(notes)@.push(Note::Relieved { uid: ctx.uid, toilet }),
                    None => old(notes)@,
                }
            }),
    {
        let choice = ctx.world.features.nearest(FeatureKind::Toilet, ctx.here);
        let (progress, done) = self.visit.process(Purpose::Relief, ctx, tasks, last, choice);
        if let Some(toilet) = done {
            notes.push(Note::Relieved { uid: ctx.uid, toilet });
        }
        progress
    }
}

} // verus!
