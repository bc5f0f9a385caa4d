//! [`PlayGoal`]: walk beside the nearest computer and have a go on it.
//!
//! A computer is used from beside it, so several people can take turns at one
//! desk without any of them standing in its cell, and one somebody else is
//! using is not busy as far as this goal is concerned. Nothing in hand
//! matters here either.

use vstd::prelude::*;

use crate::brain::goal::GoalProgress;
use crate::brain::goals::visit::{unvisited, used_by, visit_next, visit_planned, Purpose, Visit};
use crate::brain::goals::{GoalCtx, Note};
use crate::brain::task::{Step, TaskResult, Tasks};
use crate::feature::{nearest_cell, nearest_in};
use crate::map::Point;

verus! {

/// What the goal remembers: the computer it chose, and how many walks there
/// in a row a body has been in the way of.
#[derive(Clone, Copy, PartialEq, Eq, Structural, Debug, Default)]
pub struct PlayGoal {
    pub visit: Visit,
}

impl PlayGoal {
    pub open spec fn spec_visit(&self) -> Visit {
        self.visit
    }

    pub open spec fn spec_target(&self) -> Option<Point> {
        self.spec_visit().target
    }

    pub open spec fn spec_retries(&self) -> u8 {
        self.spec_visit().retries
    }

    /// Nothing chosen, nothing tried.
    pub fn new() -> (g: PlayGoal)
        ensures
            g.spec_visit() == unvisited(),
    {
        PlayGoal { visit: Visit::new() }
    }

    /// The computer it chose, if it has.
    pub fn target(&self) -> (t: Option<Point>)
        ensures
            t == self.spec_target(),
    {
        self.visit.target
    }

    /// Start the next one from scratch.
    pub fn forget(&mut self)
        ensures
            final(self).spec_visit() == unvisited(),
    {
        self.visit.forget();
    }

    /// Just put in charge: the half-walked route is gone, the computer is not.
    pub fn prioritized(&mut self, ctx: &GoalCtx, tasks: &mut Tasks<Step>)
        requires
            ctx.world.wf(),
            old(tasks).wf(),
        ensures
            final(tasks).wf(),
            final(tasks).spec_result() == old(tasks).spec_result(),
            old(self).spec_target() is None ==> *final(self) == *old(self) && final(tasks).view_tasks()
                == old(tasks).view_tasks(),
            old(self).spec_target() is Some ==> {
                let (q, ok) = visit_planned(old(self).spec_visit(), Purpose::Play, *ctx, old(tasks).view_tasks());
                &&& final(tasks).view_tasks() == q
                &&& final(self).spec_visit() == if ok {
                    Visit { retries: 0, ..old(self).spec_visit() }
                } else {
                    unvisited()
                }
            },
    {
        self.visit.prioritized(Purpose::Play, ctx, tasks);
    }

    /// A go that ends takes boredom away, so the routine lets go before this
    /// goal has heard that it is done: it hears here.
    pub fn deprioritized(&mut self, ctx: &GoalCtx, tasks: &Tasks<Step>, notes: &mut Vec<Note>)
        ensures
            tasks.spec_result() == TaskResult::Success ==> (used_by(Purpose::Play, ctx.finished) matches Some(computer)
                ==> {
                &&& final(self).spec_visit() == unvisited()
                &&& final(notes)@ == old(notes)@.push(Note::Played { uid: ctx.uid, computer })
            }),
            !(tasks.spec_result() == TaskResult::Success && used_by(Purpose::Play, ctx.finished) is Some) ==> {
                &&& *final(self) == *old(self)
                &&& final(notes)@ == old(notes)@
            },
    {
        if let Some(computer) = self.visit.deprioritized(Purpose::Play, ctx, tasks) {
            notes.push(Note::Played { uid: ctx.uid, computer });
        }
    }

    /// Work on the goal; see [`visit_next`] for what each ending of the last
    /// task leads to. When it has to choose, it goes to the computer in
    /// `computers` nearest to where it stands.
    pub fn process(
        &mut self,
        ctx: &GoalCtx,
        tasks: &mut Tasks<Step>,
        notes: &mut Vec<Note>,
        last: TaskResult,
        computers: &Vec<Point>,
    ) -> (progress: GoalProgress)
        requires
            ctx.world.wf(),
            old(tasks).wf(),
        ensures
            final(tasks).wf(),
            final(tasks).spec_result() == old(tasks).spec_result(),
            ({
                let choice = nearest_in(computers@, ctx.here);
                let (v, q, p, done) = visit_next(old(self).spec_visit(), Purpose::Play, *ctx, old(tasks).view_tasks(), last, choice);
                &&& final(self).spec_visit() == v
                &&& final(tasks).view_tasks() == q
                &&& progress == p
                &&& final(notes)@ == match done {
                    Some(computer) => old(notes)@.push(Note::Played { uid: ctx.uid, computer }),
                    None => old(notes)@,
                }
            }),
    {
        let choice = nearest_cell(computers, ctx.here);
        let (progress, done) = self.visit.process(Purpose::Play, ctx, tasks, last, choice);
        if let Some(computer) = done {
            notes.push(Note::Played { uid: ctx.uid, computer });
        }
        progress
    }
}

} // verus!
