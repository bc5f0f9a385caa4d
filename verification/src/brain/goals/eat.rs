//! [`EatGoal`]: Eat something: walk beside the fridge, take food out of it, eat it.

use vstd::prelude::*;

use crate::brain::goal::GoalProgress;
use crate::brain::goals::errand::{errand_next, fresh, is_done_by, planned, Errand, Phase};
use crate::brain::goals::{GoalCtx, Note};
use crate::brain::task::{Step, TaskResult, Tasks};
use crate::item::ItemKind;
use crate::map::Point;

verus! {

/// Where it has got to, for a debugger — the queue is what it actually is.
#[derive(Clone, Copy, PartialEq, Eq, Structural, Debug, Default)]
pub enum Stage {
    /// Deciding which fridge.
    #[default]
    Finding,
    /// Using up something else it was holding, which is in the way of taking.
    Clearing,
    /// On the way to it.
    Walking,
    /// Standing at it, taking something out.
    Taking,
    /// In hand, being used up.
    Eating,
}

pub open spec fn spec_stage_name(stage: Stage) -> Seq<char> {
    match stage {
        Stage::Finding => seq!['f', 'i', 'n', 'd', 'i', 'n', 'g'],
        Stage::Clearing => seq!['c', 'l', 'e', 'a', 'r', 'i', 'n', 'g', ' ', 'i', 't', 's', ' ', 'h', 'a', 'n', 'd'],
        Stage::Walking => seq!['w', 'a', 'l', 'k', 'i', 'n', 'g'],
        Stage::Taking => seq!['t', 'a', 'k', 'i', 'n', 'g'],
        Stage::Eating => seq!['e', 'a', 't', 'i', 'n', 'g'],
    }
}

impl Stage {
    pub fn name(self) -> (s: &'static str)
        ensures
            s@ == spec_stage_name(self),
    {
        match self {
            Stage::Finding => {
                proof {
                    reveal_strlit("finding");
                }
                "finding"
            },
            Stage::Clearing => {
                proof {
                    reveal_strlit("clearing its hand");
                }
                "clearing its hand"
            },
            Stage::Walking => {
                proof {
                    reveal_strlit("walking");
                }
                "walking"
            },
            Stage::Taking => {
                proof {
                    reveal_strlit("taking");
                }
                "taking"
            },
            Stage::Eating => {
                proof {
                    reveal_strlit("eating");
                }
                "eating"
            },
        }
    }
}

/// The stage an errand's phase reads as.
pub open spec fn stage_of_phase(p: Phase) -> Stage {
    match p {
        Phase::Finding => Stage::Finding,
        Phase::Clearing => Stage::Clearing,
        Phase::Walking => Stage::Walking,
        Phase::Taking => Stage::Taking,
        Phase::Using => Stage::Eating,
    }
}

/// What the goal remembers: the errand under way — how far along, the fridge
/// it chose, and how many walks to it in a row a body has been in the way of.
#[derive(Clone, Copy, PartialEq, Eq, Structural, Debug, Default)]
pub struct EatGoal {
    pub errand: Errand,
}

impl EatGoal {
    pub open spec fn spec_errand(&self) -> Errand {
        self.errand
    }

    pub open spec fn spec_stage(&self) -> Stage {
        stage_of_phase(self.spec_errand().phase)
    }

    pub open spec fn spec_target(&self) -> Option<Point> {
        self.spec_errand().target
    }

    pub open spec fn spec_retries(&self) -> u8 {
        self.spec_errand().retries
    }

    /// Nothing chosen, nothing tried.
    pub fn new() -> (g: EatGoal)
        ensures
            g.spec_errand() == fresh(),
    {
        EatGoal { errand: Errand::new() }
    }

    pub fn stage(&self) -> (s: Stage)
        ensures
            s == self.spec_stage(),
    {
        match self.errand.phase {
            Phase::Finding => Stage::Finding,
            Phase::Clearing => Stage::Clearing,
            Phase::Walking => Stage::Walking,
            Phase::Taking => Stage::Taking,
            Phase::Using => Stage::Eating,
        }
    }

    /// The fridge it chose, if it has.
    pub fn target(&self) -> (t: Option<Point>)
        ensures
            t == self.spec_target(),
    {
        self.errand.target
    }

    /// Start the next one from scratch.
    pub fn forget(&mut self)
        ensures
            final(self).spec_errand() == fresh(),
    {
        self.errand.forget();
    }

    /// Just put in charge: the half-walked route is gone, the fridge is
    /// not, so what is left goes back on the queue.
    pub fn prioritized(&mut self, ctx: &GoalCtx, tasks: &mut Tasks<Step>)
        requires
            ctx.world.wf(),
            old(tasks).wf(),
        ensures
            final(tasks).wf(),
            final(tasks).spec_result() == old(tasks).spec_result(),
            old(self).spec_target() is None && ctx.held != Some(ItemKind::Food) ==> *final(self) == *old(self)
                && final(tasks).view_tasks() == old(tasks).view_tasks(),
            !(old(self).spec_target() is None && ctx.held != Some(ItemKind::Food)) ==> {
                let (e, q, ok) = planned(Errand { retries: 0, ..old(self).spec_errand() }, ItemKind::Food, *ctx, old(tasks).view_tasks());
                &&& final(tasks).view_tasks() == q
                &&& final(self).spec_errand() == if ok { e } else { fresh() }
            },
    {
        self.errand.prioritized(ItemKind::Food, ctx, tasks);
    }

    /// About to stop being in charge: the last step usually takes the need
    /// away and the routine lets go before this goal hears the errand is
    /// over, so it hears here.
    pub fn deprioritized(&mut self, ctx: &GoalCtx, tasks: &Tasks<Step>, notes: &mut Vec<Note>)
        ensures
            tasks.spec_result() == TaskResult::Success && is_done_by(ItemKind::Food, ctx.finished) ==> {
                &&& final(self).spec_errand() == fresh()
                &&& final(notes)@ == old(notes)@.push(Note::Ate { uid: ctx.uid, fridge: old(self).spec_target() })
            },
            !(tasks.spec_result() == TaskResult::Success && is_done_by(ItemKind::Food, ctx.finished)) ==> {
                &&& *final(self) == *old(self)
                &&& final(notes)@ == old(notes)@
            },
    {
        if let Some(fridge) = self.errand.deprioritized(ItemKind::Food, ctx, tasks) {
            notes.push(Note::Ate { uid: ctx.uid, fridge });
        }
    }

    /// Work on the goal; see [`errand_next`] for what each ending of the last
    /// task leads to. The errand being done is noted with the fridge it was
    /// done at.
    pub fn process(&mut self, ctx: &GoalCtx, tasks: &mut Tasks<Step>, notes: &mut Vec<Note>, last: TaskResult) -> (progress: GoalProgress)
        requires
            ctx.world.wf(),
            old(tasks).wf(),
        ensures
            final(tasks).wf(),
            final(tasks).spec_result() == old(tasks).spec_result(),
            ({
                let (e, q, p, done) = errand_next(old(self).spec_errand(), ItemKind::Food, *ctx, old(tasks).view_tasks(), last);
                &&& final(self).spec_errand() == e
                &&& final(tasks).view_tasks() == q
                &&& progress == p
                &&& final(notes)@ == match done {
                    Some(fridge) => old(notes)@.push(Note::Ate { uid: ctx.uid, fridge }),
                    None => old(notes)@,
                }
            }),
    {
        let (progress, done) = self.errand.process(ItemKind::Food, ctx, tasks, last);
        if let Some(fridge) = done {
            notes.push(Note::Ate { uid: ctx.uid, fridge });
        }
        progress
    }
}

} // verus!
