//! The visit the toilet, the computer and the bed all are: walk beside the
//! thing unless already there, and use it. What each goal adds is which thing
//! it goes to and what it says when it is done.

use vstd::prelude::*;

use crate::brain::goal::GoalProgress;
use crate::brain::goals::{
    chosen_stand, lemma_push_all_fits, lemma_stand_unique, push_all, push_steps, stand_beside, GoalCtx, Stand,
    PATIENCE,
};
use crate::brain::task::{Step, TaskResult, Tasks};
use crate::map::Point;

verus! {

/// What a visit is for, which is what the last step of it does.
#[derive(Clone, Copy, PartialEq, Eq, Structural, Debug)]
pub enum Purpose {
    /// Use a toilet.
    Relief,
    /// Have a go on a computer.
    Play,
    /// Sleep a stretch in a bed.
    Rest,
}

/// The step that uses the thing in `at`.
pub open spec fn use_step(purpose: Purpose, at: Point) -> Step {
    match purpose {
        Purpose::Relief => Step::UseToilet { toilet: at },
        Purpose::Play => Step::UseComputer { computer: at },
        Purpose::Rest => Step::Sleep { bed: at },
    }
}

fn make_use_step(purpose: Purpose, at: Point) -> (s: Step)
    ensures
        s == use_step(purpose, at),
{
    match purpose {
        Purpose::Relief => Step::UseToilet { toilet: at },
        Purpose::Play => Step::UseComputer { computer: at },
        Purpose::Rest => Step::Sleep { bed: at },
    }
}

/// The cell of the thing used, when `finished` is the use a visit for
/// `purpose` ends with.
pub open spec fn used_by(purpose: Purpose, finished: Option<Step>) -> Option<Point> {
    match (purpose, finished) {
        (Purpose::Relief, Some(Step::UseToilet { toilet })) => Some(toilet),
        (Purpose::Play, Some(Step::UseComputer { computer })) => Some(computer),
        (Purpose::Rest, Some(Step::Sleep { bed })) => Some(bed),
        _ => None,
    }
}

fn used(purpose: Purpose, finished: Option<Step>) -> (at: Option<Point>)
    ensures
        at == used_by(purpose, finished),
{
    match (purpose, finished) {
        (Purpose::Relief, Some(Step::UseToilet { toilet })) => Some(toilet),
        (Purpose::Play, Some(Step::UseComputer { computer })) => Some(computer),
        (Purpose::Rest, Some(Step::Sleep { bed })) => Some(bed),
        _ => None,
    }
}

/// Whether a failure of `finished` is one a moving body may have caused: the
/// walk there, and for a bed getting into it, which somebody already lying
/// in it refuses.
pub open spec fn body_may_move(purpose: Purpose, finished: Option<Step>) -> bool {
    ||| finished matches Some(Step::MoveTo { .. })
    ||| purpose == Purpose::Rest && finished matches Some(Step::Sleep { .. })
}

/// The steps that finish a visit from what is true now, or `None` when there
/// is nothing chosen or nowhere to stand: walk beside the thing unless
/// already there, then use it.
pub open spec fn visit_steps(purpose: Purpose, target: Option<Point>, stand: Stand) -> Option<Seq<Step>> {
    match target {
        None => None,
        Some(at) => match stand {
            Stand::Nowhere => None,
            Stand::Here => Some(seq![use_step(purpose, at)]),
            Stand::At(cell) => Some(seq![Step::MoveTo { cell }, use_step(purpose, at)]),
        },
    }
}

/// A visit: the thing chosen, and how many walks to it in a row a body has
/// been in the way of.
#[derive(Clone, Copy, PartialEq, Eq, Structural, Debug, Default)]
pub struct Visit {
    pub target: Option<Point>,
    pub retries: u8,
}

/// A visit started over from scratch.
pub open spec fn unvisited() -> Visit {
    Visit { target: None, retries: 0 }
}

/// Where to stand for what `v` has chosen, as the goal sees it now.
pub open spec fn visit_stand(v: Visit, ctx: GoalCtx) -> Stand {
    match v.target {
        Some(at) => chosen_stand(*ctx.world, ctx.here, ctx.uid, at),
        None => Stand::Nowhere,
    }
}

/// What planning `v` onto the queue `q` leaves: the queue, and whether there
/// was a plan.
pub open spec fn visit_planned(v: Visit, purpose: Purpose, ctx: GoalCtx, q: Seq<Step>) -> (Seq<Step>, bool) {
    match visit_steps(purpose, v.target, visit_stand(v, ctx)) {
        None => (q, false),
        Some(steps) => (push_all(q, steps), true),
    }
}

/// What asking a visit to work leaves: the visit, the queue, what it says
/// about itself, and the cell of the thing used when it was used just now.
/// `choice` is what the goal would go to if it had to choose afresh.
pub open spec fn visit_next(
    v: Visit,
    purpose: Purpose,
    ctx: GoalCtx,
    q: Seq<Step>,
    last: TaskResult,
    choice: Option<Point>,
) -> (Visit, Seq<Step>, GoalProgress, Option<Point>) {
    if !ctx.has_needs {
        (v, q, GoalProgress::Blocked, None)
    } else if last == TaskResult::Failed && body_may_move(purpose, ctx.finished) {
        // Somebody in the way: a moment, then the same visit again.
        if ctx.blocked_by is Some && v.retries < PATIENCE && v.target is Some {
            let v1 = Visit { retries: (v.retries + 1) as u8, ..v };
            let (q2, ok) = visit_planned(v1, purpose, ctx, seq![Step::Wait]);
            if ok {
                (v1, q2, GoalProgress::Working, None)
            } else {
                (unvisited(), q2, GoalProgress::Blocked, None)
            }
        } else {
            (unvisited(), seq![], GoalProgress::Blocked, None)
        }
    } else if last == TaskResult::Failed {
        (unvisited(), seq![], GoalProgress::Working, None)
    } else if last == TaskResult::Success && used_by(purpose, ctx.finished) is Some {
        (unvisited(), q, GoalProgress::Achieved, used_by(purpose, ctx.finished))
    } else {
        let v1 = if last == TaskResult::Success && ctx.finished matches Some(Step::MoveTo { .. }) {
            Visit { retries: 0, ..v }
        } else {
            v
        };
        if q.len() > 0 {
            (v1, q, GoalProgress::Working, None)
        } else if choice is None {
            (v1, q, GoalProgress::Blocked, None)
        } else {
            let v2 = Visit { target: choice, ..v1 };
            let (q3, ok) = visit_planned(v2, purpose, ctx, q);
            if ok {
                (v2, q3, GoalProgress::Working, None)
            } else {
                (unvisited(), q3, GoalProgress::Blocked, None)
            }
        }
    }
}

/// A walk blocked by a body is retried at most [`PATIENCE`] times in a row:
/// however a visit is asked to work, it never counts more retries than that.
pub proof fn lemma_visit_patience(
    v: Visit,
    purpose: Purpose,
    ctx: GoalCtx,
    q: Seq<Step>,
    last: TaskResult,
    choice: Option<Point>,
)
    requires
        v.retries <= PATIENCE,
    ensures
        visit_next(v, purpose, ctx, q, last, choice).0.retries <= PATIENCE,
{
}

/// A planned visit ends by using the thing chosen, for what the visit is
/// for; it walks only when told where to stand, to that cell, first.
pub proof fn lemma_visit_uses_its_target(purpose: Purpose, target: Option<Point>, stand: Stand)
    ensures
        visit_steps(purpose, target, stand) matches Some(q) ==> {
            &&& q.len() > 0
            &&& target is Some
            &&& used_by(purpose, Some(q.last())) == target
            &&& match stand {
                Stand::At(cell) => q == seq![Step::MoveTo { cell }, q.last()],
                _ => q == seq![q.last()],
            }
        },
        (target is None || stand == Stand::Nowhere) <==> visit_steps(purpose, target, stand) is None,
{
}

/// How a visit answers, over every way its last task can have ended:
/// - it is achieved exactly when a body with needs has just used the thing,
///   for what the visit is for, and then reports that thing's cell and
///   starts over, with the queue left as it was;
/// - a kind with no needs is held off, and nothing changes;
/// - a failure that no moving body could have caused starts over with
///   nothing queued, and is no reason to hold the goal off;
/// - a walk refused by a body, with patience and a target left, waits a
///   moment first and counts one more retry.
pub proof fn lemma_visit_answers(
    v: Visit,
    purpose: Purpose,
    ctx: GoalCtx,
    q: Seq<Step>,
    last: TaskResult,
    choice: Option<Point>,
)
    ensures
        ({
            let (v2, q2, p, done) = visit_next(v, purpose, ctx, q, last, choice);
            &&& (p == GoalProgress::Achieved) <==> (ctx.has_needs && last == TaskResult::Success && used_by(
                purpose,
                ctx.finished,
            ) is Some)
            &&& p == GoalProgress::Achieved ==> done == used_by(purpose, ctx.finished) && v2 == unvisited() && q2 == q
            &&& p != GoalProgress::Achieved ==> done is None
            &&& !ctx.has_needs ==> p == GoalProgress::Blocked && v2 == v && q2 == q
            &&& (ctx.has_needs && last == TaskResult::Failed && !body_may_move(purpose, ctx.finished)) ==> p
                == GoalProgress::Working && v2 == unvisited() && q2.len() == 0
            &&& (ctx.has_needs && last == TaskResult::Failed && body_may_move(purpose, ctx.finished)
                && ctx.blocked_by is Some && v.retries < PATIENCE && v.target is Some && p
                == GoalProgress::Working) ==> q2.len() > 0 && q2[0] == Step::Wait && v2.retries == v.retries + 1
        }),
{
    let (v2, q2, p, done) = visit_next(v, purpose, ctx, q, last, choice);
    if ctx.has_needs && last == TaskResult::Failed && body_may_move(purpose, ctx.finished) && ctx.blocked_by is Some
        && v.retries < PATIENCE && v.target is Some && p == GoalProgress::Working {
        let v1 = Visit { retries: (v.retries + 1) as u8, ..v };
        let steps = visit_steps(purpose, v1.target, visit_stand(v1, ctx))->0;
        lemma_push_all_fits(seq![Step::Wait], steps);
        assert((seq![Step::Wait] + steps)[0] == Step::Wait);
    }
}

impl Visit {
    pub fn new() -> (v: Visit)
        ensures
            v == unvisited(),
    {
        Visit { target: None, retries: 0 }
    }

    pub fn forget(&mut self)
        ensures
            *final(self) == unvisited(),
    {
        self.target = None;
        self.retries = 0;
    }

    /// The steps that finish the visit from what is true now, or `None`.
    fn steps(&self, purpose: Purpose, ctx: &GoalCtx) -> (r: Option<Vec<Step>>)
        requires
            ctx.world.wf(),
        ensures
            match r {
                Some(s) => visit_steps(purpose, self.target, visit_stand(*self, *ctx)) == Some(s@),
                None => visit_steps(purpose, self.target, visit_stand(*self, *ctx)) is None,
            },
    {
        let at = match self.target {
            Some(at) => at,
            None => return None,
        };
        let stand = stand_beside(ctx.world, ctx.here, ctx.uid, at);
        proof {
            lemma_stand_unique(*ctx.world, ctx.here, ctx.uid, at, stand);
        }
        let mut steps: Vec<Step> = Vec::new();
        match stand {
            Stand::Nowhere => return None,
            Stand::Here => {},
            Stand::At(cell) => steps.push(Step::MoveTo { cell }),
        }
        steps.push(make_use_step(purpose, at));
        proof {
            match stand {
                Stand::At(cell) => assert(steps@ =~= seq![Step::MoveTo { cell }, use_step(purpose, at)]),
                _ => assert(steps@ =~= seq![use_step(purpose, at)]),
            }
        }
        Some(steps)
    }

    /// Queue the rest of the visit from what is true now, on the back of the
    /// queue. `false`, with nothing queued, when there is nothing chosen or
    /// nowhere to stand to use it.
    pub fn plan(&self, purpose: Purpose, ctx: &GoalCtx, tasks: &mut Tasks<Step>) -> (ok: bool)
        requires
            ctx.world.wf(),
            old(tasks).wf(),
        ensures
            final(tasks).wf(),
            final(tasks).spec_result() == old(tasks).spec_result(),
            (final(tasks).view_tasks(), ok) == visit_planned(*self, purpose, *ctx, old(tasks).view_tasks()),
    {
        match self.steps(purpose, ctx) {
            None => false,
            Some(steps) => {
                push_steps(tasks, &steps);
                true
            },
        }
    }

    /// Work on the visit: see [`visit_next`] for what each ending of the last
    /// task leads to. The second half of the answer is the cell of the thing
    /// used, when it was used just now.
    pub fn process(
        &mut self,
        purpose: Purpose,
        ctx: &GoalCtx,
        tasks: &mut Tasks<Step>,
        last: TaskResult,
        choice: Option<Point>,
    ) -> (r: (GoalProgress, Option<Point>))
        requires
            ctx.world.wf(),
            old(tasks).wf(),
        ensures
            final(tasks).wf(),
            final(tasks).spec_result() == old(tasks).spec_result(),
            (*final(self), final(tasks).view_tasks(), r.0, r.1) == visit_next(
                *old(self),
                purpose,
                *ctx,
                old(tasks).view_tasks(),
                last,
                choice,
            ),
    {
        if !ctx.has_needs {
            return (GoalProgress::Blocked, None);
        }
        let walked = match ctx.finished {
            Some(Step::MoveTo { .. }) => true,
            _ => false,
        };
        let moved = walked || match (purpose, ctx.finished) {
            (Purpose::Rest, Some(Step::Sleep { .. })) => true,
            _ => false,
        };
        if last == TaskResult::Failed && moved {
            tasks.clear();
            if ctx.blocked_by.is_some() && self.retries < PATIENCE && self.target.is_some() {
                self.retries = self.retries + 1;
                let _ = tasks.push_back(Step::Wait);
                proof {
                    assert(tasks.view_tasks() =~= seq![Step::Wait]);
                }
                if self.plan(purpose, ctx, tasks) {
                    return (GoalProgress::Working, None);
                }
            }
            proof {
                assert(tasks.view_tasks().len() == 0 ==> tasks.view_tasks() =~= Seq::<Step>::empty());
            }
            self.forget();
            return (GoalProgress::Blocked, None);
        }
        if last == TaskResult::Failed {
            tasks.clear();
            proof {
                assert(tasks.view_tasks() =~= Seq::<Step>::empty());
            }
            self.forget();
            return (GoalProgress::Working, None);
        }
        let done = used(purpose, ctx.finished);
        if last == TaskResult::Success && done.is_some() {
            self.forget();
            return (GoalProgress::Achieved, done);
        }
        if last == TaskResult::Success && walked {
            self.retries = 0;
        }
        if !tasks.is_empty() {
            return (GoalProgress::Working, None);
        }
        match choice {
            None => (GoalProgress::Blocked, None),
            Some(_) => {
                self.target = choice;
                if self.plan(purpose, ctx, tasks) {
                    (GoalProgress::Working, None)
                } else {
                    self.forget();
                    (GoalProgress::Blocked, None)
                }
            },
        }
    }

    /// Just put in charge: the half-walked route is gone, the thing chosen
    /// is not, so what is left goes back on the queue — unless nothing was
    /// chosen.
    pub fn prioritized(&mut self, purpose: Purpose, ctx: &GoalCtx, tasks: &mut Tasks<Step>)
        requires
            ctx.world.wf(),
            old(tasks).wf(),
        ensures
            final(tasks).wf(),
            final(tasks).spec_result() == old(tasks).spec_result(),
            old(self).target is None ==> *final(self) == *old(self) && final(tasks).view_tasks()
                == old(tasks).view_tasks(),
            old(self).target is Some ==> {
                let (q, ok) = visit_planned(*old(self), purpose, *ctx, old(tasks).view_tasks());
                &&& final(tasks).view_tasks() == q
                &&& *final(self) == if ok {
                    Visit { retries: 0, ..*old(self) }
                } else {
                    unvisited()
                }
            },
    {
        if self.target.is_none() {
            return;
        }
        self.retries = 0;
        if !self.plan(purpose, ctx, tasks) {
            self.forget();
        }
    }

    /// About to stop being in charge: a use that just succeeded is heard of
    /// here, and the visit started over. `Some` with the cell of the thing
    /// used when it was.
    pub fn deprioritized(&mut self, purpose: Purpose, ctx: &GoalCtx, tasks: &Tasks<Step>) -> (done: Option<Point>)
        ensures
            tasks.spec_result() == TaskResult::Success && used_by(purpose, ctx.finished) is Some ==> done
                == used_by(purpose, ctx.finished) && *final(self) == unvisited(),
            !(tasks.spec_result() == TaskResult::Success && used_by(purpose, ctx.finished) is Some) ==> done
                is None && *final(self) == *old(self),
    {
        let done = used(purpose, ctx.finished);
        if tasks.result() == TaskResult::Success && done.is_some() {
            self.forget();
            done
        } else {
            None
        }
    }
}

} // verus!
