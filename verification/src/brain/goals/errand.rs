//! The errand eating and drinking both are: walk beside the nearest fridge,
//! take the item out of it, use it up — finishing first whatever else was in
//! hand, since taking needs an empty hand.

use vstd::prelude::*;

use crate::brain::goal::GoalProgress;
use crate::brain::goals::{
    chosen_stand, lemma_push_all_fits, lemma_stand_unique, push_all, push_steps, stand_beside, GoalCtx, Stand,
    PATIENCE,
};
use crate::brain::task::{Step, TaskResult, Tasks};
use crate::feature::{nearest_of, FeatureKind};
use crate::item::ItemKind;
use crate::map::Point;

verus! {

/// How far an errand has got.
#[derive(Clone, Copy, PartialEq, Eq, Structural, Debug, Default)]
pub enum Phase {
    /// Deciding which fridge.
    #[default]
    Finding,
    /// Using up something else it was holding.
    Clearing,
    /// On the way.
    Walking,
    /// Standing at it, taking the item out.
    Taking,
    /// The item in hand, being used up.
    Using,
}

/// The phase the next queued step puts an errand for `item` at.
pub open spec fn phase_of(item: ItemKind, next: Option<Step>) -> Phase {
    match next {
        Some(Step::Consume { item: i }) => if i == item {
            Phase::Using
        } else {
            Phase::Clearing
        },
        Some(Step::MoveTo { .. }) | Some(Step::Wait) => Phase::Walking,
        Some(Step::Take { .. }) => Phase::Taking,
        _ => Phase::Finding,
    }
}

fn phase_from(item: ItemKind, next: Option<Step>) -> (p: Phase)
    ensures
        p == phase_of(item, next),
{
    match next {
        Some(Step::Consume { item: i }) => if i == item {
            Phase::Using
        } else {
            Phase::Clearing
        },
        Some(Step::MoveTo { .. }) | Some(Step::Wait) => Phase::Walking,
        Some(Step::Take { .. }) => Phase::Taking,
        _ => Phase::Finding,
    }
}

/// The fridge feature an errand for `item` goes to.
pub open spec fn source_of(item: ItemKind) -> FeatureKind {
    match item {
        ItemKind::Food => FeatureKind::Food,
        ItemKind::Water => FeatureKind::Water,
    }
}

/// Whether `finished` is the last step of an errand for `item`: the item
/// used up, not whatever was cleared out of the hand first.
pub open spec fn is_done_by(item: ItemKind, finished: Option<Step>) -> bool {
    finished matches Some(Step::Consume { item: i }) && i == item
}

/// The steps that finish an errand for `item` from what is true now, or
/// `None` when there is nowhere to stand to use the fridge: the item already
/// in hand is used up; otherwise whatever else is held is finished first,
/// then a walk beside the fridge unless already there, the take, and the
/// use.
pub open spec fn errand_steps(
    item: ItemKind,
    held: Option<ItemKind>,
    target: Option<Point>,
    stand: Stand,
) -> Option<Seq<Step>> {
    if held == Some(item) {
        Some(seq![Step::Consume { item }])
    } else {
        match target {
            None => None,
            Some(fridge) => if stand == Stand::Nowhere {
                None
            } else {
                let clear = match held {
                    Some(other) => seq![Step::Consume { item: other }],
                    None => seq![],
                };
                let walk = match stand {
                    Stand::At(cell) => seq![Step::MoveTo { cell }],
                    _ => seq![],
                };
                Some(clear + walk + seq![Step::Take { from: fridge, item }, Step::Consume { item }])
            },
        }
    }
}

/// What is in hand after carrying out `steps`, starting with `hand`: a take
/// fills the hand with its item, a use empties it, anything else leaves it.
pub open spec fn hand_after(hand: Option<ItemKind>, steps: Seq<Step>) -> Option<ItemKind>
    decreases steps.len(),
{
    if steps.len() == 0 {
        hand
    } else {
        match steps.last() {
            Step::Take { item, .. } => Some(item),
            Step::Consume { .. } => None,
            _ => hand_after(hand, steps.drop_last()),
        }
    }
}

/// A planned errand can be carried out with the hand it starts with: every
/// take is made with an empty hand, so whatever else was held is used up
/// first; every use is of what is in hand at that moment; the errand ends
/// by using up `item`, with the hand empty; an item not already in hand is
/// taken from the errand's fridge; and the walk, if any, is to where the
/// unit was told to stand, before the take.
pub proof fn lemma_errand_can_be_carried_out(
    item: ItemKind,
    held: Option<ItemKind>,
    target: Option<Point>,
    stand: Stand,
)
    ensures
        errand_steps(item, held, target, stand) matches Some(q) ==> {
            &&& forall|i: int|
                0 <= i < q.len() && (#[trigger] q[i]) is Take ==> hand_after(held, q.take(i)) is None
            &&& forall|i: int|
                0 <= i < q.len() && (#[trigger] q[i]) is Consume ==> hand_after(held, q.take(i)) == Some(
                    q[i]->Consume_item,
                )
            &&& q.len() > 0
            &&& q.last() == Step::Consume { item }
            &&& hand_after(held, q) is None
            &&& held != Some(item) ==> (target matches Some(fridge) && exists|i: int|
                0 <= i < q.len() && #[trigger] q[i] == (Step::Take { from: fridge, item }))
            &&& held != Some(item) ==> match stand {
                Stand::At(cell) => exists|i: int, j: int|
                    0 <= i < j < q.len() && #[trigger] q[i] == (Step::MoveTo { cell }) && #[trigger] q[j] is Take,
                _ => true,
            }
            &&& stand == Stand::Here ==> forall|i: int| 0 <= i < q.len() ==> !((#[trigger] q[i]) is MoveTo)
        },
{
    reveal_with_fuel(hand_after, 5);
    if let Some(q) = errand_steps(item, held, target, stand) {
        if held == Some(item) {
            assert(q.take(0) =~= Seq::<Step>::empty());
        } else {
            let fridge = target->0;
            let take = Step::Take { from: fridge, item };
            let eat = Step::Consume { item };
            assert(q.take(0) =~= Seq::<Step>::empty());
            match (held, stand) {
                (Some(other), Stand::At(cell)) => {
                    let c = Step::Consume { item: other };
                    let m = Step::MoveTo { cell };
                    assert(q =~= seq![c, m, take, eat]);
                    assert(q.take(1) =~= seq![c]);
                    assert(q.take(2) =~= seq![c, m]);
                    assert(q.take(3) =~= seq![c, m, take]);
                    assert(q.take(3).drop_last() =~= q.take(2));
                    assert(q.take(2).drop_last() =~= q.take(1));
                    assert(q.take(1).drop_last() =~= q.take(0));
                    assert(q.drop_last() =~= q.take(3));
                    assert(q[1] == m && q[2] == take);
                },
                (Some(other), _) => {
                    let c = Step::Consume { item: other };
                    assert(q =~= seq![c, take, eat]);
                    assert(q.take(1) =~= seq![c]);
                    assert(q.take(2) =~= seq![c, take]);
                    assert(q.take(2).drop_last() =~= q.take(1));
                    assert(q.take(1).drop_last() =~= q.take(0));
                    assert(q.drop_last() =~= q.take(2));
                    assert(q[1] == take);
                },
                (None, Stand::At(cell)) => {
                    let m = Step::MoveTo { cell };
                    assert(q =~= seq![m, take, eat]);
                    assert(q.take(1) =~= seq![m]);
                    assert(q.take(2) =~= seq![m, take]);
                    assert(q.take(2).drop_last() =~= q.take(1));
                    assert(q.take(1).drop_last() =~= q.take(0));
                    assert(q.drop_last() =~= q.take(2));
                    assert(q[0] == m && q[1] == take);
                },
                (None, _) => {
                    assert(q =~= seq![take, eat]);
                    assert(q.take(1) =~= seq![take]);
                    assert(q.take(1).drop_last() =~= q.take(0));
                    assert(q.drop_last() =~= q.take(1));
                    assert(q[0] == take);
                },
            }
        }
    }
}

/// An errand: how far along it is, the fridge it chose, and how many walks
/// to it in a row a body has been in the way of.
#[derive(Clone, Copy, PartialEq, Eq, Structural, Debug, Default)]
pub struct Errand {
    pub phase: Phase,
    pub target: Option<Point>,
    pub retries: u8,
}

/// An errand started over from scratch.
pub open spec fn fresh() -> Errand {
    Errand { phase: Phase::Finding, target: None, retries: 0 }
}

/// What planning from `e` leaves: the errand, the queue, and whether there
/// was a plan.
pub open spec fn planned(e: Errand, item: ItemKind, ctx: GoalCtx, q: Seq<Step>) -> (Errand, Seq<Step>, bool) {
    let stand = match e.target {
        Some(f) => chosen_stand(*ctx.world, ctx.here, ctx.uid, f),
        None => Stand::Nowhere,
    };
    match errand_steps(item, ctx.held, e.target, stand) {
        None => (e, q, false),
        Some(steps) => {
            let q2 = push_all(q, steps);
            (Errand { phase: phase_of(item, if q2.len() > 0 { Some(q2[0]) } else { None }), ..e }, q2, true)
        },
    }
}

/// What asking an errand for `item` to work leaves: the errand, the queue,
/// what it says about itself, and the fridge it was done at when it was
/// done just now.
pub open spec fn errand_next(
    e: Errand,
    item: ItemKind,
    ctx: GoalCtx,
    q: Seq<Step>,
    last: TaskResult,
) -> (Errand, Seq<Step>, GoalProgress, Option<Option<Point>>) {
    if !ctx.has_needs || !ctx.has_hands {
        (e, q, GoalProgress::Blocked, None)
    } else if last == TaskResult::Failed && ctx.finished matches Some(Step::MoveTo { .. }) {
        // Somebody in the way: a moment, then the same errand again.
        if ctx.blocked_by is Some && e.retries < PATIENCE && e.target is Some {
            let e1 = Errand { retries: (e.retries + 1) as u8, ..e };
            let (e2, q2, ok) = planned(e1, item, ctx, seq![Step::Wait]);
            if ok {
                (e2, q2, GoalProgress::Working, None)
            } else {
                (fresh(), q2, GoalProgress::Blocked, None)
            }
        } else {
            (fresh(), seq![], GoalProgress::Blocked, None)
        }
    } else if last == TaskResult::Failed {
        (fresh(), seq![], GoalProgress::Working, None)
    } else if last == TaskResult::Success && is_done_by(item, ctx.finished) {
        (fresh(), q, GoalProgress::Achieved, Some(e.target))
    } else {
        let e1 = if last == TaskResult::Success {
            let r = if ctx.finished matches Some(Step::MoveTo { .. }) {
                0u8
            } else {
                e.retries
            };
            Errand { retries: r, phase: phase_of(item, if q.len() > 0 { Some(q[0]) } else { None }), ..e }
        } else {
            e
        };
        if q.len() > 0 {
            (e1, q, GoalProgress::Working, None)
        } else if ctx.held != Some(item) && nearest_of(*ctx.world.features, source_of(item), ctx.here) is None {
            (e1, q, GoalProgress::Blocked, None)
        } else {
            let e2 = if ctx.held != Some(item) {
                Errand { target: nearest_of(*ctx.world.features, source_of(item), ctx.here), ..e1 }
            } else {
                e1
            };
            let (e3, q3, ok) = planned(e2, item, ctx, q);
            if ok {
                (e3, q3, GoalProgress::Working, None)
            } else {
                (fresh(), q3, GoalProgress::Blocked, None)
            }
        }
    }
}

/// A walk to a fridge blocked by a body is retried at most [`PATIENCE`]
/// times in a row: however an errand is asked to work, it never counts more
/// retries than that.
pub proof fn lemma_errand_patience(e: Errand, item: ItemKind, ctx: GoalCtx, q: Seq<Step>, last: TaskResult)
    requires
        e.retries <= PATIENCE,
    ensures
        errand_next(e, item, ctx, q, last).0.retries <= PATIENCE,
{
}

/// How an errand answers, over every way its last task can have ended:
/// - it is achieved exactly when a body with needs and hands has just used
///   up the errand's own item, and only then reports where that happened —
///   the errand's fridge — starting over from scratch with the queue left
///   as it was;
/// - a walk refused by a body, with patience and a fridge left, waits a
///   moment first and counts one more retry;
/// - any other failure that is not of a walk starts over, with nothing
///   queued, and is no reason to hold the goal off.
pub proof fn lemma_errand_answers(e: Errand, item: ItemKind, ctx: GoalCtx, q: Seq<Step>, last: TaskResult)
    ensures
        ({
            let (e2, q2, p, done) = errand_next(e, item, ctx, q, last);
            &&& (p == GoalProgress::Achieved) <==> (ctx.has_needs && ctx.has_hands && last == TaskResult::Success
                && ctx.finished == Some(Step::Consume { item }))
            &&& (done is Some) <==> (p == GoalProgress::Achieved)
            &&& p == GoalProgress::Achieved ==> done == Some(e.target) && e2 == fresh() && q2 == q
            &&& (!ctx.has_needs || !ctx.has_hands) ==> p == GoalProgress::Blocked && e2 == e && q2 == q
            &&& (ctx.has_needs && ctx.has_hands && last == TaskResult::Failed && !(ctx.finished matches Some(
                Step::MoveTo { .. },
            ))) ==> p == GoalProgress::Working && e2 == fresh() && q2.len() == 0
            &&& (ctx.has_needs && ctx.has_hands && last == TaskResult::Failed && (ctx.finished matches Some(
                Step::MoveTo { .. },
            )) && ctx.blocked_by is Some && e.retries < PATIENCE && e.target is Some && p
                == GoalProgress::Working) ==> q2.len() > 0 && q2[0] == Step::Wait && e2.retries == e.retries + 1
        }),
{
    let (e2, q2, p, done) = errand_next(e, item, ctx, q, last);
    if ctx.has_needs && ctx.has_hands && last == TaskResult::Failed && (ctx.finished matches Some(
        Step::MoveTo { .. },
    )) && ctx.blocked_by is Some && e.retries < PATIENCE && e.target is Some && p == GoalProgress::Working {
        let e1 = Errand { retries: (e.retries + 1) as u8, ..e };
        let stand = match e1.target {
            Some(f) => chosen_stand(*ctx.world, ctx.here, ctx.uid, f),
            None => Stand::Nowhere,
        };
        let steps = errand_steps(item, ctx.held, e1.target, stand)->0;
        assert(steps.len() <= 4);
        lemma_push_all_fits(seq![Step::Wait], steps);
        assert((seq![Step::Wait] + steps)[0] == Step::Wait);
    }
}

impl Errand {
    pub fn new() -> (e: Errand)
        ensures
            e == fresh(),
    {
        Errand { phase: Phase::Finding, target: None, retries: 0 }
    }

    pub fn forget(&mut self)
        ensures
            *final(self) == fresh(),
    {
        self.phase = Phase::Finding;
        self.target = None;
        self.retries = 0;
    }

    /// The steps that finish the errand from what is true now, or `None`.
    fn steps(&self, item: ItemKind, ctx: &GoalCtx) -> (r: Option<Vec<Step>>)
        requires
            ctx.world.wf(),
        ensures
            match r {
                Some(v) => errand_steps(item, ctx.held, self.target, self.stand(ctx)) == Some(v@),
                None => errand_steps(item, ctx.held, self.target, self.stand(ctx)) is None,
            },
    {
        let mut steps: Vec<Step> = Vec::new();
        if ctx.held == Some(item) {
            steps.push(Step::Consume { item });
            proof {
                assert(steps@ =~= seq![Step::Consume { item }]);
            }
            return Some(steps);
        }
        let fridge = match self.target {
            Some(f) => f,
            None => return None,
        };
        let stand = stand_beside(ctx.world, ctx.here, ctx.uid, fridge);
        proof {
            lemma_stand_unique(*ctx.world, ctx.here, ctx.uid, fridge, stand);
        }
        if stand == Stand::Nowhere {
            return None;
        }
        match ctx.held {
            Some(other) => steps.push(Step::Consume { item: other }),
            None => {},
        }
        match stand {
            Stand::At(cell) => steps.push(Step::MoveTo { cell }),
            _ => {},
        }
        steps.push(Step::Take { from: fridge, item });
        steps.push(Step::Consume { item });
        proof {
            let clear = match ctx.held {
                Some(other) => seq![Step::Consume { item: other }],
                None => seq![],
            };
            let walk = match stand {
                Stand::At(cell) => seq![Step::MoveTo { cell }],
                _ => seq![],
            };
            assert(steps@ =~= clear + walk + seq![Step::Take { from: fridge, item }, Step::Consume { item }]);
        }
        Some(steps)
    }

    /// Where to stand for the chosen fridge, as the goal sees it now.
    pub open spec fn stand(&self, ctx: &GoalCtx) -> Stand {
        match self.target {
            Some(f) => chosen_stand(*ctx.world, ctx.here, ctx.uid, f),
            None => Stand::Nowhere,
        }
    }

    /// Queue the rest of the errand from what is true now, on the back of
    /// the queue. `false`, with nothing queued, when there is nowhere to
    /// stand to use the fridge.
    pub fn plan(&mut self, item: ItemKind, ctx: &GoalCtx, tasks: &mut Tasks<Step>) -> (ok: bool)
        requires
            ctx.world.wf(),
            old(tasks).wf(),
        ensures
            final(tasks).wf(),
            final(tasks).spec_result() == old(tasks).spec_result(),
            (*final(self), final(tasks).view_tasks(), ok) == planned(*old(self), item, *ctx, old(tasks).view_tasks()),
    {
        match self.steps(item, ctx) {
            None => false,
            Some(steps) => {
                push_steps(tasks, &steps);
                self.phase = phase_from(item, tasks.front());
                true
            },
        }
    }

    /// Work on the errand: see [`errand_next`] for what each ending of the
    /// last task leads to. The second half of the answer is `Some` exactly
    /// when the errand was done just now, and holds the fridge it was done at.
    pub fn process(
        &mut self,
        item: ItemKind,
        ctx: &GoalCtx,
        tasks: &mut Tasks<Step>,
        last: TaskResult,
    ) -> (r: (GoalProgress, Option<Option<Point>>))
        requires
            ctx.world.wf(),
            old(tasks).wf(),
        ensures
            final(tasks).wf(),
            final(tasks).spec_result() == old(tasks).spec_result(),
            (*final(self), final(tasks).view_tasks(), r.0, r.1) == errand_next(
                *old(self),
                item,
                *ctx,
                old(tasks).view_tasks(),
                last,
            ),
    {
        if !ctx.has_needs || !ctx.has_hands {
            return (GoalProgress::Blocked, None);
        }
        let walked = match ctx.finished {
            Some(Step::MoveTo { .. }) => true,
            _ => false,
        };
        if last == TaskResult::Failed && walked {
            tasks.clear();
            if ctx.blocked_by.is_some() && self.retries < PATIENCE && self.target.is_some() {
                self.retries = self.retries + 1;
                let _ = tasks.push_back(Step::Wait);
                proof {
                    assert(tasks.view_tasks() =~= seq![Step::Wait]);
                }
                if self.plan(item, ctx, tasks) {
                    return (GoalProgress::Working, None);
                }
            }
            proof {
                assert(tasks.view_tasks().len() == 0 ==> tasks.view_tasks() =~= Seq::<Step>::empty());
            }
            self.forget();
            return (GoalProgress::Blocked, None);
        }
        if last == TaskResult::Failed {
            tasks.clear();
            proof {
                assert(tasks.view_tasks() =~= Seq::<Step>::empty());
            }
            self.forget();
            return (GoalProgress::Working, None);
        }
        let done = match ctx.finished {
            Some(Step::Consume { item: i }) => i == item,
            _ => false,
        };
        if last == TaskResult::Success && done {
            let target = self.target;
            self.forget();
            return (GoalProgress::Achieved, Some(target));
        }
        if last == TaskResult::Success {
            if walked {
                self.retries = 0;
            }
            self.phase = phase_from(item, tasks.front());
        }
        if !tasks.is_empty() {
            return (GoalProgress::Working, None);
        }
        if ctx.held != Some(item) {
            let kind = match item {
                ItemKind::Food => FeatureKind::Food,
                ItemKind::Water => FeatureKind::Water,
            };
            match ctx.world.features.nearest(kind, ctx.here) {
                None => return (GoalProgress::Blocked, None),
                Some(fridge) => {
                    self.target = Some(fridge);
                },
            }
        }
        if self.plan(item, ctx, tasks) {
            (GoalProgress::Working, None)
        } else {
            self.forget();
            (GoalProgress::Blocked, None)
        }
    }

    /// Just put in charge: what is left of the errand goes back on the
    /// queue, unless there was no errand under way.
    pub fn prioritized(&mut self, item: ItemKind, ctx: &GoalCtx, tasks: &mut Tasks<Step>)
        requires
            ctx.world.wf(),
            old(tasks).wf(),
        ensures
            final(tasks).wf(),
            final(tasks).spec_result() == old(tasks).spec_result(),
            old(self).target is None && ctx.held != Some(item) ==> *final(self) == *old(self)
                && final(tasks).view_tasks() == old(tasks).view_tasks(),
            !(old(self).target is None && ctx.held != Some(item)) ==> {
                let (e, q, ok) = planned(Errand { retries: 0, ..*old(self) }, item, *ctx, old(tasks).view_tasks());
                &&& final(tasks).view_tasks() == q
                &&& *final(self) == if ok { e } else { fresh() }
            },
    {
        if self.target.is_none() && ctx.held != Some(item) {
            return;
        }
        self.retries = 0;
        if !self.plan(item, ctx, tasks) {
            self.forget();
        }
    }

    /// About to stop being in charge: an errand whose last step just
    /// succeeded is heard of here, and started over. `Some` with the fridge
    /// when it was.
    pub fn deprioritized(&mut self, item: ItemKind, ctx: &GoalCtx, tasks: &Tasks<Step>) -> (done: Option<Option<Point>>)
        ensures
            tasks.spec_result() == TaskResult::Success && is_done_by(item, ctx.finished) ==> done == Some(
                old(self).target,
            ) && *final(self) == fresh(),
            !(tasks.spec_result() == TaskResult::Success && is_done_by(item, ctx.finished)) ==> done is None
                && *final(self) == *old(self),
    {
        let done = match ctx.finished {
            Some(Step::Consume { item: i }) => i == item,
            _ => false,
        };
        if tasks.result() == TaskResult::Success && done {
            let target = self.target;
            self.forget();
            Some(target)
        } else {
            None
        }
    }
}

} // verus!
