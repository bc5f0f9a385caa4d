//! The pipeline a brain runs every tick, with the priority list's numbers
//! left to whoever keeps them: [`Mind`].
//!
//! ```text
//! 1. every cooldown ticks down               Mind::tick
//! 2. the routines arrange the list, and the best goal is picked from it
//! 3. if the goal on top changed: the old one is put down, the task under
//!      way is abandoned, the queue cleared, and the new one picked up
//! 4. only if the goal changed or no task is current: the goal in charge is
//!      asked to work, told how the last task went, and held off if it found
//!      itself impossible
//! 5. the current task is the one under way, or the front of the queue     Mind::react
//! 6. the task runs, and its result is written down                         Mind::record
//! ```
//!
//! A goal hears how a task went on the tick after it ended: the task ends in
//! step 6, the next tick nothing is current, so step 4 asks the goal before
//! step 5 starts anything else.

use vstd::prelude::*;

use crate::brain::goal::{blocked_from, progressed_from, Backoff, GoalId, GoalProgress};
use crate::brain::goals::drink::DrinkGoal;
use crate::brain::goals::eat::EatGoal;
use crate::brain::goals::errand::{errand_next, fresh, is_done_by, planned, Errand};
use crate::brain::goals::play::PlayGoal;
use crate::brain::goals::relieve::RelieveGoal;
use crate::brain::goals::sleep::{bed_for, free_beds, SleepGoal};
use crate::brain::goals::visit::{unvisited, used_by, visit_next, visit_planned, Purpose, Visit};
use crate::brain::goals::wander::{is_rolled_pick, lemma_nothing_is_a_rolled_pick, wander_next, WanderGoal, WANDER_RADIUS};
use crate::brain::goals::{GoalCtx, Note, Surroundings};
use crate::brain::task::{Step, TaskResult, Tasks, CAPACITY};
use crate::feature::{nearest_in, nearest_of, FeatureKind};
use crate::item::ItemKind;
use crate::map::{grid_distance, Point};
use crate::uid::Uid;

verus! {

/// The executor of each goal a brain can pursue, `None` for one it cannot.
/// Owned for the unit's whole life, which is how an executor keeps what it
/// was doing across being put down.
#[derive(Clone, Copy, PartialEq, Eq, Structural, Debug)]
pub struct Executors {
    pub wander: Option<WanderGoal>,
    pub eat: Option<EatGoal>,
    pub drink: Option<DrinkGoal>,
    pub relieve: Option<RelieveGoal>,
    pub play: Option<PlayGoal>,
    pub sleep: Option<SleepGoal>,
}

/// What the goals that use a thing need to know besides the world: where
/// the computers and the beds are, which bed is the unit's own, and whether
/// it is too tired to go on.
#[derive(Clone, Copy)]
pub struct Amenities<'a> {
    pub computers: &'a Vec<Point>,
    pub beds: &'a Vec<Point>,
    pub home: Option<Point>,
    pub critical: bool,
}

/// The bed a sleeper would go to if it had to choose now, with `roll` the
/// place among the free beds that chance picked.
pub open spec fn bed_choice(ctx: GoalCtx, amen: Amenities, roll: int) -> Option<Point> {
    bed_for(*ctx.world, ctx.here, ctx.uid, amen.beds@, amen.home, amen.critical, roll)
}

/// A place among the free beds that chance can pick: one of them, or the
/// first when there are none.
pub open spec fn is_bed_roll(ctx: GoalCtx, amen: Amenities, roll: int) -> bool {
    roll == 0 || 0 <= roll < free_beds(*ctx.world, ctx.uid, amen.beds@).len()
}

/// Whether `e` can pursue `goal`.
pub open spec fn can_pursue(e: Executors, goal: GoalId) -> bool {
    match goal {
        GoalId::Idle => false,
        GoalId::Wander => e.wander is Some,
        GoalId::Eat => e.eat is Some,
        GoalId::Drink => e.drink is Some,
        GoalId::Relieve => e.relieve is Some,
        GoalId::Play => e.play is Some,
        GoalId::Sleep => e.sleep is Some,
    }
}

/// What putting `goal` down leaves: the executors, and the notes with
/// anything it heard of just in time. Eating, drinking and the toilet end by
/// taking the need away, so the goal is put down on the very tick its last
/// task succeeded, and hears of it here.
pub open spec fn put_down(
    e: Executors,
    goal: GoalId,
    ctx: GoalCtx,
    result: TaskResult,
    notes: Seq<Note>,
) -> (Executors, Seq<Note>) {
    match goal {
        GoalId::Eat => match e.eat {
            Some(x) => if result == TaskResult::Success && is_done_by(ItemKind::Food, ctx.finished) {
                (
                    Executors { eat: Some(EatGoal { errand: fresh() }), ..e },
                    notes.push(Note::Ate { uid: ctx.uid, fridge: x.errand.target }),
                )
            } else {
                (e, notes)
            },
            None => (e, notes),
        },
        GoalId::Drink => match e.drink {
            Some(x) => if result == TaskResult::Success && is_done_by(ItemKind::Water, ctx.finished) {
                (
                    Executors { drink: Some(DrinkGoal { errand: fresh() }), ..e },
                    notes.push(Note::Drank { uid: ctx.uid, fridge: x.errand.target }),
                )
            } else {
                (e, notes)
            },
            None => (e, notes),
        },
        GoalId::Relieve => match e.relieve {
            Some(x) => if result == TaskResult::Success && used_by(Purpose::Relief, ctx.finished) is Some {
                (
                    Executors { relieve: Some(RelieveGoal { visit: unvisited() }), ..e },
                    notes.push(Note::Relieved { uid: ctx.uid, toilet: used_by(Purpose::Relief, ctx.finished)->0 }),
                )
            } else {
                (e, notes)
            },
            None => (e, notes),
        },
        GoalId::Play => match e.play {
            Some(x) => if result == TaskResult::Success && used_by(Purpose::Play, ctx.finished) is Some {
                (
                    Executors { play: Some(PlayGoal { visit: unvisited() }), ..e },
                    notes.push(Note::Played { uid: ctx.uid, computer: used_by(Purpose::Play, ctx.finished)->0 }),
                )
            } else {
                (e, notes)
            },
            None => (e, notes),
        },
        GoalId::Sleep => match e.sleep {
            Some(x) => if result == TaskResult::Success && used_by(Purpose::Rest, ctx.finished) is Some {
                (
                    Executors { sleep: Some(SleepGoal { visit: unvisited() }), ..e },
                    notes.push(Note::Slept { uid: ctx.uid, bed: used_by(Purpose::Rest, ctx.finished)->0 }),
                )
            } else {
                (e, notes)
            },
            None => (e, notes),
        },
        _ => (e, notes),
    }
}

/// A goal put down on the tick its last task succeeded hears of that task:
/// a meal eaten, a drink drunk, a toilet, a computer or a bed used is noted,
/// once, with where it happened, and the goal starts over from scratch while
/// every other executor is left as it was. A goal put down while its task
/// had not succeeded notes nothing and keeps what it was doing.
pub proof fn lemma_put_down_hears_of_success(
    e: Executors,
    goal: GoalId,
    ctx: GoalCtx,
    result: TaskResult,
    notes: Seq<Note>,
)
    ensures
        ({
            let (e2, n2) = put_down(e, goal, ctx, result, notes);
            &&& result != TaskResult::Success ==> e2 == e && n2 == notes
            &&& n2 == notes || (n2.len() == notes.len() + 1 && n2.take(notes.len() as int) == notes)
            &&& (goal == GoalId::Eat && result == TaskResult::Success && ctx.finished == Some(
                Step::Consume { item: ItemKind::Food },
            )) ==> match e.eat {
                Some(x) => {
                    &&& n2 == notes.push(Note::Ate { uid: ctx.uid, fridge: x.errand.target })
                    &&& e2 == Executors { eat: Some(EatGoal { errand: fresh() }), ..e }
                },
                None => e2 == e && n2 == notes,
            }
            &&& (goal == GoalId::Drink && result == TaskResult::Success && ctx.finished == Some(
                Step::Consume { item: ItemKind::Water },
            )) ==> match e.drink {
                Some(x) => {
                    &&& n2 == notes.push(Note::Drank { uid: ctx.uid, fridge: x.errand.target })
                    &&& e2 == Executors { drink: Some(DrinkGoal { errand: fresh() }), ..e }
                },
                None => e2 == e && n2 == notes,
            }
            &&& (goal == GoalId::Relieve && result == TaskResult::Success && e.relieve is Some) ==> match ctx.finished {
                Some(Step::UseToilet { toilet }) => {
                    &&& n2 == notes.push(Note::Relieved { uid: ctx.uid, toilet })
                    &&& e2 == Executors { relieve: Some(RelieveGoal { visit: unvisited() }), ..e }
                },
                _ => e2 == e && n2 == notes,
            }
            &&& (goal == GoalId::Play && result == TaskResult::Success && e.play is Some) ==> match ctx.finished {
                Some(Step::UseComputer { computer }) => {
                    &&& n2 == notes.push(Note::Played { uid: ctx.uid, computer })
                    &&& e2 == Executors { play: Some(PlayGoal { visit: unvisited() }), ..e }
                },
                _ => e2 == e && n2 == notes,
            }
            &&& (goal == GoalId::Sleep && result == TaskResult::Success && e.sleep is Some) ==> match ctx.finished {
                Some(Step::Sleep { bed }) => {
                    &&& n2 == notes.push(Note::Slept { uid: ctx.uid, bed })
                    &&& e2 == Executors { sleep: Some(SleepGoal { visit: unvisited() }), ..e }
                },
                _ => e2 == e && n2 == notes,
            }
            &&& (goal == GoalId::Idle || goal == GoalId::Wander) ==> e2 == e && n2 == notes
        }),
{
    let (e2, n2) = put_down(e, goal, ctx, result, notes);
    if n2 != notes {
        assert(n2.take(notes.len() as int) =~= notes);
    }
}

/// What picking `goal` up leaves: the executors, and the queue `q` with what
/// is left of its errand back on it.
pub open spec fn picked_up(e: Executors, goal: GoalId, ctx: GoalCtx, q: Seq<Step>) -> (Executors, Seq<Step>) {
    match goal {
        GoalId::Wander => match e.wander {
            Some(w) => if w.target is Some && grid_distance(ctx.here, w.target->0) <= 2 * WANDER_RADIUS {
                (
                    e,
                    if q.len() < CAPACITY {
                        seq![Step::MoveTo { cell: w.target->0 }] + q
                    } else {
                        q
                    },
                )
            } else {
                (Executors { wander: Some(WanderGoal { target: None, retries: 0 }), ..e }, q)
            },
            None => (e, q),
        },
        GoalId::Eat => match e.eat {
            Some(x) => if x.errand.target is None && ctx.held != Some(ItemKind::Food) {
                (e, q)
            } else {
                let (er, q2, ok) = planned(Errand { retries: 0, ..x.errand }, ItemKind::Food, ctx, q);
                (Executors { eat: Some(EatGoal { errand: if ok { er } else { fresh() } }), ..e }, q2)
            },
            None => (e, q),
        },
        GoalId::Drink => match e.drink {
            Some(x) => if x.errand.target is None && ctx.held != Some(ItemKind::Water) {
                (e, q)
            } else {
                let (er, q2, ok) = planned(Errand { retries: 0, ..x.errand }, ItemKind::Water, ctx, q);
                (Executors { drink: Some(DrinkGoal { errand: if ok { er } else { fresh() } }), ..e }, q2)
            },
            None => (e, q),
        },
        GoalId::Relieve => match e.relieve {
            Some(x) => if x.visit.target is None {
                (e, q)
            } else {
                let (q2, ok) = visit_planned(x.visit, Purpose::Relief, ctx, q);
                (
                    Executors {
                        relieve: Some(RelieveGoal { visit: if ok { Visit { retries: 0, ..x.visit } } else { unvisited() } }),
                        ..e
                    },
                    q2,
                )
            },
            None => (e, q),
        },
        GoalId::Play => match e.play {
            Some(x) => if x.visit.target is None {
                (e, q)
            } else {
                let (q2, ok) = visit_planned(x.visit, Purpose::Play, ctx, q);
                (
                    Executors {
                        play: Some(PlayGoal { visit: if ok { Visit { retries: 0, ..x.visit } } else { unvisited() } }),
                        ..e
                    },
                    q2,
                )
            },
            None => (e, q),
        },
        GoalId::Sleep => match e.sleep {
            Some(x) => if x.visit.target is None {
                (e, q)
            } else {
                let (q2, ok) = visit_planned(x.visit, Purpose::Rest, ctx, q);
                (
                    Executors {
                        sleep: Some(SleepGoal { visit: if ok { Visit { retries: 0, ..x.visit } } else { unvisited() } }),
                        ..e
                    },
                    q2,
                )
            },
            None => (e, q),
        },
        GoalId::Idle => (e, q),
    }
}

/// What asking `goal` to work leaves: the executors, the queue, what it said
/// about itself (`None` when nothing pursues it), and the notes. `pick` is
/// the cell a wanderer would set off for if it had to choose, and `roll` the
/// place among the free beds a sleeper's chance would pick.
pub open spec fn worked(
    e: Executors,
    goal: GoalId,
    ctx: GoalCtx,
    amen: Amenities,
    q: Seq<Step>,
    last: TaskResult,
    notes: Seq<Note>,
    pick: Option<Point>,
    roll: int,
) -> (Executors, Seq<Step>, Option<GoalProgress>, Seq<Note>) {
    match goal {
        GoalId::Wander => match e.wander {
            Some(w) => {
                let (t, r, q2, p, stuck) = wander_next(w.target, w.retries, ctx, q, last, pick);
                (
                    Executors { wander: Some(WanderGoal { target: t, retries: r }), ..e },
                    q2,
                    Some(p),
                    if stuck {
                        notes.push(Note::NowhereToGo { uid: ctx.uid })
                    } else {
                        notes
                    },
                )
            },
            None => (e, q, None, notes),
        },
        GoalId::Eat => match e.eat {
            Some(x) => {
                let (er, q2, p, done) = errand_next(x.errand, ItemKind::Food, ctx, q, last);
                (
                    Executors { eat: Some(EatGoal { errand: er }), ..e },
                    q2,
                    Some(p),
                    match done {
                        Some(fridge) => notes.push(Note::Ate { uid: ctx.uid, fridge }),
                        None => notes,
                    },
                )
            },
            None => (e, q, None, notes),
        },
        GoalId::Drink => match e.drink {
            Some(x) => {
                let (er, q2, p, done) = errand_next(x.errand, ItemKind::Water, ctx, q, last);
                (
                    Executors { drink: Some(DrinkGoal { errand: er }), ..e },
                    q2,
                    Some(p),
                    match done {
                        Some(fridge) => notes.push(Note::Drank { uid: ctx.uid, fridge }),
                        None => notes,
                    },
                )
            },
            None => (e, q, None, notes),
        },
        GoalId::Relieve => match e.relieve {
            Some(x) => {
                let choice = nearest_of(*ctx.world.features, FeatureKind::Toilet, ctx.here);
                let (v, q2, p, done) = visit_next(x.visit, Purpose::Relief, ctx, q, last, choice);
                (
                    Executors { relieve: Some(RelieveGoal { visit: v }), ..e },
                    q2,
                    Some(p),
                    match done {
                        Some(toilet) => notes.push(Note::Relieved { uid: ctx.uid, toilet }),
                        None => notes,
                    },
                )
            },
            None => (e, q, None, notes),
        },
        GoalId::Play => match e.play {
            Some(x) => {
                let choice = nearest_in(amen.computers@, ctx.here);
                let (v, q2, p, done) = visit_next(x.visit, Purpose::Play, ctx, q, last, choice);
                (
                    Executors { play: Some(PlayGoal { visit: v }), ..e },
                    q2,
                    Some(p),
                    match done {
                        Some(computer) => notes.push(Note::Played { uid: ctx.uid, computer }),
                        None => notes,
                    },
                )
            },
            None => (e, q, None, notes),
        },
        GoalId::Sleep => match e.sleep {
            Some(x) => {
                let (v, q2, p, done) = visit_next(x.visit, Purpose::Rest, ctx, q, last, bed_choice(ctx, amen, roll));
                (
                    Executors { sleep: Some(SleepGoal { visit: v }), ..e },
                    q2,
                    Some(p),
                    match done {
                        Some(bed) => notes.push(Note::Slept { uid: ctx.uid, bed }),
                        None => notes,
                    },
                )
            },
            None => (e, q, None, notes),
        },
        GoalId::Idle => (e, q, None, notes),
    }
}

/// A person can pursue every goal there is but idling, which nothing
/// pursues; a dog only wandering.
pub proof fn lemma_who_pursues_what(goal: GoalId)
    ensures
        can_pursue(Executors::human_spec(), goal) <==> goal != GoalId::Idle,
        can_pursue(Executors::dog_spec(), goal) <==> goal == GoalId::Wander,
{
}

impl Executors {
    pub open spec fn human_spec() -> Executors {
        Executors {
            wander: Some(WanderGoal { target: None, retries: 0 }),
            eat: Some(EatGoal { errand: fresh() }),
            drink: Some(DrinkGoal { errand: fresh() }),
            relieve: Some(RelieveGoal { visit: unvisited() }),
            play: Some(PlayGoal { visit: unvisited() }),
            sleep: Some(SleepGoal { visit: unvisited() }),
        }
    }

    pub open spec fn dog_spec() -> Executors {
        Executors {
            wander: Some(WanderGoal { target: None, retries: 0 }),
            eat: None,
            drink: None,
            relieve: None,
            play: None,
            sleep: None,
        }
    }

    /// A person's: wander, eat, drink, use the toilet, have a go on a
    /// computer, sleep in a bed.
    pub fn human() -> (e: Executors)
        ensures
            e == Executors::human_spec(),
    {
        Executors {
            wander: Some(WanderGoal::new()),
            eat: Some(EatGoal::new()),
            drink: Some(DrinkGoal::new()),
            relieve: Some(RelieveGoal::new()),
            play: Some(PlayGoal::new()),
            sleep: Some(SleepGoal::new()),
        }
    }

    /// A dog's: wander, and nothing else.
    pub fn dog() -> (e: Executors)
        ensures
            e == Executors::dog_spec(),
    {
        Executors { wander: Some(WanderGoal::new()), eat: None, drink: None, relieve: None, play: None, sleep: None }
    }

    pub fn can_pursue(&self, goal: GoalId) -> (b: bool)
        ensures
            b == can_pursue(*self, goal),
    {
        match goal {
            GoalId::Idle => false,
            GoalId::Wander => self.wander.is_some(),
            GoalId::Eat => self.eat.is_some(),
            GoalId::Drink => self.drink.is_some(),
            GoalId::Relieve => self.relieve.is_some(),
            GoalId::Play => self.play.is_some(),
            GoalId::Sleep => self.sleep.is_some(),
        }
    }

    /// Put `goal` down; see [`put_down`].
    pub fn deprioritized(&mut self, goal: GoalId, ctx: &GoalCtx, tasks: &Tasks<Step>, notes: &mut Vec<Note>)
        ensures
            (*final(self), final(notes)@) == put_down(*old(self), goal, *ctx, tasks.spec_result(), old(notes)@),
    {
        match goal {
            GoalId::Eat => {
                if let Some(mut x) = self.eat {
                    x.deprioritized(ctx, tasks, notes);
                    self.eat = Some(x);
                }
            },
            GoalId::Drink => {
                if let Some(mut x) = self.drink {
                    x.deprioritized(ctx, tasks, notes);
                    self.drink = Some(x);
                }
            },
            GoalId::Relieve => {
                if let Some(mut x) = self.relieve {
                    x.deprioritized(ctx, tasks, notes);
                    self.relieve = Some(x);
                }
            },
            GoalId::Play => {
                if let Some(mut x) = self.play {
                    x.deprioritized(ctx, tasks, notes);
                    self.play = Some(x);
                }
            },
            GoalId::Sleep => {
                if let Some(mut x) = self.sleep {
                    x.deprioritized(ctx, tasks, notes);
                    self.sleep = Some(x);
                }
            },
            _ => {},
        }
    }

    /// Pick `goal` up; see [`picked_up`].
    pub fn prioritized(&mut self, goal: GoalId, ctx: &GoalCtx, tasks: &mut Tasks<Step>)
        requires
            ctx.world.wf(),
            old(tasks).wf(),
        ensures
            final(tasks).wf(),
            final(tasks).spec_result() == old(tasks).spec_result(),
            (*final(self), final(tasks).view_tasks()) == picked_up(*old(self), goal, *ctx, old(tasks).view_tasks()),
    {
        match goal {
            GoalId::Wander => {
                if let Some(mut x) = self.wander {
                    x.prioritized(ctx, tasks);
                    self.wander = Some(x);
                }
            },
            GoalId::Eat => {
                if let Some(mut x) = self.eat {
                    x.prioritized(ctx, tasks);
                    self.eat = Some(x);
                }
            },
            GoalId::Drink => {
                if let Some(mut x) = self.drink {
                    x.prioritized(ctx, tasks);
                    self.drink = Some(x);
                }
            },
            GoalId::Relieve => {
                if let Some(mut x) = self.relieve {
                    x.prioritized(ctx, tasks);
                    self.relieve = Some(x);
                }
            },
            GoalId::Play => {
                if let Some(mut x) = self.play {
                    x.prioritized(ctx, tasks);
                    self.play = Some(x);
                }
            },
            GoalId::Sleep => {
                if let Some(mut x) = self.sleep {
                    x.prioritized(ctx, tasks);
                    self.sleep = Some(x);
                }
            },
            GoalId::Idle => {},
        }
    }

    /// Ask `goal` to work; see [`worked`]. Whichever cell chance has a
    /// wanderer pick, it is one [`is_rolled_pick`] allows; whichever place
    /// among the free beds it has a sleeper pick, it is one [`is_bed_roll`]
    /// allows.
    pub fn process(
        &mut self,
        goal: GoalId,
        ctx: &GoalCtx,
        amen: &Amenities,
        tasks: &mut Tasks<Step>,
        notes: &mut Vec<Note>,
        last: TaskResult,
    ) -> (progress: Option<GoalProgress>)
        requires
            ctx.world.wf(),
            old(tasks).wf(),
        ensures
            final(tasks).wf(),
            final(tasks).spec_result() == old(tasks).spec_result(),
            exists|pick: Option<Point>, roll: int|
                #![trigger worked(*old(self), goal, *ctx, *amen, old(tasks).view_tasks(), last, old(notes)@, pick, roll)]
                {
                    &&& is_rolled_pick(*ctx.world.map, ctx.here, pick)
                    &&& is_bed_roll(*ctx, *amen, roll)
                    &&& (*final(self), final(tasks).view_tasks(), progress, final(notes)@) == worked(
                        *old(self),
                        goal,
                        *ctx,
                        *amen,
                        old(tasks).view_tasks(),
                        last,
                        old(notes)@,
                        pick,
                        roll,
                    )
                },
    {
        proof {
            lemma_nothing_is_a_rolled_pick(*ctx.world.map, ctx.here);
        }
        match goal {
            GoalId::Wander => {
                if let Some(mut x) = self.wander {
                    let ghost w0 = x;
                    let p = x.process(ctx, tasks, notes, last);
                    self.wander = Some(x);
                    proof {
                        let pick = choose|pick: Option<Point>|
                            {
                                let (t, r, q, pp, stuck) = #[trigger] wander_next(
                                    w0.spec_target(),
                                    w0.spec_retries(),
                                    *ctx,
                                    old(tasks).view_tasks(),
                                    last,
                                    pick,
                                );
                                &&& is_rolled_pick(*ctx.world.map, ctx.here, pick)
                                &&& x.spec_target() == t
                                &&& x.spec_retries() == r
                                &&& tasks.view_tasks() == q
                                &&& p == pp
                                &&& notes@ == if stuck {
                                    old(notes)@.push(Note::NowhereToGo { uid: ctx.uid })
                                } else {
                                    old(notes)@
                                }
                            };
                        assert(is_bed_roll(*ctx, *amen, 0));
                        assert(worked(*old(self), goal, *ctx, *amen, old(tasks).view_tasks(), last, old(notes)@, pick, 0)
                            == (*self, tasks.view_tasks(), Some(p), notes@));
                    }
                    return Some(p);
                }
                proof {
                    assert(is_bed_roll(*ctx, *amen, 0));
                    assert(worked(*old(self), goal, *ctx, *amen, old(tasks).view_tasks(), last, old(notes)@, None, 0)
                        == (*self, tasks.view_tasks(), None::<GoalProgress>, notes@));
                }
                None
            },
            GoalId::Eat => {
                let r = if let Some(mut x) = self.eat {
                    let p = x.process(ctx, tasks, notes, last);
                    self.eat = Some(x);
                    Some(p)
                } else {
                    None
                };
                proof {
                    assert(is_bed_roll(*ctx, *amen, 0));
                    assert(worked(*old(self), goal, *ctx, *amen, old(tasks).view_tasks(), last, old(notes)@, None, 0)
                        == (*self, tasks.view_tasks(), r, notes@));
                }
                r
            },
            GoalId::Drink => {
                let r = if let Some(mut x) = self.drink {
                    let p = x.process(ctx, tasks, notes, last);
                    self.drink = Some(x);
                    Some(p)
                } else {
                    None
                };
                proof {
                    assert(is_bed_roll(*ctx, *amen, 0));
                    assert(worked(*old(self), goal, *ctx, *amen, old(tasks).view_tasks(), last, old(notes)@, None, 0)
                        == (*self, tasks.view_tasks(), r, notes@));
                }
                r
            },
            GoalId::Relieve => {
                let r = if let Some(mut x) = self.relieve {
                    let p = x.process(ctx, tasks, notes, last);
                    self.relieve = Some(x);
                    Some(p)
                } else {
                    None
                };
                proof {
                    assert(is_bed_roll(*ctx, *amen, 0));
                    assert(worked(*old(self), goal, *ctx, *amen, old(tasks).view_tasks(), last, old(notes)@, None, 0)
                        == (*self, tasks.view_tasks(), r, notes@));
                }
                r
            },
            GoalId::Play => {
                let r = if let Some(mut x) = self.play {
                    let p = x.process(ctx, tasks, notes, last, amen.computers);
                    self.play = Some(x);
                    Some(p)
                } else {
                    None
                };
                proof {
                    assert(is_bed_roll(*ctx, *amen, 0));
                    assert(worked(*old(self), goal, *ctx, *amen, old(tasks).view_tasks(), last, old(notes)@, None, 0)
                        == (*self, tasks.view_tasks(), r, notes@));
                }
                r
            },
            GoalId::Sleep => {
                if let Some(mut x) = self.sleep {
                    let ghost x0 = x;
                    let p = x.process(ctx, tasks, notes, last, amen.beds, amen.home, amen.critical);
                    self.sleep = Some(x);
                    proof {
                        let roll = choose|roll: int|
                            {
                                let choice = #[trigger] bed_for(*ctx.world, ctx.here, ctx.uid, amen.beds@, amen.home, amen.critical, roll);
                                let (v, q, pp, done) = visit_next(x0.spec_visit(), Purpose::Rest, *ctx, old(tasks).view_tasks(), last, choice);
                                &&& roll == 0 || 0 <= roll < free_beds(*ctx.world, ctx.uid, amen.beds@).len()
                                &&& x.spec_visit() == v
                                &&& tasks.view_tasks() == q
                                &&& p == pp
                                &&& notes@ == match done {
                                    Some(bed) => old(notes)@.push(Note::Slept { uid: ctx.uid, bed }),
                                    None => old(notes)@,
                                }
                            };
                        assert(is_bed_roll(*ctx, *amen, roll));
                        assert(worked(*old(self), goal, *ctx, *amen, old(tasks).view_tasks(), last, old(notes)@, None, roll)
                            == (*self, tasks.view_tasks(), Some(p), notes@));
                    }
                    return Some(p);
                }
                proof {
                    assert(is_bed_roll(*ctx, *amen, 0));
                    assert(worked(*old(self), goal, *ctx, *amen, old(tasks).view_tasks(), last, old(notes)@, None, 0)
                        == (*self, tasks.view_tasks(), None::<GoalProgress>, notes@));
                }
                None
            },
            GoalId::Idle => {
                proof {
                    assert(is_bed_roll(*ctx, *amen, 0));
                    assert(worked(*old(self), goal, *ctx, *amen, old(tasks).view_tasks(), last, old(notes)@, None, 0)
                        == (*self, tasks.view_tasks(), None::<GoalProgress>, notes@));
                }
                None
            },
        }
    }
}


/// What a mind senses of itself and its surroundings while it decides: the
/// world, where it stands, who it is, whether it has needs and hands, what
/// it holds, where the computers and the beds are, and whether it is too
/// tired to go on.
#[derive(Clone, Copy)]
pub struct Senses<'a> {
    pub world: &'a Surroundings<'a>,
    pub here: Point,
    pub uid: Uid,
    pub has_needs: bool,
    pub has_hands: bool,
    pub held: Option<ItemKind>,
    pub computers: &'a Vec<Point>,
    pub beds: &'a Vec<Point>,
    pub critical: bool,
}

/// What the goals that use a thing are shown: the computers, the beds and
/// the tiredness sensed, and the bed the mind remembers as its own.
pub open spec fn amenities_of<'a>(senses: Senses<'a>, home: Option<Point>) -> Amenities<'a> {
    Amenities { computers: senses.computers, beds: senses.beds, home, critical: senses.critical }
}

/// What a goal is shown: the senses, who refused the move that ended the
/// last task, and which task that was.
pub open spec fn ctx_of<'a>(senses: Senses<'a>, blocked_by: Option<Uid>, finished: Option<Step>) -> GoalCtx<'a> {
    GoalCtx {
        world: senses.world,
        here: senses.here,
        uid: senses.uid,
        has_needs: senses.has_needs,
        has_hands: senses.has_hands,
        held: senses.held,
        blocked_by,
        finished,
    }
}

/// A mind, but for its hold-offs: the goal in charge, the executors, the
/// queue and what its last task wrote, the task under way, the task that
/// ended since the goal was last asked and who refused it, how the last
/// task to end went, and the bed it remembers as its own.
pub struct MindState {
    pub top: GoalId,
    pub executors: Executors,
    pub queue: Seq<Step>,
    pub result: TaskResult,
    pub task: Option<Step>,
    pub finished: Option<Step>,
    pub blocked_by: Option<Uid>,
    pub last_result: TaskResult,
    pub home: Option<Point>,
}

/// What a tick does to the hold-offs.
#[derive(Clone, Copy, PartialEq, Eq, Structural, Debug)]
pub enum Verdict {
    /// Nothing.
    Keep,
    /// The goal got somewhere.
    Progress(GoalId),
    /// The goal found itself impossible.
    Block(GoalId),
}

/// `after` is `before` with `verdict` applied.
pub open spec fn backoff_after(before: Backoff, after: Backoff, verdict: Verdict) -> bool {
    match verdict {
        Verdict::Keep => after == before,
        Verdict::Progress(goal) => progressed_from(before, after, goal),
        Verdict::Block(goal) => blocked_from(before, after, goal),
    }
}

/// The front of the queue taken up, when no task is under way.
pub open spec fn take_up(s: MindState) -> MindState {
    if s.task is None && s.queue.len() > 0 {
        MindState { task: Some(s.queue[0]), queue: s.queue.drop_first(), ..s }
    } else {
        s
    }
}

/// Steps 3 to 5 of a tick, with `best` the goal the list puts on top,
/// `pick` the cell a wanderer would set off for and `roll` the place among
/// the free beds a sleeper would pick: the mind after them, the notes,
/// whether the goal in charge changed, and what happens to the hold-offs.
pub open spec fn mind_next(
    s0: MindState,
    senses: Senses,
    best: GoalId,
    notes: Seq<Note>,
    pick: Option<Point>,
    roll: int,
) -> (MindState, Seq<Note>, bool, Verdict) {
    let changed = best != s0.top;
    let (s1, n1) = if changed {
        let (e1, na) = put_down(s0.executors, s0.top, ctx_of(senses, s0.blocked_by, s0.finished), s0.result, notes);
        let (e2, q2) = picked_up(e1, best, ctx_of(senses, None, None), seq![]);
        (
            MindState {
                top: best,
                executors: e2,
                queue: q2,
                result: TaskResult::InProgress,
                task: None,
                finished: None,
                blocked_by: None,
                ..s0
            },
            na,
        )
    } else {
        (s0, notes)
    };
    if changed || s1.task is None {
        let last = s1.result;
        let (e3, q3, p, n3) = worked(
            s1.executors,
            s1.top,
            ctx_of(senses, s1.blocked_by, s1.finished),
            amenities_of(senses, s1.home),
            s1.queue,
            last,
            n1,
            pick,
            roll,
        );
        let (q4, verdict) = match p {
            Some(GoalProgress::Working) => (q3, if last == TaskResult::Success {
                Verdict::Progress(s1.top)
            } else {
                Verdict::Keep
            }),
            Some(GoalProgress::Achieved) => (seq![], Verdict::Progress(s1.top)),
            Some(GoalProgress::Blocked) => (seq![], Verdict::Block(s1.top)),
            None => (q3, Verdict::Keep),
        };
        let s2 = MindState {
            executors: e3,
            queue: q4,
            result: TaskResult::InProgress,
            finished: None,
            blocked_by: None,
            ..s1
        };
        (take_up(s2), n3, changed, verdict)
    } else {
        (take_up(s1), n1, changed, Verdict::Keep)
    }
}

/// What writing down `result` for the task under way leaves: nothing without
/// one; a task that ended is the finished one, with who refused it if it
/// failed; one still going only has its result written.
pub open spec fn recorded(s: MindState, result: TaskResult, obstacle: Option<Uid>) -> MindState {
    if s.task is None {
        s
    } else if result == TaskResult::Failed || result == TaskResult::Success {
        MindState {
            result,
            last_result: result,
            blocked_by: if result == TaskResult::Failed {
                obstacle
            } else {
                None
            },
            finished: s.task,
            task: None,
            ..s
        }
    } else {
        MindState { result, ..s }
    }
}

/// Whatever a tick does, the goal the list put on top is the one in charge
/// afterwards, and only it can be credited or held off; a goal found
/// impossible, or achieved, leaves nothing queued and nothing under way,
/// and nothing pursues idling, so idling is never held off; a mind that
/// changed goals forgets what its last task wrote and which task ended.
pub proof fn lemma_tick_answers_to_the_top(
    s0: MindState,
    senses: Senses,
    best: GoalId,
    notes: Seq<Note>,
    pick: Option<Point>,
    roll: int,
)
    ensures
        ({
            let (s, n, changed, verdict) = mind_next(s0, senses, best, notes, pick, roll);
            &&& s.top == best
            &&& changed == (best != s0.top)
            &&& match verdict {
                Verdict::Keep => true,
                Verdict::Progress(g) => g == best,
                Verdict::Block(g) => g == best && g != GoalId::Idle && s.task is None && s.queue.len() == 0,
            }
            &&& changed ==> s.result == TaskResult::InProgress && s.finished is None && s.blocked_by is None
            &&& s.home == s0.home
        }),
{
}

/// A goal is only asked for more work when a task ends or the goal in
/// charge changes: while a task is under way and the same goal stays on
/// top, a tick leaves the mind, the notes and the hold-offs as they were.
pub proof fn lemma_busy_mind_is_left_alone(
    s: MindState,
    senses: Senses,
    best: GoalId,
    notes: Seq<Note>,
    pick: Option<Point>,
    roll: int,
)
    requires
        best == s.top,
        s.task is Some,
    ensures
        mind_next(s, senses, best, notes, pick, roll) == (s, notes, false, Verdict::Keep),
{
}

/// A goal hears how a task went on the tick after it ended: the goal still
/// on top is asked with that result, that task, and who refused it if it
/// failed — and is then told nothing more of it.
pub proof fn lemma_goal_hears_next_tick(
    s: MindState,
    result: TaskResult,
    obstacle: Option<Uid>,
    senses: Senses,
    notes: Seq<Note>,
    pick: Option<Point>,
    roll: int,
)
    requires
        s.task is Some,
        result == TaskResult::Failed || result == TaskResult::Success,
    ensures
        ({
            let ended = recorded(s, result, obstacle);
            let refused = if result == TaskResult::Failed {
                obstacle
            } else {
                None
            };
            let (after, n, changed, _) = mind_next(ended, senses, ended.top, notes, pick, roll);
            let (e, _, _, heard) = worked(
                s.executors,
                s.top,
                ctx_of(senses, refused, s.task),
                amenities_of(senses, s.home),
                s.queue,
                result,
                notes,
                pick,
                roll,
            );
            &&& !changed
            &&& after.executors == e
            &&& n == heard
            &&& after.result == TaskResult::InProgress
            &&& after.finished is None
            &&& after.blocked_by is None
            &&& after.last_result == result
        }),
{
}

/// A unit's mind, but for the numbers the routines rank goals by.
pub struct Mind {
    backoff: Backoff,
    top: GoalId,
    executors: Executors,
    tasks: Tasks<Step>,
    task: Option<Step>,
    finished: Option<Step>,
    blocked_by: Option<Uid>,
    last_result: TaskResult,
    home: Option<Point>,
}

impl Mind {
    pub closed spec fn wf(&self) -> bool {
        self.tasks.wf()
    }

    pub closed spec fn state(&self) -> MindState {
        MindState {
            top: self.top,
            executors: self.executors,
            queue: self.tasks.view_tasks(),
            result: self.tasks.spec_result(),
            task: self.task,
            finished: self.finished,
            blocked_by: self.blocked_by,
            last_result: self.last_result,
            home: self.home,
        }
    }

    pub closed spec fn spec_backoff(&self) -> Backoff {
        self.backoff
    }

    pub closed spec fn spec_home(&self) -> Option<Point> {
        self.home
    }

    /// A mind with these executors, idle, holding nothing off, with nothing
    /// queued and nothing remembered.
    pub fn new(executors: Executors) -> (m: Mind)
        ensures
            m.wf(),
            m.state() == (MindState {
                top: GoalId::Idle,
                executors,
                queue: seq![],
                result: TaskResult::InProgress,
                task: None,
                finished: None,
                blocked_by: None,
                last_result: TaskResult::InProgress,
                home: None,
            }),
            forall|g: GoalId| m.spec_backoff().spec_cooldown(g) == 0 && m.spec_backoff().spec_strikes(g) == 0,
            m.spec_home() is None,
    {
        let tasks = Tasks::new();
        proof {
            assert(tasks.view_tasks() =~= seq![]);
        }
        Mind {
            backoff: Backoff::new(),
            top: GoalId::Idle,
            executors,
            tasks,
            task: None,
            finished: None,
            blocked_by: None,
            last_result: TaskResult::InProgress,
            home: None,
        }
    }

    /// A person's mind: wanders, eats, drinks, uses the toilet, has a go on
    /// a computer, sleeps in a bed.
    pub fn human() -> (m: Mind)
        ensures
            m.wf(),
            m.state().top == GoalId::Idle,
            m.state().executors == Executors::human_spec(),
    {
        Mind::new(Executors::human())
    }

    /// A dog's: wanders. Same machinery, fewer parts.
    pub fn dog() -> (m: Mind)
        ensures
            m.wf(),
            m.state().top == GoalId::Idle,
            m.state().executors == Executors::dog_spec(),
    {
        Mind::new(Executors::dog())
    }

    /// Step 1: one tick off every hold-off.
    pub fn tick(&mut self)
        ensures
            final(self).state() == old(self).state(),
            final(self).wf() == old(self).wf(),
            final(self).spec_home() == old(self).spec_home(),
            forall|g: GoalId|
                final(self).spec_backoff().spec_cooldown(g) == if old(self).spec_backoff().spec_cooldown(g) > 0 {
                    old(self).spec_backoff().spec_cooldown(g) - 1
                } else {
                    0
                },
            forall|g: GoalId| final(self).spec_backoff().spec_strikes(g) == old(self).spec_backoff().spec_strikes(g),
    {
        self.backoff.tick_cooldowns();
    }

    /// Steps 3 to 5, with `best` the goal the routines put on top of the
    /// list: see [`mind_next`]. Answers whether the goal in charge changed —
    /// the action under way is then abandoned and the walk halted — and the
    /// task to run now. Whatever cell chance has a wanderer pick, it is one
    /// [`is_rolled_pick`] allows, and whatever place among the free beds it
    /// has a sleeper pick, one [`is_bed_roll`] allows.
    pub fn react(&mut self, senses: &Senses, best: GoalId, notes: &mut Vec<Note>) -> (turn: (bool, Option<Step>))
        requires
            old(self).wf(),
            senses.world.wf(),
        ensures
            final(self).wf(),
            final(self).spec_home() == old(self).spec_home(),
            exists|pick: Option<Point>, roll: int|
                #![trigger mind_next(old(self).state(), *senses, best, old(notes)@, pick, roll)]
                {
                    let (s, n, changed, verdict) = mind_next(old(self).state(), *senses, best, old(notes)@, pick, roll);
                    &&& is_rolled_pick(*senses.world.map, senses.here, pick)
                    &&& is_bed_roll(ctx_of(*senses, None, None), amenities_of(*senses, old(self).spec_home()), roll)
                    &&& final(self).state() == s
                    &&& final(notes)@ == n
                    &&& turn == (changed, s.task)
                    &&& backoff_after(old(self).spec_backoff(), final(self).spec_backoff(), verdict)
                },
    {
        let ghost s0 = self.state();
        let ghost n0 = notes@;
        proof {
            lemma_nothing_is_a_rolled_pick(*senses.world.map, senses.here);
        }
        let changed = best != self.top;
        if changed {
            let ctx = GoalCtx {
                world: senses.world,
                here: senses.here,
                uid: senses.uid,
                has_needs: senses.has_needs,
                has_hands: senses.has_hands,
                held: senses.held,
                blocked_by: self.blocked_by,
                finished: self.finished,
            };
            self.executors.deprioritized(self.top, &ctx, &self.tasks, notes);
            self.top = best;
            self.task = None;
            self.tasks.clear();
            self.tasks.set_result(TaskResult::InProgress);
            self.finished = None;
            self.blocked_by = None;
            proof {
                assert(self.tasks.view_tasks() =~= seq![]);
            }
            let ctx = GoalCtx {
                world: senses.world,
                here: senses.here,
                uid: senses.uid,
                has_needs: senses.has_needs,
                has_hands: senses.has_hands,
                held: senses.held,
                blocked_by: None,
                finished: None,
            };
            self.executors.prioritized(best, &ctx, &mut self.tasks);
        }
        let ghost s1 = self.state();
        let ghost n1 = notes@;
        let ghost b1 = self.backoff;
        let ghost mut pick: Option<Point> = None;
        let ghost mut roll: int = 0;
        let ghost mut verdict = Verdict::Keep;
        let amen = Amenities {
            computers: senses.computers,
            beds: senses.beds,
            home: self.home,
            critical: senses.critical,
        };
        if changed || self.task.is_none() {
            let top = self.top;
            let ctx = GoalCtx {
                world: senses.world,
                here: senses.here,
                uid: senses.uid,
                has_needs: senses.has_needs,
                has_hands: senses.has_hands,
                held: senses.held,
                blocked_by: self.blocked_by,
                finished: self.finished,
            };
            let last = self.tasks.result();
            let ghost q1 = self.tasks.view_tasks();
            let ghost e1 = self.executors;
            let progress = self.executors.process(top, &ctx, &amen, &mut self.tasks, notes, last);
            proof {
                let (p, r) = choose|p: Option<Point>, r: int|
                    {
                        &&& is_rolled_pick(*ctx.world.map, ctx.here, p)
                        &&& is_bed_roll(ctx, amen, r)
                        &&& (self.executors, self.tasks.view_tasks(), progress, notes@) == #[trigger] worked(
                            e1,
                            top,
                            ctx,
                            amen,
                            q1,
                            last,
                            n1,
                            p,
                            r,
                        )
                    };
                pick = p;
                roll = r;
            }
            match progress {
                Some(GoalProgress::Working) => {
                    if last == TaskResult::Success {
                        self.backoff.progressed(top);
                        proof {
                            verdict = Verdict::Progress(top);
                        }
                    }
                },
                Some(GoalProgress::Achieved) => {
                    self.backoff.progressed(top);
                    self.tasks.clear();
                    proof {
                        verdict = Verdict::Progress(top);
                        assert(self.tasks.view_tasks() =~= seq![]);
                    }
                },
                Some(GoalProgress::Blocked) => {
                    self.backoff.block(top);
                    self.tasks.clear();
                    proof {
                        verdict = Verdict::Block(top);
                        assert(self.tasks.view_tasks() =~= seq![]);
                    }
                },
                None => {},
            }
            self.tasks.set_result(TaskResult::InProgress);
            self.finished = None;
            self.blocked_by = None;
        }
        if self.task.is_none() {
            self.task = self.tasks.pop_front();
        }
        proof {
            let (s, n, c, v) = mind_next(s0, *senses, best, n0, pick, roll);
            assert(s == self.state());
            assert(n == notes@);
            assert(v == verdict);
        }
        (changed, self.task)
    }

    /// Step 6's bookkeeping: the task under way wrote `result`, and
    /// `obstacle` is who refused its last move. Answers whether a task ended —
    /// its action is then over and the walk halted.
    pub fn record(&mut self, result: TaskResult, obstacle: Option<Uid>) -> (ended: bool)
        requires
            old(self).wf(),
        ensures
            final(self).wf(),
            final(self).state() == recorded(old(self).state(), result, obstacle),
            final(self).spec_backoff() == old(self).spec_backoff(),
            final(self).spec_home() == old(self).spec_home(),
            ended == (old(self).state().task is Some && (result == TaskResult::Failed || result
                == TaskResult::Success)),
    {
        if self.task.is_none() {
            return false;
        }
        self.tasks.set_result(result);
        if result.is_finished() {
            self.last_result = result;
            self.blocked_by = match result {
                TaskResult::Failed => obstacle,
                _ => None,
            };
            self.finished = self.task;
            self.task = None;
            true
        } else {
            false
        }
    }

    /// The goal in charge.
    pub fn top_goal(&self) -> (g: GoalId)
        ensures
            g == self.state().top,
    {
        self.top
    }

    /// Ticks before `goal` may top the list again.
    pub fn cooldown(&self, goal: GoalId) -> (c: u16)
        ensures
            c == self.spec_backoff().spec_cooldown(goal),
    {
        self.backoff.cooldown(goal)
    }

    /// The hold-offs.
    pub fn backoff(&self) -> (b: &Backoff)
        ensures
            *b == self.spec_backoff(),
    {
        &self.backoff
    }

    /// The task under way.
    pub fn current_task(&self) -> (t: Option<Step>)
        ensures
            t == self.state().task,
    {
        self.task
    }

    /// What is queued after it.
    pub fn tasks(&self) -> (q: &Tasks<Step>)
        ensures
            q.view_tasks() == self.state().queue,
            q.spec_result() == self.state().result,
            self.wf() ==> q.wf(),
    {
        &self.tasks
    }

    /// How the last task to end went.
    pub fn last_result(&self) -> (r: TaskResult)
        ensures
            r == self.state().last_result,
    {
        self.last_result
    }

    /// The executors, for a debugger.
    pub fn executors(&self) -> (e: &Executors)
        ensures
            *e == self.state().executors,
    {
        &self.executors
    }

    /// The bed this unit remembers as its own.
    pub fn home(&self) -> (bed: Option<Point>)
        ensures
            bed == self.spec_home(),
    {
        self.home
    }

    /// Remember `bed` as this unit's own: handed out by whoever spawns it,
    /// and by nothing else, so two units are never given the same one.
    pub fn set_home(&mut self, bed: Point)
        ensures
            final(self).spec_home() == Some(bed),
            final(self).state() == (MindState { home: Some(bed), ..old(self).state() }),
            final(self).spec_backoff() == old(self).spec_backoff(),
            final(self).wf() == old(self).wf(),
    {
        self.home = Some(bed);
    }
}
} // verus!
