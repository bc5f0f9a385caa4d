//! [`SleepGoal`]: walk to bed, get into it, and sleep a stretch.
//!
//! The same visit as the toilet's, with two differences. A stretch is one
//! hour of world in bed and a night is many of them: the goal is achieved
//! after each, and how many happen is the routine's to say. And which bed:
//!
//! 1. **Already lying in a bed**: that one, whoever's it is.
//! 2. **Its own bed, if it is free.**
//! 3. **Any other free bed, chosen at random — but only when critically
//!    tired.** Somebody who merely wants to sleep does not take a bed that is
//!    not theirs; somebody who cannot go on will.
//! 4. Otherwise **nothing**: the goal is held off like any other that found
//!    itself impossible, and the unit stays up.

use vstd::prelude::*;

use crate::brain::goal::GoalProgress;
use crate::brain::goals::visit::{unvisited, used_by, visit_next, visit_planned, Purpose, Visit};
use crate::brain::goals::{GoalCtx, Note, Surroundings};
use crate::brain::task::{Step, TaskResult, Tasks};
use crate::feature::contains_point;
use crate::map::Point;
use crate::rng::{roll_index, tick_rng};
use crate::uid::Uid;

verus! {

/// The beds of `beds` free for `uid`, in the same order.
pub open spec fn free_beds(world: Surroundings, uid: Uid, beds: Seq<Point>) -> Seq<Point> {
    beds.filter(|bed: Point| world.occupancy.free_for(bed, uid))
}

/// The bed for the next stretch, by the order in the module's docs, with
/// `roll` the place among the free beds that chance picked.
pub open spec fn bed_for(
    world: Surroundings,
    here: Point,
    uid: Uid,
    beds: Seq<Point>,
    home: Option<Point>,
    critical: bool,
    roll: int,
) -> Option<Point> {
    if beds.contains(here) {
        Some(here)
    } else if home matches Some(own) && world.occupancy.free_for(own, uid) {
        home
    } else if !critical {
        None
    } else {
        let free = free_beds(world, uid, beds);
        if 0 <= roll < free.len() {
            Some(free[roll])
        } else {
            None
        }
    }
}

/// Short of critical, a unit sleeps only in the bed it already lies in or
/// in its own: somebody who merely wants to sleep does not take a bed that
/// is not theirs.
pub proof fn lemma_no_strange_bed_short_of_critical(
    world: Surroundings,
    here: Point,
    uid: Uid,
    beds: Seq<Point>,
    home: Option<Point>,
    roll: int,
    bed: Point,
)
    requires
        bed_for(world, here, uid, beds, home, false, roll) == Some(bed),
    ensures
        (bed == here && beds.contains(here)) || home == Some(bed),
{
}

/// A bed a unit has to get to is one nobody else is lying in.
pub proof fn lemma_bed_to_get_to_is_free(
    world: Surroundings,
    here: Point,
    uid: Uid,
    beds: Seq<Point>,
    home: Option<Point>,
    critical: bool,
    roll: int,
    bed: Point,
)
    requires
        bed_for(world, here, uid, beds, home, critical, roll) == Some(bed),
        bed != here,
    ensures
        world.occupancy.free_for(bed, uid),
{
    if !beds.contains(here) && !(home matches Some(own) && world.occupancy.free_for(own, uid)) && critical {
        let pred = |b: Point| world.occupancy.free_for(b, uid);
        beds.lemma_filter_pred(pred, roll);
    }
}

/// The beds of `beds` free for `uid`.
fn free_beds_of(world: &Surroundings, uid: Uid, beds: &Vec<Point>) -> (free: Vec<Point>)
    requires
        world.wf(),
    ensures
        free@ == free_beds(*world, uid, beds@),
{
    let mut free: Vec<Point> = Vec::new();
    let mut i: usize = 0;
    while i < beds.len()
        invariant
            world.wf(),
            0 <= i <= beds@.len(),
            free@ == free_beds(*world, uid, beds@.subrange(0, i as int)),
        decreases beds@.len() - i,
    {
        let bed = beds[i];
        proof {
            let pred = |b: Point| world.occupancy.free_for(b, uid);
            let next = beds@.subrange(0, i + 1);
            assert(next.drop_last() =~= beds@.subrange(0, i as int));
            assert(next.last() == bed);
            reveal_with_fuel(Seq::filter, 1);
            assert(next.filter(pred) == if pred(bed) {
                beds@.subrange(0, i as int).filter(pred).push(bed)
            } else {
                beds@.subrange(0, i as int).filter(pred)
            });
        }
        if world.occupancy.is_free_for(bed, uid) {
            free.push(bed);
        }
        i = i + 1;
    }
    proof {
        assert(beds@.subrange(0, beds@.len() as int) =~= beds@);
    }
    free
}

/// The bed for the next stretch, with `roll` the place among the free beds
/// that chance picked; see [`bed_for`].
pub fn pick_bed(
    world: &Surroundings,
    here: Point,
    uid: Uid,
    beds: &Vec<Point>,
    home: Option<Point>,
    critical: bool,
    roll: usize,
) -> (bed: Option<Point>)
    requires
        world.wf(),
    ensures
        bed == bed_for(*world, here, uid, beds@, home, critical, roll as int),
{
    if contains_point(beds, here) {
        return Some(here);
    }
    if let Some(own) = home {
        if world.occupancy.is_free_for(own, uid) {
            return home;
        }
    }
    if !critical {
        return None;
    }
    let free = free_beds_of(world, uid, beds);
    if roll < free.len() {
        Some(free[roll])
    } else {
        None
    }
}

/// What the goal remembers: the bed it chose for the stretch in hand, and
/// how many times in a row getting to it, or into it, a body has refused.
/// Which bed is its own is the unit's to remember, not the goal's.
#[derive(Clone, Copy, PartialEq, Eq, Structural, Debug, Default)]
pub struct SleepGoal {
    pub visit: Visit,
}

impl SleepGoal {
    pub open spec fn spec_visit(&self) -> Visit {
        self.visit
    }

    pub open spec fn spec_target(&self) -> Option<Point> {
        self.spec_visit().target
    }

    pub open spec fn spec_retries(&self) -> u8 {
        self.spec_visit().retries
    }

    /// Nothing chosen, nothing tried.
    pub fn new() -> (g: SleepGoal)
        ensures
            g.spec_visit() == unvisited(),
    {
        SleepGoal { visit: Visit::new() }
    }

    /// The bed it chose, if it has.
    pub fn target(&self) -> (t: Option<Point>)
        ensures
            t == self.spec_target(),
    {
        self.visit.target
    }

    /// Start the next one from scratch.
    pub fn forget(&mut self)
        ensures
            final(self).spec_visit() == unvisited(),
    {
        self.visit.forget();
    }

    /// Which bed the next stretch is in, or `None` when there is not one
    /// this unit will take. The beds are `beds`, its own is `home`, and
    /// `critical` says whether it is too tired to go on. The random pick
    /// among the free beds comes from the unit's stream for this tick, so
    /// the same unit on the same tick chooses the same; whichever place it
    /// lands on, the answer is [`bed_for`] at that place.
    pub fn choose_bed(ctx: &GoalCtx, beds: &Vec<Point>, home: Option<Point>, critical: bool) -> (bed: Option<Point>)
        requires
            ctx.world.wf(),
        ensures
            exists|roll: int|
                (roll == 0 || 0 <= roll < free_beds(*ctx.world, ctx.uid, beds@).len()) && bed == bed_for(
                    *ctx.world,
                    ctx.here,
                    ctx.uid,
                    beds@,
                    home,
                    critical,
                    roll,
                ),
    {
        let free = free_beds_of(ctx.world, ctx.uid, beds);
        let mut roll: usize = 0;
        if critical && free.len() > 0 {
            let mut rng = tick_rng(ctx.uid, ctx.world.tick);
            roll = roll_index(&mut rng, free.len());
        }
        let bed = pick_bed(ctx.world, ctx.here, ctx.uid, beds, home, critical, roll);
        proof {
            assert(bed == bed_for(*ctx.world, ctx.here, ctx.uid, beds@, home, critical, roll as int));
        }
        bed
    }

    /// Just put in charge: the half-walked route is gone, the bed is not.
    pub fn prioritized(&mut self, ctx: &GoalCtx, tasks: &mut Tasks<Step>)
        requires
            ctx.world.wf(),
            old(tasks).wf(),
        ensures
            final(tasks).wf(),
            final(tasks).spec_result() == old(tasks).spec_result(),
            old(self).spec_target() is None ==> *final(self) == *old(self) && final(tasks).view_tasks()
                == old(tasks).view_tasks(),
            old(self).spec_target() is Some ==> {
                let (q, ok) = visit_planned(old(self).spec_visit(), Purpose::Rest, *ctx, old(tasks).view_tasks());
                &&& final(tasks).view_tasks() == q
                &&& final(self).spec_visit() == if ok {
                    Visit { retries: 0, ..old(self).spec_visit() }
                } else {
                    unvisited()
                }
            },
    {
        self.visit.prioritized(Purpose::Rest, ctx, tasks);
    }

    /// A stretch that ended the very tick something else took over is heard
    /// of here.
    pub fn deprioritized(&mut self, ctx: &GoalCtx, tasks: &Tasks<Step>, notes: &mut Vec<Note>)
        ensures
            tasks.spec_result() == TaskResult::Success ==> (used_by(Purpose::Rest, ctx.finished) matches Some(bed)
                ==> {
                &&& final(self).spec_visit() == unvisited()
                &&& final(notes)@ == old(notes)@.push(Note::Slept { uid: ctx.uid, bed })
            }),
            !(tasks.spec_result() == TaskResult::Success && used_by(Purpose::Rest, ctx.finished) is Some) ==> {
                &&& *final(self) == *old(self)
                &&& final(notes)@ == old(notes)@
            },
    {
        if let Some(bed) = self.visit.deprioritized(Purpose::Rest, ctx, tasks) {
            notes.push(Note::Slept { uid: ctx.uid, bed });
        }
    }

    /// Work on the goal with `choice` the bed it would go to if it had to
    /// choose now; see [`visit_next`] for what each ending of the last task
    /// leads to. A failed attempt to get into the bed is treated like a
    /// blocked walk: somebody is lying in it, and may get up.
    pub fn decide(
        &mut self,
        ctx: &GoalCtx,
        tasks: &mut Tasks<Step>,
        notes: &mut Vec<Note>,
        last: TaskResult,
        choice: Option<Point>,
    ) -> (progress: GoalProgress)
        requires
            ctx.world.wf(),
            old(tasks).wf(),
        ensures
            final(tasks).wf(),
            final(tasks).spec_result() == old(tasks).spec_result(),
            ({
                let (v, q, p, done) = visit_next(old(self).spec_visit(), Purpose::Rest, *ctx, old(tasks).view_tasks(), last, choice);
                &&& final(self).spec_visit() == v
                &&& final(tasks).view_tasks() == q
                &&& progress == p
                &&& final(notes)@ == match done {
                    Some(bed) => old(notes)@.push(Note::Slept { uid: ctx.uid, bed }),
                    None => old(notes)@,
                }
            }),
    {
        let (progress, done) = self.visit.process(Purpose::Rest, ctx, tasks, last, choice);
        if let Some(bed) = done {
            notes.push(Note::Slept { uid: ctx.uid, bed });
        }
        progress
    }

    /// Work on the goal, choosing the bed by [`SleepGoal::choose_bed`] when it
    /// has to; whichever bed chance would pick, the answer is
    /// [`SleepGoal::decide`]'s with that bed.
    pub fn process(
        &mut self,
        ctx: &GoalCtx,
        tasks: &mut Tasks<Step>,
        notes: &mut Vec<Note>,
        last: TaskResult,
        beds: &Vec<Point>,
        home: Option<Point>,
        critical: bool,
    ) -> (progress: GoalProgress)
        requires
            ctx.world.wf(),
            old(tasks).wf(),
        ensures
            final(tasks).wf(),
            final(tasks).spec_result() == old(tasks).spec_result(),
            exists|roll: int|
                #![trigger bed_for(*ctx.world, ctx.here, ctx.uid, beds@, home, critical, roll)]
                {
                    let choice = bed_for(*ctx.world, ctx.here, ctx.uid, beds@, home, critical, roll);
                    let (v, q, p, done) = visit_next(old(self).spec_visit(), Purpose::Rest, *ctx, old(tasks).view_tasks(), last, choice);
                    &&& roll == 0 || 0 <= roll < free_beds(*ctx.world, ctx.uid, beds@).len()
                    &&& final(self).spec_visit() == v
                    &&& final(tasks).view_tasks() == q
                    &&& progress == p
                    &&& final(notes)@ == match done {
                        Some(bed) => old(notes)@.push(Note::Slept { uid: ctx.uid, bed }),
                        None => old(notes)@,
                    }
                },
    {
        let choice = Self::choose_bed(ctx, beds, home, critical);
        self.decide(ctx, tasks, notes, last, choice)
    }
}

} // verus!
