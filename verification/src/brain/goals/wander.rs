//! [`WanderGoal`]: pick a cell somewhere in the neighbourhood, walk to it,
//! pick another.
//!
//! Two ways to miss, treated differently on purpose. The cheap miss: a few
//! random candidates all landed on a wall or off the map; no search ran, so it
//! is [`GoalProgress::Working`] with nothing queued and another try next
//! tick. The expensive miss: the walk to a passable candidate found no way
//! there at all; that is [`GoalProgress::Blocked`], which holds the goal off.
//! And blocked by a *body* is no miss: bodies move, so it waits a moment and
//! walks the same way again, up to [`PATIENCE`] times.

use vstd::prelude::*;

use crate::brain::goal::GoalProgress;
use crate::brain::goals::{GoalCtx, Note, PATIENCE};
use crate::brain::task::{Step, TaskResult, Tasks, CAPACITY};
use crate::map::{abs_int, grid_distance, Point, TileMap};
use crate::rng::{roll_offset, tick_rng};

verus! {

/// How far a wanderer will look for somewhere to go, in cells.
pub const WANDER_RADIUS: i32 = 6;

/// How many cells to try before giving up and standing still this tick.
pub const WANDER_TRIES: u32 = 8;

/// How often a stuck wanderer may say so, in ticks: roughly a second.
pub const STUCK_LOG_TICKS: u64 = 64;

/// A cell a wanderer standing at `here` may set off for: within
/// [`WANDER_RADIUS`] along each axis, not where it stands, and passable.
/// Whether it can be reached is the walk's to find out.
pub open spec fn is_wander_pick(map: TileMap, here: Point, cell: Point) -> bool {
    &&& cell != here
    &&& map.spec_passable(cell)
    &&& abs_int(cell.x - here.x) <= WANDER_RADIUS
    &&& abs_int(cell.y - here.y) <= WANDER_RADIUS
}

/// One roll of a wanderer's dice: an offset no further than
/// [`WANDER_RADIUS`] from zero along each axis.
pub open spec fn is_wander_roll(roll: (i32, i32)) -> bool {
    -WANDER_RADIUS <= roll.0 <= WANDER_RADIUS && -WANDER_RADIUS <= roll.1 <= WANDER_RADIUS
}

/// A full set of rolls: [`WANDER_TRIES`] of them, each within the radius.
pub open spec fn is_wander_rolls(rolls: Seq<(i32, i32)>) -> bool {
    &&& rolls.len() == WANDER_TRIES
    &&& forall|i: int| 0 <= i < rolls.len() ==> is_wander_roll(#[trigger] rolls[i])
}

/// The cell a wanderer at `here` sets off for, given `rolls`: the first
/// roll whose offset from `here` is a cell, is not `here`, and is passable;
/// `None` when no roll gives one.
pub open spec fn first_pick(map: TileMap, here: Point, rolls: Seq<(i32, i32)>) -> Option<Point>
    decreases rolls.len(),
{
    if rolls.len() == 0 {
        None
    } else {
        match here.spec_offset(Point { x: rolls[0].0, y: rolls[0].1 }) {
            Some(c) => if c != here && map.spec_passable(c) {
                Some(c)
            } else {
                first_pick(map, here, rolls.drop_first())
            },
            None => first_pick(map, here, rolls.drop_first()),
        }
    }
}

/// What chance can have a wanderer at `here` pick: [`first_pick`] of some
/// full set of rolls.
pub open spec fn is_rolled_pick(map: TileMap, here: Point, pick: Option<Point>) -> bool {
    exists|rolls: Seq<(i32, i32)>| #[trigger] is_wander_rolls(rolls) && first_pick(map, here, rolls) == pick
}

/// Whatever rolls within the radius pick is a cell a wanderer may set off
/// for.
pub proof fn lemma_first_pick_is_wander_pick(map: TileMap, here: Point, rolls: Seq<(i32, i32)>)
    requires
        forall|i: int| 0 <= i < rolls.len() ==> is_wander_roll(#[trigger] rolls[i]),
    ensures
        first_pick(map, here, rolls) matches Some(c) ==> is_wander_pick(map, here, c),
    decreases rolls.len(),
{
    if rolls.len() > 0 {
        assert(is_wander_roll(rolls[0]));
        let rest = rolls.drop_first();
        assert forall|i: int| 0 <= i < rest.len() implies is_wander_roll(#[trigger] rest[i]) by {
            assert(rest[i] == rolls[i + 1]);
        }
        lemma_first_pick_is_wander_pick(map, here, rest);
    }
}

/// Rolls that all come up nothing pick nothing: standing still is always a
/// possible outcome of chance.
pub proof fn lemma_still_rolls_pick_nothing(map: TileMap, here: Point, rolls: Seq<(i32, i32)>)
    requires
        forall|i: int| 0 <= i < rolls.len() ==> #[trigger] rolls[i] == (0i32, 0i32),
    ensures
        first_pick(map, here, rolls) is None,
    decreases rolls.len(),
{
    if rolls.len() > 0 {
        assert(rolls[0] == (0i32, 0i32));
        let rest = rolls.drop_first();
        assert forall|i: int| 0 <= i < rest.len() implies #[trigger] rest[i] == (0i32, 0i32) by {
            assert(rest[i] == rolls[i + 1]);
        }
        lemma_still_rolls_pick_nothing(map, here, rest);
    }
}

/// Picking nothing is always among what chance can have a wanderer do.
pub proof fn lemma_nothing_is_a_rolled_pick(map: TileMap, here: Point)
    ensures
        is_rolled_pick(map, here, None),
{
    let rolls = Seq::new(WANDER_TRIES as nat, |i: int| (0i32, 0i32));
    lemma_still_rolls_pick_nothing(map, here, rolls);
    assert(is_wander_rolls(rolls));
}

/// What a wanderer with `target` and `retries` is left with after being
/// asked to work, with `pick` the cell it would set off for if it had to
/// choose now: its target and retries, the queue, what it says about itself,
/// and whether it says it has nowhere to go.
pub open spec fn wander_next(
    target: Option<Point>,
    retries: u8,
    ctx: GoalCtx,
    q: Seq<Step>,
    last: TaskResult,
    pick: Option<Point>,
) -> (Option<Point>, u8, Seq<Step>, GoalProgress, bool) {
    let stuck_tick = ctx.world.tick % STUCK_LOG_TICKS == 0;
    if last == TaskResult::Success {
        if q.len() > 0 {
            // The wait before a retry, over: the walk is next.
            (target, retries, q, GoalProgress::Working, false)
        } else {
            (None, 0, q, GoalProgress::Achieved, false)
        }
    } else if last == TaskResult::Failed {
        if target is Some && ctx.blocked_by is Some && retries < PATIENCE {
            (target, (retries + 1) as u8, seq![Step::Wait, Step::MoveTo { cell: target->0 }], GoalProgress::Working, false)
        } else if ctx.blocked_by is Some {
            // Out of patience with them: somewhere else, next tick.
            (None, 0, seq![], GoalProgress::Working, false)
        } else {
            // No way there at all.
            (None, 0, seq![], GoalProgress::Blocked, stuck_tick)
        }
    } else if q.len() > 0 {
        (target, retries, q, GoalProgress::Working, false)
    } else {
        match pick {
            Some(cell) => (pick, 0, seq![Step::MoveTo { cell }], GoalProgress::Working, false),
            None => (target, retries, q, GoalProgress::Working, stuck_tick),
        }
    }
}

/// Somebody in the way is waited for at most [`PATIENCE`] times in a row.
pub proof fn lemma_wander_patience(
    target: Option<Point>,
    retries: u8,
    ctx: GoalCtx,
    q: Seq<Step>,
    last: TaskResult,
    pick: Option<Point>,
)
    requires
        retries <= PATIENCE,
    ensures
        wander_next(target, retries, ctx, q, last, pick).1 <= PATIENCE,
{
}

/// A wanderer holds itself off only when a walk failed with no body in the
/// way — there was no way there at all. A body in the way is waited for or,
/// once patience runs out, walked away from next tick, and never holds the
/// wanderer off; nothing else does either. Out of patience, the target is
/// forgotten and nothing is queued. A wander is achieved when its walk
/// succeeded with nothing left queued, and forgotten then; with nothing to
/// carry on with, a wanderer walks to the cell it picked, or stays put.
pub proof fn lemma_wander_blocked_only_by_no_way(
    target: Option<Point>,
    retries: u8,
    ctx: GoalCtx,
    q: Seq<Step>,
    last: TaskResult,
    pick: Option<Point>,
)
    ensures
        ({
            let (t, r, q2, p, stuck) = wander_next(target, retries, ctx, q, last, pick);
            &&& (p == GoalProgress::Blocked) <==> (last == TaskResult::Failed && ctx.blocked_by is None)
            &&& (last == TaskResult::Failed && ctx.blocked_by is Some && !(target is Some && retries
                < PATIENCE)) ==> t is None && q2.len() == 0 && p == GoalProgress::Working
            &&& (last == TaskResult::Failed && ctx.blocked_by is Some && target is Some && retries
                < PATIENCE) ==> t == target && r == retries + 1 && q2 == seq![Step::Wait, Step::MoveTo { cell: target->0 }]
            &&& (p == GoalProgress::Achieved) <==> (last == TaskResult::Success && q.len() == 0)
            &&& p == GoalProgress::Achieved ==> t is None && r == 0
            &&& (last != TaskResult::Success && last != TaskResult::Failed && q.len() > 0) ==> q2 == q && t
                == target && p == GoalProgress::Working
            &&& (last != TaskResult::Success && last != TaskResult::Failed && q.len() == 0) ==> match pick {
                Some(c) => t == pick && r == 0 && q2 == seq![Step::MoveTo { cell: c }],
                None => t == target && q2.len() == 0,
            }
        }),
{
}

/// What the goal remembers: where it has decided to go, kept across being
/// put down, and how many walks there in a row a body has been in the way of.
#[derive(Clone, Copy, PartialEq, Eq, Structural, Debug, Default)]
pub struct WanderGoal {
    pub target: Option<Point>,
    pub retries: u8,
}

impl WanderGoal {
    pub open spec fn spec_target(&self) -> Option<Point> {
        self.target
    }

    pub open spec fn spec_retries(&self) -> u8 {
        self.retries
    }

    /// Nothing chosen, nothing tried.
    pub fn new() -> (g: WanderGoal)
        ensures
            g.spec_target() is None,
            g.spec_retries() == 0,
    {
        WanderGoal { target: None, retries: 0 }
    }

    /// Where it has decided to go.
    pub fn target(&self) -> (t: Option<Point>)
        ensures
            t == self.spec_target(),
    {
        self.target
    }

    /// Start the next one from scratch.
    pub fn forget(&mut self)
        ensures
            final(self).spec_target() is None,
            final(self).spec_retries() == 0,
    {
        self.target = None;
        self.retries = 0;
    }

    /// The cell a wanderer sets off for given `rolls`: see [`first_pick`].
    pub fn pick_from(ctx: &GoalCtx, rolls: &Vec<(i32, i32)>) -> (cell: Option<Point>)
        requires
            ctx.world.wf(),
        ensures
            cell == first_pick(*ctx.world.map, ctx.here, rolls@),
    {
        let mut i: usize = 0;
        proof {
            assert(rolls@.subrange(0, rolls@.len() as int) =~= rolls@);
        }
        while i < rolls.len()
            invariant
                ctx.world.wf(),
                0 <= i <= rolls@.len(),
                first_pick(*ctx.world.map, ctx.here, rolls@) == first_pick(
                    *ctx.world.map,
                    ctx.here,
                    rolls@.subrange(i as int, rolls@.len() as int),
                ),
            decreases rolls@.len() - i,
        {
            let (dx, dy) = rolls[i];
            let ghost rest = rolls@.subrange(i as int, rolls@.len() as int);
            proof {
                assert(rest[0] == (dx, dy));
                assert(rest.drop_first() =~= rolls@.subrange(i + 1, rolls@.len() as int));
            }
            if let Some(candidate) = ctx.here.offset(Point { x: dx, y: dy }) {
                if candidate != ctx.here && ctx.world.map.is_passable(candidate) {
                    return Some(candidate);
                }
            }
            i = i + 1;
        }
        None
    }

    /// A passable cell within [`WANDER_RADIUS`], or `None` when a few tries
    /// found nothing. Bounded tries rather than a scan: a miss costs one
    /// wasted tick, a scan of the neighbourhood would cost the frame. The
    /// [`WANDER_TRIES`] rolls come from the unit's stream for this tick,
    /// each within the radius; whatever they are, the cell is
    /// [`first_pick`] of them.
    pub fn pick(ctx: &GoalCtx) -> (cell: Option<Point>)
        requires
            ctx.world.wf(),
        ensures
            exists|rolls: Seq<(i32, i32)>|
                #[trigger] is_wander_rolls(rolls) && cell == first_pick(*ctx.world.map, ctx.here, rolls),
            cell matches Some(c) ==> is_wander_pick(*ctx.world.map, ctx.here, c),
    {
        let mut rng = tick_rng(ctx.uid, ctx.world.tick);
        let mut rolls: Vec<(i32, i32)> = Vec::new();
        let mut tries: u32 = 0;
        while tries < WANDER_TRIES
            invariant
                tries <= WANDER_TRIES,
                rolls@.len() == tries,
                forall|i: int| 0 <= i < rolls@.len() ==> is_wander_roll(#[trigger] rolls@[i]),
            decreases WANDER_TRIES - tries,
        {
            let dx = roll_offset(&mut rng, WANDER_RADIUS);
            let dy = roll_offset(&mut rng, WANDER_RADIUS);
            rolls.push((dx, dy));
            tries = tries + 1;
        }
        let cell = Self::pick_from(ctx, &rolls);
        proof {
            assert(is_wander_rolls(rolls@));
            lemma_first_pick_is_wander_pick(*ctx.world.map, ctx.here, rolls@);
        }
        cell
    }

    /// Carry on to where it was going — if that is still nearby. Put down to
    /// go and eat, a wanderer may be across the map from the cell it had
    /// picked, and walking all the way back to it is not wandering.
    pub fn prioritized(&mut self, ctx: &GoalCtx, tasks: &mut Tasks<Step>)
        requires
            old(tasks).wf(),
        ensures
            final(tasks).wf(),
            final(tasks).spec_result() == old(tasks).spec_result(),
            old(self).spec_target() is Some && grid_distance(ctx.here, old(self).spec_target()->0) <= 2 * WANDER_RADIUS ==> {
                &&& *final(self) == *old(self)
                &&& final(tasks).view_tasks() == if old(tasks).view_tasks().len() < CAPACITY {
                    seq![Step::MoveTo { cell: old(self).spec_target()->0 }] + old(tasks).view_tasks()
                } else {
                    old(tasks).view_tasks()
                }
            },
            !(old(self).spec_target() is Some && grid_distance(ctx.here, old(self).spec_target()->0) <= 2 * WANDER_RADIUS) ==> {
                &&& final(self).spec_target() is None
                &&& final(self).spec_retries() == 0
                &&& final(tasks).view_tasks() == old(tasks).view_tasks()
            },
    {
        match self.target {
            Some(t) => {
                if ctx.here.distance(t) <= 12 {
                    let _ = tasks.push_front(Step::MoveTo { cell: t });
                    return;
                }
            },
            None => {},
        }
        self.forget();
    }

    /// Work on the goal with `pick` the cell it would set off for if it had
    /// to choose now; see [`wander_next`] for what each ending of the last
    /// task leads to. Saying it has nowhere to go is rate-limited on the
    /// tick, so a crowd of stuck wanderers does not fill the log.
    pub fn decide(
        &mut self,
        ctx: &GoalCtx,
        tasks: &mut Tasks<Step>,
        notes: &mut Vec<Note>,
        last: TaskResult,
        pick: Option<Point>,
    ) -> (progress: GoalProgress)
        requires
            old(tasks).wf(),
        ensures
            final(tasks).wf(),
            final(tasks).spec_result() == old(tasks).spec_result(),
            ({
                let (t, r, q, p, stuck) = wander_next(
                    old(self).spec_target(),
                    old(self).spec_retries(),
                    *ctx,
                    old(tasks).view_tasks(),
                    last,
                    pick,
                );
                &&& final(self).spec_target() == t
                &&& final(self).spec_retries() == r
                &&& final(tasks).view_tasks() == q
                &&& progress == p
                &&& final(notes)@ == if stuck {
                    old(notes)@.push(Note::NowhereToGo { uid: ctx.uid })
                } else {
                    old(notes)@
                }
            }),
    {
        let stuck_tick = ctx.world.tick % STUCK_LOG_TICKS == 0;
        if last == TaskResult::Success {
            if !tasks.is_empty() {
                return GoalProgress::Working;
            }
            self.forget();
            return GoalProgress::Achieved;
        }
        if last == TaskResult::Failed {
            tasks.clear();
            proof {
                assert(tasks.view_tasks() =~= Seq::<Step>::empty());
            }
            match (self.target, ctx.blocked_by) {
                (Some(target), Some(_)) => {
                    if self.retries < PATIENCE {
                        self.retries = self.retries + 1;
                        let _ = tasks.push_front(Step::Wait);
                        let _ = tasks.push_back(Step::MoveTo { cell: target });
                        proof {
                            assert(tasks.view_tasks() =~= seq![Step::Wait, Step::MoveTo { cell: target }]);
                        }
                        return GoalProgress::Working;
                    }
                    self.forget();
                    return GoalProgress::Working;
                },
                (None, Some(_)) => {
                    self.forget();
                    return GoalProgress::Working;
                },
                (_, None) => {
                    self.forget();
                    if stuck_tick {
                        notes.push(Note::NowhereToGo { uid: ctx.uid });
                    }
                    return GoalProgress::Blocked;
                },
            }
        }
        if !tasks.is_empty() {
            return GoalProgress::Working;
        }
        match pick {
            Some(cell) => {
                self.target = pick;
                self.retries = 0;
                let _ = tasks.push_back(Step::MoveTo { cell });
                proof {
                    assert(tasks.view_tasks() =~= seq![Step::MoveTo { cell }]);
                }
            },
            None => {
                if stuck_tick {
                    notes.push(Note::NowhereToGo { uid: ctx.uid });
                }
            },
        }
        GoalProgress::Working
    }

    /// Work on the goal, picking a cell by [`WanderGoal::pick`] when it has
    /// to choose; whatever chance picks — [`first_pick`] of some full set of
    /// rolls — the answer is [`WanderGoal::decide`]'s with that pick.
    pub fn process(&mut self, ctx: &GoalCtx, tasks: &mut Tasks<Step>, notes: &mut Vec<Note>, last: TaskResult) -> (progress: GoalProgress)
        requires
            ctx.world.wf(),
            old(tasks).wf(),
        ensures
            final(tasks).wf(),
            final(tasks).spec_result() == old(tasks).spec_result(),
            exists|pick: Option<Point>|
                {
                    let (t, r, q, p, stuck) = #[trigger] wander_next(
                        old(self).spec_target(),
                        old(self).spec_retries(),
                        *ctx,
                        old(tasks).view_tasks(),
                        last,
                        pick,
                    );
                    &&& is_rolled_pick(*ctx.world.map, ctx.here, pick)
                    &&& final(self).spec_target() == t
                    &&& final(self).spec_retries() == r
                    &&& final(tasks).view_tasks() == q
                    &&& progress == p
                    &&& final(notes)@ == if stuck {
                        old(notes)@.push(Note::NowhereToGo { uid: ctx.uid })
                    } else {
                        old(notes)@
                    }
                },
    {
        let mut pick: Option<Point> = None;
        proof {
            lemma_nothing_is_a_rolled_pick(*ctx.world.map, ctx.here);
        }
        if (last != TaskResult::Success && last != TaskResult::Failed) && tasks.is_empty() {
            pick = Self::pick(ctx);
        }
        self.decide(ctx, tasks, notes, last, pick)
    }
}

} // verus!
