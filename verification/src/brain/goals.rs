//! The goal executors: how each goal is pursued. What they share — what an
//! executor may look at, where to stand to use something, how long to put up
//! with somebody in the way — is here.

pub mod drink;
pub mod eat;
pub mod errand;
pub mod play;
pub mod relieve;
pub mod sleep;
pub mod visit;
pub mod wander;

use vstd::prelude::*;

use crate::feature::Features;
use crate::brain::task::{Step, Tasks, CAPACITY};
use crate::item::ItemKind;
use crate::map::{grid_distance, is_step, point_lt, Point, TileMap};
use crate::occupancy::Occupancy;
use crate::path::{cardinal_steps, lemma_step_is_cardinal};
use crate::uid::Uid;

verus! {

/// How many times in a row a walk blocked by a body is retried before the
/// goal gives up on it.
pub const PATIENCE: u8 = 3;

/// The world as a goal sees it while it decides: the static map, who is
/// standing where, the features, and which tick it is.
pub struct Surroundings<'a> {
    pub map: &'a TileMap,
    pub occupancy: &'a Occupancy,
    pub features: &'a Features,
    pub tick: u64,
}

impl<'a> Surroundings<'a> {
    pub open spec fn wf(&self) -> bool {
        self.map.wf() && self.occupancy.wf()
    }
}

/// Where to stand to use a feature.
#[derive(Clone, Copy, PartialEq, Eq, Structural, Debug)]
pub enum Stand {
    /// Already close enough.
    Here,
    At(Point),
    /// Nowhere passable touches it.
    Nowhere,
}

/// `a` is a better place to stand than `b` for `uid` at `here`: free before
/// taken, then nearer, then the lower cell.
pub open spec fn better_stand(occupancy: Occupancy, uid: Uid, here: Point, a: Point, b: Point) -> bool {
    let fa = occupancy.free_for(a, uid);
    let fb = occupancy.free_for(b, uid);
    ||| fa && !fb
    ||| fa == fb && grid_distance(here, a) < grid_distance(here, b)
    ||| fa == fb && grid_distance(here, a) == grid_distance(here, b) && point_lt(a, b)
}

/// What [`stand_beside`] answers, said directly.
pub open spec fn is_stand_for(world: Surroundings, here: Point, uid: Uid, cell: Point, s: Stand) -> bool {
    if grid_distance(here, cell) <= 1 {
        s == Stand::Here
    } else {
        match s {
            Stand::Here => false,
            Stand::Nowhere => forall|n: Point| is_step(cell, n) ==> !world.map.spec_passable(n),
            Stand::At(b) => {
                &&& is_step(cell, b)
                &&& world.map.spec_passable(b)
                &&& forall|n: Point|
                    is_step(cell, n) && world.map.spec_passable(n) ==> !better_stand(
                        *world.occupancy,
                        uid,
                        here,
                        n,
                        b,
                    )
            },
        }
    }
}

/// The cell to use the feature in `cell` from: beside it, passable,
/// preferably free, and nearest — or already close enough, or nowhere. The
/// four cells beside it and never its own: a prop blocks the cell it stands
/// in.
pub fn stand_beside(world: &Surroundings, here: Point, uid: Uid, cell: Point) -> (s: Stand)
    requires
        world.wf(),
    ensures
        is_stand_for(*world, here, uid, cell, s),
{
    if here.distance(cell) <= 1 {
        return Stand::Here;
    }
    let steps = Point::cardinals();
    let mut best: Option<Point> = None;
    let mut best_free = false;
    let mut best_distance: u64 = 0;
    let mut s: usize = 0;
    while s < 4
        invariant
            world.wf(),
            0 <= s <= 4,
            steps@ == cardinal_steps(),
            match best {
                Some(b) => {
                    &&& is_step(cell, b)
                    &&& world.map.spec_passable(b)
                    &&& best_free == world.occupancy.free_for(b, uid)
                    &&& best_distance == grid_distance(here, b)
                    &&& exists|t: int| 0 <= t < s && cell.spec_offset(steps@[t]) == Some(b)
                },
                None => true,
            },
            forall|t: int|
                0 <= t < s ==> match cell.spec_offset(#[trigger] steps@[t]) {
                    Some(n) => world.map.spec_passable(n) ==> (best matches Some(b) && !better_stand(
                        *world.occupancy,
                        uid,
                        here,
                        n,
                        b,
                    )),
                    None => true,
                },
        decreases 4 - s,
    {
        if let Some(beside) = cell.offset(steps[s]) {
            proof {
                assert(is_step(cell, beside));
            }
            if world.map.is_passable(beside) {
                let free = world.occupancy.is_free_for(beside, uid);
                let distance = here.distance(beside);
                let better = match best {
                    None => true,
                    Some(b) => (free && !best_free) || (free == best_free && (distance < best_distance
                        || (distance == best_distance && beside.precedes(b)))),
                };
                if better {
                    best = Some(beside);
                    best_free = free;
                    best_distance = distance;
                }
            }
        }
        s = s + 1;
    }
    match best {
        None => {
            proof {
                assert forall|n: Point| is_step(cell, n) implies !world.map.spec_passable(n) by {
                    let t = lemma_step_is_cardinal(cell, n);
                }
            }
            Stand::Nowhere
        },
        Some(b) => {
            proof {
                assert forall|n: Point| is_step(cell, n) && world.map.spec_passable(n) implies !better_stand(
                    *world.occupancy,
                    uid,
                    here,
                    n,
                    b,
                ) by {
                    let t = lemma_step_is_cardinal(cell, n);
                }
            }
            Stand::At(b)
        },
    }
}

/// The one answer [`stand_beside`] can give.
pub open spec fn chosen_stand(world: Surroundings, here: Point, uid: Uid, cell: Point) -> Stand {
    choose|s: Stand| is_stand_for(world, here, uid, cell, s)
}

/// There is exactly one right place to stand, and it is the chosen one.
pub proof fn lemma_stand_unique(world: Surroundings, here: Point, uid: Uid, cell: Point, s: Stand)
    requires
        is_stand_for(world, here, uid, cell, s),
    ensures
        chosen_stand(world, here, uid, cell) == s,
{
    let c = chosen_stand(world, here, uid, cell);
    assert(is_stand_for(world, here, uid, cell, c));
    if grid_distance(here, cell) > 1 {
        match (s, c) {
            (Stand::At(a), Stand::At(b)) => {
                assert(!better_stand(*world.occupancy, uid, here, a, b));
                assert(!better_stand(*world.occupancy, uid, here, b, a));
            },
            (Stand::At(a), Stand::Nowhere) => {
                assert(is_step(cell, a));
            },
            (Stand::Nowhere, Stand::At(b)) => {
                assert(is_step(cell, b));
            },
            _ => {},
        }
    }
}

/// `q` with `step` on the back, unless it is already full.
pub open spec fn push_one(q: Seq<Step>, step: Step) -> Seq<Step> {
    if q.len() < CAPACITY {
        q.push(step)
    } else {
        q
    }
}

/// `q` with each of `steps` pushed on the back in turn, a full queue
/// refusing what does not fit.
pub open spec fn push_all(q: Seq<Step>, steps: Seq<Step>) -> Seq<Step>
    decreases steps.len(),
{
    if steps.len() == 0 {
        q
    } else {
        push_one(push_all(q, steps.drop_last()), steps.last())
    }
}

/// Pushing onto a queue with room for everything appends it all.
pub proof fn lemma_push_all_fits(q: Seq<Step>, steps: Seq<Step>)
    requires
        q.len() + steps.len() <= CAPACITY,
    ensures
        push_all(q, steps) == q + steps,
    decreases steps.len(),
{
    if steps.len() > 0 {
        lemma_push_all_fits(q, steps.drop_last());
        assert(q + steps.drop_last() + seq![steps.last()] =~= q + steps);
    } else {
        assert(q + steps =~= q);
    }
}

/// Push each of `steps` on the back of the queue in turn.
pub fn push_steps(tasks: &mut Tasks<Step>, steps: &Vec<Step>)
    requires
        old(tasks).wf(),
    ensures
        final(tasks).wf(),
        final(tasks).view_tasks() == push_all(old(tasks).view_tasks(), steps@),
        final(tasks).spec_result() == old(tasks).spec_result(),
{
    let mut i: usize = 0;
    while i < steps.len()
        invariant
            tasks.wf(),
            0 <= i <= steps@.len(),
            tasks.view_tasks() == push_all(old(tasks).view_tasks(), steps@.subrange(0, i as int)),
            tasks.spec_result() == old(tasks).spec_result(),
        decreases steps@.len() - i,
    {
        let _ = tasks.push_back(steps[i]);
        proof {
            assert(steps@.subrange(0, i + 1).drop_last() =~= steps@.subrange(0, i as int));
        }
        i = i + 1;
    }
    proof {
        assert(steps@.subrange(0, steps@.len() as int) =~= steps@);
    }
}

/// Everything an executor may look at while it works: the world, where it
/// is and who it is, whether it has needs and hands at all, what it holds,
/// who refused the move that ended the last task, and which task ended.
#[derive(Clone, Copy)]
pub struct GoalCtx<'a> {
    pub world: &'a Surroundings<'a>,
    pub here: Point,
    pub uid: Uid,
    /// A kind with no needs cannot pursue one.
    pub has_needs: bool,
    /// A kind that carries nothing cannot eat or drink.
    pub has_hands: bool,
    pub held: Option<ItemKind>,
    pub blocked_by: Option<Uid>,
    pub finished: Option<Step>,
}

/// Something a goal did that is worth a line in the log. The words are the
/// log's to choose; what happened, and to whom, is decided here.
#[derive(Clone, Copy, Debug)]
pub enum Note {
    /// A meal was eaten, at a fridge or out of the hand.
    Ate { uid: Uid, fridge: Option<Point> },
    /// A drink was drunk, at a fridge or out of the hand.
    Drank { uid: Uid, fridge: Option<Point> },
    /// A toilet was used.
    Relieved { uid: Uid, toilet: Point },
    /// A go was had on a computer.
    Played { uid: Uid, computer: Point },
    /// A stretch was slept in a bed.
    Slept { uid: Uid, bed: Point },
    /// A wanderer found nowhere to go.
    NowhereToGo { uid: Uid },
}

} // verus!
