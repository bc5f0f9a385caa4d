//! The route a walker follows, and how it is planned and repaired.
//!
//! Two stages. The far stage plans over the terrain alone: the crowd is not
//! consulted, because a route planned round every body in the way right now
//! is wrong by the time it is walked, while the terrain does not move. The
//! near stage repairs it when a body gets in the way: the next few cells are
//! thrown away and a short way round them is found, planned against the
//! crowd as well, and the rest of the far route survives untouched.
//!
//! How a body moves along the route is arithmetic on its position, and the
//! caller's; where the route goes is decided here.

use vstd::prelude::*;

use crate::brain::task::ActionState;
use crate::map::{Point, TileMap};
use crate::occupancy::Occupancy;
use crate::path::{find_path_on, is_route, is_walk, lemma_route_is_clear_walk, plenty_reachable, splice_tail, Ground, Path};
use crate::uid::Uid;

verus! {

/// How far a route over the terrain may search, in cells considered.
pub const FAR_LIMIT: usize = 65_536;

/// How many cells of the route a detour replaces.
pub const DETOUR_CELLS: usize = 5;

/// How far a detour may search.
pub const DETOUR_LIMIT: usize = 512;

/// `steps` walks from `start` to `goal` through cells `ok` lets a body
/// stand in, never back through `start` nor through any cell twice.
pub open spec fn walks_through(ok: spec_fn(Point) -> bool, start: Point, goal: Point, steps: Seq<Point>) -> bool {
    &&& is_walk(start, steps)
    &&& steps.len() > 0 ==> steps.last() == goal
    &&& steps.len() == 0 ==> start == goal
    &&& forall|i: int| 0 <= i < steps.len() ==> ok(#[trigger] steps[i])
    &&& !steps.contains(start)
    &&& forall|i: int, j: int| 0 <= i < j < steps.len() ==> steps[i] != steps[j]
}

/// Where a body may stand as far as the terrain goes.
pub open spec fn terrain(map: TileMap) -> spec_fn(Point) -> bool {
    |c: Point| map.spec_passable(c)
}

/// Where `uid` may step on a detour to `target`: passable terrain nobody
/// else stands in — except the target itself, which may be occupied: by the
/// time the walker gets there, whoever it was has probably moved.
pub open spec fn detour_ground(map: TileMap, occupancy: Occupancy, uid: Uid, target: Point) -> spec_fn(Point) -> bool {
    |c: Point| map.spec_passable(c) && (c == target || occupancy.free_for(c, uid))
}

/// The terrain as a search's ground: a body may stand in floor with no prop
/// on it, and nowhere else.
pub struct TerrainGround<'a> {
    pub map: &'a TileMap,
}

impl<'a> Ground for TerrainGround<'a> {
    open spec fn allows(&self, p: Point) -> bool {
        self.map.spec_passable(p)
    }

    open spec fn refuses(&self, p: Point) -> bool {
        !self.map.spec_passable(p)
    }

    open spec fn ready(&self) -> bool {
        self.map.wf()
    }

    fn passable(&self, p: Point) -> (b: bool) {
        self.map.is_passable(p)
    }
}

/// The ground of a detour to `target` for `uid`: [`detour_ground`].
pub struct DetourGround<'a> {
    pub map: &'a TileMap,
    pub occupancy: &'a Occupancy,
    pub uid: Uid,
    pub target: Point,
}

impl<'a> Ground for DetourGround<'a> {
    open spec fn allows(&self, p: Point) -> bool {
        self.map.spec_passable(p) && (p == self.target || self.occupancy.free_for(p, self.uid))
    }

    open spec fn refuses(&self, p: Point) -> bool {
        !self.allows(p)
    }

    open spec fn ready(&self) -> bool {
        self.map.wf() && self.occupancy.wf()
    }

    fn passable(&self, p: Point) -> (b: bool) {
        self.map.is_passable(p) && (p == self.target || self.occupancy.is_free_for(p, self.uid))
    }
}

/// A walk `ok` allows is a route over any ground that allows what `ok`
/// allows.
proof fn lemma_walk_is_route<G: Ground>(ok: spec_fn(Point) -> bool, ground: G, start: Point, goal: Point, way: Seq<Point>)
    requires
        walks_through(ok, start, goal, way),
        forall|p: Point| ok(p) ==> #[trigger] ground.allows(p),
    ensures
        is_route(ground, start, goal, way),
{
    assert forall|i: int| 0 <= i < way.len() implies crate::path::approves(ground, #[trigger] way[i]) by {
        assert(ok(way[i]));
    }
}

/// How many cells of what is `left` a detour replaces.
pub open spec fn detour_count(left: Seq<Point>) -> int {
    if left.len() < DETOUR_CELLS {
        left.len() as int
    } else {
        DETOUR_CELLS as int
    }
}

/// Where a detour from what is `left` rejoins the route.
pub open spec fn detour_target(left: Seq<Point>) -> Point {
    left[detour_count(left) - 1]
}

/// `after` is what is `left` with its first cells replaced by a way from
/// `here` round the crowd to where they ended, and the rest kept.
pub open spec fn repaired(map: TileMap, occupancy: Occupancy, uid: Uid, here: Point, left: Seq<Point>, after: Seq<Point>) -> bool {
    let target = detour_target(left);
    exists|way: Seq<Point>|
        #![trigger walks_through(detour_ground(map, occupancy, uid, target), here, target, way)]
        walks_through(detour_ground(map, occupancy, uid, target), here, target, way) && after == way
            + left.subrange(detour_count(left), left.len() as int)
}

/// A walker's route.
#[derive(Clone, Debug)]
pub struct Route {
    path: Path,
}

impl Route {
    /// The cells still to be walked, current step first.
    pub closed spec fn spec_remaining(&self) -> Seq<Point> {
        self.path.spec_remaining()
    }

    /// No route: nothing to walk.
    pub fn new() -> (r: Route)
        ensures
            r.spec_remaining().len() == 0,
    {
        Route { path: Path::none() }
    }

    /// **The far stage.** Plan a route from `here` to `cell` over the terrain
    /// alone. Already in the cell still means walking to the middle of it: a
    /// route of that one cell. A miss clears the route and says so; what to
    /// do about it is for whoever asked.
    pub fn route_to(&mut self, map: &TileMap, here: Point, cell: Point) -> (found: bool)
        requires
            map.wf(),
        ensures
            here == cell ==> found && final(self).spec_remaining() == seq![cell],
            here != cell && found ==> walks_through(terrain(*map), here, cell, final(self).spec_remaining()),
            !found ==> final(self).spec_remaining().len() == 0 && here != cell,
            here != cell && !map.spec_passable(cell) ==> !found,
            here != cell && found ==> forall|way: Seq<Point>|
                walks_through(terrain(*map), here, cell, way) ==> final(self).spec_remaining().len() <= way.len(),
            here != cell && !found ==> (forall|way: Seq<Point>| !walks_through(terrain(*map), here, cell, way))
                || plenty_reachable((TerrainGround { map }), here, FAR_LIMIT as nat + 1),
    {
        let ground = TerrainGround { map };
        match find_path_on(here, cell, FAR_LIMIT, &ground) {
            Some(steps) => {
                if steps.len() == 0 {
                    let mut one: Vec<Point> = Vec::new();
                    one.push(cell);
                    self.path = Path::new(one);
                    proof {
                        assert(self.path.spec_remaining() =~= seq![cell]);
                    }
                } else {
                    let ghost s = steps@;
                    self.path = Path::new(steps);
                    proof {
                        assert(self.path.spec_remaining() =~= s);
                        assert forall|i: int| 0 <= i < s.len() implies (terrain(*map))(#[trigger] s[i]) by {
                            assert(crate::path::approves(ground, s[i]));
                        }
                        assert forall|way: Seq<Point>| walks_through(terrain(*map), here, cell, way) implies s.len()
                            <= way.len() by {
                            lemma_walk_is_route(terrain(*map), ground, here, cell, way);
                            lemma_route_is_clear_walk(ground, here, cell, way);
                        }
                    }
                }
                true
            },
            None => {
                self.path.clear();
                proof {
                    assert(self.path.spec_remaining() =~= Seq::<Point>::empty());
                    if here != cell && !plenty_reachable(ground, here, FAR_LIMIT as nat + 1) {
                        assert forall|way: Seq<Point>| !walks_through(terrain(*map), here, cell, way) by {
                            if walks_through(terrain(*map), here, cell, way) {
                                lemma_walk_is_route(terrain(*map), ground, here, cell, way);
                            }
                        }
                    }
                }
                false
            },
        }
    }

    /// Stop walking: drop the route, wherever it was going.
    pub fn halt(&mut self)
        ensures
            final(self).spec_remaining().len() == 0,
    {
        self.path.clear();
        proof {
            assert(self.path.spec_remaining() =~= Seq::<Point>::empty());
        }
    }

    /// Step directly onto `cell`, no search: for a feature entered to be
    /// used, which a route would refuse as it refuses a wall, and which is
    /// always one step away when this is asked. Whoever holds the cell still
    /// has the last word when the step is taken.
    pub fn enter(&mut self, cell: Point)
        ensures
            final(self).spec_remaining() == seq![cell],
    {
        let mut one: Vec<Point> = Vec::new();
        one.push(cell);
        self.path = Path::new(one);
        proof {
            assert(self.path.spec_remaining() =~= seq![cell]);
        }
    }

    /// **The near stage.** Something was in the way: throw away the next
    /// [`DETOUR_CELLS`] cells of the route, or all that is left if fewer,
    /// and find another way to the last of them, planned against the crowd
    /// as well as the terrain. The rest of the route past that cell is kept.
    /// `false`, with the route cleared, when there is no way round.
    pub fn detour(&mut self, map: &TileMap, occupancy: &Occupancy, uid: Uid, here: Point) -> (ok: bool)
        requires
            map.wf(),
            occupancy.wf(),
        ensures
            old(self).spec_remaining().len() == 0 ==> ok && final(self).spec_remaining() == old(self).spec_remaining(),
            old(self).spec_remaining().len() > 0 ==> {
                &&& ok ==> repaired(*map, *occupancy, uid, here, old(self).spec_remaining(), final(self).spec_remaining())
                &&& !ok ==> final(self).spec_remaining().len() == 0
                &&& here != detour_target(old(self).spec_remaining()) && !map.spec_passable(
                    detour_target(old(self).spec_remaining()),
                ) ==> !ok
                &&& !ok ==> here != detour_target(old(self).spec_remaining()) && ((forall|way: Seq<Point>|
                    !walks_through(
                        detour_ground(*map, *occupancy, uid, detour_target(old(self).spec_remaining())),
                        here,
                        detour_target(old(self).spec_remaining()),
                        way,
                    )) || plenty_reachable(
                    (DetourGround {
                        map,
                        occupancy,
                        uid,
                        target: detour_target(old(self).spec_remaining()),
                    }),
                    here,
                    DETOUR_LIMIT as nat + 1,
                ))
            },
    {
        let remaining = self.path.remaining();
        if remaining.len() == 0 {
            return true;
        }
        let cells = if remaining.len() < DETOUR_CELLS {
            remaining.len()
        } else {
            DETOUR_CELLS
        };
        let target = remaining[cells - 1];
        let ghost left = remaining@;
        let ground = DetourGround { map, occupancy, uid, target };
        match find_path_on(here, target, DETOUR_LIMIT, &ground) {
            Some(way) => {
                let ghost w = way@;
                let ghost before = self.path;
                self.path.splice(cells, way);
                proof {
                    before.lemma_remaining();
                    let n = before.spec_steps().len() as int;
                    assert(before.spec_next() < n);
                    assert(before.spec_next() + cells <= n);
                    assert(splice_tail(before.spec_next(), cells as int, n) == before.spec_next() + cells);
                    let next = before.spec_next();
                    let steps = before.spec_steps();
                    assert(left == steps.subrange(next, n));
                    assert(steps.subrange(next, n).subrange(cells as int, n - next) =~= steps.subrange(next + cells, n));
                    assert(self.path.spec_remaining() =~= w + left.subrange(cells as int, left.len() as int));
                    assert forall|i: int| 0 <= i < w.len() implies (detour_ground(*map, *occupancy, uid, target))(
                        #[trigger] w[i],
                    ) by {
                        assert(crate::path::approves(ground, w[i]));
                    }
                    assert(walks_through(detour_ground(*map, *occupancy, uid, target), here, target, w));
                    assert(left == old(self).spec_remaining());
                    assert(detour_count(left) == cells);
                    assert(detour_target(left) == target);
                    assert(repaired(*map, *occupancy, uid, here, left, self.spec_remaining()));
                }
                true
            },
            None => {
                self.path.clear();
                proof {
                    assert(self.path.spec_remaining() =~= Seq::<Point>::empty());
                    assert(left == old(self).spec_remaining());
                    assert(detour_target(left) == target);
                    if !plenty_reachable(ground, here, DETOUR_LIMIT as nat + 1) {
                        let ok = detour_ground(*map, *occupancy, uid, target);
                        assert forall|way: Seq<Point>| !walks_through(ok, here, target, way) by {
                            if walks_through(ok, here, target, way) {
                                lemma_walk_is_route(ok, ground, here, target, way);
                            }
                        }
                    }
                }
                false
            },
        }
    }

    /// **The reaction round for a walk in progress.** `blocked` says the
    /// world refused this tick's step, `here` is the cell the body stands in
    /// and `centred` whether it stands in the middle of it. A refused step
    /// is detoured round, and a detour that finds nothing fails the walk;
    /// the last cell is ticked off on arrival in its middle; a route walked
    /// to the end is finished.
    pub fn advance(
        &mut self,
        map: &TileMap,
        occupancy: &Occupancy,
        uid: Uid,
        here: Point,
        blocked: bool,
        centred: bool,
    ) -> (state: ActionState)
        requires
            map.wf(),
            occupancy.wf(),
        ensures
            state == ActionState::Failed ==> blocked && final(self).spec_remaining().len() == 0,
            !blocked && old(self).spec_remaining().len() == 1 && old(self).spec_remaining()[0] == here && centred
                ==> final(self).spec_remaining().len() == 0,
            !blocked && !(old(self).spec_remaining().len() == 1 && old(self).spec_remaining()[0] == here && centred)
                ==> final(self).spec_remaining() == old(self).spec_remaining(),
            state == ActionState::Finished <==> state != ActionState::Failed && final(self).spec_remaining().len() == 0,
            state != ActionState::Finished && state != ActionState::Failed ==> state == ActionState::Running,
    {
        if blocked && !self.detour(map, occupancy, uid, here) {
            return ActionState::Failed;
        }
        proof {
            self.path.lemma_remaining();
        }
        if self.path.remaining().len() == 1 && self.path.current() == Some(here) && centred {
            self.path.advance();
            proof {
                assert(self.path.spec_remaining().len() == 0);
            }
        }
        if self.path.is_done() {
            proof {
                assert(self.path.spec_remaining() =~= Seq::<Point>::empty());
            }
            ActionState::Finished
        } else {
            ActionState::Running
        }
    }

    /// The cell being walked to right now.
    pub fn current(&self) -> (c: Option<Point>)
        ensures
            c == if self.spec_remaining().len() > 0 {
                Some(self.spec_remaining()[0])
            } else {
                None
            },
    {
        let rest = self.path.remaining();
        if rest.len() == 0 {
            None
        } else {
            Some(rest[0])
        }
    }

    /// A body that has just crossed into `here` picks up the next heading as
    /// it enters the cell rather than at its middle, so it cuts corners —
    /// except on the last cell, which is ticked off on arrival instead.
    pub fn crossed_into(&mut self, here: Point)
        ensures
            old(self).spec_remaining().len() > 1 && old(self).spec_remaining()[0] == here
                ==> final(self).spec_remaining() == old(self).spec_remaining().drop_first(),
            !(old(self).spec_remaining().len() > 1 && old(self).spec_remaining()[0] == here)
                ==> final(self).spec_remaining() == old(self).spec_remaining(),
    {
        proof {
            self.path.lemma_remaining();
        }
        let rest = self.path.remaining();
        if rest.len() > 1 && rest[0] == here {
            let ghost before = self.path;
            self.path.advance();
            proof {
                self.path.lemma_remaining();
                assert(self.path.spec_remaining() =~= before.spec_remaining().drop_first());
            }
        }
    }

    /// Where the route ends, if there is any of it left to walk.
    pub fn destination(&self) -> (d: Option<Point>)
        ensures
            d == if self.spec_remaining().len() > 0 {
                Some(self.spec_remaining().last())
            } else {
                None
            },
    {
        let rest = self.path.remaining();
        if rest.len() == 0 {
            None
        } else {
            Some(rest[rest.len() - 1])
        }
    }

    /// Whether there is any route left to walk.
    pub fn is_walking(&self) -> (b: bool)
        ensures
            b == (self.spec_remaining().len() > 0),
    {
        self.path.remaining().len() > 0
    }

    /// The cells still to walk, for drawing the plan.
    pub fn cells(&self) -> (cells: Vec<Point>)
        ensures
            cells@ == self.spec_remaining(),
    {
        let rest = self.path.remaining();
        let mut out: Vec<Point> = Vec::new();
        let mut i: usize = 0;
        while i < rest.len()
            invariant
                0 <= i <= rest@.len(),
                out@ == rest@.subrange(0, i as int),
            decreases rest@.len() - i,
        {
            out.push(rest[i]);
            proof {
                assert(out@ =~= rest@.subrange(0, i + 1));
            }
            i = i + 1;
        }
        proof {
            assert(rest@.subrange(0, rest@.len() as int) =~= rest@);
        }
        out
    }
}

} // verus!
