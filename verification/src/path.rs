//! A*, and the route it produces.
//!
//! A search step is one orthogonal move, so every cost is a whole number of
//! steps and the grid distance is an exact, admissible, consistent
//! heuristic. The search is handed a start, a goal, a budget of expansions
//! and a predicate saying whether a cell can be stood in; the start is never
//! asked about, so something standing in a wall can still walk out of it.
//!
//! Ties are broken on `(f, h, point)`, a total order, so the same search
//! gives the same route however the open list happens to be laid out.

use vstd::prelude::*;

use std::collections::HashMap;

use crate::map::{grid_distance, is_step, point_lt, Point};

verus! {

broadcast use vstd::std_specs::hash::group_hash_axioms;

// ---------------------------------------------------------------------------
// What a route is
// ---------------------------------------------------------------------------

/// What a search may stand in. Asked about a cell, the ground answers yes
/// only for a cell it allows and no only for one it refuses.
pub trait Ground {
    /// The search may step into `p`.
    spec fn allows(&self, p: Point) -> bool;

    /// The search may not step into `p`.
    spec fn refuses(&self, p: Point) -> bool;

    /// The ground can be asked about any cell.
    spec fn ready(&self) -> bool;

    /// Whether the search may step into `p`.
    fn passable(&self, p: Point) -> (b: bool)
        requires
            self.ready(),
        ensures
            b ==> self.allows(p),
            !b ==> self.refuses(p),
    ;
}

/// A predicate asked as a search's ground: a cell is allowed when the
/// predicate said yes to it and refused when it said no.
pub struct Asked<F> {
    pub predicate: F,
}

impl<F: Fn(Point) -> bool> Ground for Asked<F> {
    open spec fn allows(&self, p: Point) -> bool {
        self.predicate.ensures((p,), true)
    }

    open spec fn refuses(&self, p: Point) -> bool {
        self.predicate.ensures((p,), false)
    }

    open spec fn ready(&self) -> bool {
        forall|p: Point| self.predicate.requires((p,))
    }

    fn passable(&self, p: Point) -> (b: bool) {
        (self.predicate)(p)
    }
}

/// `predicate` as a search's ground.
pub open spec fn asked<F: Fn(Point) -> bool>(predicate: F) -> Asked<F> {
    Asked { predicate }
}

/// The ground allows `p`.
pub open spec fn approves<F: Ground>(passable: F, p: Point) -> bool {
    passable.allows(p)
}

/// The ground refuses `p`.
pub open spec fn rejects<F: Ground>(passable: F, p: Point) -> bool {
    passable.refuses(p)
}

/// The ground may be asked about any cell and answers each one way only.
pub open spec fn decides<F: Ground>(passable: F) -> bool {
    &&& passable.ready()
    &&& forall|p: Point| !(#[trigger] approves(passable, p) && rejects(passable, p))
}

/// `steps` is a walk from `start`: each cell one orthogonal step from the
/// one before it, the first one step from `start`.
pub open spec fn is_walk(start: Point, steps: Seq<Point>) -> bool {
    &&& steps.len() > 0 ==> is_step(start, steps[0])
    &&& forall|i: int| 0 <= i < steps.len() - 1 ==> is_step(#[trigger] steps[i], steps[i + 1])
}

/// `steps` is a way from `start` to `goal` that the predicate allows: the
/// start excluded, the goal included, every cell approved. Going nowhere is
/// the empty route.
pub open spec fn is_route<F: Ground>(
    passable: F,
    start: Point,
    goal: Point,
    steps: Seq<Point>,
) -> bool {
    &&& is_walk(start, steps)
    &&& steps.len() == 0 ==> start == goal
    &&& steps.len() > 0 ==> steps.last() == goal
    &&& forall|i: int| 0 <= i < steps.len() ==> approves(passable, #[trigger] steps[i])
}

/// Some route leads from `start` to `c`.
pub open spec fn reachable<F: Ground>(passable: F, start: Point, c: Point) -> bool {
    exists|w: Seq<Point>| #[trigger] is_route(passable, start, c, w)
}

/// No route leads from `start` to `goal`.
pub open spec fn unreachable<F: Ground>(passable: F, start: Point, goal: Point) -> bool {
    forall|w: Seq<Point>| !#[trigger] is_route(passable, start, goal, w)
}

/// `steps` is a walk from `start` to `goal` through no cell the ground
/// refuses: the start excluded, the goal included. Every route the ground
/// allows is one; a walk through cells the ground was never asked about is
/// one too.
pub open spec fn is_clear_walk<F: Ground>(
    passable: F,
    start: Point,
    goal: Point,
    steps: Seq<Point>,
) -> bool {
    &&& is_walk(start, steps)
    &&& steps.len() == 0 ==> start == goal
    &&& steps.len() > 0 ==> steps.last() == goal
    &&& forall|i: int| 0 <= i < steps.len() ==> !rejects(passable, #[trigger] steps[i])
}

/// Every walk from `start` to `goal` crosses a cell the ground refuses.
pub open spec fn blocked<F: Ground>(passable: F, start: Point, goal: Point) -> bool {
    forall|w: Seq<Point>| !#[trigger] is_clear_walk(passable, start, goal, w)
}

/// A route the ground allows is a clear walk, for a ground that never both
/// allows and refuses a cell.
pub proof fn lemma_route_is_clear_walk<F: Ground>(passable: F, start: Point, goal: Point, steps: Seq<Point>)
    requires
        decides(passable),
        is_route(passable, start, goal, steps),
    ensures
        is_clear_walk(passable, start, goal, steps),
{
    assert forall|i: int| 0 <= i < steps.len() implies !rejects(passable, #[trigger] steps[i]) by {
        assert(approves(passable, steps[i]));
    }
}

/// What a predicate asked as a ground allows, refuses and is ready for,
/// said of the predicate itself: a cell is allowed when a call may answer
/// yes, refused when a call may answer no, and the ground is ready when the
/// predicate may be called on every cell.
pub proof fn lemma_asked<F: Fn(Point) -> bool>(predicate: F, p: Point)
    ensures
        asked(predicate).allows(p) == predicate.ensures((p,), true),
        asked(predicate).refuses(p) == predicate.ensures((p,), false),
        asked(predicate).ready() == forall|q: Point| predicate.requires((q,)),
{
}

/// A predicate that may be called on every cell and never may answer both
/// ways for one is a ground a search can ask.
pub proof fn lemma_asked_decides<F: Fn(Point) -> bool>(predicate: F)
    requires
        forall|q: Point| predicate.requires((q,)),
        forall|q: Point| !(predicate.ensures((q,), true) && predicate.ensures((q,), false)),
    ensures
        decides(asked(predicate)),
{
    assert forall|q: Point| !(#[trigger] approves(asked(predicate), q) && rejects(asked(predicate), q)) by {
        lemma_asked(predicate, q);
    }
    assert(asked(predicate).ready()) by {
        lemma_asked(predicate, Point { x: 0, y: 0 });
    }
}

/// `cells` is what a search with a budget of `limit` can have spent: no more
/// than `limit` different cells, each reachable from `start`.
pub open spec fn spent_on<F: Ground>(passable: F, start: Point, cells: Set<Point>, limit: nat) -> bool {
    &&& cells.finite()
    &&& cells.len() <= limit
    &&& forall|c: Point| #[trigger] cells.contains(c) ==> reachable(passable, start, c)
}

/// At least `n` different cells can be reached from `start`: enough for a
/// search with a budget of `n` to spend all of it.
pub open spec fn plenty_reachable<F: Ground>(passable: F, start: Point, n: nat) -> bool {
    exists|cells: Set<Point>| #[trigger] spent_on(passable, start, cells, n) && cells.len() == n
}

// ---------------------------------------------------------------------------
// The route being walked
// ---------------------------------------------------------------------------

/// A route: the cells to walk through, and how far along it we are. The
/// start cell is not in the steps; the destination is the last entry.
#[derive(Clone, Debug, PartialEq)]
pub struct Path {
    steps: Vec<Point>,
    /// Index of the cell currently being walked to.
    next: usize,
}

impl Path {
    pub closed spec fn spec_steps(&self) -> Seq<Point> {
        self.steps@
    }

    pub closed spec fn spec_next(&self) -> int {
        self.next as int
    }

    /// What is still to be walked, current step first.
    pub open spec fn spec_remaining(&self) -> Seq<Point> {
        let n = self.spec_steps().len() as int;
        let from = if self.spec_next() < n {
            self.spec_next()
        } else {
            n
        };
        self.spec_steps().subrange(from, n)
    }

    /// What is left is the steps from the next one on.
    pub proof fn lemma_remaining(&self)
        ensures
            0 <= self.spec_next(),
            self.spec_remaining().len() == if self.spec_next() < self.spec_steps().len() {
                self.spec_steps().len() - self.spec_next()
            } else {
                0
            },
            forall|i: int|
                0 <= i < self.spec_remaining().len() ==> #[trigger] self.spec_remaining()[i] == self.spec_steps()[self.spec_next()
                    + i],
    {
    }

    /// An empty path: nothing left to walk.
    pub fn none() -> (p: Path)
        ensures
            p.spec_steps().len() == 0,
            p.spec_next() == 0,
    {
        Path { steps: Vec::new(), next: 0 }
    }

    pub fn new(steps: Vec<Point>) -> (p: Path)
        ensures
            p.spec_steps() == steps@,
            p.spec_next() == 0,
    {
        Path { steps, next: 0 }
    }

    /// The cell being walked to right now, or `None` when the path is done.
    pub fn current(&self) -> (c: Option<Point>)
        ensures
            c == if self.spec_next() < self.spec_steps().len() {
                Some(self.spec_steps()[self.spec_next()])
            } else {
                None
            },
    {
        if self.next < self.steps.len() {
            Some(self.steps[self.next])
        } else {
            None
        }
    }

    /// Where this path ends up, whether or not it has been started.
    pub fn destination(&self) -> (d: Option<Point>)
        ensures
            d == if self.spec_steps().len() > 0 {
                Some(self.spec_steps().last())
            } else {
                None
            },
    {
        let n = self.steps.len();
        if n > 0 {
            Some(self.steps[n - 1])
        } else {
            None
        }
    }

    /// Everything still to be walked, current step first.
    pub fn remaining(&self) -> (rest: &[Point])
        ensures
            rest@ == self.spec_remaining(),
            self.spec_steps().len() <= usize::MAX,
    {
        let n = self.steps.len();
        let from = if self.next < n {
            self.next
        } else {
            n
        };
        self.steps.as_slice().split_at(from).1
    }

    pub fn is_done(&self) -> (b: bool)
        ensures
            b == (self.spec_next() >= self.spec_steps().len()),
    {
        self.next >= self.steps.len()
    }

    /// One cell reached; move on to the next.
    pub fn advance(&mut self)
        requires
            old(self).spec_next() < usize::MAX,
        ensures
            final(self).spec_steps() == old(self).spec_steps(),
            final(self).spec_next() == old(self).spec_next() + 1,
    {
        self.next = self.next + 1;
    }

    pub fn clear(&mut self)
        ensures
            final(self).spec_steps().len() == 0,
            final(self).spec_next() == 0,
    {
        self.steps.clear();
        self.next = 0;
    }

    /// Replace the next `count` remaining cells with `detour`. The walked
    /// prefix is dropped: what comes back starts at `detour` and runs on to
    /// the same destination.
    pub fn splice(&mut self, count: usize, detour: Vec<Point>)
        ensures
            final(self).spec_next() == 0,
            final(self).spec_steps() == detour@ + old(self).spec_steps().subrange(
                splice_tail(old(self).spec_next(), count as int, old(self).spec_steps().len() as int),
                old(self).spec_steps().len() as int,
            ),
    {
        let n = self.steps.len();
        let reach = self.next.saturating_add(count);
        let tail = if reach < n {
            reach
        } else {
            n
        };
        let mut steps = detour;
        let mut i = tail;
        let ghost start = steps@;
        while i < n
            invariant
                n == self.steps@.len(),
                tail <= i <= n,
                tail == splice_tail(self.next as int, count as int, n as int),
                steps@ == start + self.steps@.subrange(tail as int, i as int),
            decreases n - i,
        {
            steps.push(self.steps[i]);
            proof {
                assert(self.steps@.subrange(tail as int, i + 1) =~= self.steps@.subrange(
                    tail as int,
                    i as int,
                ).push(self.steps@[i as int]));
            }
            i = i + 1;
        }
        *self = Path::new(steps);
    }
}

/// Where the kept tail of a spliced path starts.
pub open spec fn splice_tail(next: int, count: int, len: int) -> int {
    let reach = if next + count > usize::MAX {
        usize::MAX as int
    } else {
        next + count
    };
    if reach < len {
        reach
    } else {
        len
    }
}

// ---------------------------------------------------------------------------
// The search
// ---------------------------------------------------------------------------

/// A cell waiting to be expanded: reached in `cost` steps, `h` from the goal.
#[derive(Clone, Copy)]
struct Candidate {
    cost: u64,
    h: u64,
    point: Point,
}

/// How a cell was reached, and how cheaply.
#[derive(Clone, Copy)]
struct Visit {
    cost: u64,
    from: Point,
}

spec fn f_of(c: Candidate) -> int {
    c.cost + c.h
}

/// `a` comes off the open list before `b`: lower `f`, then lower `h`, then
/// the lower point.
spec fn comes_first(a: Candidate, b: Candidate) -> bool {
    ||| f_of(a) < f_of(b)
    ||| f_of(a) == f_of(b) && a.h < b.h
    ||| f_of(a) == f_of(b) && a.h == b.h && point_lt(a.point, b.point)
}

fn earlier(a: &Candidate, b: &Candidate) -> (r: bool)
    ensures
        r == comes_first(*a, *b),
{
    let fa: u128 = a.cost as u128 + a.h as u128;
    let fb: u128 = b.cost as u128 + b.h as u128;
    fa < fb || (fa == fb && (a.h < b.h || (a.h == b.h && a.point.precedes(b.point))))
}

/// The index of the candidate that comes off the list first.
fn first_index(open: &Vec<Candidate>) -> (best: usize)
    requires
        open@.len() > 0,
    ensures
        best < open@.len(),
        forall|j: int| 0 <= j < open@.len() ==> !comes_first(open@[j], open@[best as int]),
{
    let mut best: usize = 0;
    let mut i: usize = 1;
    while i < open.len()
        invariant
            0 <= best < i <= open@.len(),
            forall|j: int| 0 <= j < i ==> !comes_first(open@[j], open@[best as int]),
        decreases open@.len() - i,
    {
        if earlier(&open[i], &open[best]) {
            best = i;
        }
        i = i + 1;
    }
    best
}

/// The key a cell is stored under: a bijection from points to `u64`.
spec fn key_of(p: Point) -> u64 {
    ((p.x + 2147483648) * 4294967296 + (p.y + 2147483648)) as u64
}

fn key(p: Point) -> (k: u64)
    ensures
        k == key_of(p),
{
    let x: u64 = (p.x as i64 + 2147483648i64) as u64;
    let y: u64 = (p.y as i64 + 2147483648i64) as u64;
    x * 4294967296u64 + y
}

proof fn lemma_key_injective(p: Point, q: Point)
    requires
        key_of(p) == key_of(q),
    ensures
        p == q,
{
    let a = p.x + 2147483648;
    let b = p.y + 2147483648;
    let c = q.x + 2147483648;
    let d = q.y + 2147483648;
    assert(0 <= a < 4294967296 && 0 <= b < 4294967296);
    assert(0 <= c < 4294967296 && 0 <= d < 4294967296);
    assert(a * 4294967296 + b == c * 4294967296 + d) by {
        assert(0 <= a * 4294967296 + b < 18446744073709551616);
        assert(0 <= c * 4294967296 + d < 18446744073709551616);
    }
    if a < c {
        assert(a * 4294967296 + b < c * 4294967296 + d);
    } else if c < a {
        assert(c * 4294967296 + d < a * 4294967296 + b);
    }
}

spec fn known(seen: Map<u64, Visit>, p: Point) -> bool {
    seen.contains_key(key_of(p))
}

spec fn visit(seen: Map<u64, Visit>, p: Point) -> Visit {
    seen[key_of(p)]
}

/// Every recorded cell was reached from a recorded cell one step away, more
/// cheaply, and the start was reached for nothing.
spec fn links_back<F: Ground>(
    passable: F,
    seen: Map<u64, Visit>,
    start: Point,
) -> bool {
    &&& known(seen, start)
    &&& visit(seen, start).cost == 0
    &&& forall|p: Point|
        #![trigger known(seen, p)]
        known(seen, p) && p != start ==> {
            let v = visit(seen, p);
            &&& approves(passable, p)
            &&& v.cost >= 1
            &&& is_step(v.from, p)
            &&& known(seen, v.from)
            &&& visit(seen, v.from).cost < v.cost
        }
}

/// A cell whose every neighbour has been looked at: each was either refused
/// by the predicate or is recorded at most one step dearer.
spec fn settled<F: Ground>(passable: F, seen: Map<u64, Visit>, p: Point) -> bool {
    &&& known(seen, p)
    &&& forall|n: Point|
        #![trigger is_step(p, n)]
        is_step(p, n) ==> rejects(passable, n) || (known(seen, n) && visit(seen, n).cost
            <= visit(seen, p).cost + 1)
}

/// Every recorded cell that is not settled is waiting on the open list at
/// the cost it is recorded at.
spec fn waiting(seen: Map<u64, Visit>, open: Seq<Candidate>, closed: Set<Point>, p: Point) -> bool {
    exists|i: int| 0 <= i < open.len() && open[i].point == p && open[i].cost == visit(seen, p).cost
}

/// A walk of `len` steps from `a` ends at most `len` away.
proof fn lemma_walk_distance(a: Point, steps: Seq<Point>)
    requires
        is_walk(a, steps),
        steps.len() > 0,
    ensures
        grid_distance(a, steps.last()) <= steps.len(),
    decreases steps.len(),
{
    if steps.len() > 1 {
        let shorter = steps.drop_last();
        assert(is_walk(a, shorter)) by {
            assert forall|i: int| 0 <= i < shorter.len() - 1 implies is_step(
                #[trigger] shorter[i],
                shorter[i + 1],
            ) by {
                assert(is_step(steps[i], steps[i + 1]));
            }
        }
        lemma_walk_distance(a, shorter);
        assert(is_step(steps[steps.len() - 2], steps[steps.len() - 1]));
    }
}

/// The cell a route stands in after `k` of its steps.
spec fn node_at(start: Point, steps: Seq<Point>, k: int) -> Point {
    if k == 0 {
        start
    } else {
        steps[k - 1]
    }
}

/// The first cell of the route, from index `m` on, that is not settled;
/// every cell before it is.
proof fn lemma_first_unsettled<F: Ground>(
    passable: F,
    seen: Map<u64, Visit>,
    closed: Set<Point>,
    start: Point,
    goal: Point,
    steps: Seq<Point>,
    m: int,
) -> (k: int)
    requires
        0 <= m <= steps.len(),
        forall|j: int| 0 <= j < m ==> closed.contains(#[trigger] node_at(start, steps, j)),
        !closed.contains(goal),
        steps.len() > 0 ==> steps.last() == goal,
        steps.len() == 0 ==> start == goal,
    ensures
        m <= k <= steps.len(),
        !closed.contains(node_at(start, steps, k)),
        forall|j: int| 0 <= j < k ==> closed.contains(#[trigger] node_at(start, steps, j)),
    decreases steps.len() - m,
{
    if !closed.contains(node_at(start, steps, m)) {
        m
    } else {
        if m == steps.len() {
            assert(node_at(start, steps, m) == goal);
        }
        lemma_first_unsettled(passable, seen, closed, start, goal, steps, m + 1)
    }
}

/// Along a route whose first `k` cells are settled, each of those cells and
/// the one after them is recorded no dearer than its place on the route.
proof fn lemma_settled_prefix<F: Ground>(
    passable: F,
    seen: Map<u64, Visit>,
    closed: Set<Point>,
    start: Point,
    goal: Point,
    steps: Seq<Point>,
    k: int,
)
    requires
        decides(passable),
        links_back(passable, seen, start),
        forall|p: Point| #[trigger] closed.contains(p) ==> settled(passable, seen, p),
        is_clear_walk(passable, start, goal, steps),
        0 <= k <= steps.len(),
        forall|j: int| 0 <= j < k ==> closed.contains(#[trigger] node_at(start, steps, j)),
    ensures
        known(seen, node_at(start, steps, k)),
        visit(seen, node_at(start, steps, k)).cost <= k,
    decreases k,
{
    if k > 0 {
        lemma_settled_prefix(passable, seen, closed, start, goal, steps, k - 1);
        let prev = node_at(start, steps, k - 1);
        let here = node_at(start, steps, k);
        assert(is_step(prev, here)) by {
            if k == 1 {
            } else {
                assert(is_step(steps[k - 2], steps[k - 1]));
            }
        }
        assert(closed.contains(prev));
        assert(settled(passable, seen, prev));
        assert(!rejects(passable, steps[k - 1]));
        assert(!rejects(passable, here));
    }
}

/// While the search runs, any walk to the goal through no refused cell
/// has a cell waiting on the open list whose `f` is no more than the route's
/// length.
proof fn lemma_frontier<F: Ground>(
    passable: F,
    seen: Map<u64, Visit>,
    open: Seq<Candidate>,
    closed: Set<Point>,
    start: Point,
    goal: Point,
    steps: Seq<Point>,
)
    requires
        decides(passable),
        links_back(passable, seen, start),
        forall|p: Point| #[trigger] closed.contains(p) ==> settled(passable, seen, p),
        forall|p: Point|
            known(seen, p) && !(#[trigger] closed.contains(p)) ==> waiting(seen, open, closed, p),
        forall|i: int|
            0 <= i < open.len() ==> (#[trigger] open[i]).h == grid_distance(open[i].point, goal),
        !closed.contains(goal),
        is_clear_walk(passable, start, goal, steps),
        start != goal,
    ensures
        exists|i: int| 0 <= i < open.len() && f_of(#[trigger] open[i]) <= steps.len(),
{
    let len = steps.len() as int;
    let k = lemma_first_unsettled(passable, seen, closed, start, goal, steps, 0);
    let here = node_at(start, steps, k);
    lemma_settled_prefix(passable, seen, closed, start, goal, steps, k);
    assert(waiting(seen, open, closed, here));
    let i = choose|i: int|
        0 <= i < open.len() && open[i].point == here && open[i].cost == visit(seen, here).cost;
    // What is left of the route after `here` is a walk to the goal.
    assert(grid_distance(here, goal) <= len - k) by {
        if k < len {
            let rest = steps.subrange(k, len);
            assert(is_walk(here, rest)) by {
                if k == 0 {
                } else {
                    assert(is_step(steps[k - 1], steps[k]));
                }
                assert forall|j: int| 0 <= j < rest.len() - 1 implies is_step(
                    #[trigger] rest[j],
                    rest[j + 1],
                ) by {
                    assert(is_step(steps[k + j], steps[k + j + 1]));
                }
            }
            lemma_walk_distance(here, rest);
        } else {
            assert(here == goal);
        }
    }
    assert(f_of(open[i]) <= len);
}

/// Recording `next` as reached from `point` at `new_cost`, cheaper than
/// anything known before, and putting it on the list keeps every property
/// the search relies on.
proof fn lemma_after_record<F: Ground>(
    passable: F,
    old_seen: Map<u64, Visit>,
    seen: Map<u64, Visit>,
    old_open: Seq<Candidate>,
    open: Seq<Candidate>,
    closed: Set<Point>,
    start: Point,
    point: Point,
    next: Point,
    new_cost: u64,
    expanded: usize,
    goal: Point,
)
    requires
        seen == old_seen.insert(key_of(next), Visit { cost: new_cost, from: point }),
        open == old_open.push(Candidate { cost: new_cost, h: grid_distance(next, goal) as u64, point: next }),
        grid_distance(next, goal) <= u64::MAX,
        !closed.contains(next),
        links_back(passable, old_seen, start),
        known(old_seen, point),
        visit(old_seen, point).cost + 1 == new_cost,
        new_cost <= expanded,
        is_step(point, next),
        approves(passable, next),
        next != start,
        !known(old_seen, next) || visit(old_seen, next).cost > new_cost,
        forall|p: Point| known(old_seen, p) ==> #[trigger] visit(old_seen, p).cost <= expanded,
        forall|i: int|
            0 <= i < old_open.len() ==> known(old_seen, (#[trigger] old_open[i]).point)
                && old_open[i].h == grid_distance(old_open[i].point, goal) && old_open[i].cost
                <= expanded,
        forall|p: Point|
            #[trigger] closed.contains(p) ==> p != next && settled(passable, old_seen, p),
        forall|p: Point|
            known(old_seen, p) && !(#[trigger] closed.contains(p)) && p != point && p != next
                ==> waiting(old_seen, old_open, closed, p),
    ensures
        links_back(passable, seen, start),
        forall|p: Point| p != next ==> (known(seen, p) == known(old_seen, p)),
        forall|p: Point| p != next && known(old_seen, p) ==> visit(seen, p) == visit(old_seen, p),
        known(seen, next) && visit(seen, next).cost == new_cost,
        forall|p: Point|
            known(old_seen, p) ==> known(seen, p) && #[trigger] visit(seen, p).cost <= visit(
                old_seen,
                p,
            ).cost,
        forall|p: Point| known(seen, p) ==> #[trigger] visit(seen, p).cost <= expanded,
        forall|i: int|
            0 <= i < open.len() ==> known(seen, (#[trigger] open[i]).point) && open[i].h
                == grid_distance(open[i].point, goal) && open[i].cost <= expanded,
        forall|p: Point| #[trigger] closed.contains(p) ==> settled(passable, seen, p),
        forall|p: Point|
            known(seen, p) && !(#[trigger] closed.contains(p)) && p != point ==> waiting(
                seen,
                open,
                closed,
                p,
            ),
{
    assert forall|p: Point| p != next implies (known(seen, p) == known(old_seen, p)) && (known(
        old_seen,
        p,
    ) ==> visit(seen, p) == visit(old_seen, p)) by {
        if key_of(p) == key_of(next) {
            lemma_key_injective(p, next);
        }
    }
    assert(links_back(passable, seen, start)) by {
        assert forall|p: Point| #![trigger known(seen, p)] known(seen, p) && p != start implies {
            let v = visit(seen, p);
            &&& approves(passable, p)
            &&& v.cost >= 1
            &&& is_step(v.from, p)
            &&& known(seen, v.from)
            &&& visit(seen, v.from).cost < v.cost
        } by {
            if p == next {
                assert(known(seen, point));
                if point != next {
                    assert(visit(seen, point) == visit(old_seen, point));
                }
            } else {
                let v = visit(old_seen, p);
                assert(known(old_seen, p));
                if v.from == next {
                } else {
                    assert(visit(seen, v.from) == visit(old_seen, v.from));
                }
            }
        }
    }
    assert forall|p: Point| known(seen, p) implies #[trigger] visit(seen, p).cost <= expanded by {
        if p != next {
        }
    }
    assert forall|p: Point| known(old_seen, p) implies known(seen, p) && #[trigger] visit(
        seen,
        p,
    ).cost <= visit(old_seen, p).cost by {
        if p != next {
        }
    }
    assert forall|i: int| 0 <= i < open.len() implies known(seen, (#[trigger] open[i]).point)
        && open[i].h == grid_distance(open[i].point, goal) && open[i].cost <= expanded by {
        if i < old_open.len() {
            assert(open[i] == old_open[i]);
        }
    }
    assert forall|p: Point| #[trigger] closed.contains(p) implies settled(passable, seen, p) by {
        assert(settled(passable, old_seen, p));
        assert forall|n: Point| #[trigger] is_step(p, n) implies rejects(passable, n) || (known(
            seen,
            n,
        ) && visit(seen, n).cost <= visit(seen, p).cost + 1) by {
            if n != next {
            }
        }
    }
    assert forall|p: Point|
        known(seen, p) && !(#[trigger] closed.contains(p)) && p != point implies waiting(
        seen,
        open,
        closed,
        p,
    ) by {
        if p == next {
            assert(open[open.len() - 1].point == next);
        } else {
            assert(waiting(old_seen, old_open, closed, p));
            let i = choose|i: int|
                0 <= i < old_open.len() && old_open[i].point == p && old_open[i].cost == visit(
                    old_seen,
                    p,
                ).cost;
            assert(open[i] == old_open[i]);
        }
    }
}

/// Taking the candidate at `best` off the list leaves every other cell's
/// place on it, and every remaining entry as it was.
proof fn lemma_after_pop(
    seen: Map<u64, Visit>,
    before: Seq<Candidate>,
    open: Seq<Candidate>,
    closed: Set<Point>,
    best: int,
    goal: Point,
    expanded: usize,
)
    requires
        0 <= best < before.len(),
        open == before.remove(best),
        forall|p: Point|
            known(seen, p) && !(#[trigger] closed.contains(p)) ==> waiting(seen, before, closed, p),
        forall|i: int|
            0 <= i < before.len() ==> known(seen, (#[trigger] before[i]).point) && before[i].h
                == grid_distance(before[i].point, goal) && before[i].cost <= expanded,
    ensures
        forall|p: Point|
            known(seen, p) && !(#[trigger] closed.contains(p)) && !(p == before[best].point
                && before[best].cost == visit(seen, p).cost) ==> waiting(seen, open, closed, p),
        forall|i: int|
            0 <= i < open.len() ==> known(seen, (#[trigger] open[i]).point) && open[i].h
                == grid_distance(open[i].point, goal) && open[i].cost <= expanded,
{
    assert forall|p: Point|
        known(seen, p) && !(#[trigger] closed.contains(p)) && !(p == before[best].point
            && before[best].cost == visit(seen, p).cost) implies waiting(seen, open, closed, p) by {
        let i = choose|i: int|
            0 <= i < before.len() && before[i].point == p && before[i].cost == visit(seen, p).cost;
        if i < best {
            assert(open[i] == before[i]);
        } else {
            assert(i != best);
            assert(open[i - 1] == before[i]);
        }
    }
    assert forall|i: int| 0 <= i < open.len() implies known(seen, (#[trigger] open[i]).point)
        && open[i].h == grid_distance(open[i].point, goal) && open[i].cost <= expanded by {
        if i < best {
            assert(open[i] == before[i]);
        } else {
            assert(open[i] == before[i + 1]);
        }
    }
}

/// The four orthogonal offsets, in the order [`Point::cardinals`] gives.
pub open spec fn cardinal_steps() -> Seq<Point> {
    seq![Point { x: 0, y: -1i32 }, Point { x: 1, y: 0 }, Point { x: 0, y: 1 }, Point { x: -1i32, y: 0 }]
}

/// A cell one step away is one of the four offsets away.
pub proof fn lemma_step_is_cardinal(p: Point, n: Point) -> (t: int)
    requires
        is_step(p, n),
    ensures
        0 <= t < 4,
        p.spec_offset(cardinal_steps()[t]) == Some(n),
{
    if n.x == p.x && n.y == p.y - 1 {
        0
    } else if n.x == p.x + 1 && n.y == p.y {
        1
    } else if n.x == p.x && n.y == p.y + 1 {
        2
    } else {
        3
    }
}

/// The parent links read back from the goal, turned round, are a route
/// from the start with no cell twice and no start in it.
proof fn lemma_reversed_route<F: Ground>(
    passable: F,
    seen: Map<u64, Visit>,
    start: Point,
    goal: Point,
    t: Seq<Point>,
    route: Seq<Point>,
)
    requires
        start != goal,
        t.len() == 0 ==> start == goal,
        t.len() > 0 ==> t[0] == goal && is_step(start, t.last()),
        forall|i: int| 0 <= i < t.len() - 1 ==> is_step(t[i + 1], #[trigger] t[i]),
        forall|i: int|
            0 <= i < t.len() ==> #[trigger] t[i] != start && approves(passable, t[i]),
        forall|i: int, j: int|
            0 <= i < j < t.len() ==> visit(seen, #[trigger] t[i]).cost > visit(seen, #[trigger] t[j]).cost,
        route.len() == t.len(),
        forall|j: int| 0 <= j < route.len() ==> route[j] == t[t.len() - 1 - j],
    ensures
        is_route(passable, start, goal, route),
        !route.contains(start),
        forall|a: int, b: int| 0 <= a < b < route.len() ==> route[a] != route[b],
{
    let n = t.len() as int;
    assert forall|a: int, b: int| 0 <= a < b < route.len() implies route[a] != route[b] by {
        assert(route[a] == t[n - 1 - a]);
        assert(route[b] == t[n - 1 - b]);
        assert(visit(seen, t[n - 1 - b]).cost > visit(seen, t[n - 1 - a]).cost);
    }
    assert forall|j: int| 0 <= j < route.len() - 1 implies is_step(#[trigger] route[j], route[j + 1]) by {
        assert(route[j] == t[n - 1 - j]);
        assert(route[j + 1] == t[n - 2 - j]);
        assert(is_step(t[(n - 2 - j) + 1], t[n - 2 - j]));
    }
    assert forall|j: int| 0 <= j < route.len() implies approves(passable, #[trigger] route[j]) by {
        assert(route[j] == t[n - 1 - j]);
    }
    assert(!route.contains(start)) by {
        if route.contains(start) {
            let j = choose|j: int| 0 <= j < route.len() && route[j] == start;
            assert(route[j] == t[n - 1 - j]);
        }
    }
    if n > 0 {
        assert(route[0] == t[n - 1]);
        assert(route.last() == t[0]);
    }
}

/// The cost recorded for `p` is no more than the length of any route to it.
spec fn optimal<F: Ground>(passable: F, seen: Map<u64, Visit>, start: Point, p: Point) -> bool {
    forall|w: Seq<Point>| #[trigger] is_route(passable, start, p, w) ==> visit(seen, p).cost <= w.len()
}

/// What the open list holds, entry by entry: never cheaper than its cell is
/// recorded at, dearer than that for a cell already expanded, and no cell
/// twice at one cost.
spec fn entries_sound(seen: Map<u64, Visit>, open: Seq<Candidate>, closed: Set<Point>) -> bool {
    &&& forall|i: int| 0 <= i < open.len() ==> (#[trigger] open[i]).cost >= visit(seen, open[i].point).cost
    &&& forall|i: int|
        0 <= i < open.len() && closed.contains((#[trigger] open[i]).point) ==> open[i].cost > visit(
            seen,
            open[i].point,
        ).cost
    &&& forall|i: int, j: int|
        0 <= i < j < open.len() ==> !((#[trigger] open[i]).point == (#[trigger] open[j]).point
            && open[i].cost == open[j].cost)
}

/// A route to `p` with one more step, into `n`, is a route to `n`.
proof fn lemma_extend_route<F: Ground>(passable: F, start: Point, p: Point, w: Seq<Point>, n: Point)
    requires
        is_route(passable, start, p, w),
        is_step(p, n),
        approves(passable, n),
    ensures
        is_route(passable, start, n, w.push(n)),
{
    let v = w.push(n);
    assert forall|i: int| 0 <= i < v.len() - 1 implies is_step(#[trigger] v[i], v[i + 1]) by {
        if i < w.len() - 1 {
            assert(v[i] == w[i] && v[i + 1] == w[i + 1]);
            assert(is_step(w[i], w[i + 1]));
        } else {
            assert(v[i] == w.last());
            assert(v[i + 1] == n);
        }
    }
    assert forall|i: int| 0 <= i < v.len() implies approves(passable, #[trigger] v[i]) by {
        if i < w.len() {
            assert(v[i] == w[i]);
        }
    }
    if w.len() == 0 {
        assert(v[0] == n);
    } else {
        assert(v[0] == w[0]);
    }
}

/// The parent links read back from a recorded cell give a route to it no
/// longer than the cost it is recorded at.
proof fn lemma_route_to_known<F: Ground>(passable: F, seen: Map<u64, Visit>, start: Point, p: Point) -> (w: Seq<
    Point,
>)
    requires
        links_back(passable, seen, start),
        known(seen, p),
    ensures
        is_route(passable, start, p, w),
        w.len() <= visit(seen, p).cost,
    decreases visit(seen, p).cost,
{
    if p == start {
        Seq::<Point>::empty()
    } else {
        let v = visit(seen, p);
        let w0 = lemma_route_to_known(passable, seen, start, v.from);
        lemma_extend_route(passable, start, v.from, w0, p);
        w0.push(p)
    }
}

/// The expanded cells are what the search spent: no more than its budget,
/// each one reachable from the start.
proof fn lemma_closed_spent<F: Ground>(
    passable: F,
    seen: Map<u64, Visit>,
    closed: Set<Point>,
    start: Point,
    limit: nat,
)
    requires
        links_back(passable, seen, start),
        closed.finite(),
        closed.len() <= limit,
        forall|p: Point| #[trigger] closed.contains(p) ==> known(seen, p),
    ensures
        spent_on(passable, start, closed, limit),
{
    assert forall|c: Point| #[trigger] closed.contains(c) implies reachable(passable, start, c) by {
        let w = lemma_route_to_known(passable, seen, start, c);
    }
}

/// Grid distance obeys the triangle inequality.
proof fn lemma_triangle(a: Point, b: Point, c: Point)
    ensures
        grid_distance(a, c) <= grid_distance(a, b) + grid_distance(b, c),
{
}

/// What is left of a walk after its first `k` steps is a walk of that many
/// fewer steps, so it ends no further away than that.
proof fn lemma_rest_distance(start: Point, w: Seq<Point>, k: int, p: Point)
    requires
        is_walk(start, w),
        0 <= k <= w.len(),
        w.len() > 0 ==> w.last() == p,
        w.len() == 0 ==> start == p,
    ensures
        grid_distance(node_at(start, w, k), p) <= w.len() - k,
{
    let len = w.len() as int;
    let q = node_at(start, w, k);
    if k < len {
        let rest = w.subrange(k, len);
        assert(is_walk(q, rest)) by {
            if k == 0 {
            } else {
                assert(is_step(w[k - 1], w[k]));
            }
            assert forall|j: int| 0 <= j < rest.len() - 1 implies is_step(#[trigger] rest[j], rest[j + 1]) by {
                assert(is_step(w[k + j], w[k + j + 1]));
            }
        }
        lemma_walk_distance(q, rest);
        assert(rest.last() == p);
    } else {
        if len == 0 {
            assert(q == start);
        } else {
            assert(q == w[len - 1]);
        }
    }
}

/// The cell that comes off the list first, at the cost it is recorded at,
/// is recorded no dearer than any route to it: the heuristic never
/// overestimates, so a cheaper route would have put a cell ahead of it.
proof fn lemma_popped_is_optimal<F: Ground>(
    passable: F,
    seen: Map<u64, Visit>,
    open: Seq<Candidate>,
    closed: Set<Point>,
    start: Point,
    goal: Point,
    best: int,
    w: Seq<Point>,
)
    requires
        decides(passable),
        links_back(passable, seen, start),
        forall|p: Point| #[trigger] closed.contains(p) ==> settled(passable, seen, p),
        forall|p: Point|
            known(seen, p) && !(#[trigger] closed.contains(p)) ==> waiting(seen, open, closed, p),
        forall|i: int|
            0 <= i < open.len() ==> known(seen, (#[trigger] open[i]).point) && open[i].h
                == grid_distance(open[i].point, goal),
        0 <= best < open.len(),
        open[best].cost == visit(seen, open[best].point).cost,
        !closed.contains(open[best].point),
        forall|j: int| 0 <= j < open.len() ==> !comes_first(open[j], open[best]),
        is_route(passable, start, open[best].point, w),
    ensures
        visit(seen, open[best].point).cost <= w.len(),
{
    let p = open[best].point;
    let len = w.len() as int;
    if len < visit(seen, p).cost {
        let k = lemma_first_unsettled(passable, seen, closed, start, p, w, 0);
        let q = node_at(start, w, k);
        lemma_settled_prefix(passable, seen, closed, start, p, w, k);
        assert(waiting(seen, open, closed, q));
        let i = choose|i: int|
            0 <= i < open.len() && open[i].point == q && open[i].cost == visit(seen, q).cost;
        lemma_rest_distance(start, w, k, p);
        lemma_triangle(q, p, goal);
        assert(open[i].h == grid_distance(q, goal));
        assert(open[best].h == grid_distance(p, goal));
        assert(grid_distance(q, goal) <= grid_distance(q, p) + grid_distance(p, goal));
        assert(f_of(open[i]) < f_of(open[best]));
        assert(comes_first(open[i], open[best]));
    }
}

/// Taking an entry off the list keeps it sound, and leaves no other entry
/// for the same cell at the same cost.
proof fn lemma_entries_after_pop(
    seen: Map<u64, Visit>,
    before: Seq<Candidate>,
    open: Seq<Candidate>,
    closed: Set<Point>,
    best: int,
)
    requires
        0 <= best < before.len(),
        open == before.remove(best),
        entries_sound(seen, before, closed),
    ensures
        entries_sound(seen, open, closed),
        forall|i: int|
            0 <= i < open.len() && (#[trigger] open[i]).point == before[best].point ==> open[i].cost
                != before[best].cost,
{
    assert forall|i: int| 0 <= i < open.len() implies (#[trigger] open[i]) == before[if i < best {
        i
    } else {
        i + 1
    }] by {}
    assert forall|i: int, j: int|
        0 <= i < j < open.len() implies !((#[trigger] open[i]).point == (#[trigger] open[j]).point
        && open[i].cost == open[j].cost) by {
        let a = if i < best {
            i
        } else {
            i + 1
        };
        let b = if j < best {
            j
        } else {
            j + 1
        };
        assert(open[i] == before[a] && open[j] == before[b]);
        assert(before[a] == before[a] && before[b] == before[b]);
    }
    assert forall|i: int|
        0 <= i < open.len() && (#[trigger] open[i]).point == before[best].point implies open[i].cost
        != before[best].cost by {
        let a = if i < best {
            i
        } else {
            i + 1
        };
        assert(open[i] == before[a]);
        if a < best {
            assert(!(before[a].point == before[best].point && before[a].cost == before[best].cost));
        } else {
            assert(!(before[best].point == before[a].point && before[best].cost == before[a].cost));
        }
    }
}

/// Recording `next` more cheaply than before, and putting it on the list,
/// keeps the list sound.
proof fn lemma_entries_after_record(
    old_seen: Map<u64, Visit>,
    seen: Map<u64, Visit>,
    old_open: Seq<Candidate>,
    open: Seq<Candidate>,
    closed: Set<Point>,
    next: Point,
    new_cost: u64,
    goal: Point,
)
    requires
        open == old_open.push(Candidate { cost: new_cost, h: grid_distance(next, goal) as u64, point: next }),
        known(seen, next),
        visit(seen, next).cost == new_cost,
        forall|p: Point| p != next && known(old_seen, p) ==> visit(seen, p) == visit(old_seen, p),
        forall|i: int| 0 <= i < old_open.len() ==> known(old_seen, (#[trigger] old_open[i]).point),
        !known(old_seen, next) || visit(old_seen, next).cost > new_cost,
        !closed.contains(next),
        entries_sound(old_seen, old_open, closed),
    ensures
        entries_sound(seen, open, closed),
{
    let n = old_open.len() as int;
    assert forall|i: int| 0 <= i < open.len() implies (#[trigger] open[i]).cost >= visit(
        seen,
        open[i].point,
    ).cost && (closed.contains(open[i].point) ==> open[i].cost > visit(seen, open[i].point).cost) by {
        if i < n {
            assert(open[i] == old_open[i]);
            assert(known(old_seen, old_open[i].point));
            assert(old_open[i].cost >= visit(old_seen, old_open[i].point).cost);
        }
    }
    assert forall|i: int, j: int|
        0 <= i < j < open.len() implies !((#[trigger] open[i]).point == (#[trigger] open[j]).point
        && open[i].cost == open[j].cost) by {
        if j < n {
            assert(open[i] == old_open[i] && open[j] == old_open[j]);
        } else {
            assert(open[i] == old_open[i]);
            assert(known(old_seen, old_open[i].point));
            assert(old_open[i].cost >= visit(old_seen, old_open[i].point).cost);
        }
    }
}

/// A* with its working memory kept between searches; the memory is cleared
/// at the top of every search. The open list is a plain vector searched for
/// the candidate that comes first, in the order a binary heap keyed on
/// `(f, h, point)` would pop them.
pub struct PathFinder {
    open: Vec<Candidate>,
    seen: HashMap<u64, Visit>,
    trace: Vec<Point>,
    /// The cells the last search expanded, each once.
    expanded: Ghost<Set<Point>>,
    /// The cells the last search asked its ground about.
    asked: Ghost<Set<Point>>,
}

impl PathFinder {
    /// The cells the last search expanded before it answered.
    pub closed spec fn spec_expanded(&self) -> Set<Point> {
        self.expanded@
    }

    /// The cells the last search asked its ground about.
    pub closed spec fn spec_asked(&self) -> Set<Point> {
        self.asked@
    }

    /// How many cells the last search expanded before it answered.
    pub open spec fn spec_spent(&self) -> nat {
        self.spec_expanded().len()
    }

    pub fn new() -> (finder: PathFinder)
        ensures
            finder.spec_expanded() == Set::<Point>::empty(),
            finder.spec_asked() == Set::<Point>::empty(),
    {
        PathFinder {
            open: Vec::new(),
            seen: HashMap::new(),
            trace: Vec::new(),
            expanded: Ghost(Set::empty()),
            asked: Ghost(Set::empty()),
        }
    }

    /// [`PathFinder::search`] over the cells `passable` says yes to.
    pub fn find(
        &mut self,
        start: Point,
        goal: Point,
        limit: usize,
        passable: impl Fn(Point) -> bool,
    ) -> (r: Option<Vec<Point>>)
        requires
            decides(asked(passable)),
        ensures
            start == goal ==> (r matches Some(steps) && steps@.len() == 0),
            match r {
                Some(steps) => {
                    &&& is_route(asked(passable), start, goal, steps@)
                    &&& !steps@.contains(start)
                    &&& forall|i: int, j: int|
                        0 <= i < j < steps@.len() ==> steps@[i] != steps@[j]
                    &&& forall|other: Seq<Point>|
                        is_clear_walk(asked(passable), start, goal, other) ==> steps@.len() <= other.len()
                },
                None => start != goal,
            },
            start != goal && rejects(asked(passable), goal) ==> r is None,
            start != goal && limit == 0 ==> r is None,
            spent_on(asked(passable), start, final(self).spec_expanded(), limit as nat),
            r is None && start != goal ==> rejects(asked(passable), goal) || blocked(
                asked(passable),
                start,
                goal,
            ) || final(self).spec_spent() == limit,
            !final(self).spec_expanded().contains(goal),
            !final(self).spec_asked().contains(start),
            start == goal ==> final(self).spec_asked() == Set::<Point>::empty(),
    {
        let ground = Asked { predicate: passable };
        self.search(start, goal, limit, &ground)
    }

    /// The shortest orthogonal route from `start` to `goal` through cells
    /// `ground` allows, or `None`.
    ///
    /// The returned cells exclude `start` and include `goal`; `start == goal`
    /// is an empty route, and no walk through cells `ground` does not refuse
    /// is shorter. `ground` is asked about cells other than `start` only.
    /// `None` means no route within the budget: after `limit` different
    /// cells, each reachable from `start`, have been expanded the search
    /// gives up. A search that answers `None` with budget to spare has shown
    /// that every walk to the goal crosses a cell `ground` refuses.
    pub fn search<G: Ground>(
        &mut self,
        start: Point,
        goal: Point,
        limit: usize,
        ground: &G,
    ) -> (r: Option<Vec<Point>>)
        requires
            decides(*ground),
        ensures
            start == goal ==> (r matches Some(steps) && steps@.len() == 0),
            match r {
                Some(steps) => {
                    &&& is_route(*ground, start, goal, steps@)
                    &&& !steps@.contains(start)
                    &&& forall|i: int, j: int|
                        0 <= i < j < steps@.len() ==> steps@[i] != steps@[j]
                    &&& forall|other: Seq<Point>|
                        is_clear_walk(*ground, start, goal, other) ==> steps@.len() <= other.len()
                },
                None => start != goal,
            },
            start != goal && rejects(*ground, goal) ==> r is None,
            start != goal && limit == 0 ==> r is None,
            spent_on(*ground, start, final(self).spec_expanded(), limit as nat),
            r is None && start != goal ==> rejects(*ground, goal) || blocked(*ground, start, goal)
                || final(self).spec_spent() == limit,
            !final(self).spec_expanded().contains(goal),
            !final(self).spec_asked().contains(start),
            start == goal ==> final(self).spec_asked() == Set::<Point>::empty(),
    {
        let ghost passable = *ground;
        self.expanded = Ghost(Set::empty());
        self.asked = Ghost(Set::empty());
        if start == goal {
            return Some(Vec::new());
        }
        self.asked = Ghost(Set::empty().insert(goal));
        if !ground.passable(goal) {
            return None;
        }
        self.open.clear();
        self.seen.clear();

        let heuristic = start.distance(goal);
        self.seen.insert(key(start), Visit { cost: 0, from: start });
        self.open.push(Candidate { cost: 0, h: heuristic, point: start });

        let ghost mut closed: Set<Point> = Set::empty();
        let mut expanded: usize = 0;
        proof {
            assert forall|p: Point| known(self.seen@, p) && p != start implies false by {
                lemma_key_injective(p, start);
            }
            assert(waiting(self.seen@, self.open@, closed, start)) by {
                assert(self.open@[0].point == start);
            }
            assert forall|p: Point|
                known(self.seen@, p) && !(#[trigger] closed.contains(p)) implies waiting(
                self.seen@,
                self.open@,
                closed,
                p,
            ) by {
                if p != start {
                    lemma_key_injective(p, start);
                }
            }
        }
        loop
            invariant
                passable == *ground,
                decides(passable),
                start != goal,
                expanded <= limit,
                self.searching(passable, start, goal, expanded, closed),
                !self.asked@.contains(start),
            decreases 4 * (limit - expanded) + self.open@.len(),
        {
            if self.open.len() == 0 {
                proof {
                    assert forall|other: Seq<Point>|
                        !is_clear_walk(passable, start, goal, other) by {
                        if is_clear_walk(passable, start, goal, other) {
                            lemma_frontier(passable, self.seen@, self.open@, closed, start, goal, other);
                        }
                    }
                    lemma_closed_spent(passable, self.seen@, closed, start, limit as nat);
                }
                self.expanded = Ghost(closed);
                return None;
            }
            let best = first_index(&self.open);
            proof {
                self.lemma_best_is_bound(passable, start, goal, expanded, closed, best as int);
            }
            let ghost before = self.open@;
            let candidate = self.open.remove(best);
            let point = candidate.point;
            let cost = self.seen.get(&key(point)).unwrap().cost;
            proof {
                lemma_after_pop(self.seen@, before, self.open@, closed, best as int, goal, expanded);
                lemma_entries_after_pop(self.seen@, before, self.open@, closed, best as int);
            }
            if candidate.cost != cost {
                // A stale entry: this cell was reached again more cheaply
                // after it was pushed.
                proof {
                    assert forall|p: Point|
                        known(self.seen@, p) && !(#[trigger] closed.contains(p)) implies waiting(
                        self.seen@,
                        self.open@,
                        closed,
                        p,
                    ) by {
                        if p == point {
                            assert(before[best as int].cost != visit(self.seen@, p).cost);
                        }
                    }
                }
                continue;
            }
            proof {
                // The entry was current, so its cell has not been expanded.
                assert(before[best as int] == candidate);
                assert(!closed.contains(point)) by {
                    if closed.contains(point) {
                        assert(before[best as int].cost > visit(self.seen@, point).cost);
                    }
                }
                if expanded == 0 {
                    assert(point == start);
                }
                lemma_closed_spent(passable, self.seen@, closed, start, limit as nat);
            }
            if point == goal {
                proof {
                    assert(f_of(candidate) == cost);
                }
                let route = self.unwind(start, goal, ground);
                self.expanded = Ghost(closed);
                return Some(route);
            }
            if expanded >= limit {
                self.expanded = Ghost(closed);
                return None;
            }
            proof {
                assert forall|w: Seq<Point>| #[trigger] is_route(passable, start, point, w) implies visit(
                    self.seen@,
                    point,
                ).cost <= w.len() by {
                    lemma_popped_is_optimal(passable, self.seen@, before, closed, start, goal, best as int, w);
                }
            }
            expanded = expanded + 1;
            let next_closed = self.expand(point, cost, goal, expanded, ground, Ghost(start), Ghost(closed));
            proof {
                closed = next_closed@;
            }
        }
    }

    /// Everything the search keeps true between expansions.
    spec fn searching<F: Ground>(
        &self,
        passable: F,
        start: Point,
        goal: Point,
        expanded: usize,
        closed: Set<Point>,
    ) -> bool {
        &&& links_back(passable, self.seen@, start)
        &&& forall|p: Point| known(self.seen@, p) ==> #[trigger] visit(self.seen@, p).cost <= expanded
        &&& forall|i: int|
            0 <= i < self.open@.len() ==> known(self.seen@, (#[trigger] self.open@[i]).point)
                && self.open@[i].h == grid_distance(self.open@[i].point, goal)
                && self.open@[i].cost <= expanded
        &&& forall|p: Point| #[trigger] closed.contains(p) ==> settled(passable, self.seen@, p)
        &&& forall|p: Point|
            known(self.seen@, p) && !(#[trigger] closed.contains(p)) ==> waiting(
                self.seen@,
                self.open@,
                closed,
                p,
            )
        &&& !closed.contains(goal)
        &&& entries_sound(self.seen@, self.open@, closed)
        &&& forall|p: Point| #[trigger] closed.contains(p) ==> optimal(passable, self.seen@, start, p)
        &&& closed.finite()
        &&& closed.len() == expanded
        &&& expanded == 0 ==> forall|i: int|
            0 <= i < self.open@.len() ==> (#[trigger] self.open@[i]).point == start
    }

    /// The candidate chosen first has an `f` no larger than any route to the
    /// goal.
    proof fn lemma_best_is_bound<F: Ground>(
        &self,
        passable: F,
        start: Point,
        goal: Point,
        expanded: usize,
        closed: Set<Point>,
        best: int,
    )
        requires
            decides(passable),
            start != goal,
            self.searching(passable, start, goal, expanded, closed),
            0 <= best < self.open@.len(),
            forall|j: int| 0 <= j < self.open@.len() ==> !comes_first(self.open@[j], self.open@[best]),
        ensures
            forall|other: Seq<Point>|
                is_clear_walk(passable, start, goal, other) ==> f_of(self.open@[best]) <= other.len(),
    {
        assert forall|other: Seq<Point>| is_clear_walk(passable, start, goal, other) implies f_of(
            self.open@[best],
        ) <= other.len() by {
            lemma_frontier(passable, self.seen@, self.open@, closed, start, goal, other);
            let i = choose|i: int| 0 <= i < self.open@.len() && f_of(#[trigger] self.open@[i]) <= other.len();
            assert(!comes_first(self.open@[i], self.open@[best]));
        }
    }

    /// Look at the four neighbours of `point`, just taken off the list at the
    /// cost it is recorded at, and record and queue every one reached more
    /// cheaply than before. `point` is settled afterwards.
    fn expand<F: Ground>(
        &mut self,
        point: Point,
        cost: u64,
        goal: Point,
        expanded: usize,
        passable: &F,
        start: Ghost<Point>,
        closed: Ghost<Set<Point>>,
    ) -> (now_closed: Ghost<Set<Point>>)
        requires
            decides(*passable),
            start@ != goal,
            point != goal,
            1 <= expanded,
            cost < expanded,
            known(old(self).seen@, point),
            visit(old(self).seen@, point).cost == cost,
            links_back(*passable, old(self).seen@, start@),
            forall|p: Point| known(old(self).seen@, p) ==> #[trigger] visit(old(self).seen@, p).cost <= expanded,
            forall|i: int|
                0 <= i < old(self).open@.len() ==> known(old(self).seen@, (#[trigger] old(self).open@[i]).point)
                    && old(self).open@[i].h == grid_distance(old(self).open@[i].point, goal)
                    && old(self).open@[i].cost <= expanded,
            forall|p: Point| #[trigger] closed@.contains(p) ==> settled(*passable, old(self).seen@, p),
            forall|p: Point|
                known(old(self).seen@, p) && !(#[trigger] closed@.contains(p)) && p != point ==> waiting(
                    old(self).seen@,
                    old(self).open@,
                    closed@,
                    p,
                ),
            !closed@.contains(goal),
            !closed@.contains(point),
            entries_sound(old(self).seen@, old(self).open@, closed@),
            forall|i: int|
                0 <= i < old(self).open@.len() && (#[trigger] old(self).open@[i]).point == point
                    ==> old(self).open@[i].cost != cost,
            forall|p: Point| #[trigger] closed@.contains(p) ==> optimal(*passable, old(self).seen@, start@, p),
            optimal(*passable, old(self).seen@, start@, point),
            closed@.finite(),
            closed@.len() + 1 == expanded,
            !old(self).asked@.contains(start@),
        ensures
            final(self).searching(*passable, start@, goal, expanded, now_closed@),
            final(self).open@.len() <= old(self).open@.len() + 4,
            !final(self).asked@.contains(start@),
    {
        let steps = Point::cardinals();
        let ghost mut closed = closed@;
        let ghost start = start@;
        let mut s: usize = 0;
        while s < 4
            invariant
                decides(*passable),
                start != goal,
                point != goal,
                0 <= s <= 4,
                steps@ == cardinal_steps(),
                1 <= expanded,
                cost < expanded,
                known(self.seen@, point),
                visit(self.seen@, point).cost == cost,
                links_back(*passable, self.seen@, start),
                forall|p: Point|
                    known(self.seen@, p) ==> #[trigger] visit(self.seen@, p).cost <= expanded,
                forall|i: int|
                    0 <= i < self.open@.len() ==> known(
                        self.seen@,
                        (#[trigger] self.open@[i]).point,
                    ) && self.open@[i].h == grid_distance(self.open@[i].point, goal)
                        && self.open@[i].cost <= expanded,
                forall|p: Point|
                    #[trigger] closed.contains(p) ==> p != point && settled(*passable, self.seen@, p),
                forall|p: Point|
                    known(self.seen@, p) && !(#[trigger] closed.contains(p)) && p != point
                        ==> waiting(self.seen@, self.open@, closed, p),
                !closed.contains(goal),
                !closed.contains(point),
                entries_sound(self.seen@, self.open@, closed),
                forall|i: int|
                    0 <= i < self.open@.len() && (#[trigger] self.open@[i]).point == point
                        ==> self.open@[i].cost != cost,
                forall|p: Point| #[trigger] closed.contains(p) ==> optimal(*passable, self.seen@, start, p),
                optimal(*passable, self.seen@, start, point),
                closed.finite(),
                closed.len() + 1 == expanded,
                self.open@.len() <= old(self).open@.len() + s,
                !self.asked@.contains(start),
                forall|t: int|
                    0 <= t < s ==> match point.spec_offset(#[trigger] steps@[t]) {
                        Some(n) => rejects(*passable, n) || (known(self.seen@, n) && visit(
                            self.seen@,
                            n,
                        ).cost <= cost + 1),
                        None => true,
                    },
            decreases 4 - s,
        {
            let step = steps[s];
            let ghost entry_seen = self.seen@;
            if let Some(next) = point.offset(step) {
                let kn = key(next);
                let ghost this_step = next;
                let new_cost = cost + 1;
                let cheaper = match self.seen.get(&kn) {
                    Some(seen) => seen.cost > new_cost,
                    None => true,
                };
                let ok = if cheaper {
                    proof {
                        if next == start {
                            assert(known(self.seen@, start));
                        }
                    }
                    self.asked = Ghost(self.asked@.insert(next));
                    passable.passable(next)
                } else {
                    false
                };
                if ok {
                    let h = next.distance(goal);
                    let ghost old_seen = self.seen@;
                    let ghost old_open = self.open@;
                    proof {
                        if next == start {
                            assert(known(self.seen@, start));
                        }
                        assert(is_step(point, next));
                        if next == point {
                            assert(false);
                        }
                        // An expanded cell is never reached more cheaply.
                        assert(!closed.contains(next)) by {
                            if closed.contains(next) {
                                let w0 = lemma_route_to_known(*passable, self.seen@, start, point);
                                lemma_extend_route(*passable, start, point, w0, next);
                                assert(optimal(*passable, self.seen@, start, next));
                                assert(is_route(*passable, start, next, w0.push(next)));
                            }
                        }
                    }
                    self.seen.insert(kn, Visit { cost: new_cost, from: point });
                    self.open.push(Candidate { cost: new_cost, h, point: next });
                    proof {
                        lemma_after_record(
                            *passable,
                            old_seen,
                            self.seen@,
                            old_open,
                            self.open@,
                            closed,
                            start,
                            point,
                            next,
                            new_cost,
                            expanded,
                            goal,
                        );
                        lemma_entries_after_record(
                            old_seen,
                            self.seen@,
                            old_open,
                            self.open@,
                            closed,
                            next,
                            new_cost,
                            goal,
                        );
                        assert forall|p: Point| #[trigger] closed.contains(p) implies optimal(
                            *passable,
                            self.seen@,
                            start,
                            p,
                        ) by {
                            assert(settled(*passable, old_seen, p));
                            assert(visit(self.seen@, p) == visit(old_seen, p));
                            assert(optimal(*passable, old_seen, start, p));
                        }
                        assert(visit(self.seen@, point) == visit(old_seen, point));
                        assert forall|i: int|
                            0 <= i < self.open@.len() && (#[trigger] self.open@[i]).point == point
                                implies self.open@[i].cost != cost by {
                            if i < old_open.len() {
                                assert(self.open@[i] == old_open[i]);
                            }
                        }
                    }
                }
            }
            proof {
                // What the earlier neighbours were recorded at only ever gets
                // cheaper.
                assert forall|t: int| 0 <= t < s + 1 implies match point.spec_offset(
                    #[trigger] steps@[t],
                ) {
                    Some(n) => rejects(*passable, n) || (known(self.seen@, n) && visit(
                        self.seen@,
                        n,
                    ).cost <= cost + 1),
                    None => true,
                } by {
                    if let Some(n) = point.spec_offset(steps@[t]) {
                        if t < s && !rejects(*passable, n) {
                            assert(known(entry_seen, n));
                        }
                    }
                }
            }
            s = s + 1;
        }
        proof {
            assert(settled(*passable, self.seen@, point)) by {
                assert forall|n: Point| #[trigger] is_step(point, n) implies rejects(*passable, n) || (known(
                    self.seen@,
                    n,
                ) && visit(self.seen@, n).cost <= visit(self.seen@, point).cost + 1) by {
                    let t = lemma_step_is_cardinal(point, n);
                    assert(point.spec_offset(steps@[t]) == Some(n));
                }
            }
            assert forall|i: int|
                0 <= i < self.open@.len() && closed.insert(point).contains(
                    (#[trigger] self.open@[i]).point,
                ) implies self.open@[i].cost > visit(self.seen@, self.open@[i].point).cost by {
                if self.open@[i].point == point {
                    assert(self.open@[i].cost != cost);
                    assert(self.open@[i].cost >= visit(self.seen@, self.open@[i].point).cost);
                }
            }
            closed = closed.insert(point);
        }
        Ghost(closed)
    }

    /// Walk the parent links back from `goal` and hand the route out
    /// forwards.
    #[verifier::spinoff_prover]
    #[verifier::rlimit(40)]
    fn unwind<F: Ground>(&mut self, start: Point, goal: Point, passable: &F) -> (route: Vec<Point>)
        requires
            links_back(*passable, old(self).seen@, start),
            known(old(self).seen@, goal),
            start != goal,
        ensures
            is_route(*passable, start, goal, route@),
            !route@.contains(start),
            forall|i: int, j: int| 0 <= i < j < route@.len() ==> route@[i] != route@[j],
            route@.len() <= visit(old(self).seen@, goal).cost,
            final(self).seen@ == old(self).seen@,
            final(self).asked == old(self).asked,
    {
        self.trace.clear();
        let ghost seen = self.seen@;
        let mut point = goal;
        while point != start
            invariant
                self.asked == old(self).asked,
                self.seen@ == seen,
                links_back(*passable, seen, start),
                known(seen, goal),
                start != goal,
                known(seen, point),
                self.trace@.len() == 0 ==> point == goal,
                self.trace@.len() > 0 ==> self.trace@[0] == goal && is_step(
                    point,
                    self.trace@.last(),
                ) && visit(seen, point).cost < visit(seen, self.trace@.last()).cost,
                forall|i: int|
                    0 <= i < self.trace@.len() - 1 ==> is_step(
                        self.trace@[i + 1],
                        #[trigger] self.trace@[i],
                    ),
                forall|i: int|
                    0 <= i < self.trace@.len() ==> #[trigger] self.trace@[i] != start
                        && known(seen, self.trace@[i]) && approves(*passable, self.trace@[i])
                        && visit(seen, self.trace@[i]).cost > visit(seen, point).cost,
                forall|i: int, j: int|
                    0 <= i < j < self.trace@.len() ==> visit(seen, #[trigger] self.trace@[i]).cost
                        > visit(seen, #[trigger] self.trace@[j]).cost,
                self.trace@.len() + visit(seen, point).cost <= visit(seen, goal).cost,
            decreases visit(seen, point).cost,
        {
            let from = self.seen.get(&key(point)).unwrap().from;
            self.trace.push(point);
            point = from;
        }
        // Hand the route out forwards.
        let n = self.trace.len();
        let mut route: Vec<Point> = Vec::new();
        let mut i: usize = n;
        while i > 0
            invariant
                self.trace@.len() == n,
                0 <= i <= n,
                route@.len() == n - i,
                forall|j: int| 0 <= j < route@.len() ==> route@[j] == self.trace@[n - 1 - j],
            decreases i,
        {
            i = i - 1;
            route.push(self.trace[i]);
        }
        proof {
            lemma_reversed_route(*passable, seen, start, goal, self.trace@, route@);
        }
        route
    }
}

/// [`PathFinder::search`] over a fresh finder: the shortest orthogonal route
/// from `start` to `goal` through cells `ground` allows, or `None` when
/// there is none or finding one would take more than `limit` expansions,
/// which only happens where more than `limit` cells can be reached.
pub fn find_path_on<G: Ground>(start: Point, goal: Point, limit: usize, ground: &G) -> (r: Option<
    Vec<Point>,
>)
    requires
        decides(*ground),
    ensures
        start == goal ==> (r matches Some(steps) && steps@.len() == 0),
        match r {
            Some(steps) => {
                &&& is_route(*ground, start, goal, steps@)
                &&& !steps@.contains(start)
                &&& forall|i: int, j: int| 0 <= i < j < steps@.len() ==> steps@[i] != steps@[j]
                &&& forall|other: Seq<Point>|
                    is_clear_walk(*ground, start, goal, other) ==> steps@.len() <= other.len()
            },
            None => start != goal,
        },
        start != goal && rejects(*ground, goal) ==> r is None,
        start != goal && limit == 0 ==> r is None,
        r is None && start != goal ==> rejects(*ground, goal) || unreachable(*ground, start, goal)
            || plenty_reachable(*ground, start, limit as nat + 1),
        r is None && start != goal ==> rejects(*ground, goal) || blocked(*ground, start, goal)
            || plenty_reachable(*ground, start, limit as nat),
{
    let mut finder = PathFinder::new();
    let r = finder.search(start, goal, limit, ground);
    proof {
        if r is None && start != goal && !rejects(*ground, goal) && !blocked(*ground, start, goal) {
            assert(spent_on(*ground, start, finder.spec_expanded(), limit as nat));
        }
        if blocked(*ground, start, goal) {
            assert forall|w: Seq<Point>| !#[trigger] is_route(*ground, start, goal, w) by {
                if is_route(*ground, start, goal, w) {
                    lemma_route_is_clear_walk(*ground, start, goal, w);
                }
            }
        }
        if r is None && start != goal && !rejects(*ground, goal) && !unreachable(*ground, start, goal) {
            let spent = finder.spec_expanded();
            let cells = spent.insert(goal);
            assert(reachable(*ground, start, goal));
            assert forall|c: Point| #[trigger] cells.contains(c) implies reachable(*ground, start, c) by {
                if c != goal {
                    assert(spent.contains(c));
                }
            }
            assert(spent_on(*ground, start, cells, limit as nat + 1));
        }
    }
    r
}

/// [`find_path_on`] over the cells `passable` says yes to.
pub fn find_path(
    start: Point,
    goal: Point,
    limit: usize,
    passable: impl Fn(Point) -> bool,
) -> (r: Option<Vec<Point>>)
    requires
        decides(asked(passable)),
    ensures
        start == goal ==> (r matches Some(steps) && steps@.len() == 0),
        match r {
            Some(steps) => {
                &&& is_route(asked(passable), start, goal, steps@)
                &&& !steps@.contains(start)
                &&& forall|i: int, j: int| 0 <= i < j < steps@.len() ==> steps@[i] != steps@[j]
                &&& forall|other: Seq<Point>|
                    is_clear_walk(asked(passable), start, goal, other) ==> steps@.len() <= other.len()
            },
            None => start != goal,
        },
        start != goal && rejects(asked(passable), goal) ==> r is None,
        start != goal && limit == 0 ==> r is None,
        r is None && start != goal ==> rejects(asked(passable), goal) || unreachable(
            asked(passable),
            start,
            goal,
        ) || plenty_reachable(asked(passable), start, limit as nat + 1),
        r is None && start != goal ==> rejects(asked(passable), goal) || blocked(
            asked(passable),
            start,
            goal,
        ) || plenty_reachable(asked(passable), start, limit as nat),
{
    let ground = Asked { predicate: passable };
    find_path_on(start, goal, limit, &ground)
}

} // verus!
