//! The simulation's log: a bounded ring of lines, newest kept.
//!
//! A full log forgets its oldest line to make room and counts what it lost,
//! because the end of a log is what a reader wants. Lines come back in the
//! order they went in, each once.

use vstd::prelude::*;

use crossbeam_queue::ArrayQueue;

verus! {

#[verifier::external_type_specification]
#[verifier::external_body]
#[verifier::reject_recursive_types(T)]
pub struct ExArrayQueue<T>(ArrayQueue<T>);

/// The lines a queue holds, oldest first.
pub uninterp spec fn queued(q: ArrayQueue<String>) -> Seq<Seq<char>>;

/// How many lines a queue was made to hold.
pub uninterp spec fn capacity_of(q: ArrayQueue<String>) -> nat;

/// `ArrayQueue::new(cap)`: an empty queue that holds `cap` lines. The crate
/// panics on a capacity of zero, and on one whose lap does not fit in a
/// `usize`, which is ruled out here.
#[verifier::external_body]
fn new_queue(cap: usize) -> (q: ArrayQueue<String>)
    requires
        0 < cap <= usize::MAX / 2,
    ensures
        queued(q) == Seq::<Seq<char>>::empty(),
        capacity_of(q) == cap,
{
    ArrayQueue::new(cap)
}

/// `ArrayQueue::force_push`: the line goes on the back; when the queue was
/// full its oldest line is taken off the front to make room, and handed
/// back.
#[verifier::external_body]
fn force_push_line(q: &mut ArrayQueue<String>, line: String) -> (out: Option<String>)
    requires
        queued(*old(q)).len() <= capacity_of(*old(q)),
        capacity_of(*old(q)) > 0,
    ensures
        capacity_of(*final(q)) == capacity_of(*old(q)),
        queued(*old(q)).len() < capacity_of(*old(q)) ==> queued(*final(q)) == queued(*old(q)).push(line@)
            && out is None,
        queued(*old(q)).len() == capacity_of(*old(q)) ==> queued(*final(q)) == queued(*old(q)).drop_first().push(
            line@,
        ) && out is Some && out->0@ == queued(*old(q))[0],
{
    q.force_push(line)
}

/// `ArrayQueue::pop`: the oldest line off the front, or `None` when there
/// is none.
#[verifier::external_body]
fn pop_line(q: &mut ArrayQueue<String>) -> (out: Option<String>)
    ensures
        capacity_of(*final(q)) == capacity_of(*old(q)),
        queued(*old(q)).len() == 0 ==> out is None && queued(*final(q)) == queued(*old(q)),
        queued(*old(q)).len() > 0 ==> out is Some && out->0@ == queued(*old(q))[0] && queued(*final(q))
            == queued(*old(q)).drop_first(),
{
    q.pop()
}

/// `ArrayQueue::len`: how many lines the queue holds.
#[verifier::external_body]
fn queue_len(q: &ArrayQueue<String>) -> (n: usize)
    ensures
        n == queued(*q).len(),
{
    q.len()
}

/// How many lines a log holds unless it is made with another capacity.
pub const CAPACITY: usize = 1024;

/// What [`Log::drain`] does: every line the log held comes out, oldest
/// first, and the log is left empty with its capacity and count of lost
/// lines as they were.
pub open spec fn drained(before: Log, after: Log, out: Seq<Seq<char>>) -> bool {
    &&& out == before.spec_lines()
    &&& after.spec_lines() == Seq::<Seq<char>>::empty()
    &&& after.spec_capacity() == before.spec_capacity()
    &&& after.spec_dropped() == before.spec_dropped()
}

/// A line is delivered once: draining twice with nothing pushed in between
/// gives everything the first time and nothing the second.
pub proof fn lemma_drained_once(first: Log, second: Log, third: Log, a: Seq<Seq<char>>, b: Seq<Seq<char>>)
    requires
        drained(first, second, a),
        drained(second, third, b),
    ensures
        a == first.spec_lines(),
        b.len() == 0,
        third.spec_lines().len() == 0,
{
}

/// The log itself: the lines, and how many were lost to a full log.
pub struct Log {
    lines: ArrayQueue<String>,
    dropped: u64,
}

impl Log {
    pub closed spec fn wf(&self) -> bool {
        &&& queued(self.lines).len() <= capacity_of(self.lines)
        &&& capacity_of(self.lines) > 0
    }

    /// The lines held, oldest first.
    pub closed spec fn spec_lines(&self) -> Seq<Seq<char>> {
        queued(self.lines)
    }

    /// How many lines it holds at most.
    pub closed spec fn spec_capacity(&self) -> nat {
        capacity_of(self.lines)
    }

    /// How many lines a full log has lost.
    pub closed spec fn spec_dropped(&self) -> u64 {
        self.dropped
    }

    /// An empty log of the usual [`CAPACITY`].
    pub fn new() -> (log: Log)
        ensures
            log.wf(),
            log.spec_lines() == Seq::<Seq<char>>::empty(),
            log.spec_capacity() == CAPACITY,
            log.spec_dropped() == 0,
    {
        Log::with_capacity(CAPACITY)
    }

    /// An empty log holding `capacity` lines — at least one, so a log made
    /// with none still accepts a line.
    pub fn with_capacity(capacity: usize) -> (log: Log)
        requires
            capacity <= usize::MAX / 2,
        ensures
            log.wf(),
            log.spec_lines() == Seq::<Seq<char>>::empty(),
            log.spec_capacity() == if capacity == 0 {
                1
            } else {
                capacity
            },
            log.spec_dropped() == 0,
    {
        let cap = if capacity == 0 {
            1
        } else {
            capacity
        };
        Log { lines: new_queue(cap), dropped: 0 }
    }

    /// Add a line. A full log loses its oldest line to make room, and counts
    /// it.
    pub fn push(&mut self, line: String)
        requires
            old(self).wf(),
        ensures
            final(self).wf(),
            final(self).spec_capacity() == old(self).spec_capacity(),
            old(self).spec_lines().len() < old(self).spec_capacity() ==> {
                &&& final(self).spec_lines() == old(self).spec_lines().push(line@)
                &&& final(self).spec_dropped() == old(self).spec_dropped()
            },
            old(self).spec_lines().len() == old(self).spec_capacity() ==> {
                &&& final(self).spec_lines() == old(self).spec_lines().drop_first().push(line@)
                &&& final(self).spec_dropped() == vstd::wrapping::u64_specs::wrapping_add(old(self).spec_dropped(), 1u64)
            },
    {
        if force_push_line(&mut self.lines, line).is_some() {
            self.dropped = self.dropped.wrapping_add(1);
        }
    }

    /// Take every line, oldest first: a line is delivered once.
    pub fn drain(&mut self) -> (out: Vec<String>)
        requires
            old(self).wf(),
        ensures
            final(self).wf(),
            drained(*old(self), *final(self), out@.map_values(|s: String| s@)),
    {
        let mut out: Vec<String> = Vec::new();
        loop
            invariant
                self.wf(),
                self.spec_capacity() == old(self).spec_capacity(),
                self.dropped == old(self).dropped,
                out@.map_values(|s: String| s@) + self.spec_lines() == old(self).spec_lines(),
            ensures
                self.wf(),
                self.spec_capacity() == old(self).spec_capacity(),
                self.dropped == old(self).dropped,
                self.spec_lines() == Seq::<Seq<char>>::empty(),
                out@.map_values(|s: String| s@) == old(self).spec_lines(),
            decreases self.spec_lines().len(),
        {
            let ghost before = self.spec_lines();
            let ghost got = out@;
            match pop_line(&mut self.lines) {
                Some(line) => {
                    out.push(line);
                    proof {
                        assert(out@.map_values(|s: String| s@) =~= got.map_values(|s: String| s@).push(before[0]));
                        assert(out@.map_values(|s: String| s@) + self.spec_lines() =~= got.map_values(|s: String| s@)
                            + before);
                    }
                },
                None => {
                    proof {
                        assert(self.spec_lines() =~= Seq::<Seq<char>>::empty());
                        assert(out@.map_values(|s: String| s@) + self.spec_lines() =~= out@.map_values(
                            |s: String| s@,
                        ));
                    }
                    break;
                },
            }
        }
        out
    }

    /// How many lines it holds.
    pub fn len(&self) -> (n: usize)
        ensures
            n == self.spec_lines().len(),
    {
        queue_len(&self.lines)
    }

    pub fn is_empty(&self) -> (b: bool)
        ensures
            b == (self.spec_lines().len() == 0),
    {
        queue_len(&self.lines) == 0
    }

    /// How many lines a full log has lost.
    pub fn dropped(&self) -> (n: u64)
        ensures
            n == self.spec_dropped(),
    {
        self.dropped
    }
}

impl Default for Log {
    /// An empty log of the usual capacity.
    fn default() -> (log: Log)
        ensures
            log.wf(),
            log.spec_lines() == Seq::<Seq<char>>::empty(),
            log.spec_capacity() == CAPACITY,
            log.spec_dropped() == 0,
    {
        Log::new()
    }
}

} // verus!
