//! What a task says about itself, and where an action has got to.

use vstd::prelude::*;

use crate::item::ItemKind;
use crate::map::Point;

verus! {

/// One step of a plan: what a task is, without how long its action takes.
/// Each kind of step always takes the same time, so the step is all a goal
/// decides.
#[derive(Clone, Copy, PartialEq, Eq, Structural, Debug)]
pub enum Step {
    /// Walk until standing in the middle of `cell`.
    MoveTo { cell: Point },
    /// Take `item` out of whatever is in `from`, from a cell beside it.
    Take { from: Point, item: ItemKind },
    /// Use up the `item` in hand.
    Consume { item: ItemKind },
    /// Use the toilet in `toilet`.
    UseToilet { toilet: Point },
    /// Have a go on the computer in `computer`, from a cell beside it.
    UseComputer { computer: Point },
    /// Get into the bed in `bed` and sleep a stretch in it.
    Sleep { bed: Point },
    /// Stand still a moment, for somebody in the way to move.
    Wait,
}

/// How many steps a queue holds at most.
pub const CAPACITY: usize = 8;

/// Double-ended, fixed capacity, inline. A push into a full queue is refused,
/// not grown.
#[derive(Clone, Copy, Debug)]
pub struct Tasks<T: Copy> {
    slots: [Option<T>; 8],
    /// Index of the front task.
    head: usize,
    len: usize,
    result: TaskResult,
}

impl<T: Copy> Tasks<T> {
    pub closed spec fn wf(&self) -> bool {
        &&& self.head < 8
        &&& self.len <= 8
        &&& forall|i: int| 0 <= i < self.len ==> (#[trigger] self.slots@[(self.head + i) % 8]) is Some
    }

    /// The queued tasks, front to back.
    pub closed spec fn view_tasks(&self) -> Seq<T> {
        Seq::new(self.len as nat, |i: int| self.slots@[(self.head + i) % 8].unwrap())
    }

    /// What the most recent task wrote.
    pub closed spec fn spec_result(&self) -> TaskResult {
        self.result
    }

    /// A queue never holds more than [`CAPACITY`] tasks.
    pub proof fn lemma_within_capacity(&self)
        requires
            self.wf(),
        ensures
            self.view_tasks().len() <= CAPACITY,
    {
    }

    pub fn new() -> (q: Tasks<T>)
        ensures
            q.wf(),
            q.view_tasks().len() == 0,
            q.spec_result() == TaskResult::InProgress,
    {
        Tasks { slots: [None, None, None, None, None, None, None, None], head: 0, len: 0, result: TaskResult::InProgress }
    }

    pub fn len(&self) -> (n: usize)
        requires
            self.wf(),
        ensures
            n == self.view_tasks().len(),
            n <= CAPACITY,
    {
        self.len
    }

    pub fn is_empty(&self) -> (b: bool)
        requires
            self.wf(),
        ensures
            b == (self.view_tasks().len() == 0),
    {
        self.len == 0
    }

    pub fn is_full(&self) -> (b: bool)
        requires
            self.wf(),
        ensures
            b == (self.view_tasks().len() == CAPACITY),
    {
        self.len == CAPACITY
    }

    /// The next task to run.
    pub fn front(&self) -> (t: Option<T>)
        requires
            self.wf(),
        ensures
            t == if self.view_tasks().len() == 0 {
                None
            } else {
                Some(self.view_tasks()[0])
            },
    {
        if self.len == 0 {
            None
        } else {
            proof {
                assert(self.slots@[(self.head + 0) % 8] is Some);
            }
            self.slots[self.head]
        }
    }

    /// The last task queued.
    pub fn back(&self) -> (t: Option<T>)
        requires
            self.wf(),
        ensures
            t == if self.view_tasks().len() == 0 {
                None
            } else {
                Some(self.view_tasks().last())
            },
    {
        if self.len == 0 {
            None
        } else {
            let at = (self.head + self.len - 1) % CAPACITY;
            proof {
                assert(self.slots@[(self.head + (self.len - 1)) % 8] is Some);
            }
            self.slots[at]
        }
    }

    /// Queue a task to run next. `false`, and nothing changes, when the queue
    /// is full.
    pub fn push_front(&mut self, task: T) -> (pushed: bool)
        requires
            old(self).wf(),
        ensures
            final(self).wf(),
            old(self).view_tasks().len() <= CAPACITY,
            final(self).view_tasks().len() <= CAPACITY,
            pushed == (old(self).view_tasks().len() < CAPACITY),
            pushed ==> final(self).view_tasks() == seq![task] + old(self).view_tasks(),
            !pushed ==> final(self).view_tasks() == old(self).view_tasks(),
            final(self).spec_result() == old(self).spec_result(),
    {
        if self.len == CAPACITY {
            return false;
        }
        let ghost before = self.view_tasks();
        let head = (self.head + CAPACITY - 1) % CAPACITY;
        self.slots[head] = Some(task);
        let ghost old_head = self.head;
        self.head = head;
        self.len = self.len + 1;
        proof {
            assert forall|i: int| 0 <= i < self.len implies (#[trigger] self.slots@[(self.head + i) % 8]) is Some by {
                if i > 0 {
                    lemma_step_back(old_head as int, i);
                    assert(old(self).slots@[(old_head + (i - 1)) % 8] is Some);
                }
            }
            assert(self.view_tasks() =~= seq![task] + before) by {
                assert forall|i: int| 0 <= i < self.len implies self.view_tasks()[i] == (seq![task] + before)[i] by {
                    if i > 0 {
                        lemma_step_back(old_head as int, i);
                    }
                }
            }
        }
        true
    }

    /// Queue a task to run after everything already queued. `false`, and
    /// nothing changes, when the queue is full.
    pub fn push_back(&mut self, task: T) -> (pushed: bool)
        requires
            old(self).wf(),
        ensures
            final(self).wf(),
            old(self).view_tasks().len() <= CAPACITY,
            final(self).view_tasks().len() <= CAPACITY,
            pushed == (old(self).view_tasks().len() < CAPACITY),
            pushed ==> final(self).view_tasks() == old(self).view_tasks().push(task),
            !pushed ==> final(self).view_tasks() == old(self).view_tasks(),
            final(self).spec_result() == old(self).spec_result(),
    {
        if self.len == CAPACITY {
            return false;
        }
        let ghost before = self.view_tasks();
        let at = (self.head + self.len) % CAPACITY;
        self.slots[at] = Some(task);
        self.len = self.len + 1;
        proof {
            assert forall|i: int| 0 <= i < self.len implies (#[trigger] self.slots@[(self.head + i) % 8]) is Some by {
                if i < self.len - 1 {
                    assert(old(self).slots@[(self.head + i) % 8] is Some);
                }
            }
            assert(self.view_tasks() =~= before.push(task)) by {
                assert forall|i: int| 0 <= i < self.len - 1 implies self.view_tasks()[i] == before[i] by {
                    assert((self.head + i) % 8 != at);
                }
            }
        }
        true
    }

    /// Take the next task off the front.
    pub fn pop_front(&mut self) -> (t: Option<T>)
        requires
            old(self).wf(),
        ensures
            final(self).wf(),
            t == if old(self).view_tasks().len() == 0 {
                None
            } else {
                Some(old(self).view_tasks()[0])
            },
            final(self).view_tasks() == if old(self).view_tasks().len() == 0 {
                old(self).view_tasks()
            } else {
                old(self).view_tasks().drop_first()
            },
            final(self).spec_result() == old(self).spec_result(),
    {
        if self.len == 0 {
            return None;
        }
        let ghost before = self.view_tasks();
        let ghost old_head = self.head;
        proof {
            assert(self.slots@[(self.head + 0) % 8] is Some);
        }
        let task = self.slots[self.head];
        self.slots[self.head] = None;
        self.head = (self.head + 1) % CAPACITY;
        self.len = self.len - 1;
        proof {
            assert forall|i: int| 0 <= i < self.len implies (#[trigger] self.slots@[(self.head + i) % 8]) is Some by {
                assert((self.head + i) % 8 == (old_head + (i + 1)) % 8);
                assert(old(self).slots@[(old_head + (i + 1)) % 8] is Some);
                assert((old_head + (i + 1)) % 8 != old_head);
            }
            assert(self.view_tasks() =~= before.drop_first()) by {
                assert forall|i: int| 0 <= i < self.len implies self.view_tasks()[i] == before[i + 1] by {
                    assert((self.head + i) % 8 == (old_head + (i + 1)) % 8);
                    assert((old_head + (i + 1)) % 8 != old_head);
                }
            }
        }
        task
    }

    /// Drop every queued task. The result is left alone: it is about a task
    /// that already ran.
    pub fn clear(&mut self)
        requires
            old(self).wf(),
        ensures
            final(self).wf(),
            final(self).view_tasks().len() == 0,
            final(self).spec_result() == old(self).spec_result(),
    {
        self.slots = [None, None, None, None, None, None, None, None];
        self.head = 0;
        self.len = 0;
    }

    /// The queued tasks, front to back.
    pub fn to_vec(&self) -> (v: Vec<T>)
        requires
            self.wf(),
        ensures
            v@ == self.view_tasks(),
    {
        let mut v: Vec<T> = Vec::new();
        let mut i: usize = 0;
        while i < self.len
            invariant
                self.wf(),
                0 <= i <= self.len,
                v@ == self.view_tasks().subrange(0, i as int),
            decreases self.len - i,
        {
            let at = (self.head + i) % CAPACITY;
            proof {
                assert(self.slots@[(self.head + i) % 8] is Some);
            }
            v.push(self.slots[at].unwrap());
            proof {
                assert(self.view_tasks().subrange(0, i + 1) =~= self.view_tasks().subrange(0, i as int).push(self.view_tasks()[i as int]));
            }
            i = i + 1;
        }
        proof {
            assert(self.view_tasks().subrange(0, self.len as int) =~= self.view_tasks());
        }
        v
    }

    /// What the most recent task wrote.
    pub fn result(&self) -> (r: TaskResult)
        ensures
            r == self.spec_result(),
    {
        self.result
    }

    /// Where a task's result is written.
    pub fn set_result(&mut self, result: TaskResult)
        ensures
            final(self).spec_result() == result,
            final(self).view_tasks() == old(self).view_tasks(),
            old(self).wf() ==> final(self).wf(),
    {
        self.result = result;
    }
}

/// Where an action has got to.
#[derive(Clone, Copy, PartialEq, Eq, Structural, Debug)]
pub enum ActionState {
    Running,
    Finished,
    Failed,
}

/// What a task says about itself, and what the goal that queued it reads.
#[derive(Clone, Copy, PartialEq, Eq, Structural, Debug, Default)]
pub enum TaskResult {
    /// The task has not got an action going; also what a goal is handed when
    /// no task has ended since it was last asked.
    #[default]
    InProgress,
    /// Its action is running.
    Executing,
    Failed,
    Success,
}

pub open spec fn spec_result_name(r: TaskResult) -> Seq<char> {
    match r {
        TaskResult::InProgress => seq!['i', 'n', ' ', 'p', 'r', 'o', 'g', 'r', 'e', 's', 's'],
        TaskResult::Executing => seq!['e', 'x', 'e', 'c', 'u', 't', 'i', 'n', 'g'],
        TaskResult::Failed => seq!['f', 'a', 'i', 'l', 'e', 'd'],
        TaskResult::Success => seq!['s', 'u', 'c', 'c', 'e', 's', 's'],
    }
}

pub open spec fn spec_result_of(state: ActionState) -> TaskResult {
    match state {
        ActionState::Running => TaskResult::Executing,
        ActionState::Finished => TaskResult::Success,
        ActionState::Failed => TaskResult::Failed,
    }
}

impl TaskResult {
    pub fn name(self) -> (s: &'static str)
        ensures
            s@ == spec_result_name(self),
    {
        match self {
            TaskResult::InProgress => {
                proof {
                    reveal_strlit("in progress");
                }
                "in progress"
            },
            TaskResult::Executing => {
                proof {
                    reveal_strlit("executing");
                }
                "executing"
            },
            TaskResult::Failed => {
                proof {
                    reveal_strlit("failed");
                }
                "failed"
            },
            TaskResult::Success => {
                proof {
                    reveal_strlit("success");
                }
                "success"
            },
        }
    }

    /// Whether this is the end of a task rather than the middle of one.
    pub fn is_finished(self) -> (b: bool)
        ensures
            b == (self == TaskResult::Failed || self == TaskResult::Success),
    {
        match self {
            TaskResult::Failed | TaskResult::Success => true,
            _ => false,
        }
    }

    /// The result an action's state makes, for a task whose action is all
    /// there is to it.
    pub fn of(state: ActionState) -> (r: TaskResult)
        ensures
            r == spec_result_of(state),
    {
        match state {
            ActionState::Running => TaskResult::Executing,
            ActionState::Finished => TaskResult::Success,
            ActionState::Failed => TaskResult::Failed,
        }
    }
}

/// Stepping the head back one slot moves every later slot's position back by
/// one, and never onto the new head.
proof fn lemma_step_back(h: int, i: int)
    requires
        0 <= h < 8,
        0 < i <= 8,
    ensures
        ((h + 7) % 8 + i) % 8 == (h + (i - 1)) % 8,
        i < 8 ==> (h + (i - 1)) % 8 != (h + 7) % 8,
{
}

} // verus!
