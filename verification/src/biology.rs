//! What goes on inside a living body, as far as it is not arithmetic on
//! needs: which processes a body has, which of them are running, and what
//! can happen to it.

use vstd::prelude::*;

use crate::item::ItemKind;

verus! {

/// Every process a body can have. The position is the bit in [`Switches`]
/// and the order processes run in.
#[derive(Clone, Copy, PartialEq, Eq, Structural, PartialOrd, Ord, Hash, Debug)]
pub enum ProcessId {
    Hunger,
    Thirst,
    Bladder,
}

pub open spec fn spec_process_index(p: ProcessId) -> u8 {
    match p {
        ProcessId::Hunger => 0,
        ProcessId::Thirst => 1,
        ProcessId::Bladder => 2,
    }
}

pub open spec fn spec_bit(p: ProcessId) -> u8 {
    match p {
        ProcessId::Hunger => 1,
        ProcessId::Thirst => 2,
        ProcessId::Bladder => 4,
    }
}

pub open spec fn spec_process_name(p: ProcessId) -> Seq<char> {
    match p {
        ProcessId::Hunger => seq!['h', 'u', 'n', 'g', 'e', 'r'],
        ProcessId::Thirst => seq!['t', 'h', 'i', 'r', 's', 't'],
        ProcessId::Bladder => seq!['b', 'l', 'a', 'd', 'd', 'e', 'r'],
    }
}

impl ProcessId {
    pub const COUNT: usize = 3;

    /// Every process, in id order.
    pub fn all() -> (all: [ProcessId; 3])
        ensures
            all@ == seq![ProcessId::Hunger, ProcessId::Thirst, ProcessId::Bladder],
    {
        [ProcessId::Hunger, ProcessId::Thirst, ProcessId::Bladder]
    }

    pub fn name(self) -> (s: &'static str)
        ensures
            s@ == spec_process_name(self),
    {
        match self {
            ProcessId::Hunger => {
                proof {
                    reveal_strlit("hunger");
                }
                "hunger"
            },
            ProcessId::Thirst => {
                proof {
                    reveal_strlit("thirst");
                }
                "thirst"
            },
            ProcessId::Bladder => {
                proof {
                    reveal_strlit("bladder");
                }
                "bladder"
            },
        }
    }

    /// Its position in the run order.
    pub fn index(self) -> (i: u8)
        ensures
            i == spec_process_index(self),
    {
        match self {
            ProcessId::Hunger => 0,
            ProcessId::Thirst => 1,
            ProcessId::Bladder => 2,
        }
    }

    /// Its bit in [`Switches`]: one bit each, in id order.
    fn bit(self) -> (b: u8)
        ensures
            b == spec_bit(self),
            b == 1u8 << spec_process_index(self),
    {
        let b: u8 = match self {
            ProcessId::Hunger => 1,
            ProcessId::Thirst => 2,
            ProcessId::Bladder => 4,
        };
        proof {
            assert(1u8 << 0u8 == 1u8 && 1u8 << 1u8 == 2u8 && 1u8 << 2u8 == 4u8) by (bit_vector);
        }
        b
    }
}

/// Which of a body's processes are running: a bit per [`ProcessId`].
#[derive(Clone, Copy, PartialEq, Eq, Structural, Debug)]
pub struct Switches {
    bits: u8,
}

impl Default for Switches {
    /// Every process running, as for a new body.
    fn default() -> (s: Switches)
        ensures
            s.wf(),
            forall|p: ProcessId| s.on(p),
    {
        Switches::all()
    }
}

/// `after` is `before` with `process` turned on or off, and every other
/// process left as it was.
pub open spec fn switched(before: Switches, after: Switches, process: ProcessId, on: bool) -> bool {
    &&& after.on(process) == on
    &&& forall|p: ProcessId| p != process ==> after.on(p) == before.on(p)
    &&& before.wf() ==> after.wf()
}

impl Switches {
    /// Whether `process` is running, as the switches say.
    pub closed spec fn on(self, process: ProcessId) -> bool {
        self.bits & spec_bit(process) != 0
    }

    /// No bits beyond the processes that exist.
    pub closed spec fn wf(self) -> bool {
        self.bits & 0xf8u8 == 0
    }

    /// Every process running: what a new body has.
    pub fn all() -> (s: Switches)
        ensures
            s.wf(),
            forall|p: ProcessId| s.on(p),
    {
        let s = Switches { bits: 7 };
        proof {
            assert(7u8 & 1u8 != 0 && 7u8 & 2u8 != 0 && 7u8 & 4u8 != 0 && 7u8 & 0xf8u8 == 0) by (bit_vector);
            assert forall|p: ProcessId| s.on(p) by {
                match p {
                    ProcessId::Hunger => {},
                    ProcessId::Thirst => {},
                    ProcessId::Bladder => {},
                }
            }
        }
        s
    }

    /// No process running.
    pub fn none() -> (s: Switches)
        ensures
            s.wf(),
            forall|p: ProcessId| !s.on(p),
    {
        let s = Switches { bits: 0 };
        proof {
            assert(0u8 & 1u8 == 0 && 0u8 & 2u8 == 0 && 0u8 & 4u8 == 0 && 0u8 & 0xf8u8 == 0) by (bit_vector);
            assert forall|p: ProcessId| !s.on(p) by {
                match p {
                    ProcessId::Hunger => {},
                    ProcessId::Thirst => {},
                    ProcessId::Bladder => {},
                }
            }
        }
        s
    }

    pub fn is_on(self, process: ProcessId) -> (b: bool)
        ensures
            b == self.on(process),
    {
        self.bits & process.bit() != 0
    }

    /// The same switches with `process` turned on or off, and every other
    /// process left as it was.
    pub fn with(self, process: ProcessId, on: bool) -> (s: Switches)
        ensures
            switched(self, s, process, on),
    {
        let bit = process.bit();
        let s = if on {
            Switches { bits: self.bits | bit }
        } else {
            Switches { bits: self.bits & !bit }
        };
        proof {
            let x = self.bits;
            assert forall|p: ProcessId| p != process implies s.on(p) == self.on(p) by {
                let c = spec_bit(p);
                assert(c != bit);
                assert((c == 1u8 || c == 2u8 || c == 4u8) && (bit == 1u8 || bit == 2u8 || bit == 4u8)
                    && c != bit ==> ((x | bit) & c != 0) == (x & c != 0) && ((x & !bit) & c != 0)
                    == (x & c != 0)) by (bit_vector);
            }
            assert((bit == 1u8 || bit == 2u8 || bit == 4u8) ==> (x | bit) & bit != 0 && (x & !bit)
                & bit == 0) by (bit_vector);
            assert((bit == 1u8 || bit == 2u8 || bit == 4u8) && x & 0xf8u8 == 0 ==> (x | bit)
                & 0xf8u8 == 0 && (x & !bit) & 0xf8u8 == 0) by (bit_vector);
        }
        s
    }

    /// Switching a process and then switching it back to how it was leaves
    /// the switches exactly as they were.
    pub proof fn lemma_switch_back(self, turned: Switches, back: Switches, process: ProcessId, on: bool)
        requires
            self.wf(),
            switched(self, turned, process, on),
            switched(turned, back, process, self.on(process)),
        ensures
            back == self,
    {
        self.lemma_agree_is_equal(back);
    }

    /// Two sets of switches are the same exactly when they agree on every
    /// process.
    pub proof fn lemma_agree_is_equal(self, other: Switches)
        requires
            self.wf(),
            other.wf(),
            forall|p: ProcessId| self.on(p) == other.on(p),
        ensures
            self == other,
    {
        assert(self.on(ProcessId::Hunger) == other.on(ProcessId::Hunger));
        assert(self.on(ProcessId::Thirst) == other.on(ProcessId::Thirst));
        assert(self.on(ProcessId::Bladder) == other.on(ProcessId::Bladder));
        let (x, y) = (self.bits, other.bits);
        assert(x & 0xf8u8 == 0 && y & 0xf8u8 == 0 && ((x & 1u8 != 0) == (y & 1u8 != 0)) && ((x
            & 2u8 != 0) == (y & 2u8 != 0)) && ((x & 4u8 != 0) == (y & 4u8 != 0)) ==> x == y)
            by (bit_vector);
    }
}

/// Something that happened to a body, for its processes to hear.
#[derive(Clone, Copy, PartialEq, Eq, Structural, Debug)]
pub enum Event {
    /// Something was eaten or drunk and is gone.
    Ingested(ItemKind),
    /// A toilet was used.
    Relieved,
}

/// Hunger rising with time and falling with a meal.
#[derive(Clone, Copy, PartialEq, Eq, Structural, Debug, Default)]
pub struct Hunger;

/// Thirst rising with time and falling with a drink.
#[derive(Clone, Copy, PartialEq, Eq, Structural, Debug, Default)]
pub struct Thirst;

/// Tiredness rising while awake and falling in bed.
#[derive(Clone, Copy, PartialEq, Eq, Structural, Debug, Default)]
pub struct Energy;

/// Boredom rising with nothing to do and falling with a go on something.
#[derive(Clone, Copy, PartialEq, Eq, Structural, Debug, Default)]
pub struct Fun;

} // verus!
