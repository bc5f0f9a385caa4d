//! Goals: which goals a brain can hold, what an executor says about its goal,
//! and how long a goal that found itself impossible is held off the top.

use vstd::prelude::*;

verus! {

/// Every goal a brain can hold, in storage order.
#[derive(Clone, Copy, PartialEq, Eq, Structural, PartialOrd, Ord, Hash, Debug)]
pub enum GoalId {
    /// Nothing to do: in charge when no other goal is wanted at all.
    Idle,
    Wander,
    Eat,
    Drink,
    Relieve,
    Play,
    Sleep,
}

pub open spec fn spec_goal_index(goal: GoalId) -> int {
    match goal {
        GoalId::Idle => 0,
        GoalId::Wander => 1,
        GoalId::Eat => 2,
        GoalId::Drink => 3,
        GoalId::Relieve => 4,
        GoalId::Play => 5,
        GoalId::Sleep => 6,
    }
}

pub open spec fn spec_goal_name(goal: GoalId) -> Seq<char> {
    match goal {
        GoalId::Idle => seq!['i', 'd', 'l', 'e'],
        GoalId::Wander => seq!['w', 'a', 'n', 'd', 'e', 'r'],
        GoalId::Eat => seq!['e', 'a', 't'],
        GoalId::Drink => seq!['d', 'r', 'i', 'n', 'k'],
        GoalId::Relieve => seq!['r', 'e', 'l', 'i', 'e', 'v', 'e'],
        GoalId::Play => seq!['p', 'l', 'a', 'y'],
        GoalId::Sleep => seq!['s', 'l', 'e', 'e', 'p'],
    }
}

impl GoalId {
    pub const COUNT: usize = 7;

    /// Every goal, in storage order.
    pub fn all() -> (all: [GoalId; 7])
        ensures
            forall|i: int| 0 <= i < 7 ==> spec_goal_index(#[trigger] all@[i]) == i,
    {
        [GoalId::Idle, GoalId::Wander, GoalId::Eat, GoalId::Drink, GoalId::Relieve, GoalId::Play, GoalId::Sleep]
    }

    pub fn name(self) -> (s: &'static str)
        ensures
            s@ == spec_goal_name(self),
    {
        match self {
            GoalId::Idle => {
                proof {
                    reveal_strlit("idle");
                }
                "idle"
            },
            GoalId::Wander => {
                proof {
                    reveal_strlit("wander");
                }
                "wander"
            },
            GoalId::Eat => {
                proof {
                    reveal_strlit("eat");
                }
                "eat"
            },
            GoalId::Drink => {
                proof {
                    reveal_strlit("drink");
                }
                "drink"
            },
            GoalId::Relieve => {
                proof {
                    reveal_strlit("relieve");
                }
                "relieve"
            },
            GoalId::Play => {
                proof {
                    reveal_strlit("play");
                }
                "play"
            },
            GoalId::Sleep => {
                proof {
                    reveal_strlit("sleep");
                }
                "sleep"
            },
        }
    }

    /// The emoji shown above a unit's head while this goal is in charge: one
    /// codepoint each, and never nothing.
    pub fn emoji(self) -> (s: &'static str)
        ensures
            s@.len() == 1,
    {
        match self {
            GoalId::Idle => {
                proof {
                    reveal_strlit("💤");
                }
                "💤"
            },
            GoalId::Wander => {
                proof {
                    reveal_strlit("🚶");
                }
                "🚶"
            },
            GoalId::Eat => {
                proof {
                    reveal_strlit("🍎");
                }
                "🍎"
            },
            GoalId::Drink => {
                proof {
                    reveal_strlit("💧");
                }
                "💧"
            },
            GoalId::Relieve => {
                proof {
                    reveal_strlit("🚽");
                }
                "🚽"
            },
            GoalId::Play => {
                proof {
                    reveal_strlit("🎮");
                }
                "🎮"
            },
            GoalId::Sleep => {
                proof {
                    reveal_strlit("🛌");
                }
                "🛌"
            },
        }
    }

    /// Its slot in a per-goal table.
    pub fn index(self) -> (i: usize)
        ensures
            i == spec_goal_index(self),
    {
        match self {
            GoalId::Idle => 0,
            GoalId::Wander => 1,
            GoalId::Eat => 2,
            GoalId::Drink => 3,
            GoalId::Relieve => 4,
            GoalId::Play => 5,
            GoalId::Sleep => 6,
        }
    }
}

/// What an executor says about its goal after being asked to work on it.
#[derive(Clone, Copy, PartialEq, Eq, Structural, Debug)]
pub enum GoalProgress {
    /// Still working, or this tick's attempt missed cheaply.
    Working,
    /// Done; who is in charge next is the routines' to say.
    Achieved,
    /// Cannot be done from here, and finding that out was expensive.
    Blocked,
}

/// Ticks a goal that reported itself impossible is held off the top.
pub const BLOCKED_TICKS: u16 = 32;

/// How many times [`BLOCKED_TICKS`] may double for a goal that keeps being
/// impossible.
pub const MAX_BACKOFF: u8 = 6;

/// The hold-off a goal gets after `strikes` failures in a row: doubled for
/// each, up to [`MAX_BACKOFF`] doublings.
pub open spec fn spec_hold_off(strikes: u8) -> int {
    let shift = if strikes < MAX_BACKOFF {
        strikes
    } else {
        MAX_BACKOFF
    };
    BLOCKED_TICKS * vstd::arithmetic::power2::pow2(shift as nat)
}

/// `after` is `before` with `goal` found impossible: held off for
/// [`spec_hold_off`] of its strikes so far and one strike more, saturating —
/// unless it is idle, which is never held off. Every other goal is as it was.
pub open spec fn blocked_from(before: Backoff, after: Backoff, goal: GoalId) -> bool {
    &&& goal == GoalId::Idle ==> after == before
    &&& goal != GoalId::Idle ==> {
        &&& after.spec_cooldown(goal) == spec_hold_off(before.spec_strikes(goal))
        &&& after.spec_strikes(goal) == if before.spec_strikes(goal) < u8::MAX {
            before.spec_strikes(goal) + 1
        } else {
            u8::MAX as int
        }
    }
    &&& forall|g: GoalId|
        g != goal ==> after.spec_cooldown(g) == before.spec_cooldown(g) && after.spec_strikes(g)
            == before.spec_strikes(g)
}

/// `after` is `before` with `goal` having got somewhere: its strikes back to
/// none, every cooldown and every other goal's strikes as they were.
pub open spec fn progressed_from(before: Backoff, after: Backoff, goal: GoalId) -> bool {
    &&& after.spec_strikes(goal) == 0
    &&& forall|g: GoalId| after.spec_cooldown(g) == before.spec_cooldown(g)
    &&& forall|g: GoalId| g != goal ==> after.spec_strikes(g) == before.spec_strikes(g)
}

/// Found impossible again, a goal is held off twice as long as the time
/// before — until the doubling stops at [`MAX_BACKOFF`].
pub proof fn lemma_hold_off_doubles(first: Backoff, second: Backoff, third: Backoff, goal: GoalId)
    requires
        goal != GoalId::Idle,
        blocked_from(first, second, goal),
        blocked_from(second, third, goal),
        first.spec_strikes(goal) < MAX_BACKOFF,
    ensures
        third.spec_cooldown(goal) == 2 * second.spec_cooldown(goal),
{
    let s = first.spec_strikes(goal);
    vstd::arithmetic::power2::lemma_pow2_unfold((s + 1) as nat);
}

/// However often a goal is found impossible, it is never held off longer
/// than [`BLOCKED_TICKS`] doubled [`MAX_BACKOFF`] times, and once it has
/// failed that often it is held off exactly that long.
pub proof fn lemma_hold_off_capped(strikes: u8)
    ensures
        BLOCKED_TICKS <= spec_hold_off(strikes) <= BLOCKED_TICKS * 64,
        strikes >= MAX_BACKOFF ==> spec_hold_off(strikes) == BLOCKED_TICKS * 64,
{
    vstd::arithmetic::power2::lemma2_to64();
}

/// How long each goal is held off the top of the list, and how many times
/// in a row it has been found impossible.
#[derive(Clone, Copy, PartialEq, Eq, Debug)]
pub struct Backoff {
    cooldown: [u16; 7],
    strikes: [u8; 7],
}

impl Backoff {
    pub closed spec fn spec_cooldown(&self, goal: GoalId) -> u16 {
        self.cooldown@[spec_goal_index(goal)]
    }

    pub closed spec fn spec_strikes(&self, goal: GoalId) -> u8 {
        self.strikes@[spec_goal_index(goal)]
    }

    /// Nothing held off and nothing failed yet.
    pub fn new() -> (b: Backoff)
        ensures
            forall|g: GoalId| b.spec_cooldown(g) == 0 && b.spec_strikes(g) == 0,
    {
        Backoff { cooldown: [0; 7], strikes: [0; 7] }
    }

    /// Ticks before `goal` may top the list again.
    pub fn cooldown(&self, goal: GoalId) -> (c: u16)
        ensures
            c == self.spec_cooldown(goal),
    {
        self.cooldown[goal.index()]
    }

    /// Failures of `goal` in a row.
    pub fn strikes(&self, goal: GoalId) -> (s: u8)
        ensures
            s == self.spec_strikes(goal),
    {
        self.strikes[goal.index()]
    }

    /// One tick off every cooldown, stopping at zero.
    pub fn tick_cooldowns(&mut self)
        ensures
            forall|g: GoalId|
                final(self).spec_cooldown(g) == if old(self).spec_cooldown(g) > 0 {
                    old(self).spec_cooldown(g) - 1
                } else {
                    0
                },
            forall|g: GoalId| final(self).spec_strikes(g) == old(self).spec_strikes(g),
    {
        let mut i: usize = 0;
        while i < 7
            invariant
                0 <= i <= 7,
                self.strikes@ == old(self).strikes@,
                forall|j: int|
                    0 <= j < 7 ==> self.cooldown@[j] == if j < i {
                        if old(self).cooldown@[j] > 0 {
                            (old(self).cooldown@[j] - 1) as u16
                        } else {
                            0
                        }
                    } else {
                        old(self).cooldown@[j]
                    },
            decreases 7 - i,
        {
            let c = self.cooldown[i];
            self.cooldown[i] = c.saturating_sub(1);
            i = i + 1;
        }
        proof {
            assert forall|g: GoalId|
                self.spec_cooldown(g) == if old(self).spec_cooldown(g) > 0 {
                    old(self).spec_cooldown(g) - 1
                } else {
                    0
                } by {
                let j = spec_goal_index(g);
                assert(0 <= j < 7);
            }
        }
    }

    /// `goal` found out it cannot be done from here: hold it off for
    /// [`BLOCKED_TICKS`], doubled for every time in a row this has happened.
    /// Idle is never held off: it is what is left when nothing is wanted.
    pub fn block(&mut self, goal: GoalId)
        ensures
            blocked_from(*old(self), *final(self), goal),
    {
        if goal == GoalId::Idle {
            return;
        }
        let i = goal.index();
        let strikes = self.strikes[i];
        let shift: u16 = if strikes < MAX_BACKOFF {
            strikes as u16
        } else {
            MAX_BACKOFF as u16
        };
        proof {
            vstd::arithmetic::power2::lemma2_to64();
            assert(BLOCKED_TICKS << shift == BLOCKED_TICKS * vstd::arithmetic::power2::pow2(shift as nat)) by {
                assert(32u16 << 0u16 == 32u16 && 32u16 << 1u16 == 64u16 && 32u16 << 2u16 == 128u16
                    && 32u16 << 3u16 == 256u16 && 32u16 << 4u16 == 512u16 && 32u16 << 5u16
                    == 1024u16 && 32u16 << 6u16 == 2048u16) by (bit_vector);
            }
        }
        self.cooldown[i] = BLOCKED_TICKS << shift;
        self.strikes[i] = strikes.saturating_add(1);
    }

    /// `goal` got somewhere: its next failure starts the back-off again from
    /// the bottom.
    pub fn progressed(&mut self, goal: GoalId)
        ensures
            progressed_from(*old(self), *final(self), goal),
    {
        self.strikes[goal.index()] = 0;
    }
}

} // verus!
