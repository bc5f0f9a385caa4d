//! What a unit carries: one item in hand, and a count of each kind stowed.
//!
//! How much a unit can carry is weighed in kilograms and litres, which are
//! the caller's to weigh; what is in hand and how many of each kind are
//! stowed is kept here, and a stow the weighing allows is still refused when
//! the count of that kind is at its most.

use vstd::prelude::*;

use crate::item::{spec_item_name, ItemKind};
use crate::uid::{hex_digit, hex_str};

verus! {

/// `n` in decimal, with no leading zeros.
pub open spec fn decimal(n: nat) -> Seq<char>
    decreases n,
{
    if n < 10 {
        seq![hex_digit(n as int)]
    } else {
        decimal(n / 10).push(hex_digit((n % 10) as int))
    }
}

/// One kind stowed, as a debug view reads it: `2 food`.
pub open spec fn entry_text(entry: (ItemKind, u8)) -> Seq<char> {
    decimal(entry.1 as nat) + " "@ + spec_item_name(entry.0)
}

/// The entries' texts, one after another, with `, ` between them.
pub open spec fn joined(entries: Seq<(ItemKind, u8)>) -> Seq<char>
    decreases entries.len(),
{
    if entries.len() == 0 {
        seq![]
    } else if entries.len() == 1 {
        entry_text(entries[0])
    } else {
        joined(entries.drop_last()) + ", "@ + entry_text(entries.last())
    }
}

fn push_decimal(out: &mut String, n: u8)
    ensures
        final(out)@ == old(out)@ + decimal(n as nat),
    decreases n,
{
    if n >= 10 {
        push_decimal(out, n / 10);
    }
    out.append(hex_str((n % 10) as u64));
    proof {
        assert(final(out)@ =~= old(out)@ + decimal(n as nat));
    }
}

/// The slot of `item` in the per-kind counts.
pub open spec fn kind_slot(item: ItemKind) -> int {
    match item {
        ItemKind::Food => 0,
        ItemKind::Water => 1,
    }
}

fn slot_of(item: ItemKind) -> (i: usize)
    ensures
        i == kind_slot(item),
{
    match item {
        ItemKind::Food => 0,
        ItemKind::Water => 1,
    }
}

/// What a unit carries.
#[derive(Clone, Copy, PartialEq, Eq, Debug)]
pub struct Inventory {
    hand: Option<ItemKind>,
    counts: [u8; 2],
}

impl Inventory {
    /// The most of one kind that can be stowed.
    pub const MOST_OF_A_KIND: u8 = 255;

    pub closed spec fn spec_hand(&self) -> Option<ItemKind> {
        self.hand
    }

    pub closed spec fn spec_count(&self, item: ItemKind) -> u8 {
        self.counts@[kind_slot(item)]
    }

    /// Each kind stowed, with how many, in kind order; kinds with none left
    /// out.
    pub open spec fn spec_stowed(&self) -> Seq<(ItemKind, u8)> {
        seq![(ItemKind::Food, self.spec_count(ItemKind::Food)), (ItemKind::Water, self.spec_count(ItemKind::Water))].filter(
            |e: (ItemKind, u8)| e.1 > 0,
        )
    }

    /// Empty-handed, with nothing stowed.
    pub fn new() -> (inv: Inventory)
        ensures
            inv.spec_hand() is None,
            forall|item: ItemKind| inv.spec_count(item) == 0,
    {
        Inventory { hand: None, counts: [0, 0] }
    }

    /// What is in hand.
    pub fn hand(&self) -> (h: Option<ItemKind>)
        ensures
            h == self.spec_hand(),
    {
        self.hand
    }

    /// Put `item` in hand, or empty it; answers what was there.
    pub fn set_hand(&mut self, item: Option<ItemKind>) -> (was: Option<ItemKind>)
        ensures
            was == old(self).spec_hand(),
            final(self).spec_hand() == item,
            forall|k: ItemKind| final(self).spec_count(k) == old(self).spec_count(k),
    {
        let was = self.hand;
        self.hand = item;
        was
    }

    /// How many of `item` are stowed.
    pub fn count(&self, item: ItemKind) -> (n: u8)
        ensures
            n == self.spec_count(item),
    {
        self.counts[slot_of(item)]
    }

    /// Nothing in hand and nothing stowed.
    pub fn is_empty(&self) -> (b: bool)
        ensures
            b == (self.spec_hand() is None && forall|k: ItemKind| self.spec_count(k) == 0),
    {
        let b = self.hand.is_none() && self.counts[0] == 0 && self.counts[1] == 0;
        proof {
            assert(self.spec_count(ItemKind::Food) == self.counts@[0]);
            assert(self.spec_count(ItemKind::Water) == self.counts@[1]);
            if !b && self.hand.is_none() {
                assert(self.spec_count(ItemKind::Food) != 0 || self.spec_count(ItemKind::Water) != 0);
            }
        }
        b
    }

    /// How many items are stowed, of every kind together.
    pub fn stowed_items(&self) -> (n: u32)
        ensures
            n == self.spec_count(ItemKind::Food) + self.spec_count(ItemKind::Water),
    {
        self.counts[0] as u32 + self.counts[1] as u32
    }

    /// Each kind stowed, with how many, in kind order; kinds with none left
    /// out.
    pub fn stowed(&self) -> (kinds: Vec<(ItemKind, u8)>)
        ensures
            kinds@ == self.spec_stowed(),
    {
        let mut kinds: Vec<(ItemKind, u8)> = Vec::new();
        let food = self.counts[0];
        let water = self.counts[1];
        if food > 0 {
            kinds.push((ItemKind::Food, food));
        }
        if water > 0 {
            kinds.push((ItemKind::Water, water));
        }
        proof {
            let all = seq![(ItemKind::Food, food), (ItemKind::Water, water)];
            reveal_with_fuel(Seq::filter, 3);
            assert(all.drop_last() =~= seq![(ItemKind::Food, food)]);
            assert(all.drop_last().drop_last() =~= Seq::<(ItemKind, u8)>::empty());
            assert(kinds@ =~= all.filter(|e: (ItemKind, u8)| e.1 > 0));
        }
        kinds
    }

    /// What is stowed, as a debug view reads it: `2 food, 1 water`, or
    /// `nothing`.
    pub fn describe_stowed(&self) -> (text: String)
        ensures
            text@ == if self.spec_stowed().len() == 0 {
                "nothing"@
            } else {
                joined(self.spec_stowed())
            },
    {
        let kinds = self.stowed();
        if kinds.len() == 0 {
            return String::from_str("nothing");
        }
        let mut text = String::new();
        let mut i: usize = 0;
        while i < kinds.len()
            invariant
                i <= kinds@.len(),
                text@ == joined(kinds@.take(i as int)),
            decreases kinds@.len() - i,
        {
            let (kind, count) = kinds[i];
            let ghost before = text@;
            if i > 0 {
                text.append(", ");
            }
            push_decimal(&mut text, count);
            text.append(" ");
            text.append(kind.name());
            proof {
                let next = kinds@.take(i + 1);
                assert(next.drop_last() =~= kinds@.take(i as int));
                assert(next.last() == (kind, count));
                if i == 0 {
                    assert(before =~= Seq::<char>::empty());
                    assert(text@ =~= entry_text(next[0]));
                } else {
                    assert(text@ =~= before + ", "@ + entry_text(next.last()));
                }
            }
            i = i + 1;
        }
        proof {
            assert(kinds@.take(kinds@.len() as int) =~= kinds@);
        }
        text
    }

    /// Stow one more `item`, if `fits` — the weighing allowed it — and the
    /// count of that kind is not at its most. Answers whether it was.
    pub fn stow(&mut self, item: ItemKind, fits: bool) -> (stowed: bool)
        ensures
            stowed == (fits && old(self).spec_count(item) < Inventory::MOST_OF_A_KIND),
            stowed ==> final(self).spec_count(item) == old(self).spec_count(item) + 1,
            forall|k: ItemKind| k != item ==> final(self).spec_count(k) == old(self).spec_count(k),
            !stowed ==> *final(self) == *old(self),
            final(self).spec_hand() == old(self).spec_hand(),
    {
        let i = slot_of(item);
        if !fits || self.counts[i] >= Inventory::MOST_OF_A_KIND {
            return false;
        }
        self.counts[i] = self.counts[i] + 1;
        proof {
            assert forall|k: ItemKind| k != item implies self.spec_count(k) == old(self).spec_count(k) by {
                assert(kind_slot(k) != kind_slot(item));
            }
        }
        true
    }

    /// Take one `item` out of the stowed ones. Answers whether there was one.
    pub fn take_out(&mut self, item: ItemKind) -> (taken: bool)
        ensures
            taken == (old(self).spec_count(item) > 0),
            taken ==> final(self).spec_count(item) + 1 == old(self).spec_count(item),
            forall|k: ItemKind| k != item ==> final(self).spec_count(k) == old(self).spec_count(k),
            !taken ==> *final(self) == *old(self),
            final(self).spec_hand() == old(self).spec_hand(),
    {
        let i = slot_of(item);
        if self.counts[i] == 0 {
            return false;
        }
        self.counts[i] = self.counts[i] - 1;
        proof {
            assert forall|k: ItemKind| k != item implies self.spec_count(k) == old(self).spec_count(k) by {
                assert(kind_slot(k) != kind_slot(item));
            }
        }
        true
    }
}

} // verus!
