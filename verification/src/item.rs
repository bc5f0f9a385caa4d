//! Things a unit can hold: [`ItemKind`]. Fieldless and `Copy`: two portions
//! of food are the same item in every way the simulation can tell apart.

use vstd::prelude::*;

verus! {

/// What is being held.
#[derive(Clone, Copy, PartialEq, Eq, Structural, Debug)]
pub enum ItemKind {
    Food,
    Water,
}

pub open spec fn spec_item_name(kind: ItemKind) -> Seq<char> {
    match kind {
        ItemKind::Food => seq!['f', 'o', 'o', 'd'],
        ItemKind::Water => seq!['w', 'a', 't', 'e', 'r'],
    }
}

impl ItemKind {
    /// How many kinds there are.
    pub const COUNT: usize = 2;

    /// Every kind there is, in declaration order.
    pub fn all() -> (all: [ItemKind; 2])
        ensures
            all@ == seq![ItemKind::Food, ItemKind::Water],
    {
        [ItemKind::Food, ItemKind::Water]
    }

    /// How it reads in a debug view.
    pub fn name(self) -> (s: &'static str)
        ensures
            s@ == spec_item_name(self),
    {
        match self {
            ItemKind::Food => {
                proof {
                    reveal_strlit("food");
                }
                "food"
            },
            ItemKind::Water => {
                proof {
                    reveal_strlit("water");
                }
                "water"
            },
        }
    }
}

} // verus!
