//! One highlight, moved by every input device: where a direction leads from
//! the focused widget.
//!
//! A widget declares where it sits in its screen's grid, and directional
//! movement is worked out from those coordinates rather than from the order
//! the widgets were made in, so a list of rows with buttons along each one
//! navigates the way it looks.

use vstd::prelude::*;

use crate::map::abs_int;

verus! {

#[derive(Clone, Copy, PartialEq, Eq, Structural, Debug)]
pub enum Dir {
    Up,
    Down,
    Left,
    Right,
}

/// A widget that can hold focus, and where it sits in its screen's grid.
#[derive(Clone, Copy, PartialEq, Eq, Structural, Debug)]
pub struct Focusable {
    pub row: i32,
    pub col: i32,
    /// Which layer of the screen it belongs to: focus never leaves the layer
    /// that owns input, which is what makes a modal modal.
    pub scope: u8,
}

impl Focusable {
    /// A widget of the screen itself.
    pub fn new(row: i32, col: i32) -> (f: Focusable)
        ensures
            f == (Focusable { row, col, scope: 0 }),
    {
        Focusable { row, col, scope: 0 }
    }

    /// The same widget, in a modal layer.
    pub fn in_scope(self, scope: u8) -> (f: Focusable)
        ensures
            f == (Focusable { scope, ..self }),
    {
        Focusable { scope, ..self }
    }
}

/// How far apart two widgets' columns are.
pub open spec fn col_gap(a: Focusable, b: Focusable) -> int {
    abs_int(a.col - b.col)
}

/// Whether `s` lies along `here`'s row in the direction asked: to the right
/// when `forward`, to the left otherwise.
pub open spec fn along_row(here: Focusable, s: Focusable, forward: bool) -> bool {
    s.row == here.row && if forward {
        s.col > here.col
    } else {
        s.col < here.col
    }
}

/// Whether row `a` is further on than row `b` going down, or going up.
pub open spec fn row_before(a: i32, b: i32, down: bool) -> bool {
    if down {
        a < b
    } else {
        a > b
    }
}

/// Whether some widget of `slots` sits in a row past `here`'s, going the way
/// asked.
pub open spec fn has_row_past(slots: Seq<Focusable>, here: Focusable, down: bool) -> bool {
    exists|j: int| 0 <= j < slots.len() && row_before(here.row, (#[trigger] slots[j]).row, down)
}

/// Whether `row` is the row a vertical move from `here` lands in: the next
/// row of widgets the way asked, or, past the end, the first row from the
/// other end.
pub open spec fn is_landing_row(slots: Seq<Focusable>, here: Focusable, down: bool, row: i32) -> bool {
    &&& exists|j: int| 0 <= j < slots.len() && (#[trigger] slots[j]).row == row
    &&& if has_row_past(slots, here, down) {
        &&& row_before(here.row, row, down)
        &&& forall|j: int|
            0 <= j < slots.len() && row_before(here.row, (#[trigger] slots[j]).row, down) ==> !row_before(
                slots[j].row,
                row,
                down,
            )
    } else {
        forall|j: int| 0 <= j < slots.len() ==> !row_before((#[trigger] slots[j]).row, row, down)
    }
}

/// Within the landing row, `a` is a better place to land than `b`: nearer
/// `here`'s column, then the lower column.
pub open spec fn lands_before(here: Focusable, a: Focusable, b: Focusable) -> bool {
    col_gap(a, here) < col_gap(b, here) || (col_gap(a, here) == col_gap(b, here) && a.col < b.col)
}

/// Whether `k` is where a move the way `dir` goes from widget `current`:
/// sideways, the nearest widget along the row that way, never wrapping;
/// up and down, into the landing row, at the widget nearest the column it
/// left. Of equals, the first in `slots`.
pub open spec fn leads_to(slots: Seq<Focusable>, current: int, dir: Dir, k: int) -> bool {
    let here = slots[current];
    &&& 0 <= k < slots.len()
    &&& match dir {
        Dir::Left | Dir::Right => {
            let forward = dir == Dir::Right;
            &&& along_row(here, slots[k], forward)
            &&& forall|j: int|
                0 <= j < slots.len() && along_row(here, #[trigger] slots[j], forward) ==> col_gap(slots[j], here)
                    >= col_gap(slots[k], here) && (j < k ==> col_gap(slots[j], here) > col_gap(slots[k], here))
        },
        Dir::Up | Dir::Down => {
            let down = dir == Dir::Down;
            &&& is_landing_row(slots, here, down, slots[k].row)
            &&& forall|j: int|
                0 <= j < slots.len() && (#[trigger] slots[j]).row == slots[k].row ==> !lands_before(
                    here,
                    slots[j],
                    slots[k],
                ) && (j < k ==> lands_before(here, slots[k], slots[j]))
        },
    }
}

/// The widget a direction leads to, or `None` if there is nothing that way.
///
/// Vertical movement wraps — a menu that stops dead at the bottom entry makes
/// the last item on a long list expensive to reach — and prefers the column
/// already in, so running down a list of rows keeps to the same button.
/// Horizontal movement stays inside its row and does not wrap: the buttons
/// along a row are a short strip with two ends.
pub fn step(slots: &[Focusable], current: usize, dir: Dir) -> (next: Option<usize>)
    ensures
        current >= slots@.len() ==> next is None,
        current < slots@.len() ==> match dir {
            Dir::Left | Dir::Right => {
                &&& next is None <==> !exists|j: int|
                    0 <= j < slots@.len() && along_row(slots@[current as int], #[trigger] slots@[j], dir == Dir::Right)
                &&& next matches Some(k) ==> leads_to(slots@, current as int, dir, k as int)
            },
            Dir::Up | Dir::Down => next matches Some(k) && leads_to(slots@, current as int, dir, k as int),
        },
{
    if current >= slots.len() {
        return None;
    }
    let here = slots[current];
    match dir {
        Dir::Left | Dir::Right => {
            let forward = match dir {
                Dir::Right => true,
                _ => false,
            };
            let mut best: Option<usize> = None;
            let mut best_gap: i64 = 0;
            let mut i: usize = 0;
            while i < slots.len()
                invariant
                    0 <= i <= slots@.len(),
                    here == slots@[current as int],
                    forward == (dir == Dir::Right),
                    best is None <==> !exists|j: int| 0 <= j < i && along_row(here, #[trigger] slots@[j], forward),
                    best matches Some(k) ==> {
                        &&& k < i
                        &&& along_row(here, slots@[k as int], forward)
                        &&& best_gap == col_gap(slots@[k as int], here)
                        &&& forall|j: int|
                            0 <= j < i && along_row(here, #[trigger] slots@[j], forward) ==> col_gap(slots@[j], here)
                                >= col_gap(slots@[k as int], here) && (j < k ==> col_gap(slots@[j], here) > col_gap(
                                slots@[k as int],
                                here,
                            ))
                    },
                decreases slots@.len() - i,
            {
                let s = slots[i];
                let along = s.row == here.row && if forward {
                    s.col > here.col
                } else {
                    s.col < here.col
                };
                if along {
                    let gap: i64 = if s.col >= here.col {
                        s.col as i64 - here.col as i64
                    } else {
                        here.col as i64 - s.col as i64
                    };
                    let better = match best {
                        None => true,
                        Some(_) => gap < best_gap,
                    };
                    if better {
                        best = Some(i);
                        best_gap = gap;
                    }
                }
                i = i + 1;
            }
            best
        },
        Dir::Up | Dir::Down => {
            let down = match dir {
                Dir::Down => true,
                _ => false,
            };
            // The landing row: the nearest row past this one the way asked,
            // or the far end's first row when there is none.
            let mut past: Option<i32> = None;
            let mut wrap: i32 = here.row;
            let mut i: usize = 0;
            while i < slots.len()
                invariant
                    0 <= i <= slots@.len(),
                    current < slots@.len(),
                    here == slots@[current as int],
                    down == (dir == Dir::Down),
                    exists|j: int| 0 <= j < slots@.len() && (#[trigger] slots@[j]).row == wrap,
                    forall|j: int| 0 <= j < i ==> !row_before((#[trigger] slots@[j]).row, wrap, down),
                    past is None <==> !exists|j: int| 0 <= j < i && row_before(here.row, (#[trigger] slots@[j]).row, down),
                    past matches Some(r) ==> {
                        &&& row_before(here.row, r, down)
                        &&& exists|j: int| 0 <= j < i && (#[trigger] slots@[j]).row == r
                        &&& forall|j: int|
                            0 <= j < i && row_before(here.row, (#[trigger] slots@[j]).row, down) ==> !row_before(
                                slots@[j].row,
                                r,
                                down,
                            )
                    },
                decreases slots@.len() - i,
            {
                let row = slots[i].row;
                let beyond = if down {
                    row > here.row
                } else {
                    row < here.row
                };
                let ahead_of_wrap = if down {
                    row < wrap
                } else {
                    row > wrap
                };
                if ahead_of_wrap {
                    wrap = row;
                }
                if beyond {
                    let nearer = match past {
                        None => true,
                        Some(r) => if down {
                            row < r
                        } else {
                            row > r
                        },
                    };
                    if nearer {
                        past = Some(row);
                    }
                }
                proof {
                    assert(slots@[i as int].row == row);
                }
                i = i + 1;
            }
            let target = match past {
                Some(r) => r,
                None => wrap,
            };
            proof {
                assert(is_landing_row(slots@, here, down, target));
            }
            // Within it, the widget nearest the column left, then the lower
            // column, then the first.
            let mut best: usize = slots.len();
            let mut best_gap: i64 = 0;
            let mut j: usize = 0;
            while j < slots.len()
                invariant
                    0 <= j <= slots@.len(),
                    current < slots@.len(),
                    here == slots@[current as int],
                    is_landing_row(slots@, here, down, target),
                    best == slots@.len() <==> !exists|m: int| 0 <= m < j && (#[trigger] slots@[m]).row == target,
                    best < slots@.len() ==> {
                        &&& best < j
                        &&& slots@[best as int].row == target
                        &&& best_gap == col_gap(slots@[best as int], here)
                        &&& forall|m: int|
                            0 <= m < j && (#[trigger] slots@[m]).row == target ==> !lands_before(
                                here,
                                slots@[m],
                                slots@[best as int],
                            ) && (m < best ==> lands_before(here, slots@[best as int], slots@[m]))
                    },
                    best <= slots@.len(),
                decreases slots@.len() - j,
            {
                let s = slots[j];
                if s.row == target {
                    let gap: i64 = if s.col >= here.col {
                        s.col as i64 - here.col as i64
                    } else {
                        here.col as i64 - s.col as i64
                    };
                    let better = if best == slots.len() {
                        true
                    } else {
                        gap < best_gap || (gap == best_gap && s.col < slots[best].col)
                    };
                    if better {
                        best = j;
                        best_gap = gap;
                    }
                }
                j = j + 1;
            }
            proof {
                let w = choose|m: int| 0 <= m < slots@.len() && (#[trigger] slots@[m]).row == target;
                assert(slots@[w].row == target);
            }
            Some(best)
        },
    }
}

} // verus!
