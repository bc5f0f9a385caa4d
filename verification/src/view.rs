//! Which cells of the map are on screen: [`CellRect`], an inclusive
//! rectangle of whole cells.
//!
//! The inclusivity is stated once and obeyed everywhere: `max` is *inside*
//! the rectangle, and an empty one is `max < min` on either axis, so a window
//! that has not been filled yet covers nothing rather than covering cell
//! zero.

use vstd::prelude::*;

use crate::map::Point;

verus! {

/// An inclusive rectangle of whole cells.
#[derive(Clone, Copy, PartialEq, Eq, Structural, Debug)]
pub struct CellRect {
    pub min: Point,
    pub max: Point,
}

impl CellRect {
    pub open spec fn spec_is_empty(self) -> bool {
        self.max.x < self.min.x || self.max.y < self.min.y
    }

    pub open spec fn spec_contains(self, cell: Point) -> bool {
        self.min.x <= cell.x <= self.max.x && self.min.y <= cell.y <= self.max.y
    }

    pub open spec fn spec_width(self) -> int {
        self.max.x - self.min.x + 1
    }

    pub open spec fn spec_height(self) -> int {
        self.max.y - self.min.y + 1
    }

    pub open spec fn spec_area(self) -> int {
        if self.spec_is_empty() {
            0
        } else {
            self.spec_width() * self.spec_height()
        }
    }

    /// Where `cell` comes in the rectangle's cells, row by row.
    pub open spec fn spec_order(self, cell: Point) -> int {
        (cell.y - self.min.y) * self.spec_width() + (cell.x - self.min.x)
    }

    /// A rectangle whose area can be counted in the machine's integers.
    pub open spec fn fits(self) -> bool {
        self.spec_width() <= i32::MAX && self.spec_height() <= i32::MAX && self.spec_area() <= usize::MAX
    }

    /// Covers nothing at all — not cell `(0, 0)`.
    pub fn empty() -> (r: CellRect)
        ensures
            r == CellRect::empty_spec(),
            r.spec_is_empty(),
    {
        CellRect { min: Point { x: 0, y: 0 }, max: Point { x: -1, y: -1 } }
    }

    pub fn new(min: Point, max: Point) -> (r: CellRect)
        ensures
            r == (CellRect { min, max }),
    {
        CellRect { min, max }
    }

    pub fn is_empty(&self) -> (b: bool)
        ensures
            b == self.spec_is_empty(),
    {
        self.max.x < self.min.x || self.max.y < self.min.y
    }

    pub fn contains(&self, cell: Point) -> (b: bool)
        ensures
            b == self.spec_contains(cell),
    {
        cell.x >= self.min.x && cell.x <= self.max.x && cell.y >= self.min.y && cell.y <= self.max.y
    }

    /// How many cells it covers.
    pub fn area(&self) -> (n: usize)
        requires
            self.fits(),
        ensures
            n == self.spec_area(),
    {
        if self.is_empty() {
            return 0;
        }
        let w = (self.max.x - self.min.x + 1) as usize;
        let h = (self.max.y - self.min.y + 1) as usize;
        proof {
            assert(w * h == self.spec_width() * self.spec_height());
        }
        w * h
    }

    /// Every cell, row by row: each cell of the rectangle once, in order.
    pub fn cells(&self) -> (cells: Vec<Point>)
        requires
            self.fits(),
        ensures
            cells@.len() == self.spec_area(),
            forall|i: int|
                0 <= i < cells@.len() ==> self.spec_contains(#[trigger] cells@[i]) && self.spec_order(cells@[i]) == i,
    {
        let mut cells: Vec<Point> = Vec::new();
        if self.is_empty() {
            return cells;
        }
        let w: i64 = self.max.x as i64 - self.min.x as i64 + 1;
        let h: i64 = self.max.y as i64 - self.min.y as i64 + 1;
        let mut dy: i64 = 0;
        while dy < h
            invariant
                0 <= dy <= h,
                w == self.spec_width(),
                h == self.spec_height(),
                w > 0,
                h > 0,
                self.fits(),
                !self.spec_is_empty(),
                cells@.len() == dy * w,
                forall|i: int|
                    0 <= i < cells@.len() ==> self.spec_contains(#[trigger] cells@[i]) && self.spec_order(cells@[i]) == i,
            decreases h - dy,
        {
            let mut dx: i64 = 0;
            while dx < w
                invariant
                    0 <= dx <= w,
                    0 <= dy < h,
                    w == self.spec_width(),
                    h == self.spec_height(),
                    w > 0,
                    cells@.len() == dy * w + dx,
                    forall|i: int|
                        0 <= i < cells@.len() ==> self.spec_contains(#[trigger] cells@[i]) && self.spec_order(cells@[i])
                            == i,
                decreases w - dx,
            {
                let p = Point { x: (self.min.x as i64 + dx) as i32, y: (self.min.y as i64 + dy) as i32 };
                cells.push(p);
                dx = dx + 1;
            }
            proof {
                assert((dy + 1) * w == dy * w + w) by (nonlinear_arith);
            }
            dy = dy + 1;
        }
        proof {
            assert(h * w == w * h) by (nonlinear_arith);
        }
        cells
    }

    /// The part of `self` that is also in `other`.
    pub fn intersect(&self, other: CellRect) -> (r: CellRect)
        ensures
            self.spec_is_empty() || other.spec_is_empty() ==> r == CellRect::empty_spec(),
            !(self.spec_is_empty() || other.spec_is_empty()) ==> r == (CellRect {
                min: Point {
                    x: if self.min.x >= other.min.x { self.min.x } else { other.min.x },
                    y: if self.min.y >= other.min.y { self.min.y } else { other.min.y },
                },
                max: Point {
                    x: if self.max.x <= other.max.x { self.max.x } else { other.max.x },
                    y: if self.max.y <= other.max.y { self.max.y } else { other.max.y },
                },
            }),
            forall|c: Point| r.spec_contains(c) <==> self.spec_contains(c) && other.spec_contains(c),
    {
        if self.is_empty() || other.is_empty() {
            return CellRect::empty();
        }
        CellRect {
            min: Point {
                x: if self.min.x >= other.min.x { self.min.x } else { other.min.x },
                y: if self.min.y >= other.min.y { self.min.y } else { other.min.y },
            },
            max: Point {
                x: if self.max.x <= other.max.x { self.max.x } else { other.max.x },
                y: if self.max.y <= other.max.y { self.max.y } else { other.max.y },
            },
        }
    }

    pub open spec fn empty_spec() -> CellRect {
        CellRect { min: Point { x: 0, y: 0 }, max: Point { x: -1i32, y: -1i32 } }
    }
}

impl Default for CellRect {
    /// The empty rectangle.
    fn default() -> (r: CellRect)
        ensures
            r == CellRect::empty_spec(),
    {
        CellRect::empty()
    }
}

} // verus!
