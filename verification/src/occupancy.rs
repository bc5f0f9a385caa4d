//! Who is standing where: the dynamic half of passability, one entity to a
//! cell, keyed on the cell an entity's centre is in.
//!
//! A move into an occupied cell is refused and names the occupant. A cell is
//! only ever given up by the entity holding it, so an entity spawned on top
//! of somebody can neither evict them nor be handed their cell.

use vstd::prelude::*;

use crate::map::{lemma_point_at, point_at, Point, Size};
use crate::uid::Uid;

verus! {

/// How many of `cells` hold somebody.
pub open spec fn count_held(cells: Seq<Option<Uid>>) -> nat
    decreases cells.len(),
{
    if cells.len() == 0 {
        0
    } else {
        count_held(cells.drop_last()) + if cells.last() is Some {
            1nat
        } else {
            0nat
        }
    }
}

/// What [`Occupancy::claim`] of `cell` for `uid` does, answering `r`: with
/// somebody else there it is refused naming them and nothing is written;
/// otherwise it is granted, and `cell`, if on the map, is `uid`'s. No other
/// cell changes, and the count of held cells goes up by the one newly held.
pub open spec fn claimed(before: Occupancy, after: Occupancy, cell: Point, uid: Uid, r: Result<(), Uid>) -> bool {
    &&& after.spec_size() == before.spec_size()
    &&& match before.occupant_at(cell) {
        Some(other) if other@ != uid@ => r == Err::<(), Uid>(other) && after == before,
        _ => r is Ok && if before.spec_size().spec_contains(cell) {
            after.occupant_at(cell) == Some(uid)
        } else {
            after == before
        },
    }
    &&& forall|c: Point| c != cell ==> after.occupant_at(c) == before.occupant_at(c)
    &&& after.held() == before.held() + if before.occupant_at(cell).is_none() && before.spec_size().spec_contains(
        cell,
    ) {
        1int
    } else {
        0int
    }
}

/// What [`Occupancy::release`] of `cell` by `uid` does, answering
/// `released`: only the entity holding a cell gives it up, and then it is
/// empty; otherwise nothing changes. No other cell changes either way.
pub open spec fn released_by(before: Occupancy, after: Occupancy, cell: Point, uid: Uid, released: bool) -> bool {
    &&& after.spec_size() == before.spec_size()
    &&& released == (before.occupant_at(cell) matches Some(o) && o@ == uid@)
    &&& released ==> after.occupant_at(cell).is_none()
    &&& !released ==> after == before
    &&& forall|c: Point| c != cell ==> after.occupant_at(c) == before.occupant_at(c)
    &&& after.held() == before.held() - if released {
        1int
    } else {
        0int
    }
}

/// Claiming a free cell and giving it straight back leaves the layer as it
/// was: every cell held by whoever held it, and as many cells held.
pub proof fn lemma_claim_then_release(
    before: Occupancy,
    claimed_layer: Occupancy,
    after: Occupancy,
    cell: Point,
    uid: Uid,
    r: Result<(), Uid>,
    released: bool,
)
    requires
        before.occupant_at(cell) is None,
        claimed(before, claimed_layer, cell, uid, r),
        released_by(claimed_layer, after, cell, uid, released),
    ensures
        forall|c: Point| after.occupant_at(c) == before.occupant_at(c),
        after.held() == before.held(),
        released == before.spec_size().spec_contains(cell),
{
    if before.spec_size().spec_contains(cell) {
        assert(claimed_layer.occupant_at(cell) == Some(uid));
    } else {
        assert(claimed_layer == before);
    }
}

/// The cell each entity is standing in, one entity to a cell.
#[derive(Clone, Debug)]
pub struct Occupancy {
    size: Size,
    cells: Vec<Option<Uid>>,
}

impl Occupancy {
    pub closed spec fn wf(&self) -> bool {
        &&& self.size.fits()
        &&& self.cells@.len() == self.size.spec_area()
    }

    pub closed spec fn spec_size(&self) -> Size {
        self.size
    }

    /// Who stands in `cell`; nobody, off the map.
    pub closed spec fn occupant_at(&self, cell: Point) -> Option<Uid> {
        if self.size.spec_contains(cell) {
            self.cells@[self.size.spec_index(cell)]
        } else {
            None
        }
    }

    /// Off the map, nobody stands anywhere.
    pub proof fn lemma_off_map_is_empty(&self, cell: Point)
        requires
            !self.spec_size().spec_contains(cell),
        ensures
            self.occupant_at(cell) is None,
    {
    }

    /// How many cells have somebody in them.
    pub closed spec fn held(&self) -> nat {
        count_held(self.cells@)
    }

    /// Who stands in each cell of the map, row by row.
    pub open spec fn spec_row_major(&self) -> Seq<Option<Uid>> {
        Seq::new(
            self.spec_size().spec_area() as nat,
            |i: int| self.occupant_at(point_at(self.spec_size(), i)),
        )
    }

    /// The cells held are the cells of the map, row by row, that somebody
    /// stands in.
    pub proof fn lemma_held_is_row_major(&self)
        requires
            self.wf(),
        ensures
            self.held() == count_held(self.spec_row_major()),
    {
        assert(self.spec_row_major() =~= self.cells@) by {
            assert forall|i: int| 0 <= i < self.cells@.len() implies self.spec_row_major()[i] == self.cells@[i] by {
                lemma_point_at(self.size, i);
            }
        }
    }

    /// Whether `uid` could stand in `cell` as far as this layer is concerned.
    pub open spec fn free_for(&self, cell: Point, uid: Uid) -> bool {
        match self.occupant_at(cell) {
            Some(o) => o@ == uid@,
            None => true,
        }
    }

    /// An empty layer covering a map of `size`.
    pub fn new(size: Size) -> (o: Occupancy)
        requires
            size.fits(),
        ensures
            o.wf(),
            o.spec_size() == size,
            forall|c: Point| o.occupant_at(c).is_none(),
            o.held() == 0,
    {
        let n = size.area();
        let mut cells: Vec<Option<Uid>> = Vec::new();
        while cells.len() < n
            invariant
                cells@.len() <= n,
                forall|i: int| 0 <= i < cells@.len() ==> cells@[i].is_none(),
            decreases n - cells@.len(),
        {
            cells.push(None);
        }
        let o = Occupancy { size, cells };
        proof {
            lemma_count_none(o.cells@);
            assert forall|c: Point| o.occupant_at(c).is_none() by {
                if size.spec_contains(c) {
                    crate::map::lemma_index_in_area(size, c);
                }
            }
        }
        o
    }

    pub fn size(&self) -> (s: Size)
        ensures
            s == self.spec_size(),
    {
        self.size
    }

    /// Who is standing in `cell`, if anybody. Off the map is nobody.
    pub fn occupant(&self, cell: Point) -> (o: Option<Uid>)
        requires
            self.wf(),
        ensures
            o == self.occupant_at(cell),
    {
        match self.size.index_of(cell) {
            Some(i) => self.cells[i],
            None => None,
        }
    }

    pub fn is_occupied(&self, cell: Point) -> (b: bool)
        requires
            self.wf(),
        ensures
            b == self.occupant_at(cell).is_some(),
    {
        self.occupant(cell).is_some()
    }

    /// True for a cell `uid` already occupies: an entity is not in its own
    /// way.
    pub fn is_free_for(&self, cell: Point, uid: Uid) -> (b: bool)
        requires
            self.wf(),
        ensures
            b == self.free_for(cell, uid),
    {
        match self.occupant(cell) {
            Some(occupant) => occupant.same(uid),
            None => true,
        }
    }

    /// Take `cell` for `uid`. `Err(other)` names the obstacle when somebody
    /// else is already there, and then nothing is written. Off the map there
    /// is nothing to claim and nothing is recorded.
    pub fn claim(&mut self, cell: Point, uid: Uid) -> (r: Result<(), Uid>)
        requires
            old(self).wf(),
        ensures
            final(self).wf(),
            claimed(*old(self), *final(self), cell, uid, r),
    {
        let index = match self.size.index_of(cell) {
            Some(i) => i,
            None => return Ok(()),
        };
        match self.cells[index] {
            Some(other) => {
                if !other.same(uid) {
                    return Err(other);
                }
            },
            None => {},
        }
        let ghost before = self.cells@;
        self.cells.set(index, Some(uid));
        proof {
            lemma_count_update(before, index as int, Some(uid));
            self.lemma_others_unchanged(*old(self), cell);
        }
        Ok(())
    }

    /// Give `cell` up, if `uid` is the one holding it. Returns whether it
    /// was.
    pub fn release(&mut self, cell: Point, uid: Uid) -> (released: bool)
        requires
            old(self).wf(),
        ensures
            final(self).wf(),
            released_by(*old(self), *final(self), cell, uid, released),
    {
        let index = match self.size.index_of(cell) {
            Some(i) => i,
            None => return false,
        };
        let holds = match self.cells[index] {
            Some(o) => o.same(uid),
            None => false,
        };
        if !holds {
            return false;
        }
        let ghost before = self.cells@;
        self.cells.set(index, None);
        proof {
            lemma_count_update(before, index as int, None);
            self.lemma_others_unchanged(*old(self), cell);
        }
        true
    }

    /// How many cells have somebody in them. Not the number of entities:
    /// entities sharing a cell after a spawn are counted once.
    pub fn count_occupied(&self) -> (n: usize)
        requires
            self.wf(),
        ensures
            n == self.held(),
            n == count_held(self.spec_row_major()),
            n <= self.spec_size().spec_area(),
    {
        let mut n: usize = 0;
        let mut i: usize = 0;
        while i < self.cells.len()
            invariant
                0 <= i <= self.cells@.len(),
                n == count_held(self.cells@.subrange(0, i as int)),
                n <= i,
            decreases self.cells@.len() - i,
        {
            proof {
                assert(self.cells@.subrange(0, i + 1).drop_last() =~= self.cells@.subrange(
                    0,
                    i as int,
                ));
            }
            if self.cells[i].is_some() {
                n = n + 1;
            }
            i = i + 1;
        }
        proof {
            assert(self.cells@.subrange(0, i as int) =~= self.cells@);
            self.lemma_held_is_row_major();
        }
        n
    }

    /// Nobody stands anywhere.
    pub fn clear(&mut self)
        requires
            old(self).wf(),
        ensures
            final(self).wf(),
            final(self).spec_size() == old(self).spec_size(),
            forall|c: Point| final(self).occupant_at(c).is_none(),
            final(self).held() == 0,
    {
        let n = self.cells.len();
        let mut i: usize = 0;
        while i < n
            invariant
                n == self.cells@.len(),
                0 <= i <= n,
                self.wf(),
                self.size == old(self).size,
                forall|j: int| 0 <= j < i ==> self.cells@[j].is_none(),
            decreases n - i,
        {
            self.cells.set(i, None);
            i = i + 1;
        }
        proof {
            lemma_count_none(self.cells@);
            assert forall|c: Point| self.occupant_at(c).is_none() by {
                if self.size.spec_contains(c) {
                    crate::map::lemma_index_in_area(self.size, c);
                }
            }
        }
    }

    proof fn lemma_others_unchanged(&self, before: Occupancy, cell: Point)
        requires
            before.wf(),
            self.size == before.size,
            self.size.spec_contains(cell),
            self.cells@ == before.cells@.update(
                self.size.spec_index(cell),
                self.cells@[self.size.spec_index(cell)],
            ),
            self.cells@.len() == before.cells@.len(),
        ensures
            forall|c: Point| c != cell ==> self.occupant_at(c) == before.occupant_at(c),
    {
        assert forall|c: Point| c != cell implies self.occupant_at(c) == before.occupant_at(c) by {
            if self.size.spec_contains(c) {
                crate::map::lemma_index_in_area(self.size, c);
                crate::map::lemma_index_in_area(self.size, cell);
                if self.size.spec_index(c) == self.size.spec_index(cell) {
                    crate::map::lemma_index_injective(self.size, c, cell);
                }
            }
        }
    }
}

proof fn lemma_count_none(cells: Seq<Option<Uid>>)
    requires
        forall|i: int| 0 <= i < cells.len() ==> cells[i].is_none(),
    ensures
        count_held(cells) == 0,
    decreases cells.len(),
{
    if cells.len() > 0 {
        lemma_count_none(cells.drop_last());
    }
}

proof fn lemma_count_update(cells: Seq<Option<Uid>>, i: int, v: Option<Uid>)
    requires
        0 <= i < cells.len(),
    ensures
        count_held(cells.update(i, v)) == count_held(cells) - (if cells[i] is Some {
            1int
        } else {
            0int
        }) + (if v is Some {
            1int
        } else {
            0int
        }),
    decreases cells.len(),
{
    if i == cells.len() - 1 {
        assert(cells.update(i, v).drop_last() =~= cells.drop_last());
    } else {
        lemma_count_update(cells.drop_last(), i, v);
        assert(cells.update(i, v).drop_last() =~= cells.drop_last().update(i, v));
    }
}

} // verus!
