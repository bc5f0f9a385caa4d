//! Who sleeps where: [`Homes`], the beds that have been given to somebody.
//!
//! Written only by the spawn pass: arriving hands out a bed nobody owns,
//! leaving takes it back. Kept in bed order, so which bed a release finds
//! is a property of the beds and never of a hasher.

use vstd::prelude::*;

use crate::map::{point_lt, Point};
use crate::uid::Uid;

verus! {

/// Which beds have an owner, and who.
#[derive(Clone, Debug)]
pub struct Homes {
    /// Strictly increasing in bed order.
    owners: Vec<(Point, Uid)>,
}

impl Homes {
    pub closed spec fn wf(&self) -> bool {
        forall|i: int, j: int|
            0 <= i < j < self.owners@.len() ==> point_lt(
                #[trigger] self.owners@[i].0,
                #[trigger] self.owners@[j].0,
            )
    }

    /// Who owns `bed`, if anybody.
    pub closed spec fn owner_of(&self, bed: Point) -> Option<Uid> {
        if exists|i: int| 0 <= i < self.owners@.len() && self.owners@[i].0 == bed {
            let i = choose|i: int| 0 <= i < self.owners@.len() && self.owners@[i].0 == bed;
            Some(self.owners@[i].1)
        } else {
            None
        }
    }

    /// Every bed that has an owner.
    pub open spec fn owned_beds(&self) -> Set<Point> {
        Set::new(|bed: Point| self.owner_of(bed) is Some)
    }

    /// How many beds have an owner.
    pub closed spec fn spec_len(&self) -> nat {
        self.owners@.len()
    }

    proof fn lemma_owner_at(&self, i: int)
        requires
            self.wf(),
            0 <= i < self.owners@.len(),
        ensures
            self.owner_of(self.owners@[i].0) == Some(self.owners@[i].1),
    {
        let bed = self.owners@[i].0;
        let j = choose|j: int| 0 <= j < self.owners@.len() && self.owners@[j].0 == bed;
        if j < i {
            assert(point_lt(self.owners@[j].0, self.owners@[i].0));
        } else if i < j {
            assert(point_lt(self.owners@[i].0, self.owners@[j].0));
        }
    }

    /// A bed has one owner at most, so the number of owners recorded is the
    /// number of beds that have one.
    pub proof fn lemma_len_is_beds_owned(&self)
        requires
            self.wf(),
        ensures
            self.spec_len() == self.owned_beds().len(),
            self.owned_beds().finite(),
    {
        let beds = self.owners@.map_values(|p: (Point, Uid)| p.0);
        assert(beds.no_duplicates()) by {
            assert forall|i: int, j: int| 0 <= i < beds.len() && 0 <= j < beds.len() && i != j implies beds[i]
                != beds[j] by {
                if i < j {
                    assert(point_lt(self.owners@[i].0, self.owners@[j].0));
                } else {
                    assert(point_lt(self.owners@[j].0, self.owners@[i].0));
                }
            }
        }
        beds.unique_seq_to_set();
        assert(beds.to_set() =~= self.owned_beds()) by {
            assert forall|b: Point| beds.to_set().contains(b) <==> self.owned_beds().contains(b) by {
                if beds.contains(b) {
                    let i = choose|i: int| 0 <= i < beds.len() && beds[i] == b;
                    assert(self.owners@[i].0 == b);
                }
                if self.owner_of(b) is Some {
                    let i = choose|i: int| 0 <= i < self.owners@.len() && self.owners@[i].0 == b;
                    assert(beds[i] == b);
                }
            }
        }
    }

    pub fn new() -> (h: Homes)
        ensures
            h.wf(),
            h.spec_len() == 0,
            forall|bed: Point| h.owner_of(bed) is None,
    {
        Homes { owners: Vec::new() }
    }

    /// Where `bed` sits in the list, if it has an owner.
    fn position(&self, bed: Point) -> (i: Option<usize>)
        requires
            self.wf(),
        ensures
            match i {
                Some(i) => i < self.owners@.len() && self.owners@[i as int].0 == bed,
                None => forall|j: int| 0 <= j < self.owners@.len() ==> self.owners@[j].0 != bed,
            },
    {
        let mut i: usize = 0;
        while i < self.owners.len()
            invariant
                0 <= i <= self.owners@.len(),
                forall|j: int| 0 <= j < i ==> self.owners@[j].0 != bed,
            decreases self.owners@.len() - i,
        {
            if self.owners[i].0 == bed {
                return Some(i);
            }
            i = i + 1;
        }
        None
    }

    /// Who owns `bed`, if anybody.
    pub fn owner(&self, bed: Point) -> (o: Option<Uid>)
        requires
            self.wf(),
        ensures
            o == self.owner_of(bed),
    {
        match self.position(bed) {
            Some(i) => {
                proof {
                    self.lemma_owner_at(i as int);
                }
                Some(self.owners[i].1)
            },
            None => None,
        }
    }

    pub fn is_owned(&self, bed: Point) -> (b: bool)
        requires
            self.wf(),
        ensures
            b == self.owner_of(bed) is Some,
    {
        self.owner(bed).is_some()
    }

    /// The first of `beds`, in the order given, that nobody owns: the bed
    /// an arrival is handed.
    pub fn first_free(&self, beds: &Vec<Point>) -> (bed: Option<Point>)
        requires
            self.wf(),
        ensures
            match bed {
                Some(b) => exists|i: int|
                    0 <= i < beds@.len() && #[trigger] beds@[i] == b && self.owner_of(b) is None && forall|j: int|
                        0 <= j < i ==> self.owner_of(#[trigger] beds@[j]) is Some,
                None => forall|j: int| 0 <= j < beds@.len() ==> self.owner_of(#[trigger] beds@[j]) is Some,
            },
    {
        let mut i: usize = 0;
        while i < beds.len()
            invariant
                self.wf(),
                0 <= i <= beds@.len(),
                forall|j: int| 0 <= j < i ==> self.owner_of(#[trigger] beds@[j]) is Some,
            decreases beds@.len() - i,
        {
            if !self.is_owned(beds[i]) {
                return Some(beds[i]);
            }
            i = i + 1;
        }
        None
    }

    /// Give `bed` to `uid`. `false`, and nothing changes, if it already has
    /// an owner: a bed is only ever given away while it is free.
    pub fn claim(&mut self, bed: Point, uid: Uid) -> (given: bool)
        requires
            old(self).wf(),
        ensures
            final(self).wf(),
            given == old(self).owner_of(bed) is None,
            given ==> final(self).owner_of(bed) == Some(uid) && final(self).spec_len()
                == old(self).spec_len() + 1,
            !given ==> *final(self) == *old(self),
            forall|other: Point| other != bed ==> final(self).owner_of(other) == old(self).owner_of(other),
    {
        if self.is_owned(bed) {
            return false;
        }
        // The first bed that comes after this one.
        let mut at: usize = 0;
        while at < self.owners.len() && !bed.precedes(self.owners[at].0)
            invariant
                0 <= at <= self.owners@.len(),
                forall|j: int| 0 <= j < at ==> point_lt(self.owners@[j].0, bed),
                forall|j: int| 0 <= j < self.owners@.len() ==> self.owners@[j].0 != bed,
            decreases self.owners@.len() - at,
        {
            at = at + 1;
        }
        let ghost before = *self;
        self.owners.insert(at, (bed, uid));
        proof {
            assert(self.wf()) by {
                assert forall|i: int, j: int| 0 <= i < j < self.owners@.len() implies point_lt(
                    #[trigger] self.owners@[i].0,
                    #[trigger] self.owners@[j].0,
                ) by {
                    if at < before.owners@.len() {
                        assert(point_lt(bed, before.owners@[at as int].0));
                    }
                    if j < at {
                        assert(self.owners@[i] == before.owners@[i]);
                        assert(self.owners@[j] == before.owners@[j]);
                    } else if j == at {
                        assert(self.owners@[i] == before.owners@[i]);
                    } else if i == at {
                        assert(self.owners@[j] == before.owners@[j - 1]);
                        if j - 1 > at {
                            assert(point_lt(before.owners@[at as int].0, before.owners@[j - 1].0));
                        }
                    } else if i < at {
                        assert(self.owners@[i] == before.owners@[i]);
                        assert(self.owners@[j] == before.owners@[j - 1]);
                    } else {
                        assert(self.owners@[i] == before.owners@[i - 1]);
                        assert(self.owners@[j] == before.owners@[j - 1]);
                    }
                }
            }
            self.lemma_owner_at(at as int);
            assert forall|other: Point| other != bed implies self.owner_of(other) == before.owner_of(other) by {
                if before.owner_of(other) is Some {
                    let k = choose|k: int| 0 <= k < before.owners@.len() && before.owners@[k].0 == other;
                    before.lemma_owner_at(k);
                    let k2 = if k < at { k } else { k + 1 };
                    assert(self.owners@[k2] == before.owners@[k]);
                    self.lemma_owner_at(k2);
                } else if self.owner_of(other) is Some {
                    let k = choose|k: int| 0 <= k < self.owners@.len() && self.owners@[k].0 == other;
                    if k < at {
                        assert(self.owners@[k] == before.owners@[k]);
                    } else if k > at {
                        assert(self.owners@[k] == before.owners@[k - 1]);
                    }
                }
            }
        }
        true
    }

    /// Take back whatever `uid` owned, and say which bed it was. When it
    /// owned more than one, the first in bed order is the one taken back.
    pub fn release(&mut self, uid: Uid) -> (bed: Option<Point>)
        requires
            old(self).wf(),
        ensures
            final(self).wf(),
            bed matches Some(b) ==> (old(self).owner_of(b) matches Some(o) && o@ == uid@),
            bed matches Some(b) ==> forall|other: Point|
                #![trigger old(self).owner_of(other)]
                (old(self).owner_of(other) matches Some(o) && o@ == uid@) ==> !point_lt(other, b),
            bed matches Some(b) ==> final(self).owner_of(b) is None,
            bed is Some ==> final(self).spec_len() + 1 == old(self).spec_len(),
            bed matches Some(b) ==> forall|other: Point|
                other != b ==> final(self).owner_of(other) == old(self).owner_of(other),
            bed is None ==> forall|other: Point|
                #![trigger old(self).owner_of(other)]
                !(old(self).owner_of(other) matches Some(o) && o@ == uid@),
            bed is None ==> *final(self) == *old(self),
    {
        let mut i: usize = 0;
        while i < self.owners.len()
            invariant
                self.wf(),
                *self == *old(self),
                0 <= i <= self.owners@.len(),
                forall|j: int| 0 <= j < i ==> self.owners@[j].1@ != uid@,
            decreases self.owners@.len() - i,
        {
            if self.owners[i].1.same(uid) {
                let ghost before = *self;
                let bed = self.owners[i].0;
                proof {
                    before.lemma_owner_at(i as int);
                    assert forall|other: Point|
                        (before.owner_of(other) matches Some(o) && o@ == uid@) implies !point_lt(other, bed) by {
                        let k = choose|k: int| 0 <= k < before.owners@.len() && before.owners@[k].0 == other;
                        before.lemma_owner_at(k);
                        if k < i {
                        } else if k > i {
                            assert(point_lt(before.owners@[i as int].0, before.owners@[k].0));
                        }
                    }
                }
                self.owners.remove(i);
                proof {
                    assert forall|a: int, b: int| 0 <= a < b < self.owners@.len() implies point_lt(
                        #[trigger] self.owners@[a].0,
                        #[trigger] self.owners@[b].0,
                    ) by {
                        let a0 = if a < i { a } else { a + 1 };
                        let b0 = if b < i { b } else { b + 1 };
                        assert(self.owners@[a] == before.owners@[a0]);
                        assert(self.owners@[b] == before.owners@[b0]);
                    }
                    assert forall|other: Point| other != bed implies self.owner_of(other) == before.owner_of(other) by {
                        if before.owner_of(other) is Some {
                            let k = choose|k: int| 0 <= k < before.owners@.len() && before.owners@[k].0 == other;
                            before.lemma_owner_at(k);
                            assert(k != i);
                            let k2 = if k < i { k } else { k - 1 };
                            assert(self.owners@[k2] == before.owners@[k]);
                            self.lemma_owner_at(k2);
                        } else if self.owner_of(other) is Some {
                            let k = choose|k: int| 0 <= k < self.owners@.len() && self.owners@[k].0 == other;
                            let k0 = if k < i { k } else { k + 1 };
                            assert(self.owners@[k] == before.owners@[k0]);
                        }
                    }
                    if self.owner_of(bed) is Some {
                        let k = choose|k: int| 0 <= k < self.owners@.len() && self.owners@[k].0 == bed;
                        let k0 = if k < i { k } else { k + 1 };
                        assert(self.owners@[k] == before.owners@[k0]);
                        if k0 < i {
                            assert(point_lt(before.owners@[k0].0, before.owners@[i as int].0));
                        } else {
                            assert(point_lt(before.owners@[i as int].0, before.owners@[k0].0));
                        }
                    }
                }
                return Some(bed);
            }
            i = i + 1;
        }
        proof {
            assert forall|other: Point| #![trigger self.owner_of(other)] !(self.owner_of(other) matches Some(o) && o@ == uid@) by {
                if self.owner_of(other) is Some {
                    let k = choose|k: int| 0 <= k < self.owners@.len() && self.owners@[k].0 == other;
                    self.lemma_owner_at(k);
                }
            }
        }
        None
    }

    /// How many beds have an owner.
    pub fn len(&self) -> (n: usize)
        ensures
            n == self.spec_len(),
    {
        self.owners.len()
    }

    pub fn is_empty(&self) -> (b: bool)
        ensures
            b == (self.spec_len() == 0),
    {
        self.owners.len() == 0
    }
}

} // verus!
