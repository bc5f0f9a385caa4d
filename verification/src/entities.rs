//! The entity store: a dictionary keyed by [`Uid`], over a dense arena.
//!
//! Callers see a dictionary — look an entity up by its id, insert, remove —
//! because that is how the rest of the game thinks about an entity. The tick
//! does not use that door: it walks the slots in order and hashes nothing,
//! which is why the storage is a `Vec` and the map only an index into it.
//!
//! A slot index is stable for as long as an entity lives: per-slot buffers
//! are indexed by it, and iteration order has to be the same on every run
//! given the same history. So a removed entity leaves a hole behind and its
//! slot goes on a free list, handed to the next insert before the arena
//! grows.

use vstd::prelude::*;

use std::collections::HashMap;

use rand::rngs::SmallRng;

use crate::rng::roll_word;
use crate::uid::{spec_minted, EntityType, Uid};

verus! {

broadcast use vstd::std_specs::hash::group_hash_axioms;

/// Where an entity lives in the arena.
pub type Slot = u32;

/// Entities of type `T`, each under its id.
pub struct Entities<T> {
    slots: Vec<Option<(Uid, T)>>,
    index: HashMap<u64, u32>,
    free: Vec<u32>,
    live: usize,
}

impl<T> Entities<T> {
    /// The arena, slot by slot: an id and its entity, or a hole.
    pub closed spec fn spec_slots(&self) -> Seq<Option<(Uid, T)>> {
        self.slots@
    }

    /// The holes, in the order they will be handed out again from the back.
    pub closed spec fn spec_free(&self) -> Seq<u32> {
        self.free@
    }

    /// Whether some slot holds an entity under the id whose bits are `word`.
    pub open spec fn holds(&self, word: u64) -> bool {
        exists|i: int| 0 <= i < self.spec_slots().len() && #[trigger] id_at(self.spec_slots(), i) == Some(word)
    }

    /// The slot holding the id whose bits are `word`.
    pub open spec fn slot_of_word(&self, word: u64) -> int {
        choose|i: int| 0 <= i < self.spec_slots().len() && #[trigger] id_at(self.spec_slots(), i) == Some(word)
    }

    /// How many entities are stored.
    pub open spec fn spec_len(&self) -> nat {
        count_filled(self.spec_slots())
    }

    pub closed spec fn wf(&self) -> bool {
        &&& self.slots@.len() <= u32::MAX
        &&& forall|k: u64| #[trigger]
            self.index@.contains_key(k) ==> {
                &&& self.index@[k] < self.slots@.len()
                &&& id_at(self.slots@, self.index@[k] as int) == Some(k)
            }
        &&& forall|i: int|
            0 <= i < self.slots@.len() && #[trigger] self.slots@[i] is Some ==> self.index@.contains_key(
                id_at(self.slots@, i)->0,
            ) && self.index@[id_at(self.slots@, i)->0] == i
        &&& forall|j: int|
            0 <= j < self.free@.len() ==> (#[trigger] self.free@[j]) < self.slots@.len() && self.slots@[self.free@[j] as int] is None
        &&& forall|j: int, k: int| 0 <= j < k < self.free@.len() ==> self.free@[j] != self.free@[k]
        &&& forall|i: int| 0 <= i < self.slots@.len() && (#[trigger] self.slots@[i]) is None ==> self.free@.contains(i as u32)
        &&& self.live == self.index@.len()
        &&& self.index@.len() == self.spec_len()
    }

    /// An empty store.
    pub fn new() -> (s: Entities<T>)
        ensures
            s.wf(),
            s.spec_slots().len() == 0,
            s.spec_free().len() == 0,
    {
        let s = Entities { slots: Vec::new(), index: HashMap::new(), free: Vec::new(), live: 0 };
        proof {
            assert(s.index@.len() == 0);
        }
        s
    }

    /// How many entities are stored.
    pub fn len(&self) -> (n: usize)
        requires
            self.wf(),
        ensures
            n == self.spec_len(),
    {
        self.live
    }

    pub fn is_empty(&self) -> (b: bool)
        requires
            self.wf(),
        ensures
            b == (self.spec_len() == 0),
    {
        self.live == 0
    }

    /// How many slots the arena has, holes included.
    pub fn capacity(&self) -> (n: usize)
        ensures
            n == self.spec_slots().len(),
    {
        self.slots.len()
    }

    /// The slot `uid` lives in.
    pub fn slot_of(&self, uid: Uid) -> (slot: Option<Slot>)
        requires
            self.wf(),
        ensures
            slot is Some <==> self.holds(uid@),
            slot matches Some(s) ==> s == self.slot_of_word(uid@) && id_at(self.spec_slots(), s as int) == Some(uid@),
    {
        match self.index.get(&uid.raw()) {
            Some(slot) => {
                let slot = *slot;
                proof {
                    self.lemma_slot_unique(uid@, slot as int);
                }
                Some(slot)
            },
            None => {
                proof {
                    if self.holds(uid@) {
                        let i = self.slot_of_word(uid@);
                        assert(id_at(self.slots@, i) == Some(uid@));
                    }
                }
                None
            },
        }
    }

    /// Whether `uid` is stored.
    pub fn contains(&self, uid: Uid) -> (b: bool)
        requires
            self.wf(),
        ensures
            b == self.holds(uid@),
    {
        self.slot_of(uid).is_some()
    }

    /// The entity in `slot`, or `None` for a hole or a slot past the end.
    pub fn slot(&self, slot: Slot) -> (e: Option<&T>)
        ensures
            e == (if slot < self.spec_slots().len() {
                match self.spec_slots()[slot as int] {
                    Some(pair) => Some(&pair.1),
                    None => None,
                }
            } else {
                None
            }),
    {
        if (slot as usize) < self.slots.len() {
            match &self.slots[slot as usize] {
                Some(pair) => Some(&pair.1),
                None => None,
            }
        } else {
            None
        }
    }

    /// A fresh id of `kind`, its random part drawn from `rng`: one no entity
    /// here has. `None` when 64 draws in a row all hit a taken id, which
    /// means the generator is stuck rather than the table full. When no id
    /// this kind could be minted as is taken, the first draw is always
    /// fresh.
    pub fn mint_uid(&self, rng: &mut SmallRng, kind: EntityType) -> (uid: Option<Uid>)
        requires
            self.wf(),
        ensures
            uid matches Some(u) ==> !self.holds(u@) && exists|random: u64| u@ == spec_minted(kind, random),
            (forall|random: u64| !self.holds(#[trigger] spec_minted(kind, random))) ==> uid is Some,
    {
        let mut tries: u32 = 0;
        while tries < 64
            invariant
                self.wf(),
                tries <= 64,
                (forall|random: u64| !self.holds(#[trigger] spec_minted(kind, random))) ==> tries == 0,
            decreases 64 - tries,
        {
            let random = roll_word(rng);
            let uid = Uid::new(kind, random);
            if !self.contains(uid) {
                return Some(uid);
            }
            tries = tries + 1;
        }
        None
    }

    /// The entity in `slot`, to change in place; `None` for a hole or a slot
    /// past the end. Whatever is done to it stays in that slot, under the
    /// same id.
    pub fn slot_mut(&mut self, slot: Slot) -> (e: Option<&mut T>)
        requires
            old(self).wf(),
        ensures
            e is Some <==> (slot < old(self).spec_slots().len() && old(self).spec_slots()[slot as int] is Some),
            e is None ==> *final(self) == *old(self),
            e matches Some(r) ==> *r == (old(self).spec_slots()[slot as int]->0).1,
            e matches Some(r) ==> final(self).spec_slots() == old(self).spec_slots().update(
                slot as int,
                Some(((old(self).spec_slots()[slot as int]->0).0, *final(r))),
            ),
            e is Some ==> final(self).spec_free() == old(self).spec_free(),
            e is Some ==> final(self).spec_len() == old(self).spec_len(),
            e is Some ==> final(self).wf(),
    {
        if (slot as usize) >= self.slots.len() || self.slots[slot as usize].is_none() {
            return None;
        }
        let ghost pair = self.slots@[slot as int]->0;
        proof {
            lemma_count_filled_update(self.slots@, slot as int, Some((pair.0, pair.1)));
        }
        let r = match &mut self.slots[slot as usize] {
            Some(pair) => Some(&mut pair.1),
            None => None,
        };
        proof {
            assert forall|x: T|
                count_filled(#[trigger] old(self).slots@.update(slot as int, Some((pair.0, x)))) == count_filled(
                    old(self).slots@,
                ) by {
                lemma_count_filled_update(old(self).slots@, slot as int, Some((pair.0, x)));
            }
        }
        r
    }

    /// The entity stored under `uid`, to change in place.
    pub fn get_mut(&mut self, uid: Uid) -> (e: Option<&mut T>)
        requires
            old(self).wf(),
        ensures
            e is Some <==> old(self).holds(uid@),
            e is None ==> *final(self) == *old(self),
            e matches Some(r) ==> *r == (old(self).spec_slots()[old(self).slot_of_word(uid@)]->0).1,
            e matches Some(r) ==> final(self).spec_slots() == old(self).spec_slots().update(
                old(self).slot_of_word(uid@),
                Some(((old(self).spec_slots()[old(self).slot_of_word(uid@)]->0).0, *final(r))),
            ),
            e is Some ==> final(self).spec_free() == old(self).spec_free(),
            e is Some ==> final(self).spec_len() == old(self).spec_len(),
            e is Some ==> final(self).wf(),
    {
        match self.slot_of(uid) {
            Some(slot) => self.slot_mut(slot),
            None => None,
        }
    }

    /// The ids stored, in slot order.
    pub fn uids(&self) -> (ids: Vec<Uid>)
        ensures
            ids@.map_values(|u: Uid| u@) == ids_in_order(self.spec_slots()),
    {
        let mut ids: Vec<Uid> = Vec::new();
        let mut i: usize = 0;
        while i < self.slots.len()
            invariant
                0 <= i <= self.slots@.len(),
                ids@.map_values(|u: Uid| u@) == ids_in_order(self.slots@.subrange(0, i as int)),
            decreases self.slots@.len() - i,
        {
            let ghost prev = ids@;
            proof {
                assert(self.slots@.subrange(0, i + 1).drop_last() =~= self.slots@.subrange(0, i as int));
            }
            match &self.slots[i] {
                Some(pair) => {
                    ids.push(pair.0);
                    proof {
                        assert(ids@.map_values(|u: Uid| u@) =~= prev.map_values(|u: Uid| u@).push(pair.0@));
                    }
                },
                None => {},
            }
            i = i + 1;
        }
        proof {
            assert(self.slots@.subrange(0, self.slots@.len() as int) =~= self.slots@);
        }
        ids
    }

    /// The entity stored under `uid`.
    pub fn get(&self, uid: Uid) -> (e: Option<&T>)
        requires
            self.wf(),
        ensures
            e is Some <==> self.holds(uid@),
            e matches Some(x) ==> self.spec_slots()[self.slot_of_word(uid@)] matches Some(pair) && *x == pair.1,
    {
        match self.slot_of(uid) {
            Some(slot) => self.slot(slot),
            None => None,
        }
    }

    /// Two slots never hold the same id.
    pub proof fn lemma_one_slot_per_id(&self, i: int, j: int)
        requires
            self.wf(),
            0 <= i < self.spec_slots().len(),
            0 <= j < self.spec_slots().len(),
            id_at(self.spec_slots(), i) is Some,
            id_at(self.spec_slots(), i) == id_at(self.spec_slots(), j),
        ensures
            i == j,
    {
        let w = id_at(self.slots@, i)->0;
        self.lemma_slot_unique(w, i);
        self.lemma_slot_unique(w, j);
    }

    /// The id in the slot an entity was found in is its own: two slots
    /// never hold the same id.
    proof fn lemma_slot_unique(&self, word: u64, i: int)
        requires
            self.wf(),
            0 <= i < self.slots@.len(),
            id_at(self.slots@, i) == Some(word),
        ensures
            self.holds(word),
            self.slot_of_word(word) == i,
    {
        let j = self.slot_of_word(word);
        assert(id_at(self.slots@, j) == Some(word));
    }

    /// Store `entity` under `uid`, in the most recently freed slot, or a new
    /// one at the end when there is no hole. Answers the slot.
    pub fn insert(&mut self, uid: Uid, entity: T) -> (slot: Slot)
        requires
            old(self).wf(),
            !old(self).holds(uid@),
            old(self).spec_free().len() > 0 || old(self).spec_slots().len() < u32::MAX,
        ensures
            final(self).wf(),
            old(self).spec_free().len() > 0 ==> {
                &&& slot == old(self).spec_free().last()
                &&& slot < old(self).spec_slots().len()
                &&& final(self).spec_slots().len() == old(self).spec_slots().len()
                &&& final(self).spec_free() == old(self).spec_free().drop_last()
                &&& final(self).spec_slots() == old(self).spec_slots().update(slot as int, Some((uid, entity)))
            },
            old(self).spec_free().len() == 0 ==> {
                &&& slot == old(self).spec_slots().len()
                &&& final(self).spec_free() == old(self).spec_free()
                &&& final(self).spec_slots() == old(self).spec_slots().push(Some((uid, entity)))
            },
            final(self).spec_len() == old(self).spec_len() + 1,
            final(self).holds(uid@),
            final(self).slot_of_word(uid@) == slot,
            forall|w: u64|
                w != uid@ && #[trigger] old(self).holds(w) ==> final(self).holds(w) && final(self).slot_of_word(w)
                    == old(self).slot_of_word(w),
    {
        let ghost before = self.slots@;
        let word = uid.raw();
        proof {
            if self.index@.contains_key(word) {
                let i = self.index@[word] as int;
                assert(id_at(self.slots@, i) == Some(word));
            }
        }
        let slot: u32 = match self.free.pop() {
            Some(slot) => {
                proof {
                    assert(self.free@ =~= old(self).free@.drop_last());
                    assert(old(self).free@[old(self).free@.len() - 1] == slot);
                }
                let ghost at = slot as int;
                self.slots.set(slot as usize, Some((uid, entity)));
                proof {
                    lemma_count_filled_update(before, at, Some((uid, entity)));
                }
                slot
            },
            None => {
                let slot = self.slots.len() as u32;
                self.slots.push(Some((uid, entity)));
                proof {
                    lemma_count_filled_push(before, Some((uid, entity)));
                }
                slot
            },
        };
        self.index.insert(word, slot);
        proof {
            lemma_count_filled_bound(old(self).slots@);
            if old(self).free@.len() > 0 {
                assert(old(self).slots@[old(self).free@[0] as int] is None);
            }
        }
        self.live = self.live + 1;
        proof {
            assert(self.index@.len() == old(self).index@.len() + 1) by {
                assert(!old(self).index@.contains_key(word));
            }
            assert forall|i: int| 0 <= i < self.slots@.len() && (#[trigger] self.slots@[i]) is None implies self.free@.contains(
                i as u32,
            ) by {
                assert(i != slot);
                assert(old(self).slots@[i] is None);
                let j = choose|j: int| 0 <= j < old(self).free@.len() && old(self).free@[j] == i as u32;
                if j == old(self).free@.len() - 1 && old(self).free@.len() > 0 {
                    assert(false);
                }
                assert(self.free@[j] == i as u32);
            }
            assert forall|k: u64| #[trigger]
                self.index@.contains_key(k) implies self.index@[k] < self.slots@.len() && id_at(self.slots@, self.index@[k] as int) == Some(k) by {
                if k != word {
                    assert(old(self).index@.contains_key(k));
                    assert(old(self).slots@[old(self).index@[k] as int] is Some);
                }
            }
            assert forall|j: int| 0 <= j < self.free@.len() implies (#[trigger] self.free@[j]) < self.slots@.len()
                && self.slots@[self.free@[j] as int] is None by {
                assert(old(self).free@[j] == self.free@[j]);
                if old(self).free@.len() > 0 {
                    assert(old(self).free@[j] != old(self).free@[old(self).free@.len() - 1]);
                }
            }
            assert forall|i: int| 0 <= i < self.slots@.len() && #[trigger] self.slots@[i] is Some implies self.index@.contains_key(
                id_at(self.slots@, i)->0,
            ) && self.index@[id_at(self.slots@, i)->0] == i by {
                if i != slot {
                    if let Some(e) = self.slots@[i] {
                        assert(old(self).slots@[i] == self.slots@[i]);
                        assert(e.0@ != word);
                    }
                }
            }
            assert(id_at(self.slots@, slot as int) == Some(word));
            self.lemma_slot_unique(word, slot as int);
            assert forall|w: u64|
                w != uid@ && #[trigger] old(self).holds(w) implies self.holds(w) && self.slot_of_word(w)
                    == old(self).slot_of_word(w) by {
                let i = old(self).slot_of_word(w);
                assert(id_at(old(self).slots@, i) == Some(w));
                assert(old(self).slots@[i] is Some);
                assert(i != slot);
                assert(self.slots@[i] == old(self).slots@[i]);
                self.lemma_slot_unique(w, i);
            }
        }
        slot
    }

    /// Take `uid` out, leaving a hole its slot is remembered by. `None`, and
    /// nothing changes, when it is not stored.
    pub fn remove(&mut self, uid: Uid) -> (removed: Option<T>)
        requires
            old(self).wf(),
        ensures
            final(self).wf(),
            !old(self).holds(uid@) ==> removed is None && final(self).spec_slots() == old(self).spec_slots()
                && final(self).spec_free() == old(self).spec_free() && final(self).spec_len() == old(self).spec_len(),
            old(self).holds(uid@) ==> {
                let s = old(self).slot_of_word(uid@);
                &&& old(self).spec_slots()[s] matches Some(pair) && removed == Some(pair.1)
                &&& final(self).spec_slots() == old(self).spec_slots().update(s, None)
                &&& final(self).spec_free() == old(self).spec_free().push(s as u32)
                &&& final(self).spec_len() + 1 == old(self).spec_len()
            },
    {
        let word = uid.raw();
        let ghost before = self.slots@;
        let slot = match self.index.remove(&word) {
            Some(slot) => slot,
            None => {
                proof {
                    if self.holds(uid@) {
                        let i = self.slot_of_word(uid@);
                        assert(id_at(self.slots@, i) == Some(uid@));
                    }
                }
                return None;
            },
        };
        proof {
            old(self).lemma_slot_unique(word, slot as int);
        }
        let mut taken: Option<(Uid, T)> = None;
        let i = slot as usize;
        std::mem::swap(&mut taken, &mut self.slots[i]);
        proof {
            lemma_count_filled_update(before, slot as int, None);
            assert(self.slots@ == before.update(slot as int, None));
        }
        self.free.push(slot);
        self.live = self.live - 1;
        proof {
            assert forall|k: u64| #[trigger]
                self.index@.contains_key(k) implies self.index@[k] < self.slots@.len() && id_at(self.slots@, self.index@[k] as int) == Some(k) by {
                assert(old(self).index@.contains_key(k));
                assert(old(self).index@[k] != slot);
            }
            assert forall|j: int, k: int| 0 <= j < k < self.free@.len() implies self.free@[j] != self.free@[k] by {
                if k == self.free@.len() - 1 {
                    assert(before[old(self).free@[j] as int] is None);
                }
            }
            assert forall|i: int| 0 <= i < self.slots@.len() && (#[trigger] self.slots@[i]) is None implies self.free@.contains(
                i as u32,
            ) by {
                if i == slot {
                    assert(self.free@[self.free@.len() - 1] == slot);
                } else {
                    let j = choose|j: int| 0 <= j < old(self).free@.len() && old(self).free@[j] == i as u32;
                    assert(self.free@[j] == i as u32);
                }
            }
            assert forall|i: int| 0 <= i < self.slots@.len() && #[trigger] self.slots@[i] is Some implies self.index@.contains_key(
                id_at(self.slots@, i)->0,
            ) && self.index@[id_at(self.slots@, i)->0] == i by {
                if let Some(e) = self.slots@[i] {
                    assert(before[i] == self.slots@[i]);
                    assert(e.0@ != word);
                }
            }
        }
        match taken {
            Some(pair) => Some(pair.1),
            None => None,
        }
    }

    /// The slots that hold an entity, in slot order: the order the tick
    /// walks them in, holes skipped.
    pub fn occupied(&self) -> (slots: Vec<Slot>)
        requires
            self.wf(),
        ensures
            forall|j: int| 0 <= j < slots@.len() ==> (#[trigger] slots@[j]) < self.spec_slots().len() && self.spec_slots()[slots@[j] as int] is Some,
            forall|j: int, k: int| 0 <= j < k < slots@.len() ==> slots@[j] < slots@[k],
            forall|i: int| 0 <= i < self.spec_slots().len() && (#[trigger] self.spec_slots()[i]) is Some ==> slots@.contains(i as u32),
    {
        let mut out: Vec<Slot> = Vec::new();
        let mut i: usize = 0;
        while i < self.slots.len()
            invariant
                0 <= i <= self.slots@.len(),
                self.slots@.len() <= u32::MAX,
                forall|j: int| 0 <= j < out@.len() ==> (#[trigger] out@[j]) < i && self.slots@[out@[j] as int] is Some,
                forall|j: int, k: int| 0 <= j < k < out@.len() ==> out@[j] < out@[k],
                forall|m: int| 0 <= m < i && (#[trigger] self.slots@[m]) is Some ==> out@.contains(m as u32),
            decreases self.slots@.len() - i,
        {
            let ghost prev = out@;
            if self.slots[i].is_some() {
                out.push(i as u32);
                proof {
                    assert(out@[out@.len() - 1] == i as u32);
                }
            }
            proof {
                assert forall|m: int| 0 <= m < i + 1 && (#[trigger] self.slots@[m]) is Some implies out@.contains(
                    m as u32,
                ) by {
                    if m < i {
                        let j = choose|j: int| 0 <= j < prev.len() && prev[j] == m as u32;
                        assert(out@[j] == m as u32);
                    } else {
                        assert(out@[out@.len() - 1] == i as u32);
                    }
                }
            }
            i = i + 1;
        }
        out
    }
}

/// The id in slot `i`, by its bits, if the slot holds one.
pub open spec fn id_at<T>(slots: Seq<Option<(Uid, T)>>, i: int) -> Option<u64> {
    match slots[i] {
        Some(e) => Some(e.0@),
        None => None,
    }
}

/// The ids held in `s`, by their bits, in slot order.
pub open spec fn ids_in_order<T>(s: Seq<Option<(Uid, T)>>) -> Seq<u64>
    decreases s.len(),
{
    if s.len() == 0 {
        seq![]
    } else {
        match s.last() {
            Some(e) => ids_in_order(s.drop_last()).push(e.0@),
            None => ids_in_order(s.drop_last()),
        }
    }
}

/// How many of `s` hold an entity.
pub open spec fn count_filled<T>(s: Seq<Option<(Uid, T)>>) -> nat
    decreases s.len(),
{
    if s.len() == 0 {
        0
    } else {
        count_filled(s.drop_last()) + if s.last() is Some {
            1nat
        } else {
            0
        }
    }
}

/// No more entities than slots, and fewer when there is a hole.
proof fn lemma_count_filled_bound<T>(s: Seq<Option<(Uid, T)>>)
    ensures
        count_filled(s) <= s.len(),
        (exists|i: int| 0 <= i < s.len() && (#[trigger] s[i]) is None) ==> count_filled(s) < s.len(),
    decreases s.len(),
{
    if s.len() > 0 {
        lemma_count_filled_bound(s.drop_last());
        if exists|i: int| 0 <= i < s.len() && (#[trigger] s[i]) is None {
            let i = choose|i: int| 0 <= i < s.len() && (#[trigger] s[i]) is None;
            if i < s.len() - 1 {
                assert(s.drop_last()[i] is None);
            }
        }
    }
}

/// Counting the stored entities after a slot changes.
proof fn lemma_count_filled_update<T>(s: Seq<Option<(Uid, T)>>, i: int, v: Option<(Uid, T)>)
    requires
        0 <= i < s.len(),
    ensures
        count_filled(s.update(i, v)) + (if s[i] is Some {
            1int
        } else {
            0
        }) == count_filled(s) + (if v is Some {
            1int
        } else {
            0
        }),
    decreases s.len(),
{
    let t = s.update(i, v);
    if i == s.len() - 1 {
        assert(t.drop_last() =~= s.drop_last());
    } else {
        lemma_count_filled_update(s.drop_last(), i, v);
        assert(t.drop_last() =~= s.drop_last().update(i, v));
    }
}

/// Counting the stored entities after a slot is added.
proof fn lemma_count_filled_push<T>(s: Seq<Option<(Uid, T)>>, v: Option<(Uid, T)>)
    ensures
        count_filled(s.push(v)) == count_filled(s) + (if v is Some {
            1int
        } else {
            0
        }),
{
    assert(s.push(v).drop_last() =~= s);
}

} // verus!
