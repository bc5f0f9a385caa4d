//! The move step's answer to one entity: whether the step it asked for is
//! granted, and who is standing where afterwards.
//!
//! The terrain is asked first — a wall is cheaper to hit than a crowd, and
//! off the map is impassable — then the crowd. A feature that is entered to
//! be used is let through to the crowd's say although nobody walks through
//! it: whoever holds it keeps it. A refused move writes nothing; a granted
//! one claims the new cell before releasing the old one.

use vstd::prelude::*;

use crate::feature::Features;
use crate::map::{Point, TileMap};
use crate::occupancy::Occupancy;
use crate::uid::Uid;

verus! {

/// What became of an entity's step once the world had its say.
#[derive(Clone, Copy, PartialEq, Eq, Debug, Default)]
pub enum MoveOutcome {
    /// Nothing was asked for, so nothing happened.
    #[default]
    Idle,
    /// It is where it wanted to be.
    Moved,
    /// The move was cancelled; `by` names the entity in the way, and is
    /// `None` when the obstacle was the map itself.
    Blocked { by: Option<Uid> },
}

impl MoveOutcome {
    pub fn is_blocked(self) -> (b: bool)
        ensures
            b == self is Blocked,
    {
        match self {
            MoveOutcome::Blocked { .. } => true,
            _ => false,
        }
    }

    /// The entity that got in the way, if one did.
    pub fn obstacle(self) -> (o: Option<Uid>)
        ensures
            o == match self {
                MoveOutcome::Blocked { by } => by,
                _ => None,
            },
    {
        match self {
            MoveOutcome::Blocked { by } => by,
            _ => None,
        }
    }
}

/// Which way something is facing.
#[derive(Clone, Copy, PartialEq, Eq, Structural, Debug)]
pub enum Facing {
    Left,
    Right,
}

/// The cells `uid` holds.
pub open spec fn cells_held_by(occupancy: Occupancy, uid: Uid) -> Set<Point> {
    Set::new(|c: Point| occupancy.occupant_at(c) matches Some(o) && o@ == uid@)
}

/// `cell` may be stepped into: passable, or a feature entered to be used.
pub open spec fn steppable(map: TileMap, features: Features, cell: Point) -> bool {
    map.spec_passable(cell) || features.spec_entered().contains(cell)
}

/// What [`resolve_move`] does when `uid`, standing in `from`, asks to end
/// the tick in `into`, and the answer is `outcome`.
pub open spec fn resolved(
    map: TileMap,
    features: Features,
    before: Occupancy,
    after: Occupancy,
    uid: Uid,
    from: Point,
    into: Point,
    outcome: MoveOutcome,
) -> bool {
    &&& after.spec_size() == before.spec_size()
    &&& into == from ==> outcome == MoveOutcome::Moved && after == before
    &&& into != from && !steppable(map, features, into) ==> outcome == (MoveOutcome::Blocked { by: None })
        && after == before
    &&& into != from && steppable(map, features, into) ==> match before.occupant_at(into) {
        Some(other) if other@ != uid@ => outcome == (MoveOutcome::Blocked { by: Some(other) }) && after == before,
        _ => outcome == MoveOutcome::Moved,
    }
    &&& outcome == MoveOutcome::Moved && into != from ==> {
        &&& before.spec_size().spec_contains(into) ==> after.occupant_at(into) == Some(uid)
        &&& after.occupant_at(from) == if before.occupant_at(from) matches Some(o) && o@ == uid@ {
            None
        } else {
            before.occupant_at(from)
        }
        &&& forall|c: Point| c != from && c != into ==> after.occupant_at(c) == before.occupant_at(c)
    }
}

/// A move only ever changes the mover's own cells: every other entity holds
/// exactly the cells it held before, whatever the answer was.
pub proof fn lemma_move_leaves_others_alone(
    map: TileMap,
    features: Features,
    before: Occupancy,
    after: Occupancy,
    uid: Uid,
    from: Point,
    into: Point,
    outcome: MoveOutcome,
    other: Uid,
)
    requires
        resolved(map, features, before, after, uid, from, into, outcome),
        other@ != uid@,
    ensures
        cells_held_by(after, other) == cells_held_by(before, other),
{
    assert(cells_held_by(after, other) =~= cells_held_by(before, other)) by {
        assert forall|c: Point| cells_held_by(after, other).contains(c) <==> cells_held_by(before, other).contains(c) by {
            if outcome == MoveOutcome::Moved && into != from {
                if c == into {
                    if before.spec_size().spec_contains(into) {
                        assert(steppable(map, features, into));
                    } else {
                        before.lemma_off_map_is_empty(into);
                        after.lemma_off_map_is_empty(into);
                    }
                }
            }
        }
    }
}

/// Nothing ever ends a tick in a cell it stepped into that could not be
/// stood in — impassable, and no feature entered to be used — nor in a cell
/// somebody else was standing in.
pub proof fn lemma_moves_land_on_free_floor(
    map: TileMap,
    features: Features,
    before: Occupancy,
    after: Occupancy,
    uid: Uid,
    from: Point,
    into: Point,
    outcome: MoveOutcome,
)
    requires
        resolved(map, features, before, after, uid, from, into, outcome),
        outcome == MoveOutcome::Moved,
        into != from,
    ensures
        steppable(map, features, into),
        before.free_for(into, uid),
{
}

/// Whether `uid` could stand in `cell` right now: passable terrain, and
/// nobody else already there. Only meaningful for the moment it is asked:
/// the crowd moves.
pub fn is_clear_for(map: &TileMap, occupancy: &Occupancy, cell: Point, uid: Uid) -> (b: bool)
    requires
        map.wf(),
        occupancy.wf(),
    ensures
        b == (map.spec_passable(cell) && occupancy.free_for(cell, uid)),
{
    map.is_passable(cell) && occupancy.is_free_for(cell, uid)
}

/// One entity, standing in `from`, asks to end the tick in `into`.
///
/// A step that stays in its own cell is granted with nothing to claim. A
/// step into a cell that is neither passable nor a feature entered to be
/// used is refused with no obstacle named. A step
/// into somebody else's cell is refused naming them, and nothing is
/// written. Otherwise the new cell is claimed, the old one released, and
/// the step granted.
pub fn resolve_move(
    map: &TileMap,
    features: &Features,
    occupancy: &mut Occupancy,
    uid: Uid,
    from: Point,
    into: Point,
) -> (outcome: MoveOutcome)
    requires
        map.wf(),
        old(occupancy).wf(),
    ensures
        final(occupancy).wf(),
        resolved(*map, *features, *old(occupancy), *final(occupancy), uid, from, into, outcome),
{
    if into == from {
        return MoveOutcome::Moved;
    }
    if !map.is_passable(into) && !features.is_enterable(into) {
        return MoveOutcome::Blocked { by: None };
    }
    match occupancy.claim(into, uid) {
        Err(other) => MoveOutcome::Blocked { by: Some(other) },
        Ok(()) => {
            occupancy.release(from, uid);
            MoveOutcome::Moved
        },
    }
}

} // verus!
