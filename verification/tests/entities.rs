use crowd2x::entities::{Entities, Slot};
use crowd2x::uid::{EntityType, Uid};

/// What the store holds in these tests: something that knows its own id.
#[derive(Debug, PartialEq)]
struct Stub {
    uid: Uid,
    steps: u32,
}

fn uid(body: u64) -> Uid {
    Uid::new(EntityType::Human, body)
}

fn insert(entities: &mut Entities<Stub>, body: u64) -> Slot {
    entities.insert(uid(body), Stub { uid: uid(body), steps: 0 })
}

#[test]
fn an_entity_is_found_by_its_id() {
    let mut entities = Entities::new();
    insert(&mut entities, 1);
    insert(&mut entities, 2);

    assert_eq!(entities.len(), 2);
    assert_eq!(entities.get(uid(1)).map(|e| e.uid), Some(uid(1)));
    assert!(entities.contains(uid(2)));
    assert!(entities.get(uid(3)).is_none());
}

#[test]
fn removing_an_entity_takes_it_out_of_both_the_arena_and_the_index() {
    let mut entities = Entities::new();
    insert(&mut entities, 1);
    let gone = entities.remove(uid(1)).expect("it was there");

    assert_eq!(gone.uid, uid(1));
    assert_eq!(entities.len(), 0);
    assert!(!entities.contains(uid(1)));
    assert!(entities.get(uid(1)).is_none());
    // Removing it twice is not an error, and does not decrement past zero.
    assert!(entities.remove(uid(1)).is_none());
    assert_eq!(entities.len(), 0);
}

#[test]
fn a_despawn_leaves_the_other_slots_where_they_were() {
    let mut entities = Entities::new();
    for body in 1..=3 {
        insert(&mut entities, body);
    }
    let slot_of_three = entities.slot_of(uid(3)).expect("inserted");

    entities.remove(uid(2));

    assert_eq!(entities.slot_of(uid(3)), Some(slot_of_three));
    let order: Vec<Uid> = entities.uids();
    assert_eq!(order, [uid(1), uid(3)]);
}

#[test]
fn a_hole_is_reused_before_the_arena_grows() {
    let mut entities = Entities::new();
    for body in 1..=3 {
        insert(&mut entities, body);
    }
    assert_eq!(entities.capacity(), 3);

    entities.remove(uid(2));
    let slot = insert(&mut entities, 4);

    assert_eq!(slot, 1, "the hole should have been filled");
    assert_eq!(entities.capacity(), 3, "the arena should not have grown");
    assert_eq!(entities.len(), 3);
}

#[test]
fn iteration_skips_the_holes() {
    let mut entities = Entities::new();
    for body in 1..=4 {
        insert(&mut entities, body);
    }
    entities.remove(uid(1));
    entities.remove(uid(4));

    assert_eq!(entities.uids().len(), 2);
    let slots: Vec<Slot> = entities.occupied();
    assert_eq!(slots, [1, 2]);
}

#[test]
fn an_entity_changed_in_place_stays_in_its_slot_under_its_id() {
    let mut entities = Entities::new();
    insert(&mut entities, 1);
    insert(&mut entities, 2);
    entities.get_mut(uid(2)).expect("stored").steps = 5;
    if let Some(stub) = entities.slot_mut(0) {
        stub.steps += 1;
    }
    assert_eq!(entities.get(uid(2)).map(|e| e.steps), Some(5));
    assert_eq!(entities.slot(0).map(|e| e.steps), Some(1));
    assert_eq!(entities.slot_of(uid(2)), Some(1));
    assert!(entities.get_mut(uid(9)).is_none());
    assert!(entities.slot(7).is_none());
}

#[test]
fn holes_are_handed_out_most_recent_first() {
    let mut entities = Entities::new();
    for body in 1..=4 {
        insert(&mut entities, body);
    }
    entities.remove(uid(1));
    entities.remove(uid(3));
    assert_eq!(insert(&mut entities, 5), 2);
    assert_eq!(insert(&mut entities, 6), 0);
    assert_eq!(insert(&mut entities, 7), 4, "no holes left: the arena grows");
    assert_eq!(entities.uids(), [uid(6), uid(2), uid(5), uid(4), uid(7)]);
}

#[test]
fn an_empty_table_always_mints_an_id_of_the_kind_asked_for() {
    let table: crowd2x::entities::Entities<u8> = crowd2x::entities::Entities::new();
    let mut rng = crowd2x::rng::tick_rng(crowd2x::uid::Uid::new(crowd2x::uid::EntityType::Dog, 5), 9);
    let uid = table.mint_uid(&mut rng, crowd2x::uid::EntityType::Dog).expect("nothing is taken");
    assert_eq!(uid.kind(), Some(crowd2x::uid::EntityType::Dog));
}

#[test]
fn an_inserted_id_is_found_at_the_slot_it_was_given() {
    let mut table: Entities<u8> = Entities::new();
    let a = Uid::new(EntityType::Human, 1);
    let b = Uid::new(EntityType::Dog, 2);
    let sa: Slot = table.insert(a, 1);
    let sb: Slot = table.insert(b, 2);
    assert_eq!(table.slot_of(a), Some(sa));
    assert_eq!(table.slot_of(b), Some(sb));
    table.remove(a);
    let c = Uid::new(EntityType::Dog, 3);
    let sc = table.insert(c, 3);
    assert_eq!(sc, sa, "the freed slot is handed out again");
    assert_eq!(table.slot_of(c), Some(sc));
}
