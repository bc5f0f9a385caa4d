use crowd2x::entities::Entities;
use crowd2x::inventory::Inventory;
use crowd2x::item::ItemKind;
use crowd2x::rng::tick_rng;
use crowd2x::uid::{EntityType, Uid};

#[test]
fn a_new_inventory_is_empty() {
    let inventory = Inventory::new();
    assert!(inventory.is_empty());
    assert_eq!(inventory.stowed_items(), 0);
    assert_eq!(inventory.count(ItemKind::Food), 0);
    assert!(inventory.stowed().is_empty());
}

#[test]
fn stowing_adds_to_the_count_and_taking_out_takes_it_away_again() {
    let mut inventory = Inventory::new();
    assert!(inventory.stow(ItemKind::Food, true));
    assert!(inventory.stow(ItemKind::Food, true));
    assert!(inventory.stow(ItemKind::Water, true));
    assert!(!inventory.stow(ItemKind::Water, false), "what does not fit is refused");

    assert_eq!(inventory.count(ItemKind::Food), 2);
    assert_eq!(inventory.count(ItemKind::Water), 1);
    assert_eq!(inventory.stowed_items(), 3);
    assert_eq!(inventory.stowed(), [(ItemKind::Food, 2), (ItemKind::Water, 1)]);

    assert!(inventory.take_out(ItemKind::Food));
    assert_eq!(inventory.count(ItemKind::Food), 1);
    assert!(!inventory.is_empty());
}

#[test]
fn taking_out_what_is_not_there_changes_nothing() {
    let mut inventory = Inventory::new();
    assert!(!inventory.take_out(ItemKind::Water));
    assert!(inventory.is_empty());
}

#[test]
fn what_is_in_the_hand_is_not_stowed() {
    let mut inventory = Inventory::new();
    assert_eq!(inventory.set_hand(Some(ItemKind::Food)), None);
    assert_eq!(inventory.count(ItemKind::Food), 0);
    assert_eq!(inventory.stowed_items(), 0);
    assert!(!inventory.is_empty(), "it is carrying something");
    assert_eq!(inventory.set_hand(None), Some(ItemKind::Food));
}

#[test]
fn a_kind_stops_at_its_most() {
    let mut inventory = Inventory::new();
    for _ in 0..Inventory::MOST_OF_A_KIND {
        assert!(inventory.stow(ItemKind::Water, true));
    }
    assert!(!inventory.stow(ItemKind::Water, true));
    assert_eq!(inventory.count(ItemKind::Water), 255);
    assert_eq!(inventory.stowed(), [(ItemKind::Water, 255)]);
}

#[test]
fn every_minted_id_is_unique_and_of_its_kind() {
    let mut entities: Entities<u32> = Entities::new();
    let mut rng = tick_rng(Uid::new(EntityType::Human, 1), 0);
    for n in 0..300u32 {
        let kind = if n % 3 == 0 { EntityType::Dog } else { EntityType::Human };
        let uid = entities.mint_uid(&mut rng, kind).expect("a fresh id");
        assert!(!entities.contains(uid));
        assert_eq!(uid.kind(), Some(kind));
        entities.insert(uid, n);
    }
    assert_eq!(entities.len(), 300);
}

#[test]
fn a_debug_view_says_what_is_stowed() {
    let mut inv = Inventory::new();
    assert_eq!(inv.describe_stowed(), "nothing");
    for _ in 0..12 {
        assert!(inv.stow(ItemKind::Food, true));
    }
    assert_eq!(inv.describe_stowed(), "12 food");
    assert!(inv.stow(ItemKind::Water, true));
    assert_eq!(inv.describe_stowed(), "12 food, 1 water");
    for _ in 0..12 {
        assert!(inv.take_out(ItemKind::Food));
    }
    assert_eq!(inv.describe_stowed(), "1 water");
    inv.set_hand(Some(ItemKind::Food));
    assert_eq!(inv.describe_stowed(), "1 water", "what is in hand is not stowed");
}
