use crowd2x::feature::Features;
use crowd2x::map::{Point, Size, TileMap, FLOOR, WALL};
use crowd2x::testing::prop_at;
use crowd2x::moves::{resolve_move, MoveOutcome};
use crowd2x::occupancy::Occupancy;
use crowd2x::uid::{EntityType, Uid};

fn uid(body: u64) -> Uid {
    Uid::new(EntityType::Human, body)
}

fn layer() -> Occupancy {
    Occupancy::new(Size::new(4, 3))
}

#[test]
fn a_fresh_layer_holds_nobody() {
    let occupancy = layer();
    assert_eq!(occupancy.count_occupied(), 0);
    assert!(occupancy.size().points().into_iter().all(|cell| !occupancy.is_occupied(cell)));
}

#[test]
fn a_claimed_cell_names_who_took_it() {
    let mut occupancy = layer();
    let cell = Point::new(2, 1);

    assert_eq!(occupancy.claim(cell, uid(1)), Ok(()));
    assert_eq!(occupancy.occupant(cell), Some(uid(1)));
    assert_eq!(occupancy.count_occupied(), 1);
    assert!(!occupancy.is_occupied(Point::new(1, 1)));
}

#[test]
fn claiming_an_occupied_cell_fails_with_the_occupants_id_and_writes_nothing() {
    let mut occupancy = layer();
    let cell = Point::new(0, 0);
    occupancy.claim(cell, uid(1)).expect("empty");

    assert_eq!(occupancy.claim(cell, uid(2)), Err(uid(1)));
    assert_eq!(occupancy.occupant(cell), Some(uid(1)));
    assert!(!occupancy.is_free_for(cell, uid(2)));
}

#[test]
fn an_entity_is_never_in_its_own_way() {
    let mut occupancy = layer();
    let cell = Point::new(3, 2);
    occupancy.claim(cell, uid(1)).expect("empty");

    assert!(occupancy.is_free_for(cell, uid(1)));
    assert_eq!(occupancy.claim(cell, uid(1)), Ok(()));
    assert_eq!(occupancy.count_occupied(), 1);
}

#[test]
fn only_the_entity_holding_a_cell_can_give_it_up() {
    let mut occupancy = layer();
    let cell = Point::new(1, 2);
    occupancy.claim(cell, uid(1)).expect("empty");

    assert!(!occupancy.release(cell, uid(2)));
    assert_eq!(occupancy.occupant(cell), Some(uid(1)));

    assert!(occupancy.release(cell, uid(1)));
    assert_eq!(occupancy.occupant(cell), None);
    assert!(!occupancy.release(cell, uid(1)), "releasing twice");
}

#[test]
fn cells_off_the_map_hold_nobody_and_swallow_a_claim() {
    let mut occupancy = layer();
    for outside in [Point::new(-1, 0), Point::new(4, 0), Point::new(0, 3)] {
        assert_eq!(occupancy.claim(outside, uid(1)), Ok(()));
        assert_eq!(occupancy.occupant(outside), None);
        assert!(!occupancy.release(outside, uid(1)));
    }
    assert_eq!(occupancy.count_occupied(), 0);
}

#[test]
fn walking_a_cell_across_the_layer_leaves_one_occupant_behind() {
    let mut occupancy = layer();
    let mut here = Point::new(0, 0);
    occupancy.claim(here, uid(1)).expect("empty");

    for x in 1..4 {
        let next = Point::new(x, 0);
        occupancy.claim(next, uid(1)).expect("empty");
        occupancy.release(here, uid(1));
        here = next;
        assert_eq!(occupancy.count_occupied(), 1);
        assert_eq!(occupancy.occupant(here), Some(uid(1)));
    }
}

#[test]
fn clearing_empties_every_cell() {
    let mut occupancy = layer();
    occupancy.claim(Point::new(1, 1), uid(1)).expect("empty");
    occupancy.claim(Point::new(2, 2), uid(2)).expect("empty");
    occupancy.clear();
    assert_eq!(occupancy.count_occupied(), 0);
}

#[test]
fn a_move_into_an_occupied_cell_is_cancelled_and_names_the_occupant() {
    let map = TileMap::new(Size::new(4, 3), FLOOR);
    let mut occupancy = Occupancy::new(map.size());
    occupancy.claim(Point::new(0, 0), uid(1)).unwrap();
    occupancy.claim(Point::new(1, 0), uid(2)).unwrap();

    let outcome = resolve_move(&map, &Features::from_map(&map), &mut occupancy, uid(1), Point::new(0, 0), Point::new(1, 0));
    assert_eq!(outcome, MoveOutcome::Blocked { by: Some(uid(2)) });
    assert_eq!(outcome.obstacle(), Some(uid(2)));
    assert!(outcome.is_blocked());
    assert_eq!(occupancy.occupant(Point::new(0, 0)), Some(uid(1)));
    assert_eq!(occupancy.occupant(Point::new(1, 0)), Some(uid(2)));
}

#[test]
fn a_move_into_a_wall_is_cancelled_with_nobody_to_blame() {
    let mut map = TileMap::new(Size::new(4, 3), FLOOR);
    map.set_terrain(Point::new(1, 0), WALL);
    let mut occupancy = Occupancy::new(map.size());
    occupancy.claim(Point::new(0, 0), uid(1)).unwrap();

    let outcome = resolve_move(&map, &Features::from_map(&map), &mut occupancy, uid(1), Point::new(0, 0), Point::new(1, 0));
    assert_eq!(outcome, MoveOutcome::Blocked { by: None });
    assert_eq!(outcome.obstacle(), None);
    let off = resolve_move(&map, &Features::from_map(&map), &mut occupancy, uid(1), Point::new(0, 0), Point::new(-1, 0));
    assert_eq!(off, MoveOutcome::Blocked { by: None });
    assert_eq!(occupancy.count_occupied(), 1);
}

#[test]
fn a_granted_move_takes_the_claim_along_and_leaves_the_old_cell_free() {
    let map = TileMap::new(Size::new(4, 3), FLOOR);
    let mut occupancy = Occupancy::new(map.size());
    occupancy.claim(Point::new(0, 0), uid(1)).unwrap();

    let outcome = resolve_move(&map, &Features::from_map(&map), &mut occupancy, uid(1), Point::new(0, 0), Point::new(1, 0));
    assert_eq!(outcome, MoveOutcome::Moved);
    assert!(!outcome.is_blocked());
    assert_eq!(occupancy.occupant(Point::new(0, 0)), None);
    assert_eq!(occupancy.occupant(Point::new(1, 0)), Some(uid(1)));
    assert_eq!(occupancy.count_occupied(), 1);

    // A step that stays in its own cell changes nothing.
    let stay = resolve_move(&map, &Features::from_map(&map), &mut occupancy, uid(1), Point::new(1, 0), Point::new(1, 0));
    assert_eq!(stay, MoveOutcome::Moved);
    assert_eq!(occupancy.count_occupied(), 1);
}

#[test]
fn somebody_spawned_on_top_of_another_cannot_evict_them_by_leaving() {
    let map = TileMap::new(Size::new(4, 3), FLOOR);
    let mut occupancy = Occupancy::new(map.size());
    occupancy.claim(Point::new(0, 0), uid(1)).unwrap();
    // uid(2) stands in (0, 0) unregistered and walks away.
    let outcome = resolve_move(&map, &Features::from_map(&map), &mut occupancy, uid(2), Point::new(0, 0), Point::new(0, 1));
    assert_eq!(outcome, MoveOutcome::Moved);
    assert_eq!(occupancy.occupant(Point::new(0, 0)), Some(uid(1)));
    assert_eq!(occupancy.occupant(Point::new(0, 1)), Some(uid(2)));
}

#[test]
fn claiming_a_free_cell_and_giving_it_back_leaves_the_layer_as_it_was() {
    let mut layer = layer();
    assert!(layer.claim(Point::new(0, 0), uid(1)).is_ok());
    let before: Vec<Option<Uid>> = Size::new(4, 3).points().iter().map(|&c| layer.occupant(c)).collect();
    let held = layer.count_occupied();
    assert!(layer.claim(Point::new(2, 1), uid(2)).is_ok());
    assert!(layer.release(Point::new(2, 1), uid(2)));
    let after: Vec<Option<Uid>> = Size::new(4, 3).points().iter().map(|&c| layer.occupant(c)).collect();
    assert_eq!(before, after);
    assert_eq!(layer.count_occupied(), held);
}

#[test]
fn a_move_changes_nobody_else_s_cells() {
    let map = TileMap::new(Size::new(4, 3), FLOOR);
    let mut layer = layer();
    assert!(layer.claim(Point::new(0, 0), uid(1)).is_ok());
    assert!(layer.claim(Point::new(3, 2), uid(2)).is_ok());
    assert_eq!(resolve_move(&map, &Features::from_map(&map), &mut layer, uid(1), Point::new(0, 0), Point::new(1, 0)), MoveOutcome::Moved);
    assert_eq!(layer.occupant(Point::new(3, 2)), Some(uid(2)));
    assert_eq!(layer.occupant(Point::new(1, 0)), Some(uid(1)));
    assert_eq!(layer.count_occupied(), 2);
}

#[test]
fn a_toilet_can_be_stepped_into_but_a_fridge_cannot() {
    let mut map = TileMap::new(Size::new(4, 3), FLOOR);
    prop_at(&mut map, "toilet", Point::new(1, 0));
    prop_at(&mut map, "fridge", Point::new(0, 1));
    let features = Features::from_map(&map);
    assert!(!map.is_passable(Point::new(1, 0)), "nobody walks through a toilet");
    let mut occupancy = Occupancy::new(map.size());
    occupancy.claim(Point::new(0, 0), uid(1)).unwrap();

    let fridge = resolve_move(&map, &features, &mut occupancy, uid(1), Point::new(0, 0), Point::new(0, 1));
    assert_eq!(fridge, MoveOutcome::Blocked { by: None });
    let toilet = resolve_move(&map, &features, &mut occupancy, uid(1), Point::new(0, 0), Point::new(1, 0));
    assert_eq!(toilet, MoveOutcome::Moved);
    assert_eq!(occupancy.occupant(Point::new(1, 0)), Some(uid(1)));

    // Whoever is in the toilet keeps it.
    occupancy.claim(Point::new(2, 0), uid(2)).unwrap();
    let queued = resolve_move(&map, &features, &mut occupancy, uid(2), Point::new(2, 0), Point::new(1, 0));
    assert_eq!(queued, MoveOutcome::Blocked { by: Some(uid(1)) });
}

#[test]
fn the_count_of_occupied_cells_is_bounded_by_the_map() {
    let mut layer = Occupancy::new(Size::new(2, 2));
    for (i, cell) in Size::new(2, 2).points().into_iter().enumerate() {
        layer.claim(cell, uid(i as u64 + 1)).unwrap();
    }
    assert_eq!(layer.count_occupied(), 4);
    assert!(layer.claim(Point::new(5, 5), uid(9)).is_ok(), "off the map there is nothing to hold");
    assert_eq!(layer.count_occupied(), 4);
}
