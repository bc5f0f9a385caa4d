use crowd2x::brain::task::ActionState;
use crowd2x::map::{Point, Size, TileMap, FLOOR, WALL};
use crowd2x::occupancy::Occupancy;
use crowd2x::uid::{EntityType, Uid};
use crowd2x::walker::Route;
use crowd2x::feature::Features;
use crowd2x::testing::prop_at;

fn me() -> Uid {
    Uid::new(EntityType::Human, 1)
}

#[test]
fn a_route_to_somewhere_walled_off_says_so_and_leaves_no_plan() {
    let mut map = TileMap::new(Size::new(9, 9), FLOOR);
    for y in 0..9 {
        map.set_terrain(Point::new(4, y), WALL);
    }
    let mut route = Route::new();
    route.enter(Point::new(1, 2));
    assert!(!route.route_to(&map, Point::new(1, 1), Point::new(7, 1)));
    assert!(!route.is_walking(), "a stale route must not survive a miss");
}

#[test]
fn a_route_is_a_shortest_walk_to_the_cell_asked_for() {
    let map = TileMap::new(Size::new(9, 9), FLOOR);
    let mut route = Route::new();
    assert!(route.route_to(&map, Point::new(1, 1), Point::new(4, 3)));
    let cells = route.cells();
    assert_eq!(cells.len(), 5);
    assert_eq!(route.destination(), Some(Point::new(4, 3)));
    // Already in the cell: a route of that one cell, to walk to its middle.
    assert!(route.route_to(&map, Point::new(4, 3), Point::new(4, 3)));
    assert_eq!(route.cells(), [Point::new(4, 3)]);
}

#[test]
fn entering_sets_a_one_cell_route_with_no_search() {
    let mut map = TileMap::new(Size::new(5, 5), FLOOR);
    map.set_terrain(Point::new(3, 3), WALL);
    let mut route = Route::new();
    route.enter(Point::new(3, 3));
    assert_eq!(route.cells(), [Point::new(3, 3)]);
    assert!(route.is_walking());
    route.halt();
    assert!(!route.is_walking());
    assert_eq!(route.destination(), None);
}

#[test]
fn a_blocked_walker_detours_round_whoever_is_in_the_way() {
    let map = TileMap::new(Size::new(9, 9), FLOOR);
    let mut occupancy = Occupancy::new(map.size());
    let blocker = Uid::new(EntityType::Human, 99);
    occupancy.claim(Point::new(5, 4), blocker).unwrap();

    let mut route = Route::new();
    assert!(route.route_to(&map, Point::new(4, 4), Point::new(7, 4)));
    let state = route.advance(&map, &occupancy, me(), Point::new(4, 4), true, true);

    assert_eq!(state, ActionState::Running);
    assert_eq!(route.destination(), Some(Point::new(7, 4)));
    assert!(!route.cells().contains(&Point::new(5, 4)), "should not still be heading straight at the blocker");
}

#[test]
fn a_detour_that_finds_no_way_round_fails_the_walk() {
    let map = TileMap::new(Size::new(9, 1), FLOOR);
    let mut occupancy = Occupancy::new(map.size());
    let blocker = Uid::new(EntityType::Human, 99);
    occupancy.claim(Point::new(2, 0), blocker).unwrap();

    let mut route = Route::new();
    assert!(route.route_to(&map, Point::new(1, 0), Point::new(6, 0)));
    let state = route.advance(&map, &occupancy, me(), Point::new(1, 0), true, true);
    assert_eq!(state, ActionState::Failed);
    assert!(!route.is_walking());
}

#[test]
fn the_last_cell_is_ticked_off_in_its_middle() {
    let map = TileMap::new(Size::new(5, 5), FLOOR);
    let occupancy = Occupancy::new(map.size());
    let mut route = Route::new();
    route.enter(Point::new(2, 2));
    assert_eq!(route.advance(&map, &occupancy, me(), Point::new(2, 2), false, false), ActionState::Running);
    assert_eq!(route.advance(&map, &occupancy, me(), Point::new(2, 2), false, true), ActionState::Finished);
}

#[test]
fn the_same_walker_asked_the_same_thing_plans_the_same_route() {
    let map = TileMap::new(Size::new(16, 16), FLOOR);
    let (mut a, mut b) = (Route::new(), Route::new());
    a.route_to(&map, Point::new(2, 3), Point::new(13, 11));
    b.route_to(&map, Point::new(2, 3), Point::new(13, 11));
    assert_eq!(a.cells(), b.cells());
}

#[test]
fn an_ordinary_route_treats_an_enterable_feature_exactly_like_a_wall() {
    let mut map = TileMap::new(Size::new(9, 5), FLOOR);
    for x in 0..9 {
        map.set_terrain(Point::new(x, 2), WALL);
    }
    let toilet = Point::new(4, 2);
    map.set_terrain(toilet, FLOOR);
    prop_at(&mut map, "toilet", toilet);
    let features = Features::from_map(&map);
    assert!(features.is_enterable(toilet), "the fixture should have made a real toilet");

    let mut route = Route::new();
    assert!(!route.route_to(&map, Point::new(1, 1), Point::new(7, 4)), "the toilet is not a doorway");
    assert!(!route.is_walking());
}

#[test]
fn a_route_is_no_longer_than_a_way_round_the_wall() {
    let mut map = TileMap::new(Size::new(7, 7), FLOOR);
    for y in 0..6 {
        map.set_terrain(Point::new(3, y), WALL);
    }
    let mut route = Route::new();
    assert!(route.route_to(&map, Point::new(0, 0), Point::new(6, 0)));
    assert_eq!(route.cells().len(), 6 + 6 + 6);
}
