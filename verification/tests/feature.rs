use crowd2x::feature::{kinds_of, Access, FeatureKind, Features};
use crowd2x::map::{Object, ObjectKind, ObjectLayer, Point, Size, TileMap, FLOOR, PIXELS_PER_CELL};
use crowd2x::testing::prop_at;

fn prop(name: &str, cell: Point) -> Object {
    Object {
        at: Point::new(
            cell.x * PIXELS_PER_CELL + PIXELS_PER_CELL / 2,
            cell.y * PIXELS_PER_CELL + PIXELS_PER_CELL / 2,
        ),
        kind: ObjectKind::new(name),
    }
}

#[test]
fn a_fridge_on_the_map_is_food_and_water_in_the_index_and_a_bed_is_nothing() {
    let mut map = TileMap::new(Size::new(10, 10), FLOOR);
    map.add_object(ObjectLayer::Props, prop("fridge", Point::new(3, 4)));
    map.add_object(ObjectLayer::Props, prop("bed 1", Point::new(6, 6)));

    let features = Features::from_map(&map);
    for kind in [FeatureKind::Food, FeatureKind::Water] {
        assert_eq!(features.count(kind), 1, "{kind:?}");
        assert_eq!(features.nearest(kind, Point::new(0, 0)), Some(Point::new(3, 4)), "{kind:?}");
    }
    assert_eq!(features.count(FeatureKind::Toilet), 0, "a fridge is not a toilet");
}

#[test]
fn a_toilet_on_the_map_is_a_toilet_in_the_index_and_nothing_else() {
    let mut map = TileMap::new(Size::new(10, 10), FLOOR);
    map.add_object(ObjectLayer::Props, prop("toilet", Point::new(7, 2)));

    let features = Features::from_map(&map);
    assert_eq!(features.nearest(FeatureKind::Toilet, Point::new(0, 0)), Some(Point::new(7, 2)));
    assert_eq!(features.count(FeatureKind::Food) + features.count(FeatureKind::Water), 0);
}

#[test]
fn the_nearest_fridge_is_the_nearest_one() {
    let mut map = TileMap::new(Size::new(20, 20), FLOOR);
    for cell in [Point::new(1, 1), Point::new(18, 18), Point::new(9, 8)] {
        map.add_object(ObjectLayer::Props, prop("fridge", cell));
    }
    let features = Features::from_map(&map);
    assert_eq!(features.nearest(FeatureKind::Food, Point::new(12, 12)), Some(Point::new(9, 8)));
}

#[test]
fn two_fridges_equally_far_away_are_settled_the_same_way_whatever_order_they_were_placed_in() {
    let (a, b) = (Point::new(2, 5), Point::new(8, 5));
    let from = Point::new(5, 5);
    let mut forwards = TileMap::new(Size::new(10, 10), FLOOR);
    let mut backwards = forwards.clone();
    forwards.add_object(ObjectLayer::Props, prop("fridge", a));
    forwards.add_object(ObjectLayer::Props, prop("fridge", b));
    backwards.add_object(ObjectLayer::Props, prop("fridge", b));
    backwards.add_object(ObjectLayer::Props, prop("fridge", a));

    assert_eq!(
        Features::from_map(&forwards).nearest(FeatureKind::Food, from),
        Features::from_map(&backwards).nearest(FeatureKind::Food, from),
    );
}

#[test]
fn a_world_with_no_fridge_has_nowhere_to_eat() {
    let map = TileMap::new(Size::new(4, 4), FLOOR);
    assert_eq!(Features::from_map(&map).nearest(FeatureKind::Food, Point::new(1, 1)), None);
}

#[test]
fn a_toilet_is_entered_and_a_fridge_is_touched() {
    assert_eq!(FeatureKind::Toilet.access(), Access::Entered);
    assert_eq!(FeatureKind::Food.access(), Access::Beside);
    assert_eq!(FeatureKind::Water.access(), Access::Beside);
}

#[test]
fn a_toilets_cell_is_enterable_and_a_fridges_is_not() {
    let mut map = TileMap::new(Size::new(10, 10), FLOOR);
    let toilet = Point::new(7, 2);
    let fridge = Point::new(3, 4);
    map.add_object(ObjectLayer::Props, prop("toilet", toilet));
    map.add_object(ObjectLayer::Props, prop("fridge", fridge));

    let features = Features::from_map(&map);
    assert!(features.is_enterable(toilet));
    assert!(!features.is_enterable(fridge));
    assert!(!features.is_enterable(Point::new(0, 0)), "a plain empty cell");
}

#[test]
fn a_fridge_is_two_things_a_toilet_one_and_a_bed_nothing() {
    assert_eq!(kinds_of("fridge"), vec![FeatureKind::Food, FeatureKind::Water]);
    assert_eq!(kinds_of("toilet"), vec![FeatureKind::Toilet]);
    assert!(kinds_of("bed 1").is_empty());
}

#[test]
fn a_prop_placed_by_cell_stands_in_that_cell() {
    let mut map = TileMap::new(Size::new(10, 10), FLOOR);
    prop_at(&mut map, "toilet", Point::new(7, 2));
    prop_at(&mut map, "fridge", Point::new(0, 9));
    let props = map.objects(ObjectLayer::Props);
    assert_eq!(props[0].cell(), Point::new(7, 2));
    assert_eq!(props[1].cell(), Point::new(0, 9));
    assert_eq!(props[1].kind.as_str(), "fridge");
    let features = Features::from_map(&map);
    assert!(features.is_enterable(Point::new(7, 2)));
    assert_eq!(features.nearest(FeatureKind::Water, Point::new(5, 5)), Some(Point::new(0, 9)));
}

#[test]
fn a_prop_left_of_the_map_is_in_a_negative_cell() {
    let object = Object { at: Point::new(-1, 47), kind: ObjectKind::new("fridge") };
    assert_eq!(object.cell(), Point::new(-1, 0));
    let object = Object { at: Point::new(-48, 48), kind: ObjectKind::new("fridge") };
    assert_eq!(object.cell(), Point::new(-1, 1));
}

#[test]
fn two_toilets_in_one_cell_are_one_enterable_cell() {
    let mut map = TileMap::new(Size::new(10, 10), FLOOR);
    prop_at(&mut map, "toilet", Point::new(1, 1));
    prop_at(&mut map, "toilet", Point::new(1, 1));
    let features = Features::from_map(&map);
    assert_eq!(features.count(FeatureKind::Toilet), 2);
    assert!(features.is_enterable(Point::new(1, 1)));
}
