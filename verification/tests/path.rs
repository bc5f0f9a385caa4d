use crowd2x::map::{Point, Size, TileMap, FLOOR, WALL};
use crowd2x::path::{find_path, Path, PathFinder};

const PLENTY: usize = 100_000;

fn open(width: i32, height: i32) -> TileMap {
    TileMap::new(Size::new(width, height), FLOOR)
}

fn route(map: &TileMap, from: Point, to: Point) -> Option<Vec<Point>> {
    find_path(from, to, PLENTY, |cell| map.is_passable(cell))
}

/// Every cell is a cardinal step from the one before, the first is a step
/// from `start`, and the last is `goal`.
fn is_a_walk(start: Point, goal: Point, steps: &[Point]) -> bool {
    let mut here = start;
    for &step in steps {
        let (dx, dy) = (step.x - here.x, step.y - here.y);
        if dx.abs() + dy.abs() != 1 {
            return false;
        }
        here = step;
    }
    here == goal
}

#[test]
fn a_path_across_an_empty_room_is_as_long_as_the_manhattan_distance() {
    let map = open(10, 10);
    let (from, to) = (Point::new(1, 1), Point::new(8, 6));
    let steps = route(&map, from, to).expect("an open room has a route");

    assert_eq!(steps.len() as i32, from.manhattan_distance(to));
    assert!(is_a_walk(from, to, &steps));
}

#[test]
fn the_start_is_not_in_the_path_and_the_goal_is() {
    let map = open(5, 5);
    let (from, to) = (Point::new(0, 0), Point::new(3, 0));
    let steps = route(&map, from, to).unwrap();

    assert!(!steps.contains(&from));
    assert_eq!(steps.last(), Some(&to));
}

#[test]
fn going_nowhere_is_an_empty_path_and_not_a_failure() {
    let map = open(4, 4);
    let here = Point::new(2, 2);
    assert_eq!(route(&map, here, here), Some(Vec::new()));
}

#[test]
fn a_path_goes_round_a_wall_rather_than_through_it() {
    let mut map = open(9, 9);
    for y in 0..8 {
        map.set_terrain(Point::new(4, y), WALL);
    }
    let (from, to) = (Point::new(1, 1), Point::new(7, 1));
    let steps = route(&map, from, to).expect("the gap is a route");

    assert!(is_a_walk(from, to, &steps));
    assert!(steps.iter().all(|&cell| map.is_passable(cell)));
    assert!(steps.len() as i32 > from.manhattan_distance(to));
}

#[test]
fn a_walled_off_goal_has_no_path() {
    let mut map = open(9, 9);
    for y in 0..9 {
        map.set_terrain(Point::new(4, y), WALL);
    }
    assert_eq!(route(&map, Point::new(1, 1), Point::new(7, 1)), None);
}

#[test]
fn a_goal_in_a_wall_has_no_path() {
    let mut map = open(5, 5);
    let wall = Point::new(2, 2);
    map.set_terrain(wall, WALL);
    assert_eq!(route(&map, Point::new(0, 0), wall), None);
}

#[test]
fn a_goal_off_the_map_has_no_path() {
    let map = open(5, 5);
    assert_eq!(route(&map, Point::new(0, 0), Point::new(9, 9)), None);
}

#[test]
fn something_standing_in_a_wall_can_still_walk_out_of_it() {
    let mut map = open(5, 5);
    let wall = Point::new(2, 2);
    map.set_terrain(wall, WALL);

    let to = Point::new(4, 4);
    let steps = route(&map, wall, to).expect("out of the wall and away");
    assert!(is_a_walk(wall, to, &steps));
}

#[test]
fn the_budget_is_a_wall_and_not_a_suggestion() {
    let mut map = open(60, 60);
    for y in 0..60 {
        map.set_terrain(Point::new(30, y), WALL);
    }
    let (from, to) = (Point::new(1, 1), Point::new(50, 50));

    assert_eq!(find_path(from, to, 16, |c| map.is_passable(c)), None);
    assert_eq!(find_path(from, to, PLENTY, |c| map.is_passable(c)), None);

    let near = Point::new(4, 1);
    assert!(find_path(from, near, 16, |c| map.is_passable(c)).is_some());
}

#[test]
fn the_same_search_gives_the_same_path_every_time() {
    let map = open(20, 20);
    let (from, to) = (Point::new(2, 3), Point::new(17, 16));
    let first = route(&map, from, to).unwrap();
    for _ in 0..8 {
        assert_eq!(route(&map, from, to), Some(first.clone()));
    }
}

#[test]
fn a_finder_reused_does_not_remember_the_last_search() {
    let map = open(12, 12);
    let mut finder = PathFinder::new();
    let long = finder
        .find(Point::new(0, 0), Point::new(11, 11), PLENTY, |c| {
            map.is_passable(c)
        })
        .unwrap();
    let short = finder
        .find(Point::new(0, 0), Point::new(0, 1), PLENTY, |c| {
            map.is_passable(c)
        })
        .unwrap();

    assert_eq!(long.len(), 22);
    assert_eq!(short, vec![Point::new(0, 1)]);
}

#[test]
fn the_predicate_is_what_blocks_and_not_the_map() {
    let map = open(3, 3);
    let (from, to) = (Point::new(0, 1), Point::new(2, 1));
    let occupied = Point::new(1, 1);

    assert_eq!(route(&map, from, to), Some(vec![occupied, to]));

    let round = find_path(from, to, PLENTY, |c| c != occupied && map.is_passable(c))
        .expect("round the outside");
    assert!(!round.contains(&occupied));
    assert!(is_a_walk(from, to, &round));
}

#[test]
fn a_route_round_a_u_shaped_wall_is_the_shortest_one() {
    // Walls at x = 3 from y = 0 to 5: the way round is over the top of them.
    let mut map = open(7, 8);
    for y in 0..6 {
        map.set_terrain(Point::new(3, y), WALL);
    }
    let (from, to) = (Point::new(1, 0), Point::new(5, 0));
    let steps = route(&map, from, to).unwrap();
    // Down six, across four, up six.
    assert_eq!(steps.len(), 16);
    assert!(is_a_walk(from, to, &steps));
    let mut cells = steps.clone();
    cells.sort();
    cells.dedup();
    assert_eq!(cells.len(), steps.len(), "no cell twice");
}

// --- the path itself ---

#[test]
fn walking_a_path_reaches_the_end_and_stops() {
    let mut path = Path::new(vec![Point::new(1, 0), Point::new(2, 0)]);
    assert_eq!(path.current(), Some(Point::new(1, 0)));
    assert_eq!(path.destination(), Some(Point::new(2, 0)));

    path.advance();
    assert_eq!(path.current(), Some(Point::new(2, 0)));
    assert!(!path.is_done());

    path.advance();
    assert_eq!(path.current(), None);
    assert!(path.is_done());
    assert!(path.remaining().is_empty());
}

#[test]
fn an_empty_path_is_already_done() {
    assert!(Path::none().is_done());
    assert_eq!(Path::none().current(), None);
    assert_eq!(Path::none().destination(), None);
}

#[test]
fn a_splice_replaces_the_next_few_cells_and_keeps_the_rest() {
    let cells: Vec<Point> = (1..=6).map(|x| Point::new(x, 0)).collect();
    let mut path = Path::new(cells);
    path.advance();

    let detour = vec![Point::new(2, 1), Point::new(3, 1), Point::new(4, 0)];
    path.splice(3, detour.clone());

    assert_eq!(
        path.remaining(),
        [detour, vec![Point::new(5, 0), Point::new(6, 0)]].concat()
    );
    assert_eq!(path.destination(), Some(Point::new(6, 0)));
}

#[test]
fn splicing_more_cells_than_are_left_replaces_the_whole_tail() {
    let mut path = Path::new(vec![Point::new(1, 0), Point::new(2, 0)]);
    let detour = vec![Point::new(1, 1), Point::new(2, 1), Point::new(2, 0)];
    path.splice(50, detour.clone());
    assert_eq!(path.remaining(), detour);
}

#[test]
fn clearing_a_path_leaves_nothing_to_walk() {
    let mut path = Path::new(vec![Point::new(1, 0), Point::new(2, 0)]);
    path.advance();
    path.clear();
    assert!(path.is_done());
    assert_eq!(path.destination(), None);
    assert_eq!(path, Path::none());
}

#[test]
fn a_search_with_no_budget_finds_nothing_but_an_empty_route() {
    let map = open(4, 4);
    assert_eq!(find_path(Point::new(0, 0), Point::new(1, 0), 0, |c| map.is_passable(c)), None);
    assert_eq!(find_path(Point::new(0, 0), Point::new(0, 0), 0, |c| map.is_passable(c)), Some(vec![]));
}

#[test]
fn a_budget_as_big_as_the_map_always_finds_a_route_that_exists() {
    // 36 cells: a budget of 36 expansions covers every reachable cell.
    let mut map = open(6, 6);
    for y in 0..5 {
        map.set_terrain(Point::new(3, y), WALL);
    }
    let found = find_path(Point::new(0, 0), Point::new(5, 0), 36, |c| map.is_passable(c)).expect("a route exists");
    assert_eq!(found.len(), 5 + 5 + 5);
}

#[test]
fn a_budget_of_exactly_the_cells_reachable_still_finds_the_route() {
    // A corridor of four cells: the start and three more, the last the goal.
    // The goal is never expanded, so three expansions are always enough.
    let mut map = open(4, 3);
    for x in 0..4 {
        map.set_terrain(Point::new(x, 0), WALL);
        map.set_terrain(Point::new(x, 2), WALL);
    }
    let found = find_path(Point::new(0, 1), Point::new(3, 1), 3, |c| map.is_passable(c));
    assert_eq!(found, Some(vec![Point::new(1, 1), Point::new(2, 1), Point::new(3, 1)]));
}

#[test]
fn the_predicate_is_never_asked_about_the_start_nor_at_all_for_going_nowhere() {
    let map = open(5, 5);
    let start = Point::new(2, 2);
    let asked = std::cell::RefCell::new(Vec::new());
    let ask = |c: Point| {
        asked.borrow_mut().push(c);
        map.is_passable(c)
    };
    let mut finder = PathFinder::new();
    assert_eq!(finder.find(start, start, 25, &ask), Some(vec![]));
    assert!(asked.borrow().is_empty());
    assert!(finder.find(start, Point::new(4, 4), 25, &ask).is_some());
    assert!(!asked.borrow().is_empty());
    assert!(!asked.borrow().contains(&start));
}
