use crowd2x::map::Point;
use crowd2x::nav::{step, Dir, Focusable};
use crowd2x::view::CellRect;

/// A file row: the map name, then three buttons along it.
fn browser_rows() -> Vec<Focusable> {
    (0..3).flat_map(|row| (0..4).map(move |col| Focusable::new(row, col))).collect()
}

fn at(slots: &[Focusable], row: i32, col: i32) -> usize {
    slots.iter().position(|slot| slot.row == row && slot.col == col).expect("no such slot")
}

#[test]
fn moving_down_a_list_stays_in_the_same_column() {
    let slots = browser_rows();
    let from = at(&slots, 0, 3);
    assert_eq!(step(&slots, from, Dir::Down), Some(at(&slots, 1, 3)));
}

#[test]
fn vertical_movement_wraps_around_the_ends() {
    let slots = browser_rows();
    let bottom = at(&slots, 2, 1);
    assert_eq!(step(&slots, bottom, Dir::Down), Some(at(&slots, 0, 1)));
    let top = at(&slots, 0, 1);
    assert_eq!(step(&slots, top, Dir::Up), Some(at(&slots, 2, 1)));
}

#[test]
fn horizontal_movement_stops_at_the_ends_of_its_row() {
    let slots = browser_rows();
    let last = at(&slots, 1, 3);
    assert_eq!(step(&slots, last, Dir::Right), None);
    let first = at(&slots, 1, 0);
    assert_eq!(step(&slots, first, Dir::Left), None);
    // ...and never leaves the row it started on.
    assert_eq!(step(&slots, first, Dir::Right), Some(at(&slots, 1, 1)));
}

#[test]
fn a_short_row_is_entered_at_its_nearest_column() {
    let mut slots = vec![Focusable::new(0, 0), Focusable::new(0, 1)];
    slots.extend((0..4).map(|col| Focusable::new(1, col)));

    let from = at(&slots, 1, 3);
    assert_eq!(step(&slots, from, Dir::Up), Some(at(&slots, 0, 1)));
}

#[test]
fn a_single_row_of_widgets_has_nowhere_vertical_to_go() {
    let slots = vec![Focusable::new(0, 0), Focusable::new(0, 1)];
    // Wrapping finds the row it is already on, so focus stays put rather
    // than jumping sideways.
    assert_eq!(step(&slots, 1, Dir::Down), Some(1));
    assert_eq!(step(&slots, 1, Dir::Up), Some(1));
}

#[test]
fn navigating_from_nothing_is_not_a_panic() {
    assert_eq!(step(&[], 0, Dir::Down), None);
    assert_eq!(step(&browser_rows(), 99, Dir::Down), None);
}

#[test]
fn a_widget_in_a_modal_layer_keeps_its_place() {
    let f = Focusable::new(2, 5).in_scope(3);
    assert_eq!((f.row, f.col, f.scope), (2, 5, 3));
    assert_eq!(Focusable::new(1, 1).scope, 0);
}

fn cells_outside(rect: &CellRect, other: &CellRect) -> Vec<Point> {
    rect.cells().into_iter().filter(|c| !other.contains(*c)).collect()
}

#[test]
fn a_rect_that_did_not_move_diffs_to_nothing() {
    let rect = CellRect::new(Point::new(0, 0), Point::new(5, 3));
    assert!(cells_outside(&rect, &rect).is_empty());
    assert_eq!(rect.area(), rect.cells().len());
}

#[test]
fn a_rect_moved_one_cell_leaves_and_enters_one_column() {
    let old = CellRect::new(Point::new(0, 0), Point::new(5, 3));
    let new = CellRect::new(Point::new(1, 0), Point::new(6, 3));
    let left = cells_outside(&old, &new);
    let entered = cells_outside(&new, &old);
    // Four rows tall, one column each way.
    assert_eq!(left.len(), 4);
    assert_eq!(entered.len(), 4);
    assert!(left.iter().all(|c| c.x == 0));
    assert!(entered.iter().all(|c| c.x == 6));
}

#[test]
fn two_rects_that_do_not_overlap_swap_every_cell() {
    let old = CellRect::new(Point::new(0, 0), Point::new(3, 3));
    let new = CellRect::new(Point::new(10, 10), Point::new(13, 13));
    assert_eq!(cells_outside(&old, &new).len(), 16);
    assert_eq!(cells_outside(&new, &old).len(), 16);
    assert!(old.intersect(new).is_empty());
}

#[test]
fn an_empty_rect_covers_nothing_not_cell_zero() {
    let empty = CellRect::default();
    assert!(empty.is_empty());
    assert_eq!(empty.area(), 0);
    assert_eq!(empty.cells().len(), 0);
    assert!(!empty.contains(Point::new(0, 0)));
}

#[test]
fn cells_come_row_by_row_and_an_overlap_is_the_shared_part() {
    let rect = CellRect::new(Point::new(-1, 2), Point::new(0, 3));
    assert_eq!(
        rect.cells(),
        [Point::new(-1, 2), Point::new(0, 2), Point::new(-1, 3), Point::new(0, 3)]
    );
    let a = CellRect::new(Point::new(0, 0), Point::new(5, 5));
    let b = CellRect::new(Point::new(3, -2), Point::new(9, 4));
    assert_eq!(a.intersect(b), CellRect::new(Point::new(3, 0), Point::new(5, 4)));
    assert_eq!(a.intersect(b).area(), 15);
}
