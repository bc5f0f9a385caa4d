//! Helpers for building worlds by hand, as the editor would.

use vstd::prelude::*;

use crate::feature::{cells_of_kind, lemma_nearest_in_unique, nearest_in, nearer, spec_kinds_of, FeatureKind};
use crate::map::{cell_coordinate, ObjectKind, Object, ObjectLayer, Point, TileMap, PIXELS_PER_CELL};

verus! {

/// The pixel at the middle of `cell`.
pub open spec fn centre_pixel(cell: Point) -> Point {
    Point {
        x: (cell.x * PIXELS_PER_CELL + PIXELS_PER_CELL / 2) as i32,
        y: (cell.y * PIXELS_PER_CELL + PIXELS_PER_CELL / 2) as i32,
    }
}

/// A cell whose middle pixel has a coordinate.
pub open spec fn has_centre(cell: Point) -> bool {
    -44_739_242 <= cell.x <= 44_739_241 && -44_739_242 <= cell.y <= 44_739_241
}

/// Put the prop called `name` in the middle of `cell`, where the editor
/// would have: a map's objects are positioned in pixels, not cells. The prop
/// then stands in `cell`, and for every kind of feature its name is, the
/// feature index of the map finds `cell` as the nearest from `cell`.
pub fn prop_at(map: &mut TileMap, name: &str, cell: Point)
    requires
        has_centre(cell),
        old(map).wf(),
    ensures
        final(map).spec_objects(ObjectLayer::Props).len() == old(map).spec_objects(ObjectLayer::Props).len() + 1,
        final(map).spec_objects(ObjectLayer::Props).last().at == centre_pixel(cell),
        final(map).spec_objects(ObjectLayer::Props).last().kind.name@ == name@,
        final(map).spec_objects(ObjectLayer::Props).last().spec_cell() == cell,
        final(map).spec_objects(ObjectLayer::Props).drop_last() == old(map).spec_objects(ObjectLayer::Props),
        final(map).spec_objects(ObjectLayer::Background) == old(map).spec_objects(ObjectLayer::Background),
        final(map).spec_size() == old(map).spec_size(),
        forall|q: Point| final(map).terrain_at(q) == old(map).terrain_at(q),
        final(map).wf(),
        forall|q: Point| #[trigger] final(map).spec_passable(q) == (old(map).spec_passable(q) && q != cell),
        forall|k: FeatureKind|
            #[trigger] spec_kinds_of(name@).contains(k) ==> nearest_in(
                cells_of_kind(final(map).spec_objects(ObjectLayer::Props), k),
                cell,
            ) == Some(cell),
{
    let at = Point::new(
        cell.x * PIXELS_PER_CELL + PIXELS_PER_CELL / 2,
        cell.y * PIXELS_PER_CELL + PIXELS_PER_CELL / 2,
    );
    let object = Object { at, kind: ObjectKind::new(name) };
    map.add_object(ObjectLayer::Props, object);
    proof {
        assert(cell_coordinate(at.x as int) == cell.x);
        assert(cell_coordinate(at.y as int) == cell.y);
        assert(final(map).spec_objects(ObjectLayer::Props).drop_last() =~= old(map).spec_objects(ObjectLayer::Props));
        let props = final(map).spec_objects(ObjectLayer::Props);
        assert forall|k: FeatureKind| #[trigger] spec_kinds_of(name@).contains(k) implies nearest_in(
            cells_of_kind(props, k),
            cell,
        ) == Some(cell) by {
            let cells = cells_of_kind(props, k);
            assert(props.last() == object);
            assert(cells == cells_of_kind(props.drop_last(), k) + seq![cell]);
            assert(cells[cells.len() - 1] == cell);
            assert forall|other: Point| #[trigger] cells.contains(other) implies !nearer(cell, other, cell) by {}
            lemma_nearest_in_unique(cells, cell, cell);
        }
    }
}

} // verus!
