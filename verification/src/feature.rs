//! What the props on a map are *for*: the catalogue binding a prop's name to
//! what a brain can do with it, and the [`Features`] index of where they are.
//!
//! A prop with no entry is scenery. A prop with two entries is two things at
//! once: a fridge is food and water.

use vstd::prelude::*;

use crate::map::{grid_distance, point_lt, Object, ObjectLayer, Point, TileMap};
use crate::uid::same_text;

verus! {

/// What a brain can get out of a feature.
#[derive(Clone, Copy, PartialEq, Eq, Structural, Debug)]
pub enum FeatureKind {
    Food,
    Water,
    Toilet,
}

/// How a feature is used: from a cell beside it, or by entering its own.
#[derive(Clone, Copy, PartialEq, Eq, Structural, Debug)]
pub enum Access {
    /// From a cell beside it, any number of units queuing one after another.
    Beside,
    /// From inside its own cell, one unit at a time.
    Entered,
}

pub open spec fn spec_access(kind: FeatureKind) -> Access {
    match kind {
        FeatureKind::Food | FeatureKind::Water => Access::Beside,
        FeatureKind::Toilet => Access::Entered,
    }
}

impl FeatureKind {
    pub fn access(self) -> (a: Access)
        ensures
            a == spec_access(self),
    {
        match self {
            FeatureKind::Food | FeatureKind::Water => Access::Beside,
            FeatureKind::Toilet => Access::Entered,
        }
    }
}

/// One use of one prop.
#[derive(Clone, Copy, Debug)]
pub struct Feature {
    /// The prop name, exactly as the palette and the map file spell it.
    pub name: &'static str,
    pub kind: FeatureKind,
}

pub open spec fn fridge_name() -> Seq<char> {
    seq!['f', 'r', 'i', 'd', 'g', 'e']
}

pub open spec fn toilet_name() -> Seq<char> {
    seq!['t', 'o', 'i', 'l', 'e', 't']
}

/// The catalogue, as names and kinds: the fridge has drinks in it as well as
/// food.
pub open spec fn spec_catalogue() -> Seq<(Seq<char>, FeatureKind)> {
    seq![
        (fridge_name(), FeatureKind::Food),
        (fridge_name(), FeatureKind::Water),
        (toilet_name(), FeatureKind::Toilet),
    ]
}

/// Every prop a brain can use, one entry per use.
pub fn features() -> (all: Vec<Feature>)
    ensures
        all@.len() == spec_catalogue().len(),
        forall|i: int|
            0 <= i < all@.len() ==> (#[trigger] all@[i]).name@ == spec_catalogue()[i].0
                && all@[i].kind == spec_catalogue()[i].1,
{
    let fridge = "fridge";
    let toilet = "toilet";
    proof {
        reveal_strlit("fridge");
        reveal_strlit("toilet");
    }
    let mut all: Vec<Feature> = Vec::new();
    all.push(Feature { name: fridge, kind: FeatureKind::Food });
    all.push(Feature { name: fridge, kind: FeatureKind::Water });
    all.push(Feature { name: toilet, kind: FeatureKind::Toilet });
    all
}

/// Everything a prop name is for, in catalogue order; nothing, for scenery.
pub open spec fn spec_kinds_of(name: Seq<char>) -> Seq<FeatureKind> {
    if name == fridge_name() {
        seq![FeatureKind::Food, FeatureKind::Water]
    } else if name == toilet_name() {
        seq![FeatureKind::Toilet]
    } else {
        seq![]
    }
}

/// Everything a prop name is for — nothing, for scenery.
pub fn kinds_of(name: &str) -> (kinds: Vec<FeatureKind>)
    ensures
        kinds@ == spec_kinds_of(name@),
{
    let all = features();
    let mut kinds: Vec<FeatureKind> = Vec::new();
    let mut i: usize = 0;
    while i < all.len()
        invariant
            all@.len() == 3,
            forall|j: int|
                0 <= j < all@.len() ==> (#[trigger] all@[j]).name@ == spec_catalogue()[j].0
                    && all@[j].kind == spec_catalogue()[j].1,
            0 <= i <= 3,
            kinds@ == catalogue_matches(name@, i as int),
        decreases 3 - i,
    {
        if same_text(all[i].name, name) {
            kinds.push(all[i].kind);
        }
        i = i + 1;
    }
    proof {
        assert(fridge_name() != toilet_name()) by {
            assert(fridge_name()[0] != toilet_name()[0]);
        }
        reveal_with_fuel(catalogue_matches, 4);
        if name@ == fridge_name() {
            assert(catalogue_matches(name@, 3) =~= seq![FeatureKind::Food, FeatureKind::Water]);
        } else if name@ == toilet_name() {
            assert(catalogue_matches(name@, 3) =~= seq![FeatureKind::Toilet]);
        } else {
            assert(catalogue_matches(name@, 3) =~= Seq::<FeatureKind>::empty());
        }
    }
    kinds
}

/// The kinds the first `n` catalogue entries give a prop called `name`.
pub open spec fn catalogue_matches(name: Seq<char>, n: int) -> Seq<FeatureKind>
    decreases n,
{
    if n <= 0 {
        seq![]
    } else {
        let e = spec_catalogue()[n - 1];
        catalogue_matches(name, n - 1) + if e.0 == name {
            seq![e.1]
        } else {
            seq![]
        }
    }
}

/// The cells of the props that are features of `kind`, in placement order.
pub open spec fn cells_of_kind(props: Seq<Object>, kind: FeatureKind) -> Seq<Point>
    decreases props.len(),
{
    if props.len() == 0 {
        seq![]
    } else {
        let last = props.last();
        cells_of_kind(props.drop_last(), kind) + if spec_kinds_of(last.kind.name@).contains(kind) {
            seq![last.spec_cell()]
        } else {
            seq![]
        }
    }
}

/// The cells of the props that must be entered to use, each once, in the
/// order they were first placed.
pub open spec fn entered_cells(props: Seq<Object>) -> Seq<Point>
    decreases props.len(),
{
    if props.len() == 0 {
        seq![]
    } else {
        let last = props.last();
        let before = entered_cells(props.drop_last());
        if spec_kinds_of(last.kind.name@).contains(FeatureKind::Toilet) && !before.contains(
            last.spec_cell(),
        ) {
            before.push(last.spec_cell())
        } else {
            before
        }
    }
}

/// `a` is nearer to `from` than `b`, or as near and lower in point order.
pub open spec fn nearer(from: Point, a: Point, b: Point) -> bool {
    grid_distance(from, a) < grid_distance(from, b) || (grid_distance(from, a) == grid_distance(
        from,
        b,
    ) && point_lt(a, b))
}

/// Where the things a brain can use are, by cell. Built once from the map.
#[derive(Clone, Debug, PartialEq)]
pub struct Features {
    food: Vec<Point>,
    water: Vec<Point>,
    toilet: Vec<Point>,
    /// Cells whose kind is entered to be used, gathered across every kind.
    entered: Vec<Point>,
}

impl Features {
    /// Where the features of `kind` are, in the order the props were placed.
    pub closed spec fn spec_cells(&self, kind: FeatureKind) -> Seq<Point> {
        match kind {
            FeatureKind::Food => self.food@,
            FeatureKind::Water => self.water@,
            FeatureKind::Toilet => self.toilet@,
        }
    }

    pub closed spec fn spec_entered(&self) -> Seq<Point> {
        self.entered@
    }

    /// The index of the props of `map`: every prop of a kind at its cell,
    /// and every cell that must be entered to be used.
    pub fn from_map(map: &TileMap) -> (f: Features)
        ensures
            forall|kind: FeatureKind|
                f.spec_cells(kind) == cells_of_kind(map.spec_objects(ObjectLayer::Props), kind),
            f.spec_entered() == entered_cells(map.spec_objects(ObjectLayer::Props)),
    {
        let props = map.objects(ObjectLayer::Props);
        let mut features = Features {
            food: Vec::new(),
            water: Vec::new(),
            toilet: Vec::new(),
            entered: Vec::new(),
        };
        let mut i: usize = 0;
        while i < props.len()
            invariant
                0 <= i <= props@.len(),
                forall|kind: FeatureKind|
                    features.spec_cells(kind) == cells_of_kind(props@.subrange(0, i as int), kind),
                features.spec_entered() == entered_cells(props@.subrange(0, i as int)),
            decreases props@.len() - i,
        {
            let object = &props[i];
            let cell = object.cell();
            let kinds = kinds_of(object.kind.as_str());
            let ghost name = object.kind.name@;
            let mut k: usize = 0;
            let ghost start = features;
            while k < kinds.len()
                invariant
                    0 <= k <= kinds@.len(),
                    kinds@ == spec_kinds_of(name),
                    forall|kind: FeatureKind|
                        features.spec_cells(kind) == start.spec_cells(kind) + if kinds@.subrange(
                            0,
                            k as int,
                        ).contains(kind) {
                            seq![cell]
                        } else {
                            seq![]
                        },
                    features.spec_entered() == if kinds@.subrange(0, k as int).contains(
                        FeatureKind::Toilet,
                    ) && !start.spec_entered().contains(cell) {
                        start.spec_entered().push(cell)
                    } else {
                        start.spec_entered()
                    },
                decreases kinds@.len() - k,
            {
                let kind = kinds[k];
                let ghost seen = kinds@.subrange(0, k as int);
                proof {
                    assert(kinds@.subrange(0, k + 1) == seen.push(kind));
                    assert(!seen.contains(kind)) by {
                        if seen.contains(kind) {
                            let j = choose|j: int| 0 <= j < seen.len() && seen[j] == kind;
                            assert(kinds@[j] == kinds@[k as int]);
                        }
                    }
                }
                let ghost pre = features;
                match kind {
                    FeatureKind::Food => features.food.push(cell),
                    FeatureKind::Water => features.water.push(cell),
                    FeatureKind::Toilet => features.toilet.push(cell),
                }
                if kind.access() == Access::Entered && !contains_point(&features.entered, cell) {
                    features.entered.push(cell);
                }
                proof {
                    assert forall|kd: FeatureKind| #[trigger] seen.push(kind).contains(kd) == (
                    seen.contains(kd) || kd == kind) by {
                        if seen.push(kind).contains(kd) && kd != kind {
                            let j = choose|j: int| 0 <= j < seen.push(kind).len() && seen.push(kind)[j] == kd;
                            assert(seen[j] == kd);
                        }
                        if seen.contains(kd) {
                            let j = choose|j: int| 0 <= j < seen.len() && seen[j] == kd;
                            assert(seen.push(kind)[j] == kd);
                        }
                        if kd == kind {
                            assert(seen.push(kind)[seen.len() as int] == kd);
                        }
                    }
                    assert forall|kd: FeatureKind|
                        features.spec_cells(kd) == start.spec_cells(kd) + if #[trigger] seen.push(kind).contains(kd) {
                            seq![cell]
                        } else {
                            seq![]
                        } by {
                        assert(pre.spec_cells(kd) == start.spec_cells(kd) + if seen.contains(kd) {
                            seq![cell]
                        } else {
                            seq![]
                        });
                        if kd == kind {
                            assert(seen.push(kind).contains(kd));
                            assert(pre.spec_cells(kd) =~= start.spec_cells(kd));
                            assert(features.spec_cells(kd) =~= pre.spec_cells(kd).push(cell));
                            assert(features.spec_cells(kd) =~= start.spec_cells(kd) + seq![cell]);
                        } else {
                            assert(seen.push(kind).contains(kd) == seen.contains(kd));
                            assert(features.spec_cells(kd) == pre.spec_cells(kd));
                        }
                    }
                    assert(kinds@.subrange(0, k + 1) == seen.push(kind));
                }
                k = k + 1;
            }
            proof {
                assert(kinds@.subrange(0, kinds@.len() as int) == kinds@);
                let sub = props@.subrange(0, i + 1);
                assert(sub.drop_last() == props@.subrange(0, i as int));
                assert(sub.last() == props@[i as int]);
            }
            i = i + 1;
        }
        proof {
            assert(props@.subrange(0, props@.len() as int) == props@);
        }
        features
    }

    /// Whether `cell` is a feature that must be entered to use.
    pub fn is_enterable(&self, cell: Point) -> (b: bool)
        ensures
            b == self.spec_entered().contains(cell),
    {
        contains_point(&self.entered, cell)
    }

    fn cells(&self, kind: FeatureKind) -> (c: &Vec<Point>)
        ensures
            c@ == self.spec_cells(kind),
    {
        match kind {
            FeatureKind::Food => &self.food,
            FeatureKind::Water => &self.water,
            FeatureKind::Toilet => &self.toilet,
        }
    }

    /// How many features of `kind` there are.
    pub fn count(&self, kind: FeatureKind) -> (n: usize)
        ensures
            n == self.spec_cells(kind).len(),
    {
        self.cells(kind).len()
    }

    /// The feature of `kind` closest to `from` along the grid; ties go to
    /// the lower cell, so the answer does not depend on the order the props
    /// were placed in.
    pub fn nearest(&self, kind: FeatureKind, from: Point) -> (n: Option<Point>)
        ensures
            n is None <==> self.spec_cells(kind).len() == 0,
            n matches Some(c) ==> self.spec_cells(kind).contains(c) && forall|other: Point|
                #[trigger] self.spec_cells(kind).contains(other) ==> !nearer(from, other, c),
            n == nearest_of(*self, kind, from),
    {
        nearest_cell(self.cells(kind), from)
    }
}

/// The cell of `cells` closest to `from` along the grid, ties going to the
/// lower cell; `None` when there are none.
pub fn nearest_cell(cells: &Vec<Point>, from: Point) -> (n: Option<Point>)
    ensures
        n is None <==> cells@.len() == 0,
        n matches Some(c) ==> cells@.contains(c) && forall|other: Point|
            #[trigger] cells@.contains(other) ==> !nearer(from, other, c),
        n == nearest_in(cells@, from),
{
    if cells.len() == 0 {
        return None;
    }
    let mut best = cells[0];
    let mut best_distance = from.distance(best);
    proof {
        assert(cells@.subrange(0, 1)[0] == best);
    }
    let mut i: usize = 1;
    while i < cells.len()
        invariant
            1 <= i <= cells@.len(),
            cells@.subrange(0, i as int).contains(best),
            best_distance == grid_distance(from, best),
            forall|j: int| 0 <= j < i ==> !nearer(from, #[trigger] cells@[j], best),
        decreases cells@.len() - i,
    {
        let cell = cells[i];
        let distance = from.distance(cell);
        proof {
            assert(cells@.subrange(0, i + 1) == cells@.subrange(0, i as int).push(cell));
            let k = choose|k: int| 0 <= k < i && cells@.subrange(0, i as int)[k] == best;
            assert(cells@.subrange(0, i + 1)[k] == best);
        }
        if distance < best_distance || (distance == best_distance && cell.precedes(best)) {
            best = cell;
            best_distance = distance;
            proof {
                assert(cells@.subrange(0, i + 1)[i as int] == cell);
            }
        }
        i = i + 1;
    }
    proof {
        assert(cells@.subrange(0, cells@.len() as int) == cells@);
        assert forall|other: Point| #[trigger] cells@.contains(other) implies !nearer(from, other, best) by {
            let j = choose|j: int| 0 <= j < cells@.len() && cells@[j] == other;
        }
        lemma_nearest_in_unique(cells@, from, best);
    }
    Some(best)
}

/// Whether `cells` holds `cell`.
pub fn contains_point(cells: &Vec<Point>, cell: Point) -> (b: bool)
    ensures
        b == cells@.contains(cell),
{
    let mut i: usize = 0;
    while i < cells.len()
        invariant
            0 <= i <= cells@.len(),
            forall|j: int| 0 <= j < i ==> cells@[j] != cell,
        decreases cells@.len() - i,
    {
        if cells[i] == cell {
            return true;
        }
        i = i + 1;
    }
    false
}

/// The one answer [`nearest_cell`] can give.
pub open spec fn nearest_in(cells: Seq<Point>, from: Point) -> Option<Point> {
    if cells.len() == 0 {
        None
    } else {
        Some(
            choose|c: Point|
                cells.contains(c) && forall|other: Point| #[trigger] cells.contains(other) ==> !nearer(from, other, c),
        )
    }
}

/// The one answer [`Features::nearest`] can give.
pub open spec fn nearest_of(features: Features, kind: FeatureKind, from: Point) -> Option<Point> {
    nearest_in(features.spec_cells(kind), from)
}

/// A non-empty list of cells has a nearest one.
pub proof fn lemma_nearest_exists(cells: Seq<Point>, from: Point)
    requires
        cells.len() > 0,
    ensures
        exists|c: Point|
            cells.contains(c) && forall|other: Point| #[trigger] cells.contains(other) ==> !nearer(from, other, c),
    decreases cells.len(),
{
    if cells.len() == 1 {
        let c = cells[0];
        assert(cells.contains(c));
        assert forall|other: Point| #[trigger] cells.contains(other) implies !nearer(from, other, c) by {
            let j = choose|j: int| 0 <= j < cells.len() && cells[j] == other;
        }
    } else {
        let rest = cells.drop_last();
        lemma_nearest_exists(rest, from);
        let c0 = choose|c: Point|
            rest.contains(c) && forall|other: Point| #[trigger] rest.contains(other) ==> !nearer(from, other, c);
        let last = cells.last();
        let c = if nearer(from, last, c0) { last } else { c0 };
        let j0 = choose|j: int| 0 <= j < rest.len() && rest[j] == c0;
        assert(cells[j0] == c0);
        assert(cells[cells.len() - 1] == last);
        assert(cells.contains(c));
        assert forall|other: Point| #[trigger] cells.contains(other) implies !nearer(from, other, c) by {
            let j = choose|j: int| 0 <= j < cells.len() && cells[j] == other;
            if j < cells.len() - 1 {
                assert(rest[j] == other);
                assert(rest.contains(other));
            }
        }
    }
}

/// The nearest cell does not depend on the order the cells are listed in —
/// nor, for the feature index, on the order the props were placed in.
pub proof fn lemma_nearest_ignores_order(a: Seq<Point>, b: Seq<Point>, from: Point)
    requires
        forall|c: Point| a.contains(c) <==> b.contains(c),
    ensures
        nearest_in(a, from) == nearest_in(b, from),
{
    if a.len() == 0 {
        if b.len() > 0 {
            assert(b.contains(b[0]));
        }
    } else {
        assert(a.contains(a[0]));
        assert(b.len() > 0) by {
            if b.len() == 0 {
                assert(!b.contains(a[0]));
            }
        }
        lemma_nearest_exists(a, from);
        let c = nearest_in(a, from)->0;
        assert(a.contains(c) && forall|other: Point| #[trigger] a.contains(other) ==> !nearer(from, other, c));
        assert forall|other: Point| #[trigger] b.contains(other) implies !nearer(from, other, c) by {
            assert(a.contains(other));
        }
        lemma_nearest_in_unique(b, from, c);
    }
}

/// Nearest is a single cell: two cells neither nearer than the other are the
/// same cell.
pub proof fn lemma_nearest_in_unique(cells: Seq<Point>, from: Point, c: Point)
    requires
        cells.contains(c),
        forall|other: Point| #[trigger] cells.contains(other) ==> !nearer(from, other, c),
    ensures
        nearest_in(cells, from) == Some(c),
{
    let d = nearest_in(cells, from).unwrap();
    assert(cells.contains(d) && forall|other: Point| #[trigger] cells.contains(other) ==> !nearer(from, other, d));
    assert(!nearer(from, c, d));
    assert(!nearer(from, d, c));
}

} // verus!
