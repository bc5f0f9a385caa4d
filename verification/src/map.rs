//! The grid everything stands on: [`Point`], [`Size`], and the [`TileMap`] of
//! terrain and props that the simulation reads.

use vstd::prelude::*;

verus! {

/// How many pixels wide a cell is: a prop is placed in pixels, and stands in
/// the cell its position falls in.
pub const PIXELS_PER_CELL: i32 = 48;

/// The longest a map name may be, in characters.
pub const MAX_NAME: usize = 32;

/// A cell of the grid, or a position in pixels, depending on who holds it.
#[derive(Clone, Copy, PartialEq, Eq, Structural, Hash, Debug, PartialOrd, Ord)]
pub struct Point {
    pub x: i32,
    pub y: i32,
}

/// The distance between two points along the grid, with no bound on how far
/// apart they are.
pub open spec fn grid_distance(a: Point, b: Point) -> nat {
    (abs_int(a.x - b.x) + abs_int(a.y - b.y)) as nat
}

pub open spec fn abs_int(v: int) -> int {
    if v < 0 { -v } else { v }
}

/// `b` is one orthogonal step from `a`.
pub open spec fn is_step(a: Point, b: Point) -> bool {
    grid_distance(a, b) == 1
}

/// The order points are ranked in wherever a tie has to be settled:
/// by `x`, then by `y`.
pub open spec fn point_lt(a: Point, b: Point) -> bool {
    a.x < b.x || (a.x == b.x && a.y < b.y)
}

impl Point {
    pub fn new(x: i32, y: i32) -> (p: Point)
        ensures
            p.x == x,
            p.y == y,
    {
        Point { x, y }
    }

    /// The four orthogonal neighbours' offsets: up, right, down, left.
    pub fn cardinals() -> (steps: [Point; 4])
        ensures
            steps@.len() == 4,
            steps@[0] == (Point { x: 0, y: -1i32 }),
            steps@[1] == (Point { x: 1, y: 0 }),
            steps@[2] == (Point { x: 0, y: 1 }),
            steps@[3] == (Point { x: -1i32, y: 0 }),
    {
        [Point { x: 0, y: -1 }, Point { x: 1, y: 0 }, Point { x: 0, y: 1 }, Point { x: -1, y: 0 }]
    }

    /// Steps along the grid between the two, as an `i32` like the
    /// coordinates themselves.
    pub fn manhattan_distance(self, other: Point) -> (d: i32)
        requires
            grid_distance(self, other) <= i32::MAX,
        ensures
            d == grid_distance(self, other),
    {
        let dx: i64 = (self.x as i64) - (other.x as i64);
        let dy: i64 = (self.y as i64) - (other.y as i64);
        let ax: i64 = if dx < 0 { -dx } else { dx };
        let ay: i64 = if dy < 0 { -dy } else { dy };
        (ax + ay) as i32
    }

    /// Steps along the grid between the two, never overflowing.
    pub fn distance(self, other: Point) -> (d: u64)
        ensures
            d == grid_distance(self, other),
    {
        let dx: i64 = (self.x as i64) - (other.x as i64);
        let dy: i64 = (self.y as i64) - (other.y as i64);
        let ax: u64 = if dx < 0 { (-dx) as u64 } else { dx as u64 };
        let ay: u64 = if dy < 0 { (-dy) as u64 } else { dy as u64 };
        ax + ay
    }

    /// `self` moved by `step`, unless that leaves the range of an `i32`.
    pub open spec fn spec_offset(self, step: Point) -> Option<Point> {
        if i32::MIN <= self.x + step.x <= i32::MAX && i32::MIN <= self.y + step.y <= i32::MAX {
            Some(Point { x: (self.x + step.x) as i32, y: (self.y + step.y) as i32 })
        } else {
            None
        }
    }

    /// `self` moved by `step`, or `None` when that leaves the range of an
    /// `i32`.
    pub fn offset(self, step: Point) -> (p: Option<Point>)
        ensures
            p == self.spec_offset(step),
    {
        let x: i64 = self.x as i64 + step.x as i64;
        let y: i64 = self.y as i64 + step.y as i64;
        if x < i32::MIN as i64 || x > i32::MAX as i64 || y < i32::MIN as i64 || y > i32::MAX
            as i64 {
            None
        } else {
            Some(Point { x: x as i32, y: y as i32 })
        }
    }

    /// Whether `self` comes before `other` in the tie-breaking order.
    pub fn precedes(self, other: Point) -> (b: bool)
        ensures
            b == point_lt(self, other),
    {
        self.x < other.x || (self.x == other.x && self.y < other.y)
    }
}

/// The extent of a map, in cells.
#[derive(Clone, Copy, PartialEq, Eq, Structural, Debug)]
pub struct Size {
    pub width: i32,
    pub height: i32,
}

impl Size {
    pub open spec fn spec_area(self) -> int {
        if self.width <= 0 || self.height <= 0 {
            0
        } else {
            self.width * self.height
        }
    }

    pub open spec fn spec_contains(self, p: Point) -> bool {
        0 <= p.x < self.width && 0 <= p.y < self.height
    }

    /// Row-major position of a cell inside the map.
    pub open spec fn spec_index(self, p: Point) -> int {
        p.y * self.width + p.x
    }

    /// A size small enough that every cell has a `usize` index.
    pub open spec fn fits(self) -> bool {
        self.spec_area() <= usize::MAX
    }

    pub fn new(width: i32, height: i32) -> (s: Size)
        ensures
            s.width == width,
            s.height == height,
    {
        Size { width, height }
    }

    /// How many cells the map has.
    pub fn area(self) -> (n: usize)
        requires
            self.fits(),
        ensures
            n == self.spec_area(),
    {
        if self.width <= 0 || self.height <= 0 {
            0
        } else {
            proof {
                assert(self.width * self.height >= 0) by (nonlinear_arith)
                    requires
                        self.width > 0,
                        self.height > 0,
                ;
            }
            (self.width as usize) * (self.height as usize)
        }
    }

    pub fn contains(self, p: Point) -> (b: bool)
        ensures
            b == self.spec_contains(p),
    {
        0 <= p.x && p.x < self.width && 0 <= p.y && p.y < self.height
    }

    /// Where `p` sits in a row-major table of the map's cells, or `None` off
    /// the map.
    pub fn index_of(self, p: Point) -> (i: Option<usize>)
        requires
            self.fits(),
        ensures
            match i {
                Some(i) => self.spec_contains(p) && i == self.spec_index(p) && i
                    < self.spec_area(),
                None => !self.spec_contains(p),
            },
    {
        if !self.contains(p) {
            return None;
        }
        proof {
            lemma_index_in_area(self, p);
        }
        Some((p.y as usize) * (self.width as usize) + (p.x as usize))
    }

    /// Every cell, row by row: each cell once, in the order of its index.
    pub fn points(self) -> (cells: Vec<Point>)
        requires
            self.fits(),
        ensures
            cells@.len() == self.spec_area(),
            forall|i: int|
                0 <= i < cells@.len() ==> self.spec_contains(#[trigger] cells@[i])
                    && self.spec_index(cells@[i]) == i,
    {
        let mut cells: Vec<Point> = Vec::new();
        if self.width <= 0 || self.height <= 0 {
            return cells;
        }
        let mut y: i32 = 0;
        while y < self.height
            invariant
                0 <= y <= self.height,
                self.width > 0,
                self.height > 0,
                cells@.len() == y * self.width,
                forall|i: int|
                    0 <= i < cells@.len() ==> self.spec_contains(#[trigger] cells@[i])
                        && self.spec_index(cells@[i]) == i,
            decreases self.height - y,
        {
            let mut x: i32 = 0;
            while x < self.width
                invariant
                    0 <= x <= self.width,
                    0 <= y < self.height,
                    self.width > 0,
                    cells@.len() == y * self.width + x,
                    forall|i: int|
                        0 <= i < cells@.len() ==> self.spec_contains(#[trigger] cells@[i])
                            && self.spec_index(cells@[i]) == i,
                decreases self.width - x,
            {
                let p = Point { x, y };
                cells.push(p);
                x = x + 1;
            }
            proof {
                assert((y + 1) * self.width == y * self.width + self.width) by (nonlinear_arith);
            }
            y = y + 1;
        }
        proof {
            assert(self.height * self.width == self.width * self.height) by (nonlinear_arith);
        }
        cells
    }
}

/// What a cell is made of.
#[derive(Clone, Copy, PartialEq, Eq, Structural, Debug)]
pub enum Terrain {
    /// Nothing at all: outside the room, impassable.
    Void,
    Floor,
    Wall,
}

pub const VOID: Terrain = Terrain::Void;

pub const FLOOR: Terrain = Terrain::Floor;

pub const WALL: Terrain = Terrain::Wall;

/// Which list of objects on a map.
#[derive(Clone, Copy, PartialEq, Eq, Structural, Debug)]
pub enum ObjectLayer {
    /// Tiles drawn under everything.
    Background,
    /// Furniture: what a brain can use, and scenery.
    Props,
}

/// What an object is, by the name the palette and the map file give it.
#[derive(Clone, PartialEq, Eq, Debug)]
pub struct ObjectKind {
    pub name: String,
}

impl ObjectKind {
    pub fn new(name: &str) -> (k: ObjectKind)
        ensures
            k.name@ == name@,
    {
        ObjectKind { name: name.to_owned() }
    }

    pub fn as_str(&self) -> (s: &str)
        ensures
            s@ == self.name@,
    {
        self.name.as_str()
    }
}

/// Something placed on a map, positioned in pixels.
#[derive(Clone, PartialEq, Eq, Debug)]
pub struct Object {
    pub at: Point,
    pub kind: ObjectKind,
}

/// The cell a pixel coordinate falls in: floor division by the cell size.
pub open spec fn cell_coordinate(pixels: int) -> int {
    pixels / (PIXELS_PER_CELL as int)
}

impl Object {
    pub open spec fn spec_cell(&self) -> Point {
        Point { x: cell_coordinate(self.at.x as int) as i32, y: cell_coordinate(self.at.y as int) as i32 }
    }

    /// The cell the object stands in.
    pub fn cell(&self) -> (c: Point)
        ensures
            c == self.spec_cell(),
    {
        Point { x: floor_cell(self.at.x), y: floor_cell(self.at.y) }
    }
}

fn floor_cell(v: i32) -> (c: i32)
    ensures
        c == cell_coordinate(v as int),
{
    let q = v / PIXELS_PER_CELL;
    let r = v % PIXELS_PER_CELL;
    if r < 0 {
        q - 1
    } else {
        q
    }
}

/// Some object of `objects` stands in `p`.
pub open spec fn stands_in(objects: Seq<Object>, p: Point) -> bool {
    exists|k: int| 0 <= k < objects.len() && (#[trigger] objects[k]).spec_cell() == p
}

/// Something stands in `p` after `object` joins `objects` exactly when
/// something stood there before or `object` stands there.
pub proof fn lemma_stands_in_push(objects: Seq<Object>, object: Object, p: Point)
    ensures
        stands_in(objects.push(object), p) == (stands_in(objects, p) || object.spec_cell() == p),
{
    let after = objects.push(object);
    if stands_in(objects, p) {
        let k = choose|k: int| 0 <= k < objects.len() && (#[trigger] objects[k]).spec_cell() == p;
        assert(after[k] == objects[k]);
    }
    if object.spec_cell() == p {
        assert(after[objects.len() as int] == object);
    }
    if stands_in(after, p) {
        let k = choose|k: int| 0 <= k < after.len() && (#[trigger] after[k]).spec_cell() == p;
        if k < objects.len() {
            assert(objects[k] == after[k]);
        }
    }
}

/// The static world: terrain by cell, and the objects placed on it. A prop
/// stands in the cell its position falls in, and nobody walks through it.
#[derive(Clone, Debug)]
pub struct TileMap {
    size: Size,
    terrain: Vec<Terrain>,
    /// Whether a prop stands in each cell, by index.
    blocked: Vec<bool>,
    background: Vec<Object>,
    props: Vec<Object>,
}

impl TileMap {
    pub closed spec fn wf(&self) -> bool {
        &&& self.size.fits()
        &&& self.terrain@.len() == self.size.spec_area()
        &&& self.blocked@.len() == self.size.spec_area()
        &&& forall|p: Point|
            #[trigger] self.size.spec_contains(p) ==> self.blocked@[self.size.spec_index(p)]
                == stands_in(self.props@, p)
    }

    pub closed spec fn spec_size(&self) -> Size {
        self.size
    }

    /// What `p` is made of; off the map is [`Terrain::Void`].
    pub closed spec fn terrain_at(&self, p: Point) -> Terrain {
        if self.size.spec_contains(p) {
            self.terrain@[self.size.spec_index(p)]
        } else {
            Terrain::Void
        }
    }

    /// Floor with no prop standing in it.
    pub open spec fn spec_passable(&self, p: Point) -> bool {
        self.terrain_at(p) == Terrain::Floor && !stands_in(self.spec_objects(ObjectLayer::Props), p)
    }

    pub closed spec fn spec_objects(&self, layer: ObjectLayer) -> Seq<Object> {
        match layer {
            ObjectLayer::Background => self.background@,
            ObjectLayer::Props => self.props@,
        }
    }

    /// A map of `size` covered in `fill`, with nothing on it.
    pub fn new(size: Size, fill: Terrain) -> (m: TileMap)
        requires
            size.fits(),
        ensures
            m.wf(),
            m.spec_size() == size,
            forall|p: Point| size.spec_contains(p) ==> m.terrain_at(p) == fill,
            forall|p: Point| !size.spec_contains(p) ==> m.terrain_at(p) == Terrain::Void,
            m.spec_objects(ObjectLayer::Props).len() == 0,
            m.spec_objects(ObjectLayer::Background).len() == 0,
    {
        let n = size.area();
        let mut terrain: Vec<Terrain> = Vec::new();
        let mut blocked: Vec<bool> = Vec::new();
        while terrain.len() < n
            invariant
                terrain@.len() <= n,
                blocked@.len() == terrain@.len(),
                forall|i: int| 0 <= i < terrain@.len() ==> terrain@[i] == fill,
                forall|i: int| 0 <= i < blocked@.len() ==> !blocked@[i],
            decreases n - terrain@.len(),
        {
            terrain.push(fill);
            blocked.push(false);
        }
        let m = TileMap { size, terrain, blocked, background: Vec::new(), props: Vec::new() };
        proof {
            assert forall|p: Point| size.spec_contains(p) implies m.terrain_at(p) == fill by {
                lemma_index_in_area(size, p);
            }
            assert forall|p: Point| #[trigger] size.spec_contains(p) implies m.blocked@[size.spec_index(p)]
                == stands_in(m.props@, p) by {
                lemma_index_in_area(size, p);
            }
        }
        m
    }

    pub fn size(&self) -> (s: Size)
        ensures
            s == self.spec_size(),
    {
        self.size
    }

    /// Paint one cell. Off the map there is nothing to paint.
    pub fn set_terrain(&mut self, p: Point, terrain: Terrain)
        requires
            old(self).wf(),
        ensures
            final(self).wf(),
            final(self).spec_size() == old(self).spec_size(),
            final(self).terrain_at(p) == if old(self).spec_size().spec_contains(p) {
                terrain
            } else {
                Terrain::Void
            },
            forall|q: Point| q != p ==> final(self).terrain_at(q) == old(self).terrain_at(q),
            forall|l: ObjectLayer| final(self).spec_objects(l) == old(self).spec_objects(l),
    {
        if let Some(i) = self.size.index_of(p) {
            self.terrain.set(i, terrain);
            proof {
                assert forall|q: Point| q != p implies self.terrain_at(q) == old(self).terrain_at(q) by {
                    if self.size.spec_contains(q) {
                        lemma_index_in_area(self.size, q);
                        if self.size.spec_index(q) == self.size.spec_index(p) {
                            lemma_index_injective(self.size, p, q);
                        }
                    }
                }
            }
        }
    }

    /// Whether a walker may stand in `p`. Off the map is never passable.
    pub fn is_passable(&self, p: Point) -> (b: bool)
        requires
            self.wf(),
        ensures
            b == self.spec_passable(p),
    {
        match self.size.index_of(p) {
            Some(i) => self.terrain[i] == Terrain::Floor && !self.blocked[i],
            None => false,
        }
    }

    pub fn objects(&self, layer: ObjectLayer) -> (objects: &Vec<Object>)
        ensures
            objects@ == self.spec_objects(layer),
    {
        match layer {
            ObjectLayer::Background => &self.background,
            ObjectLayer::Props => &self.props,
        }
    }

    /// Place `object` on `layer`, after everything already there. A prop
    /// makes the cell it stands in impassable.
    pub fn add_object(&mut self, layer: ObjectLayer, object: Object)
        requires
            old(self).wf(),
        ensures
            final(self).spec_objects(layer) == old(self).spec_objects(layer).push(object),
            forall|l: ObjectLayer| l != layer ==> final(self).spec_objects(l) == old(self).spec_objects(l),
            final(self).spec_size() == old(self).spec_size(),
            forall|q: Point| final(self).terrain_at(q) == old(self).terrain_at(q),
            forall|q: Point|
                #[trigger] final(self).spec_passable(q) == (old(self).spec_passable(q) && !(layer
                    == ObjectLayer::Props && object.spec_cell() == q)),
            old(self).wf() ==> final(self).wf(),
    {
        match layer {
            ObjectLayer::Background => {
                self.background.push(object);
            },
            ObjectLayer::Props => {
                let cell = object.cell();
                let ghost before = self.props@;
                self.props.push(object);
                if let Some(i) = self.size.index_of(cell) {
                    self.blocked.set(i, true);
                }
                proof {
                    assert forall|q: Point| stands_in(self.props@, q) == (stands_in(before, q) || cell == q) by {
                        lemma_stands_in_push(before, object, q);
                    }
                    assert forall|p: Point| #[trigger] self.size.spec_contains(p) implies self.blocked@[self.size.spec_index(p)]
                        == stands_in(self.props@, p) by {
                        lemma_index_in_area(self.size, p);
                        if p != cell && self.size.spec_contains(cell) {
                            lemma_index_in_area(self.size, cell);
                            if self.size.spec_index(p) == self.size.spec_index(cell) {
                                lemma_index_injective(self.size, p, cell);
                            }
                        }
                    }
                }
            },
        }
    }
}

pub proof fn lemma_index_injective(s: Size, p: Point, q: Point)
    requires
        s.spec_contains(p),
        s.spec_contains(q),
        s.spec_index(p) == s.spec_index(q),
    ensures
        p == q,
{
    if p.y < q.y {
        assert(p.y * s.width + s.width <= q.y * s.width) by (nonlinear_arith)
            requires
                p.y < q.y,
                s.width > 0,
        ;
    } else if q.y < p.y {
        assert(q.y * s.width + s.width <= p.y * s.width) by (nonlinear_arith)
            requires
                q.y < p.y,
                s.width > 0,
        ;
    }
}

/// The cell at row-major position `i` of a map of size `s`.
pub open spec fn point_at(s: Size, i: int) -> Point {
    Point { x: (i % (s.width as int)) as i32, y: (i / (s.width as int)) as i32 }
}

/// Every position inside the map is the position of the cell found there.
pub proof fn lemma_point_at(s: Size, i: int)
    requires
        0 <= i < s.spec_area(),
    ensures
        s.spec_contains(point_at(s, i)),
        s.spec_index(point_at(s, i)) == i,
{
    let w = s.width as int;
    let h = s.height as int;
    assert(w > 0 && h > 0);
    assert(s.spec_area() == w * h);
    vstd::arithmetic::div_mod::lemma_fundamental_div_mod(i, w);
    let q = i / w;
    let r = i % w;
    assert(0 <= r < w) by {
        vstd::arithmetic::div_mod::lemma_mod_bound(i, w);
    }
    assert(0 <= q) by {
        vstd::arithmetic::div_mod::lemma_div_pos_is_pos(i, w);
    }
    assert(q < h) by {
        if q >= h {
            assert(w * q >= w * h) by (nonlinear_arith)
                requires
                    q >= h,
                    w > 0,
            ;
        }
    }
    assert(point_at(s, i).x == r);
    assert(point_at(s, i).y == q);
    assert(q * w == w * q) by (nonlinear_arith);
}

pub proof fn lemma_index_in_area(s: Size, p: Point)
    requires
        s.spec_contains(p),
    ensures
        0 <= s.spec_index(p) < s.spec_area(),
        s.spec_area() == s.width * s.height,
{
    assert(0 <= p.y * s.width <= (s.height - 1) * s.width) by (nonlinear_arith)
        requires
            0 <= p.y < s.height,
            s.width > 0,
    ;
    assert((s.height - 1) * s.width + s.width == s.width * s.height) by (nonlinear_arith);
}

} // verus!
