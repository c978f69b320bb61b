//! Geometry of the field: cells, displacements and the one-step correction
//! that keeps movers on the field.

use vstd::prelude::*;

verus! {

/// Side length of the square field, in cells.
pub const FIELD_SIZE: i32 = 10;

/// A cell of the unbounded integer plane; the model of a [`Position`].
pub struct Cell {
    pub x: int,
    pub y: int,
}

/// A displacement on the integer plane; the model of an [`Offset`].
pub struct Shift {
    pub dx: int,
    pub dy: int,
}

/// Number of cells on the border of the field.
pub const RING_LEN: i32 = 4 * FIELD_SIZE - 4;

/// One axis after the corrective step: a coordinate below the field moves up
/// by one, a coordinate at or beyond the far edge moves down by one.
pub open spec fn nudged_axis(v: int) -> int {
    if v < 0 {
        v + 1
    } else if v >= FIELD_SIZE {
        v - 1
    } else {
        v
    }
}

/// The border of the field, cell by cell: the bottom row from west to east,
/// the top row from west to east, then what is left of the west column and
/// of the east column, each from south to north.
pub open spec fn ring_cell(k: int) -> Cell {
    if k < FIELD_SIZE {
        Cell { x: k, y: 0 }
    } else if k < 2 * FIELD_SIZE {
        Cell { x: k - FIELD_SIZE, y: FIELD_SIZE - 1 }
    } else if k < 3 * FIELD_SIZE - 2 {
        Cell { x: 0, y: k - 2 * FIELD_SIZE + 1 }
    } else {
        Cell { x: FIELD_SIZE - 1, y: k - 3 * FIELD_SIZE + 3 }
    }
}

impl Shift {
    /// No axis moves by more than one cell.
    pub open spec fn is_unit(self) -> bool {
        -1 <= self.dx <= 1 && -1 <= self.dy <= 1
    }
}

impl Cell {
    /// Both coordinates lie in `[0, FIELD_SIZE)`.
    pub open spec fn in_field(self) -> bool {
        0 <= self.x < FIELD_SIZE && 0 <= self.y < FIELD_SIZE
    }

    /// The cell displaced by `by`.
    pub open spec fn shifted(self, by: Shift) -> Cell {
        Cell { x: self.x + by.dx, y: self.y + by.dy }
    }

    /// The cell after the corrective step on each axis.
    pub open spec fn nudged(self) -> Cell {
        Cell { x: nudged_axis(self.x), y: nudged_axis(self.y) }
    }

    /// One move: displaced by `by`, then corrected.
    pub open spec fn advanced(self, by: Shift) -> Cell {
        self.shifted(by).nudged()
    }

    /// The cell lies on the field and touches one of its four edges.
    pub open spec fn on_border(self) -> bool {
        &&& self.in_field()
        &&& (self.x == 0 || self.x == FIELD_SIZE - 1 || self.y == 0 || self.y == FIELD_SIZE - 1)
    }

    /// Two entities collide exactly when they stand on the same cell.
    pub open spec fn collides(self, other: Cell) -> bool {
        self == other
    }
}

/// A grid cell held as machine integers.
#[derive(Clone, Copy, Debug, PartialEq, Eq, Structural)]
pub struct Position {
    pub x: i32,
    pub y: i32,
}

/// A displacement held as machine integers.
#[derive(Clone, Copy, Debug, PartialEq, Eq, Structural)]
pub struct Offset {
    pub dx: i32,
    pub dy: i32,
}

impl View for Position {
    type V = Cell;

    open spec fn view(&self) -> Cell {
        Cell { x: self.x as int, y: self.y as int }
    }
}

impl View for Offset {
    type V = Shift;

    open spec fn view(&self) -> Shift {
        Shift { dx: self.dx as int, dy: self.dy as int }
    }
}

impl Position {
    /// The position with the given coordinates.
    pub fn new(x: i32, y: i32) -> (p: Position)
        ensures
            p@ == (Cell { x: x as int, y: y as int }),
    {
        Position { x, y }
    }

    /// Whether the position lies on the field.
    pub fn in_field(&self) -> (inside: bool)
        ensures
            inside == self@.in_field(),
    {
        0 <= self.x && self.x < FIELD_SIZE && 0 <= self.y && self.y < FIELD_SIZE
    }

    /// The position displaced by `by`, with no correction.
    pub fn step(self, by: Offset) -> (p: Position)
        requires
            i32::MIN <= self.x + by.dx <= i32::MAX,
            i32::MIN <= self.y + by.dy <= i32::MAX,
        ensures
            p@ == self@.shifted(by@),
    {
        Position { x: self.x + by.dx, y: self.y + by.dy }
    }

    /// The corrective step: each axis that lies off the field moves one cell
    /// towards it. A position further out than one cell stays off the field.
    pub fn nudge(self) -> (p: Position)
        ensures
            p@ == self@.nudged(),
    {
        Position { x: nudge_axis(self.x), y: nudge_axis(self.y) }
    }

    /// One move: `step`, then `nudge`.
    pub fn advance(self, by: Offset) -> (p: Position)
        requires
            i32::MIN <= self.x + by.dx <= i32::MAX,
            i32::MIN <= self.y + by.dy <= i32::MAX,
        ensures
            p@ == self@.advanced(by@),
    {
        self.step(by).nudge()
    }

    /// The collision test of the grid: same cell.
    pub fn collides(&self, other: &Position) -> (hit: bool)
        ensures
            hit == self@.collides(other@),
    {
        self.x == other.x && self.y == other.y
    }
}

/// The `k`-th cell of the border of the field.
pub fn ring_position(k: i32) -> (p: Position)
    requires
        0 <= k < RING_LEN,
    ensures
        p@ == ring_cell(k as int),
{
    if k < FIELD_SIZE {
        Position { x: k, y: 0 }
    } else if k < 2 * FIELD_SIZE {
        Position { x: k - FIELD_SIZE, y: FIELD_SIZE - 1 }
    } else if k < 3 * FIELD_SIZE - 2 {
        Position { x: 0, y: k - 2 * FIELD_SIZE + 1 }
    } else {
        Position { x: FIELD_SIZE - 1, y: k - 3 * FIELD_SIZE + 3 }
    }
}

fn nudge_axis(v: i32) -> (r: i32)
    ensures
        r == nudged_axis(v as int),
{
    if v < 0 {
        v + 1
    } else if v >= FIELD_SIZE {
        v - 1
    } else {
        v
    }
}

/// A mover that stands on the field and moves at most one cell per axis
/// stands on the field again after the corrective step.
pub proof fn lemma_advance_stays_in_field(from: Cell, by: Shift)
    requires
        from.in_field(),
        by.is_unit(),
    ensures
        from.advanced(by).in_field(),
{
}

/// The corrective step reaches one cell beyond the field and no further: a
/// coordinate ends on the field exactly when it was at most one cell off.
pub proof fn lemma_nudge_reach(v: int)
    ensures
        0 <= nudged_axis(v) < FIELD_SIZE <==> -1 <= v <= FIELD_SIZE,
{
}

/// The corrective step leaves a cell of the field where it is.
pub proof fn lemma_nudge_fixes_field(c: Cell)
    requires
        c.in_field(),
    ensures
        c.nudged() == c,
{
}

/// The ring is the border of the field: each of its cells lies on the
/// border, no two of them are the same, and each border cell is one of them.
pub proof fn lemma_ring_is_border()
    ensures
        forall|k: int| 0 <= k < RING_LEN ==> (#[trigger] ring_cell(k)).on_border(),
        forall|j: int, k: int|
            0 <= j < k < RING_LEN ==> #[trigger] ring_cell(j) != #[trigger] ring_cell(k),
        forall|c: Cell|
            #[trigger] c.on_border() ==> exists|k: int| 0 <= k < RING_LEN && ring_cell(k) == c,
{
    assert forall|c: Cell| #[trigger] c.on_border() implies exists|k: int|
        0 <= k < RING_LEN && ring_cell(k) == c by {
        let k = if c.y == 0 {
            c.x
        } else if c.y == FIELD_SIZE - 1 {
            FIELD_SIZE + c.x
        } else if c.x == 0 {
            2 * FIELD_SIZE - 1 + c.y
        } else {
            3 * FIELD_SIZE - 3 + c.y
        };
        assert(0 <= k < RING_LEN && ring_cell(k) == c);
    }
}

/// The collision test does not depend on the order of its arguments.
pub proof fn lemma_collides_symmetric(a: Cell, b: Cell)
    ensures
        a.collides(b) <==> b.collides(a),
{
}

} // verus!
