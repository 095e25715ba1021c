//! A segment: one coloured block of the grid.

use vstd::prelude::*;
use crate::grid::{fits, ColorTuple};

verus! {

/// The mathematical value of a segment: unbounded coordinates and a colour.
pub struct Cell {
    pub x: int,
    pub y: int,
    pub color: ColorTuple,
}

/// A segment is one out of four blocks making each piece, and one block of
/// the settled field. `==` compares position and colour; the board and the
/// pieces tell segments apart by position alone (see [`distinct`] and
/// [`occupied`]).
#[derive(Debug, Clone, Copy, PartialEq, Eq, Hash)]
pub struct Segment {
    pub x: i16,
    pub y: i16,
    pub color: ColorTuple,
}

impl View for Segment {
    type V = Cell;

    open spec fn view(&self) -> Cell {
        Cell { x: self.x as int, y: self.y as int, color: self.color }
    }
}

/// The colour given to every ghost cell.
pub open spec fn ghost_color() -> ColorTuple {
    (1u8, 1u8, 0u8, 255u8)
}

/// The cells that a sequence of segments stands for.
pub open spec fn cells_of(segments: Seq<Segment>) -> Seq<Cell> {
    segments.map_values(|s: Segment| s@)
}

/// Whether every cell of `cells` can be stored in a segment.
pub open spec fn representable(cells: Seq<Cell>) -> bool {
    forall|i: int| 0 <= i < cells.len() ==> fits(#[trigger] cells[i].x) && fits(cells[i].y)
}

/// Whether no two cells share a position.
pub open spec fn distinct(cells: Seq<Cell>) -> bool {
    forall|i: int, j: int|
        0 <= i < j < cells.len() ==> !((#[trigger] cells[i]).x == (#[trigger] cells[j]).x
            && cells[i].y == cells[j].y)
}

/// Whether some cell of `base` lies at column `x`, row `y`.
pub open spec fn occupied(base: Seq<Cell>, x: int, y: int) -> bool {
    exists|j: int| 0 <= j < base.len() && (#[trigger] base[j]).x == x && base[j].y == y
}

/// Membership test: whether some segment of `base` lies at column `x`, row `y`.
pub fn covers(base: &Vec<Segment>, x: i16, y: i16) -> (found: bool)
    ensures
        found == occupied(cells_of(base@), x as int, y as int),
{
    let mut j: usize = 0;
    while j < base.len()
        invariant
            j <= base.len(),
            forall|k: int|
                0 <= k < j ==> !((#[trigger] cells_of(base@)[k]).x == x && cells_of(base@)[k].y
                    == y),
        decreases base.len() - j,
    {
        if base[j].x == x && base[j].y == y {
            assert(cells_of(base@)[j as int].x == x && cells_of(base@)[j as int].y == y);
            return true;
        }
        j += 1;
    }
    false
}

impl Segment {
    /// Create a new segment out of position coordinates and ascribe some color.
    pub fn new(pos: (i16, i16), color: ColorTuple) -> (seg: Self)
        ensures
            seg@ == (Cell { x: pos.0 as int, y: pos.1 as int, color }),
    {
        Self { x: pos.0, y: pos.1, color }
    }

    /// The ghost cell of this segment: the cell directly above it, in the
    /// ghost colour.
    pub fn add_ghost_layer(&self) -> (above: Self)
        requires
            self.y > i16::MIN,
        ensures
            above@ == (Cell { x: self@.x, y: self@.y - 1, color: ghost_color() }),
    {
        Self { x: self.x, y: self.y - 1, color: (1, 1, 0, 255) }
    }
}

} // verus!
