//! The piece catalog: the seven shapes, their colours and spawn layouts.

use vstd::prelude::*;
use crate::grid::{ColorTuple, WIDTH};

verus! {

/// Represents piece's shape, 7 classical tetromino shapes are used.
#[derive(Debug, Copy, Clone, PartialEq, Eq, Structural)]
pub enum Shape {
    L,
    O,
    S,
    Z,
    I,
    T,
    J,
}

/// The shape that stands for a number: 0 to 5 name L, O, S, Z, I, T in this
/// order, every other number names J.
pub open spec fn shape_of_index(num: int) -> Shape {
    if num == 0 {
        Shape::L
    } else if num == 1 {
        Shape::O
    } else if num == 2 {
        Shape::S
    } else if num == 3 {
        Shape::Z
    } else if num == 4 {
        Shape::I
    } else if num == 5 {
        Shape::T
    } else {
        Shape::J
    }
}

/// The display colour of each shape.
pub open spec fn color_of(shape: Shape) -> ColorTuple {
    match shape {
        Shape::L => (255u8, 128u8, 0u8, 255u8),
        Shape::O => (255u8, 255u8, 0u8, 255u8),
        Shape::S => (205u8, 0u8, 0u8, 255u8),
        Shape::Z => (0u8, 205u8, 0u8, 255u8),
        Shape::I => (0u8, 255u8, 255u8, 255u8),
        Shape::T => (51u8, 0u8, 104u8, 255u8),
        Shape::J => (0u8, 0u8, 153u8, 255u8),
    }
}

/// The column around which every piece is spawned.
pub open spec fn spawn_column() -> int {
    WIDTH as int / 2
}

/// The four positions (column, row) that a shape occupies when it is
/// spawned, in generation order. The second one is the centre of rotation.
pub open spec fn layout(shape: Shape) -> Seq<(int, int)> {
    let m = spawn_column();
    match shape {
        Shape::I => seq![(m, -2int), (m, -1int), (m, 0int), (m, 1int)],
        Shape::L => seq![(m, -1int), (m, 0int), (m, 1int), (m - 1, 1int)],
        Shape::J => seq![(m, -1int), (m, 0int), (m, 1int), (m + 1, 1int)],
        Shape::O => seq![(m, -1int), (m - 1, -1int), (m, 0int), (m - 1, 0int)],
        Shape::S => seq![(m + 1, -1int), (m, -1int), (m, 0int), (m - 1, 0int)],
        Shape::T => seq![(m + 1, -1int), (m, -1int), (m, 0int), (m - 1, -1int)],
        Shape::Z => seq![(m - 1, -1int), (m, -1int), (m, 0int), (m + 1, 0int)],
    }
}

/// The positions that a vector of coordinate pairs stands for.
pub open spec fn positions_of(coords: Seq<(i16, i16)>) -> Seq<(int, int)> {
    coords.map_values(|p: (i16, i16)| (p.0 as int, p.1 as int))
}

impl Default for Shape {
    /// Default shape is I.
    fn default() -> (shape: Self)
        ensures
            shape == Shape::I,
    {
        Shape::I
    }
}

impl From<i32> for Shape {
    /// The shape that a number names.
    fn from(num: i32) -> (shape: Shape) {
        match num {
            0 => Shape::L,
            1 => Shape::O,
            2 => Shape::S,
            3 => Shape::Z,
            4 => Shape::I,
            5 => Shape::T,
            _ => Shape::J,
        }
    }
}

impl vstd::std_specs::convert::FromSpecImpl<i32> for Shape {
    open spec fn obeys_from_spec() -> bool {
        true
    }

    open spec fn from_spec(num: i32) -> Shape {
        shape_of_index(num as int)
    }
}

impl From<&Shape> for ColorTuple {
    /// The display colour of a shape.
    fn from(shape: &Shape) -> (color: ColorTuple) {
        shape.color()
    }
}

impl vstd::std_specs::convert::FromSpecImpl<&Shape> for ColorTuple {
    open spec fn obeys_from_spec() -> bool {
        true
    }

    open spec fn from_spec(shape: &Shape) -> ColorTuple {
        color_of(*shape)
    }
}

impl Shape {
    /// The display colour of this shape.
    pub fn color(&self) -> (color: ColorTuple)
        ensures
            color == color_of(*self),
    {
        match *self {
            Shape::L => (255, 128, 0, 255),
            Shape::O => (255, 255, 0, 255),
            Shape::S => (205, 0, 0, 255),
            Shape::Z => (0, 205, 0, 255),
            Shape::I => (0, 255, 255, 255),
            Shape::T => (51, 0, 104, 255),
            Shape::J => (0, 0, 153, 255),
        }
    }
}

/// Spawn layout of the I shape: a vertical bar.
pub fn generate_i() -> (coords: Vec<(i16, i16)>)
    ensures
        positions_of(coords@) == layout(Shape::I),
{
    let coords = vec![(WIDTH / 2, -2), (WIDTH / 2, -1), (WIDTH / 2, 0), (WIDTH / 2, 1)];
    assert(positions_of(coords@) =~= layout(Shape::I));
    coords
}

/// Spawn layout of the L shape: a bar whose foot points left.
pub fn generate_l() -> (coords: Vec<(i16, i16)>)
    ensures
        positions_of(coords@) == layout(Shape::L),
{
    let coords = vec![(WIDTH / 2, -1), (WIDTH / 2, 0), (WIDTH / 2, 1), (WIDTH / 2 - 1, 1)];
    assert(positions_of(coords@) =~= layout(Shape::L));
    coords
}

/// Spawn layout of the J shape: a bar whose foot points right.
pub fn generate_j() -> (coords: Vec<(i16, i16)>)
    ensures
        positions_of(coords@) == layout(Shape::J),
{
    let coords = vec![(WIDTH / 2, -1), (WIDTH / 2, 0), (WIDTH / 2, 1), (WIDTH / 2 + 1, 1)];
    assert(positions_of(coords@) =~= layout(Shape::J));
    coords
}

/// Spawn layout of the O shape: a square.
pub fn generate_o() -> (coords: Vec<(i16, i16)>)
    ensures
        positions_of(coords@) == layout(Shape::O),
{
    let coords = vec![(WIDTH / 2, -1), (WIDTH / 2 - 1, -1), (WIDTH / 2, 0), (WIDTH / 2 - 1, 0)];
    assert(positions_of(coords@) =~= layout(Shape::O));
    coords
}

/// Spawn layout of the S shape.
pub fn generate_s() -> (coords: Vec<(i16, i16)>)
    ensures
        positions_of(coords@) == layout(Shape::S),
{
    let coords = vec![(WIDTH / 2 + 1, -1), (WIDTH / 2, -1), (WIDTH / 2, 0), (WIDTH / 2 - 1, 0)];
    assert(positions_of(coords@) =~= layout(Shape::S));
    coords
}

/// Spawn layout of the T shape.
pub fn generate_t() -> (coords: Vec<(i16, i16)>)
    ensures
        positions_of(coords@) == layout(Shape::T),
{
    let coords = vec![(WIDTH / 2 + 1, -1), (WIDTH / 2, -1), (WIDTH / 2, 0), (WIDTH / 2 - 1, -1)];
    assert(positions_of(coords@) =~= layout(Shape::T));
    coords
}

/// Spawn layout of the Z shape.
pub fn generate_z() -> (coords: Vec<(i16, i16)>)
    ensures
        positions_of(coords@) == layout(Shape::Z),
{
    let coords = vec![(WIDTH / 2 - 1, -1), (WIDTH / 2, -1), (WIDTH / 2, 0), (WIDTH / 2 + 1, 0)];
    assert(positions_of(coords@) =~= layout(Shape::Z));
    coords
}

/// The spawn layout of `shape`.
pub fn generate(shape: Shape) -> (coords: Vec<(i16, i16)>)
    ensures
        positions_of(coords@) == layout(shape),
{
    match shape {
        Shape::L => generate_l(),
        Shape::O => generate_o(),
        Shape::S => generate_s(),
        Shape::Z => generate_z(),
        Shape::I => generate_i(),
        Shape::T => generate_t(),
        Shape::J => generate_j(),
    }
}

/// Every spawn layout has four positions, no two of them equal.
pub proof fn lemma_layout_distinct(shape: Shape)
    ensures
        layout(shape).len() == 4,
        forall|i: int, j: int| 0 <= i < j < 4 ==> layout(shape)[i] != layout(shape)[j],
{
}

} // verus!
