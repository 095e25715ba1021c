//! The playing field's dimensions and coordinate conventions.
//!
//! Columns grow rightward from 0, rows grow downward from 0. Rows above the
//! visible field have negative numbers: a piece enters the field from there.

use vstd::prelude::*;

verus! {

/// Number of columns of the playing field.
pub const WIDTH: i16 = 10;

/// Number of rows of the playing field.
pub const HEIGHT: i16 = 20;

/// Red, green, blue and alpha components of a colour.
pub type ColorTuple = (u8, u8, u8, u8);

/// Whether `v` can be stored in a coordinate field.
pub open spec fn fits(v: int) -> bool {
    i16::MIN <= v <= i16::MAX
}

/// Whether column `x`, row `y` lies in the visible field.
pub open spec fn in_field(x: int, y: int) -> bool {
    0 <= x < WIDTH && 0 <= y < HEIGHT
}

} // verus!
