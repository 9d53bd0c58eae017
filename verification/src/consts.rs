//! Dimensions of the board and the fixed-point scale of positions.

use vstd::prelude::*;

verus! {

/// Width of the window in cells.
pub const WIDTH: usize = 21;

/// Width of the info panel at the right in cells.
pub const INFO_WIDTH: usize = 5;

/// Height of the window in cells.
pub const HEIGHT: usize = 16;

/// Largest puzzle dimension: a puzzle is at most 7 x 7 bricks.
pub const MAX_SIZE: usize = 7;

/// Number of cells of the collision mask.
pub const CELLS: usize = 336;

/// Number of game states.
pub const NUM_STATES: i32 = 4;

/// Number of the level that the main menu shows as a demo; it cannot be played.
pub const DEMO_LEVEL: usize = 0;

/// Column in which the player's brick rests between throws.
pub const HOME_COL: usize = 15;

/// Lowest row a brick can occupy: the one above the bottom border.
pub const FLOOR_ROW: usize = 14;

/// Positions are fixed-point numbers: this many position units make one pixel.
pub const UNITS_PER_PIXEL: i64 = 1000;

/// Side of a cell in position units (48 pixels).
pub const BRICK_SIZE: i64 = 48_000;

/// A velocity component counts as motion only above this magnitude (a tenth
/// of a pixel per tick).
pub const EPSILON: i64 = 100;

/// Speed of the player's brick in position units per tick.
pub const BRICK_DEF_SPEED: i64 = 48_000;

/// Speed of a brick that falls after the one below it vanished.
pub const BRICK_FALL_SPEED: i64 = 16_000;

/// No brick is ever tracked beyond this row or column, so that its position
/// fits the machine integers with room to spare.
pub const GRID_LIMIT: usize = 4096;

} // verus!
