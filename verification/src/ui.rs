//! The geometry of the screens around the game: where buttons and texts lie,
//! and what a click on a menu means.

use vstd::prelude::*;

pub mod button;
pub mod end_menu;
pub mod main_menu;
pub mod text;

verus! {

/// In place of a coordinate: the middle of the window.
pub const POS_CENTERED: i32 = -1;

/// A rectangle on screen or on a sheet of sprites: its top left corner, its
/// width and its height, in pixels.
#[derive(Clone, Copy, Debug, PartialEq, Eq, Structural)]
pub struct Area {
    pub x: i32,
    pub y: i32,
    pub w: u32,
    pub h: u32,
}

/// Whether `a` is a value of `i32`.
pub open spec fn fits(a: int) -> bool {
    i32::MIN <= a <= i32::MAX
}

/// `a` divided by the positive number `b`, rounded towards zero.
pub open spec fn quotient(a: int, b: int) -> int {
    if a >= 0 {
        a / b
    } else {
        -((-a) / b)
    }
}

} // verus!
