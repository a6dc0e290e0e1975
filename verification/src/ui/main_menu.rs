//! The menu at the start: the choice between the three sizes of board.

use vstd::prelude::*;

use crate::game::Size;
use crate::ui::button::Button;

verus! {

/// What a click on the menu at the start chooses.
#[derive(Clone, Copy, Debug, PartialEq, Eq, Structural)]
pub enum ClickStatus {
    Small,
    Normal,
    Large,
}

impl ClickStatus {
    /// The size of board that goes with the choice.
    pub fn size(self) -> (size: Size)
        ensures
            size == match self {
                ClickStatus::Small => Size::Small,
                ClickStatus::Normal => Size::Normal,
                ClickStatus::Large => Size::Large,
            },
    {
        match self {
            ClickStatus::Small => Size::Small,
            ClickStatus::Normal => Size::Normal,
            ClickStatus::Large => Size::Large,
        }
    }
}

/// Reads the clicks on the menu at the start.
#[derive(Clone, Copy, Debug, Default)]
pub struct MainMenuHandler {}

impl MainMenuHandler {
    /// What a click at `(x, y)` chooses on a menu whose first three buttons
    /// stand for the small, the normal and the large board: the choice of the
    /// first of them that the point lies on, or nothing.
    pub fn handle_clicks(btns: &[Button], x: i32, y: i32) -> (choice: Option<ClickStatus>)
        requires
            btns@.len() >= 3,
        ensures
            choice == if btns@[0].covers(x as int, y as int) {
                Some(ClickStatus::Small)
            } else if btns@[1].covers(x as int, y as int) {
                Some(ClickStatus::Normal)
            } else if btns@[2].covers(x as int, y as int) {
                Some(ClickStatus::Large)
            } else {
                None
            },
    {
        if btns[0].inside(x, y) {
            Some(ClickStatus::Small)
        } else if btns[1].inside(x, y) {
            Some(ClickStatus::Normal)
        } else if btns[2].inside(x, y) {
            Some(ClickStatus::Large)
        } else {
            None
        }
    }
}

} // verus!
