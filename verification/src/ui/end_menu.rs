//! The menu at the end of a game.

use vstd::prelude::*;

use crate::game::Stage;
use crate::ui::button::Button;

verus! {

/// What a click on the menu at the end chooses.
#[derive(Clone, Copy, Debug, PartialEq, Eq, Structural)]
pub enum ClickStatus {
    Menu,
    Exit,
    PlayAgain,
}

/// The words that tell the player how the game ended.
pub open spec fn verdict(stage: Stage) -> Seq<char> {
    match stage {
        Stage::Lose => "You Lose!"@,
        _ => "You Win!"@,
    }
}

/// The title of the menu at the end of a game that has come to `stage`.
pub fn title(stage: &Stage) -> (words: &'static str)
    ensures
        words@ == verdict(*stage),
{
    match stage {
        Stage::Lose => "You Lose!",
        _ => "You Win!",
    }
}

/// Reads the clicks on the menu at the end.
#[derive(Clone, Copy, Debug, Default)]
pub struct EndMenuHandler {}

impl EndMenuHandler {
    /// What a click at `(x, y)` chooses on a menu whose first three buttons
    /// lead back to the menu, out of the program and into another game: the
    /// choice of the first of them that the point lies on, or nothing.
    pub fn handle_clicks(btns: &[Button], x: i32, y: i32) -> (choice: Option<ClickStatus>)
        requires
            btns@.len() >= 3,
        ensures
            choice == if btns@[0].covers(x as int, y as int) {
                Some(ClickStatus::Menu)
            } else if btns@[1].covers(x as int, y as int) {
                Some(ClickStatus::Exit)
            } else if btns@[2].covers(x as int, y as int) {
                Some(ClickStatus::PlayAgain)
            } else {
                None
            },
    {
        if btns[0].inside(x, y) {
            Some(ClickStatus::Menu)
        } else if btns[1].inside(x, y) {
            Some(ClickStatus::Exit)
        } else if btns[2].inside(x, y) {
            Some(ClickStatus::PlayAgain)
        } else {
            None
        }
    }
}

} // verus!
