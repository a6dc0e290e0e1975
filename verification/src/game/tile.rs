//! One cell of the minefield.

use vstd::prelude::*;

verus! {

/// The edge of a tile on screen, in pixels.
pub const TILE_SIZE: i32 = 24;

/// A cell of the minefield.
///
/// `value` is the number of mines among the neighbours and is present exactly
/// when the cell holds no mine. `is_mined` says that the player has dug the
/// cell up, which reveals it for good.
#[derive(Clone, Copy, Debug, PartialEq, Eq, Structural)]
pub struct Tile {
    pub value: Option<u8>,
    pub is_mine: bool,
    pub is_flagged: bool,
    pub is_mined: bool,
}

impl Tile {
    /// A tile is well formed when it carries a count exactly if it is no mine,
    /// and is not flagged once it has been revealed.
    pub open spec fn wf(&self) -> bool {
        &&& self.is_mine <==> self.value is None
        &&& !(self.is_mined && self.is_flagged)
    }

    /// A hidden, unflagged tile: a mine when `value` is `None`.
    pub fn new(value: Option<u8>) -> (t: Tile)
        ensures
            t == (Tile { value, is_mine: value is None, is_flagged: false, is_mined: false }),
            t.wf(),
    {
        Tile { value, is_mine: value.is_none(), is_flagged: false, is_mined: false }
    }

    /// Turns the tile into a mine.
    pub fn set_mine(&mut self)
        ensures
            *final(self) == (Tile { value: None, is_mine: true, ..*old(self) }),
            old(self).wf() ==> final(self).wf(),
    {
        self.value = None;
        self.is_mine = true;
    }

    /// Turns the tile into a safe one with `value` mines around it.
    pub fn set_value(&mut self, value: u8)
        ensures
            *final(self) == (Tile { value: Some(value), is_mine: false, ..*old(self) }),
            old(self).wf() ==> final(self).wf(),
    {
        self.is_mine = false;
        self.value = Some(value);
    }

    /// Digs the tile up and tells whether a mine went off. A flagged tile is
    /// protected: it stays as it is and nothing goes off.
    pub fn mine(&mut self) -> (boom: bool)
        ensures
            old(self).is_flagged ==> *final(self) == *old(self) && !boom,
            !old(self).is_flagged ==> *final(self) == (Tile { is_mined: true, ..*old(self) })
                && boom == old(self).is_mine,
            old(self).wf() ==> final(self).wf(),
    {
        if self.is_flagged {
            return false;
        }
        self.is_mined = true;
        self.is_mine
    }

    /// Toggles the flag of a hidden tile. The result is `None` for a revealed
    /// tile, which keeps its state; otherwise it tells whether the flag was
    /// taken off (`true`) or put on (`false`).
    pub fn flag(&mut self) -> (taken_off: Option<bool>)
        ensures
            old(self).is_mined ==> *final(self) == *old(self) && taken_off is None,
            !old(self).is_mined ==> *final(self) == (Tile {
                is_flagged: !old(self).is_flagged,
                ..*old(self)
            }) && taken_off == Some(old(self).is_flagged),
            old(self).wf() ==> final(self).wf(),
    {
        if self.is_mined {
            return None;
        }
        self.is_flagged = !self.is_flagged;
        Some(!self.is_flagged)
    }

    /// Where the picture of the tile lies on the sheet of sprites while the
    /// game is played: `x`, then `y`, in pixels. A hidden tile shows a blank
    /// face or its flag, a revealed one its count or the mine that went off.
    pub open spec fn face(self) -> (int, int) {
        if self.is_mined {
            match self.value {
                Some(v) if !self.is_mine => (16 * v, 0),
                _ => (32, 16),
            }
        } else if self.is_flagged {
            (16, 16)
        } else {
            (0, 16)
        }
    }

    /// Where the picture of the tile lies on the sheet of sprites. While the
    /// game is played (`status` is `None`) that is its face. After a won game
    /// (`Some(true)`) every mine shows as cleared and every other tile as
    /// blank. After a lost one (`Some(false)`) a flag on a safe tile shows as
    /// wrong and a mine without a flag shows itself; every other tile keeps
    /// its face.
    pub open spec fn picture(self, status: Option<bool>) -> (int, int) {
        match status {
            None => self.face(),
            Some(true) => if self.is_mine {
                (64, 16)
            } else {
                (0, 16)
            },
            Some(false) => if self.is_flagged && !self.is_mine {
                (48, 16)
            } else if !self.is_flagged && self.is_mine {
                (32, 16)
            } else {
                self.face()
            },
        }
    }

    /// Where the picture of the tile lies on the sheet of sprites: `x`, then
    /// `y`, in pixels. `status` is `None` while the game is played, and tells
    /// afterwards whether it was won.
    pub fn sprite(&self, status: Option<bool>) -> (at: (i32, i32))
        ensures
            at.0 == self.picture(status).0,
            at.1 == self.picture(status).1,
    {
        let face: (i32, i32) = if self.is_mined {
            match self.value {
                Some(v) => if self.is_mine {
                    (32, 16)
                } else {
                    (16 * (v as i32), 0)
                },
                None => (32, 16),
            }
        } else if self.is_flagged {
            (16, 16)
        } else {
            (0, 16)
        };
        match status {
            None => face,
            Some(won) => if won {
                if self.is_mine {
                    (64, 16)
                } else {
                    (0, 16)
                }
            } else if self.is_flagged && !self.is_mine {
                (48, 16)
            } else if !self.is_flagged && self.is_mine {
                (32, 16)
            } else {
                face
            },
        }
    }
}

} // verus!
