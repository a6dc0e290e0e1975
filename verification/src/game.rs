//! The minefield and the rules of play.

use vstd::prelude::*;

pub mod board;
pub mod count;
pub mod dice;
pub mod field;
pub mod laying;
pub mod flood;
pub mod proofs;
pub mod theorems;
pub mod tile;

verus! {

/// A pair of coordinates: the column first, then the row.
pub type Coords<T> = (T, T);

/// Where a game stands.
#[derive(Clone, Copy, Debug, PartialEq, Eq, Structural)]
pub enum Stage {
    Lose,
    Playing,
    Win,
}

/// The three standard boards.
#[derive(Clone, Copy, Debug, PartialEq, Eq, Structural)]
pub enum Size {
    Small,
    Normal,
    Large,
}

impl Size {
    /// The width and the height of the grid.
    pub open spec fn spec_dim(self) -> Coords<i32> {
        match self {
            Size::Small => (9, 9),
            Size::Normal => (16, 16),
            Size::Large => (18, 30),
        }
    }

    /// The number of mines.
    pub open spec fn spec_mines(self) -> u8 {
        match self {
            Size::Small => 10,
            Size::Normal => 40,
            Size::Large => 99,
        }
    }

    /// The name of the size.
    pub open spec fn name(self) -> Seq<char> {
        match self {
            Size::Small => "Small"@,
            Size::Normal => "Normal"@,
            Size::Large => "Large"@,
        }
    }

    /// The name of the size: "Small", "Normal" or "Large".
    pub fn to_string(&self) -> (name: String)
        ensures
            name@ == self.name(),
    {
        match *self {
            Size::Small => "Small",
            Size::Normal => "Normal",
            Size::Large => "Large",
        }.to_owned()
    }

    /// The width and the height of the grid.
    #[verifier::when_used_as_spec(spec_dim)]
    pub fn dim(self) -> (d: Coords<i32>)
        ensures
            d == self.spec_dim(),
    {
        match self {
            Size::Small => (9, 9),
            Size::Normal => (16, 16),
            Size::Large => (18, 30),
        }
    }

    /// The number of mines.
    #[verifier::when_used_as_spec(spec_mines)]
    pub fn mines(self) -> (n: u8)
        ensures
            n == self.spec_mines(),
    {
        match self {
            Size::Small => 10,
            Size::Normal => 40,
            Size::Large => 99,
        }
    }
}

} // verus!
