//! The mathematical model of a minefield and of the moves made on it.
//!
//! A [`Field`] is what a board looks like to a specification: the grid of
//! tiles with the counters that go with it. Every move is a function from one
//! field to the next.

use vstd::prelude::*;

use crate::game::count::count_cells;
use crate::game::tile::{Tile, TILE_SIZE};
use crate::game::{Size, Stage};

verus! {

/// A position on the grid: the column first, then the row.
pub type Cell = (int, int);

/// The largest number of cells that a grid may have: as many as can be
/// counted in percent without passing the largest `u32`.
pub const MAX_CELLS: u32 = 42_949_672;

/// The position that a pair of machine integers denotes.
pub open spec fn cell(pos: (i32, i32)) -> Cell {
    (pos.0 as int, pos.1 as int)
}

/// The positions that a sequence of pairs of machine integers denotes.
pub open spec fn cells(s: Seq<(i32, i32)>) -> Seq<Cell> {
    s.map_values(|pos: (i32, i32)| cell(pos))
}

/// Whether `p` is one of the positions in `list`.
pub open spec fn among(list: Seq<(i32, i32)>, p: Cell) -> bool {
    exists|i: int| 0 <= i < list.len() && cell(#[trigger] list[i]) == p
}

/// Two distinct cells that touch by a side or by a corner.
pub open spec fn adjacent(a: Cell, b: Cell) -> bool {
    &&& a != b
    &&& -1 <= a.0 - b.0 <= 1
    &&& -1 <= a.1 - b.1 <= 1
}

/// Whether `p` lies in the block of three by three cells around `seed`, which
/// the first move keeps free of mines.
pub open spec fn in_zone(seed: Cell, p: Cell) -> bool {
    &&& -2 < p.0 - seed.0 < 2
    &&& -2 < p.1 - seed.1 < 2
}

/// The most cells that the block around a first move can cover on a grid of
/// the given width and height.
pub open spec fn zone_max(cols: int, rows: int) -> int {
    (if cols < 3 { cols } else { 3 }) * (if rows < 3 { rows } else { 3 })
}

/// The tile that every cell of a new board holds: hidden, unflagged, no mine,
/// no mines around it.
pub open spec fn blank() -> Tile {
    Tile { value: Some(0u8), is_mine: false, is_flagged: false, is_mined: false }
}

/// How many of the cells in `s` satisfy `f`.
pub open spec fn tally(s: Seq<Cell>, f: spec_fn(Cell) -> bool) -> nat
    decreases s.len(),
{
    if s.len() == 0 {
        0
    } else {
        tally(s.drop_last(), f) + if f(s.last()) {
            1nat
        } else {
            0nat
        }
    }
}

/// A minefield as specifications see it.
pub struct Field {
    /// The standard size that the board was made with, if any.
    pub size: Option<Size>,
    /// The width of the grid.
    pub cols: int,
    /// The height of the grid.
    pub rows: int,
    /// The tiles, row by row: `tiles[r][c]` is the tile in column `c` of row `r`.
    pub tiles: Seq<Seq<Tile>>,
    /// The number of mines that the board is played with.
    pub mines: int,
    /// The number of flags that the player may still place.
    pub flags: int,
    /// Whether a mine has gone off.
    pub lost: bool,
    /// Whether the mines are still to be laid.
    pub first_move: bool,
}

impl Field {
    /// Whether `p` is a cell of the grid.
    pub open spec fn in_bounds(self, p: Cell) -> bool {
        0 <= p.0 < self.cols && 0 <= p.1 < self.rows
    }

    /// The tile at `p`.
    pub open spec fn at(self, p: Cell) -> Tile {
        self.tiles[p.1][p.0]
    }

    /// The grid has the stated width and height, at least one cell and no
    /// more than `MAX_CELLS`.
    pub open spec fn shaped(self) -> bool {
        &&& 1 <= self.cols
        &&& 1 <= self.rows
        &&& self.cols * self.rows <= MAX_CELLS
        &&& self.tiles.len() == self.rows
        &&& forall|r: int| 0 <= r < self.rows ==> (#[trigger] self.tiles[r]).len() == self.cols
    }

    /// The number of cells that hold a mine.
    pub open spec fn mine_total(self) -> nat {
        count_cells(|c: int, r: int| self.at((c, r)).is_mine, self.cols, self.rows)
    }

    /// The number of cells that carry a flag.
    pub open spec fn flag_total(self) -> nat {
        count_cells(|c: int, r: int| self.at((c, r)).is_flagged, self.cols, self.rows)
    }

    /// The number of cells that count as done: revealed, or a mine under a flag.
    pub open spec fn progress_total(self) -> nat {
        count_cells(
            |c: int, r: int|
                self.at((c, r)).is_mined || (self.at((c, r)).is_mine && self.at((c, r)).is_flagged),
            self.cols,
            self.rows,
        )
    }

    /// The share of the cells that count as done, in percent, rounded down.
    pub open spec fn percentage(self) -> int {
        (self.progress_total() as int * 100) / (self.cols * self.rows)
    }

    /// A mine that has been revealed.
    pub open spec fn blown(self, p: Cell) -> bool {
        self.in_bounds(p) && self.at(p).is_mine && self.at(p).is_mined
    }

    /// No cell has been revealed.
    pub open spec fn untouched(self) -> bool {
        forall|p: Cell| self.in_bounds(p) ==> !(#[trigger] self.at(p)).is_mined
    }

    /// No cell holds a mine.
    pub open spec fn unmined(self) -> bool {
        forall|p: Cell| self.in_bounds(p) ==> !(#[trigger] self.at(p)).is_mine
    }

    /// What holds of a board at every moment, also while its mines are being
    /// laid: the grid is rectangular, every tile is well formed, the flags on
    /// the grid and the flags in hand add up to the number of mines, and the
    /// game is lost exactly if a mine lies revealed.
    pub open spec fn sound(self) -> bool {
        &&& self.shaped()
        &&& forall|p: Cell| self.in_bounds(p) ==> (#[trigger] self.at(p)).wf()
        &&& 0 <= self.flags
        &&& self.mines <= u8::MAX
        &&& self.flags + self.flag_total() == self.mines
        &&& self.lost <==> exists|p: Cell| #[trigger] self.blown(p)
        &&& self.size matches Some(s) ==> self.cols == s.spec_dim().0 && self.rows == s.spec_dim().1
            && self.mines == s.spec_mines()
    }

    /// There are fewer mines than cells outside the block around any first
    /// move, so that the mines can be laid wherever the player starts.
    pub open spec fn roomy(self) -> bool {
        self.mines < self.cols * self.rows - zone_max(self.cols, self.rows)
    }

    /// What holds of a board between moves. Before the mines are laid the grid
    /// is empty and has room for them; afterwards it holds exactly `mines`
    /// mines.
    pub open spec fn wf(self) -> bool {
        &&& self.sound()
        &&& self.first_move ==> self.unmined() && self.untouched() && self.roomy()
        &&& !self.first_move ==> self.mine_total() == self.mines
    }

    /// The board that a game starts with: every tile blank, all flags in hand.
    pub open spec fn fresh(size: Option<Size>, cols: int, rows: int, mines: int) -> Field {
        Field {
            size,
            cols,
            rows,
            tiles: Seq::new(rows as nat, |r: int| Seq::new(cols as nat, |c: int| blank())),
            mines,
            flags: mines,
            lost: false,
            first_move: true,
        }
    }

    /// Every safe cell has been revealed.
    pub open spec fn cleared(self) -> bool {
        forall|p: Cell| self.in_bounds(p) ==> (#[trigger] self.at(p)).is_mined || self.at(p).is_mine
    }

    /// Where the game stands: lost once a mine has gone off, else won once
    /// every safe cell is revealed, else still being played.
    pub open spec fn stage(self) -> Stage {
        if self.lost {
            Stage::Lose
        } else if self.cleared() {
            Stage::Win
        } else {
            Stage::Playing
        }
    }

    /// The one-cell sequence of `p` if `p` is on the grid, else the empty one.
    pub open spec fn on_grid(self, p: Cell) -> Seq<Cell> {
        if self.in_bounds(p) {
            seq![p]
        } else {
            Seq::empty()
        }
    }

    /// The cells around `p` that are on the grid: the column to the left from
    /// top to bottom, the column to the right from top to bottom, then the
    /// cell above and the cell below.
    pub open spec fn neighbours(self, p: Cell) -> Seq<Cell> {
        self.on_grid((p.0 - 1, p.1 - 1)) + self.on_grid((p.0 - 1, p.1)) + self.on_grid(
            (p.0 - 1, p.1 + 1),
        ) + self.on_grid((p.0 + 1, p.1 - 1)) + self.on_grid((p.0 + 1, p.1)) + self.on_grid(
            (p.0 + 1, p.1 + 1),
        ) + self.on_grid((p.0, p.1 - 1)) + self.on_grid((p.0, p.1 + 1))
    }

    /// The number of mines around `p`.
    pub open spec fn mines_around(self, p: Cell) -> nat {
        tally(self.neighbours(p), |q: Cell| self.at(q).is_mine)
    }

    /// The number of flags around `p`.
    pub open spec fn flags_around(self, p: Cell) -> nat {
        tally(self.neighbours(p), |q: Cell| self.at(q).is_flagged)
    }

    /// Every safe cell carries the number of mines around it.
    pub open spec fn counted(self) -> bool {
        forall|p: Cell|
            self.in_bounds(p) && !(#[trigger] self.at(p)).is_mine ==> self.at(p).value == Some(
                self.mines_around(p) as u8,
            )
    }

    /// The tile at `p` with the number of mines around it written into it,
    /// if it is a safe one.
    pub open spec fn recounted(self, p: Cell) -> Tile {
        if self.at(p).is_mine {
            self.at(p)
        } else {
            Tile { value: Some(self.mines_around(p) as u8), ..self.at(p) }
        }
    }

    /// The field with the mine counts written into the safe cells.
    pub open spec fn with_counts(self) -> Field {
        Field {
            tiles: Seq::new(
                self.rows as nat,
                |r: int| Seq::new(self.cols as nat, |c: int| self.recounted((c, r))),
            ),
            ..self
        }
    }

    /// The field with the tile at `p` replaced by `t`.
    pub open spec fn with_tile(self, p: Cell, t: Tile) -> Field {
        Field { tiles: self.tiles.update(p.1, self.tiles[p.1].update(p.0, t)), ..self }
    }

    /// Whether a mine may be laid at `p` when the first move is at `seed`: the
    /// cell holds none yet and lies outside the block around `seed`.
    pub open spec fn admits_mine(self, p: Cell, seed: Cell) -> bool {
        self.in_bounds(p) && !self.at(p).is_mine && !in_zone(seed, p)
    }

    /// The field after an attempt to lay a mine at `p`.
    pub open spec fn with_mine(self, p: Cell, seed: Cell) -> Field {
        if self.admits_mine(p, seed) {
            self.with_tile(p, Tile { value: None, is_mine: true, ..self.at(p) })
        } else {
            self
        }
    }

    /// What laying the mines around the first move `seed` leaves of `self` in
    /// `next`, wherever the mines have fallen: `mines` of them, none in the
    /// block around `seed`, and every tile otherwise as it was.
    pub open spec fn dealt(self, seed: Cell, next: Field) -> bool {
        &&& next.wf()
        &&& !next.first_move
        &&& next.size == self.size
        &&& next.cols == self.cols
        &&& next.rows == self.rows
        &&& next.mines == self.mines
        &&& next.flags == self.flags
        &&& next.lost == self.lost
        &&& forall|p: Cell|
            self.in_bounds(p) ==> {
                let t = #[trigger] next.at(p);
                &&& in_zone(seed, p) ==> !t.is_mine
                &&& t == if t.is_mine {
                    Tile { value: None, is_mine: true, ..self.at(p) }
                } else {
                    self.at(p)
                }
            }
    }

    /// A cell that a move may reveal: on the grid, hidden and unflagged.
    pub open spec fn openable(self, p: Cell) -> bool {
        self.in_bounds(p) && !self.at(p).is_mined && !self.at(p).is_flagged
    }

    /// A cell through which a reveal spreads to its neighbours: one that may
    /// be revealed, holds no mine and carries a count of zero.
    pub open spec fn spreads(self, p: Cell) -> bool {
        self.openable(p) && !self.at(p).is_mine && self.at(p).value == Some(0u8)
    }

    /// A way along which a reveal spreads: each cell may be revealed, and each
    /// but the last spreads to the next, which touches it.
    pub open spec fn trail(self, t: Seq<Cell>) -> bool {
        &&& t.len() >= 1
        &&& forall|i: int| 0 <= i < t.len() ==> self.openable(#[trigger] t[i])
        &&& forall|i: int|
            0 <= i < t.len() - 1 ==> self.spreads(#[trigger] t[i]) && adjacent(t[i], t[i + 1])
    }

    /// Whether a reveal that starts at `from` reaches `to`.
    pub open spec fn floods(self, from: Cell, to: Cell) -> bool {
        exists|t: Seq<Cell>| #[trigger] self.trail(t) && t.first() == from && t.last() == to
    }

    /// A revealed cell whose count equals the number of flags around it.
    pub open spec fn satisfied(self, p: Cell) -> bool {
        &&& self.in_bounds(p)
        &&& self.at(p).is_mined
        &&& self.at(p).value == Some(self.flags_around(p) as u8)
    }

    /// Whether a move at `pos` starts a reveal at `s`. A move on a hidden,
    /// unflagged cell starts at that cell. A move on a revealed cell whose
    /// count is matched by the flags around it starts at every neighbour that
    /// may be revealed. A move on any other cell starts nothing.
    pub open spec fn starts(self, pos: Cell, s: Cell) -> bool {
        if self.at(pos).is_flagged {
            false
        } else if self.at(pos).is_mined {
            self.satisfied(pos) && adjacent(pos, s) && self.openable(s)
        } else {
            s == pos
        }
    }

    /// Whether a move at `pos` reveals `p`.
    pub open spec fn opens(self, pos: Cell, p: Cell) -> bool {
        exists|s: Cell| #[trigger] self.starts(pos, s) && self.floods(s, p)
    }

    /// Whether a move at `pos` sets off a mine.
    pub open spec fn hits_mine(self, pos: Cell) -> bool {
        exists|p: Cell| #[trigger] self.opens(pos, p) && self.at(p).is_mine
    }

    /// The field with every cell revealed that a move at `pos` reaches, lost
    /// if one of them holds a mine.
    pub open spec fn unearthed(self, pos: Cell) -> Field {
        Field {
            tiles: Seq::new(
                self.rows as nat,
                |r: int|
                    Seq::new(
                        self.cols as nat,
                        |c: int|
                            if self.opens(pos, (c, r)) {
                                Tile { is_mined: true, ..self.at((c, r)) }
                            } else {
                                self.at((c, r))
                            },
                    ),
            ),
            lost: self.lost || self.hits_mine(pos),
            ..self
        }
    }

    /// The field after a move at `pos`. Once the game is over nothing changes.
    /// Otherwise the move reveals every cell that it reaches, and the game is
    /// lost if one of them holds a mine.
    pub open spec fn dug(self, pos: Cell) -> Field {
        if self.stage() != Stage::Playing {
            self
        } else {
            self.unearthed(pos)
        }
    }

    /// What the first move on this field, made at `pos`, can leave of it:
    /// the mines are laid around `pos`, the counts are written, and then the
    /// move is made.
    pub open spec fn opened_into(self, pos: Cell, next: Field) -> bool {
        exists|mid: Field| #[trigger] self.dealt(pos, mid) && next == mid.with_counts().dug(pos)
    }

    /// What uncovering the cell at `pos` can leave of this field: the outcome
    /// of a first move while the mines are still to be laid, and that of a
    /// plain move afterwards.
    pub open spec fn uncovered_into(self, pos: Cell, next: Field) -> bool {
        if self.first_move {
            self.opened_into(pos, next)
        } else {
            next == self.dug(pos)
        }
    }

    /// The cell under the point `(x, y)` of the picture of the board, in which
    /// a tile is `TILE_SIZE` long on each side, `x` runs along the rows and `y`
    /// along the columns.
    pub open spec fn under(self, x: int, y: int) -> Option<Cell> {
        if 0 <= x < self.rows * TILE_SIZE && 0 <= y < self.cols * TILE_SIZE {
            Some((y / (TILE_SIZE as int), x / (TILE_SIZE as int)))
        } else {
            None
        }
    }

    /// The field after the flag at `pos` is toggled. A revealed cell takes no
    /// flag, and a hidden one takes none when no flag is left in hand; a flag
    /// that is on the grid can always be taken back.
    pub open spec fn toggled(self, pos: Cell) -> Field {
        let t = self.at(pos);
        if t.is_mined || (!t.is_flagged && self.flags == 0) {
            self
        } else {
            Field {
                flags: if t.is_flagged {
                    self.flags + 1
                } else {
                    self.flags - 1
                },
                ..self.with_tile(pos, Tile { is_flagged: !t.is_flagged, ..t })
            }
        }
    }
}

} // verus!
