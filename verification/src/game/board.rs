//! The board: the minefield as it is stored, and the moves of the game.

use vstd::prelude::*;

use rand::rngs::ThreadRng;

use crate::game::count::{
    count_cells, count_row, lemma_count_cells_bound, lemma_count_cells_zero,
    lemma_count_row_bound,
};
use crate::game::dice::roll;
use crate::game::field::{
    adjacent, among, blank, cell, cells, in_zone, tally, zone_max, Cell, Field, MAX_CELLS,
};
use crate::game::flood::{
    lemma_mark_total, lemma_nothing_opens, lemma_opens_start, lemma_sweep_begin, lemma_sweep_end,
    lemma_sweep_mark, lemma_sweep_release, lemma_sweep_reveal, mark_total, marked, newly,
    revealed_top, with_mark, Sweep,
};
use crate::game::laying::{
    lemma_laying_begin, lemma_laying_end, lemma_laying_step, lemma_room_left, lemma_with_mine,
};
use crate::game::proofs::{
    lemma_neighbours, lemma_recounted_same, lemma_same_tiles, lemma_tally_step, lemma_toggled,
    lemma_totals_same, lemma_with_counts, lemma_with_counts_tiles, lemma_with_tile,
};
use crate::game::tile::{Tile, TILE_SIZE};
use crate::game::{Coords, Size, Stage};
use crate::stopwatch::Stopwatch;

verus! {

/// The most draws that are made from the generator to lay the mines of one
/// board.
pub const DRAW_LIMIT: u32 = 1_000_000;

/// Why a board cannot be made.
#[derive(Clone, Copy, Debug, PartialEq, Eq, Structural)]
pub enum ConfigError {
    /// The grid would have no cells, or more than `MAX_CELLS`.
    BadDimensions,
    /// There are more mines than the board can take.
    TooManyMines,
    /// A mine would lie outside the grid.
    MineOutside,
    /// Two mines would lie on the same cell.
    MineRepeated,
}

/// A game of Minesweeper.
pub struct Board {
    size: Option<Size>,
    dim: Coords<i32>,
    map: Vec<Vec<Tile>>,
    lost: bool,
    first_move: bool,
    mines: u8,
    flags: u8,
    stopwatch: Stopwatch,
}

impl View for Board {
    type V = Field;

    closed spec fn view(&self) -> Field {
        Field {
            size: self.size,
            cols: self.dim.0 as int,
            rows: self.dim.1 as int,
            tiles: Seq::new(self.map@.len(), |r: int| self.map@[r]@),
            mines: self.mines as int,
            flags: self.flags as int,
            lost: self.lost,
            first_move: self.first_move,
        }
    }
}

/// A grid of blank tiles.
fn blank_grid(cols: i32, rows: i32) -> (grid: Vec<Vec<Tile>>)
    requires
        0 <= cols,
        0 <= rows,
    ensures
        grid@.len() == rows,
        forall|r: int| 0 <= r < rows ==> (#[trigger] grid@[r])@ == Seq::new(
            cols as nat,
            |c: int| blank(),
        ),
{
    let mut grid: Vec<Vec<Tile>> = Vec::new();
    let mut r: i32 = 0;
    while r < rows
        invariant
            0 <= r <= rows,
            0 <= cols,
            grid@.len() == r,
            forall|k: int| 0 <= k < r ==> (#[trigger] grid@[k])@ == Seq::new(
                cols as nat,
                |c: int| blank(),
            ),
        decreases rows - r,
    {
        let mut row: Vec<Tile> = Vec::new();
        let mut c: i32 = 0;
        while c < cols
            invariant
                0 <= c <= cols,
                row@ == Seq::new(c as nat, |k: int| blank()),
            decreases cols - c,
        {
            row.push(Tile::new(Some(0)));
            c += 1;
            assert(row@ =~= Seq::new(c as nat, |k: int| blank()));
        }
        grid.push(row);
        r += 1;
    }
    grid
}

/// Whether a grid of the given width and height has at least one cell and no
/// more than `MAX_CELLS`.
fn fits(cols: i32, rows: i32) -> (ok: bool)
    ensures
        ok == (1 <= cols && 1 <= rows && cols * rows <= MAX_CELLS),
{
    if cols < 1 || rows < 1 {
        return false;
    }
    assert(cols * rows <= 0x7fff_ffff * 0x7fff_ffff) by (nonlinear_arith)
        requires
            1 <= cols <= 0x7fff_ffff,
            1 <= rows <= 0x7fff_ffff,
    ;
    (cols as i64) * (rows as i64) <= MAX_CELLS as i64
}

/// The list of a sweep as specifications see it.
spec fn marks_of(marks: Vec<Vec<bool>>) -> Seq<Seq<bool>> {
    Seq::new(marks@.len(), |r: int| marks@[r]@)
}

/// A list for a sweep with no cell on it.
fn blank_marks(cols: i32, rows: i32) -> (marks: Vec<Vec<bool>>)
    requires
        0 <= cols,
        0 <= rows,
    ensures
        marks_of(marks).len() == rows,
        forall|r: int| 0 <= r < rows ==> (#[trigger] marks_of(marks)[r]).len() == cols,
        forall|p: Cell| 0 <= p.0 < cols && 0 <= p.1 < rows ==> !#[trigger] marked(marks_of(marks), p),
{
    let mut marks: Vec<Vec<bool>> = Vec::new();
    let mut r: i32 = 0;
    while r < rows
        invariant
            0 <= r <= rows,
            0 <= cols,
            marks@.len() == r,
            forall|k: int| 0 <= k < r ==> (#[trigger] marks@[k])@ == Seq::new(
                cols as nat,
                |c: int| false,
            ),
        decreases rows - r,
    {
        let mut row: Vec<bool> = Vec::new();
        let mut c: i32 = 0;
        while c < cols
            invariant
                0 <= c <= cols,
                row@ == Seq::new(c as nat, |k: int| false),
            decreases cols - c,
        {
            row.push(false);
            c += 1;
            assert(row@ =~= Seq::new(c as nat, |k: int| false));
        }
        marks.push(row);
        r += 1;
    }
    proof {
        assert forall|r: int| 0 <= r < rows implies (#[trigger] marks_of(marks)[r]).len()
            == cols by {
            assert(marks@[r]@.len() == cols);
        }
        assert forall|p: Cell| 0 <= p.0 < cols && 0 <= p.1 < rows implies !#[trigger] marked(
            marks_of(marks),
            p,
        ) by {
            assert(marks@[p.1]@[p.0] == false);
        }
    }
    marks
}

/// Puts the cell at `pos` on the list of a sweep.
fn mark(marks: &mut Vec<Vec<bool>>, pos: Coords<i32>)
    requires
        0 <= pos.1 < marks_of(*old(marks)).len(),
        0 <= pos.0 < marks_of(*old(marks))[pos.1 as int].len(),
    ensures
        marks_of(*final(marks)) == with_mark(marks_of(*old(marks)), cell(pos)),
{
    marks[pos.1 as usize][pos.0 as usize] = true;
    assert(marks_of(*marks) =~~= with_mark(marks_of(*old(marks)), cell(pos)));
}

/// Whether the cell at `pos` is on the list of a sweep.
fn is_marked(marks: &Vec<Vec<bool>>, pos: Coords<i32>) -> (on: bool)
    requires
        0 <= pos.1 < marks_of(*marks).len(),
        0 <= pos.0 < marks_of(*marks)[pos.1 as int].len(),
    ensures
        on == marked(marks_of(*marks), cell(pos)),
{
    marks[pos.1 as usize][pos.0 as usize]
}

impl Board {
    /// The stopwatch that times the game.
    pub closed spec fn clock(&self) -> Stopwatch {
        self.stopwatch
    }

    /// A board without mines on it yet.
    fn bare(size: Option<Size>, cols: i32, rows: i32, mines: u8) -> (b: Board)
        requires
            1 <= cols,
            1 <= rows,
            cols * rows <= MAX_CELLS,
            size matches Some(s) ==> cols == s.spec_dim().0 && rows == s.spec_dim().1 && mines
                == s.spec_mines(),
        ensures
            b@ == Field::fresh(size, cols as int, rows as int, mines as int),
            b@.sound(),
            b@.untouched(),
            b@.unmined(),
            !b.clock().running(),
            b.clock().banked() == 0,
    {
        let b = Board {
            size,
            dim: (cols, rows),
            map: blank_grid(cols, rows),
            lost: false,
            first_move: true,
            mines,
            flags: mines,
            stopwatch: Stopwatch::default(),
        };
        proof {
            let f = Field::fresh(size, cols as int, rows as int, mines as int);
            assert(b@.tiles =~~= f.tiles);
            lemma_count_cells_zero(|c: int, r: int| f.at((c, r)).is_flagged, f.cols, f.rows);
            assert(!exists|p: Cell| #[trigger] f.blown(p));
        }
        b
    }

    /// One of the three standard boards, ready for the first move.
    pub fn new(size: Size) -> (b: Board)
        ensures
            b@ == Field::fresh(
                Some(size),
                size.spec_dim().0 as int,
                size.spec_dim().1 as int,
                size.spec_mines() as int,
            ),
            b@.wf(),
            !b.clock().running(),
            b.clock().banked() == 0,
    {
        let dim = size.dim();
        proof {
            match size {
                Size::Small => {
                    assert(dim.0 * dim.1 == 81) by (nonlinear_arith)
                        requires
                            dim.0 == 9,
                            dim.1 == 9,
                    ;
                },
                Size::Normal => {
                    assert(dim.0 * dim.1 == 256) by (nonlinear_arith)
                        requires
                            dim.0 == 16,
                            dim.1 == 16,
                    ;
                },
                Size::Large => {
                    assert(dim.0 * dim.1 == 540) by (nonlinear_arith)
                        requires
                            dim.0 == 18,
                            dim.1 == 30,
                    ;
                },
            }
        }
        Board::bare(Some(size), dim.0, dim.1, size.mines())
    }

    /// A board of any size, ready for the first move. The grid must have at
    /// least one cell and no more than `MAX_CELLS`, and there must be fewer
    /// mines than cells outside the block of three by three cells that the
    /// first move keeps free, wherever that move is made.
    pub fn custom(cols: i32, rows: i32, mines: u8) -> (made: Result<Board, ConfigError>)
        ensures
            match made {
                Ok(b) => {
                    &&& b@ == Field::fresh(None, cols as int, rows as int, mines as int)
                    &&& b@.wf()
                    &&& !b.clock().running()
                    &&& b.clock().banked() == 0
                },
                Err(ConfigError::BadDimensions) => !(1 <= cols && 1 <= rows && cols * rows
                    <= MAX_CELLS),
                Err(ConfigError::TooManyMines) => 1 <= cols && 1 <= rows && cols * rows <= MAX_CELLS
                    && mines >= cols * rows - zone_max(cols as int, rows as int),
                Err(_) => false,
            },
    {
        if !fits(cols, rows) {
            return Err(ConfigError::BadDimensions);
        }
        let zone_cols: i64 = if cols < 3 {
            cols as i64
        } else {
            3
        };
        let zone_rows: i64 = if rows < 3 {
            rows as i64
        } else {
            3
        };
        assert(zone_cols * zone_rows <= 9) by (nonlinear_arith)
            requires
                0 <= zone_cols <= 3,
                0 <= zone_rows <= 3,
        ;
        let room: i64 = (cols as i64) * (rows as i64) - zone_cols * zone_rows;
        if mines as i64 >= room {
            return Err(ConfigError::TooManyMines);
        }
        Ok(Board::bare(None, cols, rows, mines))
    }

    /// A board with its mines at the cells that `mines` lists, ready for play:
    /// the counts are written and the first move is free to hit a mine. The
    /// grid must have at least one cell and no more than `MAX_CELLS`; there
    /// may be at most 255 mines, each on the grid and no two on one cell.
    pub fn with_mines(cols: i32, rows: i32, mines: &Vec<Coords<i32>>) -> (made: Result<
        Board,
        ConfigError,
    >)
        ensures
            match made {
                Ok(b) => {
                    &&& b@.wf()
                    &&& b@.counted()
                    &&& b@.size is None
                    &&& b@.cols == cols
                    &&& b@.rows == rows
                    &&& b@.mines == mines@.len()
                    &&& b@.flags == mines@.len()
                    &&& !b@.lost
                    &&& !b@.first_move
                    &&& forall|p: Cell|
                        b@.in_bounds(p) ==> {
                            let t = #[trigger] b@.at(p);
                            &&& t.is_mine == among(mines@, p)
                            &&& !t.is_flagged
                            &&& !t.is_mined
                        }
                    &&& forall|i: int, j: int|
                        0 <= i < j < mines@.len() ==> cell(mines@[i]) != cell(mines@[j])
                    &&& !b.clock().running()
                    &&& b.clock().banked() == 0
                },
                Err(ConfigError::BadDimensions) => !(1 <= cols && 1 <= rows && cols * rows
                    <= MAX_CELLS),
                Err(ConfigError::TooManyMines) => 1 <= cols && 1 <= rows && cols * rows <= MAX_CELLS
                    && mines@.len() > u8::MAX,
                Err(ConfigError::MineOutside) => 1 <= cols && 1 <= rows && cols * rows <= MAX_CELLS
                    && mines@.len() <= u8::MAX && exists|i: int|
                    0 <= i < mines@.len() && !(0 <= (#[trigger] mines@[i]).0 < cols && 0
                        <= mines@[i].1 < rows),
                Err(ConfigError::MineRepeated) => 1 <= cols && 1 <= rows && cols * rows <= MAX_CELLS
                    && mines@.len() <= u8::MAX && (forall|i: int|
                    0 <= i < mines@.len() ==> 0 <= (#[trigger] mines@[i]).0 < cols && 0
                        <= mines@[i].1 < rows) && exists|i: int, j: int|
                    0 <= i < j < mines@.len() && cell(mines@[i]) == cell(mines@[j]),
            },
    {
        if !fits(cols, rows) {
            return Err(ConfigError::BadDimensions);
        }
        if mines.len() > 255 {
            return Err(ConfigError::TooManyMines);
        }
        let mut i: usize = 0;
        while i < mines.len()
            invariant
                0 <= i <= mines@.len(),
                1 <= cols && 1 <= rows && cols * rows <= MAX_CELLS,
                mines@.len() <= u8::MAX,
                forall|k: int|
                    0 <= k < i ==> 0 <= (#[trigger] mines@[k]).0 < cols && 0 <= mines@[k].1 < rows,
            decreases mines@.len() - i,
        {
            let pos = mines[i];
            if pos.0 < 0 || pos.0 >= cols || pos.1 < 0 || pos.1 >= rows {
                assert(!(0 <= mines@[i as int].0 < cols && 0 <= mines@[i as int].1 < rows));
                return Err(ConfigError::MineOutside);
            }
            i += 1;
        }
        let mut b = Board::bare(None, cols, rows, mines.len() as u8);
        let ghost start = b@;
        proof {
            lemma_count_cells_zero(|c: int, r: int| b@.at((c, r)).is_mine, b@.cols, b@.rows);
        }
        let mut i: usize = 0;
        while i < mines.len()
            invariant
                0 <= i <= mines@.len(),
                mines@.len() <= u8::MAX,
                start == Field::fresh(None, cols as int, rows as int, mines@.len() as int),
                forall|k: int|
                    0 <= k < mines@.len() ==> 0 <= (#[trigger] mines@[k]).0 < cols && 0
                        <= mines@[k].1 < rows,
                b@ == (Field { tiles: b@.tiles, ..start }),
                b@.sound(),
                b@.untouched(),
                b@.mine_total() == i,
                forall|p: Cell|
                    b@.in_bounds(p) ==> (#[trigger] b@.at(p)) == if among(
                        mines@.take(i as int),
                        p,
                    ) {
                        Tile { value: None, is_mine: true, ..blank() }
                    } else {
                        blank()
                    },
                forall|k: int, j: int| 0 <= k < j < i ==> cell(mines@[k]) != cell(mines@[j]),
                !b.clock().running(),
                b.clock().banked() == 0,
            decreases mines@.len() - i,
        {
            let pos = mines[i];
            let ghost was = b@;
            let ghost done = mines@.take(i as int);
            let ghost next = mines@.take(i + 1);
            let mut tile = b.tile(pos);
            if tile.is_mine {
                proof {
                    assert(among(done, cell(pos)));
                    let k = choose|k: int| 0 <= k < done.len() && cell(#[trigger] done[k]) == cell(pos);
                    assert(done[k] == mines@[k]);
                    assert(cell(mines@[k]) == cell(mines@[i as int]));
                }
                return Err(ConfigError::MineRepeated);
            }
            proof {
                let far = (cell(pos).0 + 2, cell(pos).1 + 2);
                lemma_with_mine(was, cell(pos), far);
                assert(was.with_mine(cell(pos), far) == was.with_tile(
                    cell(pos),
                    Tile { value: None, is_mine: true, ..was.at(cell(pos)) },
                ));
            }
            tile.set_mine();
            b.put(pos, tile);
            proof {
                assert forall|p: Cell| among(next, p) == (among(done, p) || p == cell(pos)) by {
                    if among(done, p) {
                        let k = choose|k: int| 0 <= k < done.len() && cell(#[trigger] done[k]) == p;
                        assert(next[k] == done[k]);
                    }
                    if p == cell(pos) {
                        assert(cell(next[i as int]) == p);
                    }
                    if among(next, p) {
                        let k = choose|k: int| 0 <= k < next.len() && cell(#[trigger] next[k]) == p;
                        if k < i {
                            assert(done[k] == next[k]);
                        }
                    }
                }
                assert forall|k: int, j: int| 0 <= k < j < i + 1 implies cell(mines@[k]) != cell(
                    mines@[j],
                ) by {
                    if j == i {
                        assert(done[k] == mines@[k]);
                        assert(!among(done, cell(pos)));
                    }
                }
            }
            i += 1;
        }
        proof {
            assert(mines@.take(i as int) =~= mines@);
        }
        let ghost h = b@;
        b.first_move = false;
        proof {
            let g = b@;
            assert(g == (Field { first_move: false, ..h }));
            assert forall|p: Cell| g.in_bounds(p) implies (#[trigger] g.at(p)).wf() by {
                assert(h.at(p).wf());
            }
            lemma_totals_same(h, g);
            assert forall|p: Cell| g.blown(p) == h.blown(p) by {}
            assert(!exists|p: Cell| #[trigger] g.blown(p)) by {
                if exists|p: Cell| #[trigger] g.blown(p) {
                    let p = choose|p: Cell| #[trigger] g.blown(p);
                    assert(h.blown(p));
                }
            }
            assert(g.wf());
            lemma_with_counts_tiles(g);
        }
        let ghost g = b@;
        b.generate_tiles();
        proof {
            assert forall|p: Cell| b@.in_bounds(p) implies {
                let t = #[trigger] b@.at(p);
                &&& t.is_mine == among(mines@, p)
                &&& !t.is_flagged
                &&& !t.is_mined
            } by {
                assert(g.at(p) == h.at(p));
                assert(b@.at(p) == g.with_counts().at(p));
            }
        }
        Ok(b)
    }

    /// The standard size that the board was made with, if any.
    pub fn size(&self) -> (size: Option<Size>)
        ensures
            size == self@.size,
    {
        self.size
    }

    /// The width and the height of the grid.
    pub fn dim(&self) -> (dim: Coords<i32>)
        ensures
            dim.0 == self@.cols,
            dim.1 == self@.rows,
    {
        self.dim
    }

    /// The number of mines that the board is played with.
    pub fn mines(&self) -> (mines: u8)
        ensures
            mines == self@.mines,
    {
        self.mines
    }

    /// The number of flags that the player may still place.
    pub fn flags(&self) -> (flags: u8)
        ensures
            flags == self@.flags,
    {
        self.flags
    }

    /// Whether the mines are still to be laid.
    pub fn first_move(&self) -> (first: bool)
        ensures
            first == self@.first_move,
    {
        self.first_move
    }

    /// The stopwatch that times the game.
    pub fn stopwatch(&self) -> (watch: &Stopwatch)
        ensures
            *watch == self.clock(),
    {
        &self.stopwatch
    }

    /// The tile at `pos`, or `None` where `pos` is off the grid.
    pub fn get(&self, pos: Coords<i32>) -> (tile: Option<&Tile>)
        requires
            self@.shaped(),
        ensures
            self@.in_bounds(cell(pos)) ==> tile == Some(&self@.at(cell(pos))),
            !self@.in_bounds(cell(pos)) ==> tile is None,
    {
        if pos.0 < 0 || pos.1 < 0 || pos.0 > self.dim.0 - 1 || pos.1 > self.dim.1 - 1 {
            None
        } else {
            Some(&self.map[pos.1 as usize][pos.0 as usize])
        }
    }

    /// The cells around `pos` that are on the grid: those to the left from top
    /// to bottom, those to the right from top to bottom, then the one above
    /// and the one below.
    pub fn get_adjacent_tiles(&self, pos: Coords<i32>) -> (adjacent: Vec<Coords<i32>>)
        requires
            self@.in_bounds(cell(pos)),
        ensures
            cells(adjacent@) == self@.neighbours(cell(pos)),
    {
        let mut adjacent: Vec<Coords<i32>> = Vec::new();
        let (col, row) = pos;
        let ghost f = self@;
        let ghost left = f.on_grid((col - 1, row - 1)) + f.on_grid((col - 1, row as int))
            + f.on_grid((col - 1, row + 1));
        let ghost sides = left + f.on_grid((col + 1, row - 1)) + f.on_grid((col + 1, row as int))
            + f.on_grid((col + 1, row + 1));
        if col > 0 {
            if row > 0 {
                adjacent.push((col - 1, row - 1));
            }
            adjacent.push((col - 1, row));
            if row < self.dim.1 - 1 {
                adjacent.push((col - 1, row + 1));
            }
        }
        assert(cells(adjacent@) =~= left);
        if col < self.dim.0 - 1 {
            if row > 0 {
                adjacent.push((col + 1, row - 1));
            }
            adjacent.push((col + 1, row));
            if row < self.dim.1 - 1 {
                adjacent.push((col + 1, row + 1));
            }
        }
        assert(cells(adjacent@) =~= sides);
        if row > 0 {
            adjacent.push((col, row - 1));
        }
        if row < self.dim.1 - 1 {
            adjacent.push((col, row + 1));
        }
        assert(cells(adjacent@) =~= self@.neighbours(cell(pos)));
        adjacent
    }

    /// The cell under the point `(x, y)` of the picture of the board, in which
    /// `x` runs along the rows and `y` along the columns, or `None` where the
    /// point is off the picture.
    pub fn inside(&self, x: i32, y: i32) -> (pos: Option<Coords<i32>>)
        requires
            self@.shaped(),
        ensures
            match pos {
                Some(p) => self@.under(x as int, y as int) == Some(cell(p)) && self@.in_bounds(
                    cell(p),
                ),
                None => self@.under(x as int, y as int) is None,
            },
    {
        proof {
            let cols = self@.cols;
            let rows = self@.rows;
            assert(cols <= MAX_CELLS && rows <= MAX_CELLS) by (nonlinear_arith)
                requires
                    1 <= cols,
                    1 <= rows,
                    cols * rows <= MAX_CELLS,
            ;
        }
        if x < 0 || y < 0 || x >= self.dim.1 * TILE_SIZE || y >= self.dim.0 * TILE_SIZE {
            None
        } else {
            Some((y / TILE_SIZE, x / TILE_SIZE))
        }
    }

    /// The width and the height of the picture of the board, in pixels. The
    /// rows run along the width and the columns along the height.
    pub fn extent(&self) -> (size: (u32, u32))
        requires
            self@.shaped(),
        ensures
            size.0 == self@.rows * TILE_SIZE,
            size.1 == self@.cols * TILE_SIZE,
    {
        proof {
            let cols = self@.cols;
            let rows = self@.rows;
            assert(cols <= MAX_CELLS && rows <= MAX_CELLS) by (nonlinear_arith)
                requires
                    1 <= cols,
                    1 <= rows,
                    cols * rows <= MAX_CELLS,
            ;
        }
        ((self.dim.1 * TILE_SIZE) as u32, (self.dim.0 * TILE_SIZE) as u32)
    }

    /// The top left corner of the tile at `pos` in the picture of the board:
    /// `x`, then `y`. It is a point under which `inside` finds `pos` again.
    pub fn corner(&self, pos: Coords<i32>) -> (at: (i32, i32))
        requires
            self@.shaped(),
            self@.in_bounds(cell(pos)),
        ensures
            at.0 == pos.1 * TILE_SIZE,
            at.1 == pos.0 * TILE_SIZE,
            self@.under(at.0 as int, at.1 as int) == Some(cell(pos)),
    {
        proof {
            let cols = self@.cols;
            let rows = self@.rows;
            assert(cols <= MAX_CELLS && rows <= MAX_CELLS) by (nonlinear_arith)
                requires
                    1 <= cols,
                    1 <= rows,
                    cols * rows <= MAX_CELLS,
            ;
        }
        (pos.1 * TILE_SIZE, pos.0 * TILE_SIZE)
    }

    /// Puts `tile` on the cell at `pos`.
    fn put(&mut self, pos: Coords<i32>, tile: Tile)
        requires
            old(self)@.shaped(),
            old(self)@.in_bounds(cell(pos)),
        ensures
            final(self)@ == old(self)@.with_tile(cell(pos), tile),
            final(self).clock() == old(self).clock(),
            final(self)@.shaped(),
            final(self)@.at(cell(pos)) == tile,
            forall|q: Cell|
                old(self)@.in_bounds(q) && q != cell(pos) ==> #[trigger] final(self)@.at(q) == old(
                    self,
                )@.at(q),
    {
        assert(self@.tiles[pos.1 as int].len() == self@.cols);
        self.map[pos.1 as usize][pos.0 as usize] = tile;
        proof {
            assert(self@.tiles =~~= old(self)@.with_tile(cell(pos), tile).tiles);
            lemma_with_tile(old(self)@, cell(pos), tile);
        }
    }

    /// The tile at `pos`.
    fn tile(&self, pos: Coords<i32>) -> (tile: Tile)
        requires
            self@.shaped(),
            self@.in_bounds(cell(pos)),
        ensures
            tile == self@.at(cell(pos)),
    {
        assert(self@.tiles[pos.1 as int].len() == self@.cols);
        self.map[pos.1 as usize][pos.0 as usize]
    }

    /// The number of mines around `pos`.
    fn mines_near(&self, pos: Coords<i32>) -> (n: u8)
        requires
            self@.shaped(),
            self@.in_bounds(cell(pos)),
        ensures
            n == self@.mines_around(cell(pos)),
    {
        let adjacent = self.get_adjacent_tiles(pos);
        let ghost around = self@.neighbours(cell(pos));
        let ghost is_mine = |q: Cell| self@.at(q).is_mine;
        proof {
            lemma_neighbours(self@, cell(pos));
        }
        let mut n: u8 = 0;
        let mut i: usize = 0;
        while i < adjacent.len()
            invariant
                self@.shaped(),
                cells(adjacent@) == around,
                around == self@.neighbours(cell(pos)),
                around.len() <= 8,
                forall|q: Cell| #[trigger] around.contains(q) ==> self@.in_bounds(q),
                is_mine == |q: Cell| self@.at(q).is_mine,
                0 <= i <= adjacent.len(),
                n == tally(around.take(i as int), is_mine),
                n <= i,
            decreases adjacent.len() - i,
        {
            let q = adjacent[i];
            proof {
                assert(around[i as int] == cell(q));
                assert(around.contains(cell(q)));
                lemma_tally_step(around, i as int, is_mine);
            }
            if self.tile(q).is_mine {
                n += 1;
            }
            i += 1;
        }
        assert(around.take(i as int) =~= around);
        n
    }

    /// Writes the number of mines around the cell at `pos` into it, if it is a
    /// safe one.
    fn recount(&mut self, pos: Coords<i32>)
        requires
            old(self)@.shaped(),
            old(self)@.in_bounds(cell(pos)),
        ensures
            final(self)@ == old(self)@.with_tile(cell(pos), old(self)@.recounted(cell(pos))),
            final(self).clock() == old(self).clock(),
            final(self)@.shaped(),
            final(self)@.at(cell(pos)) == old(self)@.recounted(cell(pos)),
            forall|q: Cell|
                old(self)@.in_bounds(q) && q != cell(pos) ==> #[trigger] final(self)@.at(q) == old(
                    self,
                )@.at(q),
    {
        let mut tile = self.tile(pos);
        if !tile.is_mine {
            let n = self.mines_near(pos);
            tile.set_value(n);
        }
        self.put(pos, tile);
    }

    /// Writes into every safe cell the number of mines around it.
    pub fn generate_tiles(&mut self)
        requires
            old(self)@.wf(),
        ensures
            final(self)@ == old(self)@.with_counts(),
            final(self)@.wf(),
            final(self)@.counted(),
            final(self).clock() == old(self).clock(),
    {
        let ghost f0 = self@;
        let mut row: i32 = 0;
        while row < self.dim.1
            invariant
                f0.shaped(),
                self@ == (Field { tiles: self@.tiles, ..f0 }),
                self@.shaped(),
                self.clock() == old(self).clock(),
                0 <= row <= f0.rows,
                forall|p: Cell|
                    f0.in_bounds(p) ==> (#[trigger] self@.at(p)) == if p.1 < row {
                        f0.recounted(p)
                    } else {
                        f0.at(p)
                    },
            decreases f0.rows - row,
        {
            let mut col: i32 = 0;
            while col < self.dim.0
                invariant
                    f0.shaped(),
                    self@ == (Field { tiles: self@.tiles, ..f0 }),
                    self@.shaped(),
                    self.clock() == old(self).clock(),
                    0 <= row < f0.rows,
                    0 <= col <= f0.cols,
                    forall|p: Cell|
                        f0.in_bounds(p) ==> (#[trigger] self@.at(p)) == if p.1 < row || (p.1 == row
                            && p.0 < col) {
                            f0.recounted(p)
                        } else {
                            f0.at(p)
                        },
                decreases f0.cols - col,
            {
                let ghost was = self@;
                let ghost here = (col as int, row as int);
                proof {
                    lemma_recounted_same(was, f0, here);
                }
                self.recount((col, row));
                proof {
                    assert(self@.at(here) == f0.recounted(here));
                    assert forall|p: Cell| f0.in_bounds(p) && p != here implies self@.at(p)
                        == was.at(p) by {}
                }
                col += 1;
            }
            row += 1;
        }
        proof {
            lemma_with_counts_tiles(f0);
            lemma_with_counts(f0);
            lemma_same_tiles(self@, f0.with_counts());
        }
    }

    /// Toggles the flag at `pos` and tells whether the cell carries a flag
    /// afterwards. A revealed cell takes no flag, and a hidden one takes none
    /// when no flag is left in hand; a flag that is on the grid can always be
    /// taken back.
    pub fn flag(&mut self, pos: Coords<i32>) -> (flagged: bool)
        requires
            old(self)@.wf(),
            old(self)@.in_bounds(cell(pos)),
        ensures
            final(self)@ == old(self)@.toggled(cell(pos)),
            final(self)@.wf(),
            final(self).clock() == old(self).clock(),
            flagged == final(self)@.at(cell(pos)).is_flagged,
    {
        proof {
            lemma_toggled(self@, cell(pos));
            assert(self@.at(cell(pos)).wf());
        }
        let mut tile = self.tile(pos);
        if tile.is_mined {
            return false;
        }
        if self.flags > 0 || tile.is_flagged {
            if let Some(taken_off) = tile.flag() {
                if taken_off {
                    self.flags += 1;
                } else {
                    self.flags -= 1;
                }
                self.put(pos, tile);
            }
        }
        tile.is_flagged
    }

    /// Where the game stands: lost once a mine has gone off, else won once
    /// every safe cell is revealed, else still being played.
    pub fn check_state(&self) -> (stage: Stage)
        requires
            self@.shaped(),
        ensures
            stage == self@.stage(),
    {
        if self.lost {
            return Stage::Lose;
        }
        let mut row: i32 = 0;
        while row < self.dim.1
            invariant
                self@.shaped(),
                !self@.lost,
                0 <= row <= self@.rows,
                forall|p: Cell|
                    self@.in_bounds(p) && p.1 < row ==> (#[trigger] self@.at(p)).is_mined
                        || self@.at(p).is_mine,
            decreases self@.rows - row,
        {
            let mut col: i32 = 0;
            while col < self.dim.0
                invariant
                    self@.shaped(),
                    !self@.lost,
                    0 <= row < self@.rows,
                    0 <= col <= self@.cols,
                    forall|p: Cell|
                        self@.in_bounds(p) && (p.1 < row || (p.1 == row && p.0 < col)) ==> (
                        #[trigger] self@.at(p)).is_mined || self@.at(p).is_mine,
                decreases self@.cols - col,
            {
                let tile = self.tile((col, row));
                if !tile.is_mined && !tile.is_mine {
                    proof {
                        let p = (col as int, row as int);
                        assert(self@.in_bounds(p) && !self@.at(p).is_mined && !self@.at(p).is_mine);
                    }
                    return Stage::Playing;
                }
                col += 1;
            }
            row += 1;
        }
        Stage::Win
    }

    /// The share of the cells that count as done, in percent, rounded down. A
    /// cell counts as done when it is revealed, or holds a mine under a flag.
    pub fn percentage(&self) -> (percent: u32)
        requires
            self@.shaped(),
        ensures
            percent == self@.percentage(),
    {
        let ghost done = |c: int, r: int|
            self@.at((c, r)).is_mined || (self@.at((c, r)).is_mine && self@.at((c, r)).is_flagged);
        let ghost cols = self@.cols;
        let mut count: u32 = 0;
        let mut row: i32 = 0;
        while row < self.dim.1
            invariant
                self@.shaped(),
                cols == self@.cols,
                done == |c: int, r: int|
                    self@.at((c, r)).is_mined || (self@.at((c, r)).is_mine && self@.at(
                        (c, r),
                    ).is_flagged),
                0 <= row <= self@.rows,
                count == count_cells(done, cols, row as int),
            decreases self@.rows - row,
        {
            let mut col: i32 = 0;
            while col < self.dim.0
                invariant
                    self@.shaped(),
                    cols == self@.cols,
                    done == |c: int, r: int|
                        self@.at((c, r)).is_mined || (self@.at((c, r)).is_mine && self@.at(
                            (c, r),
                        ).is_flagged),
                    0 <= row < self@.rows,
                    0 <= col <= cols,
                    count == count_cells(done, cols, row as int) + count_row(
                        done,
                        row as int,
                        col as int,
                    ),
                decreases cols - col,
            {
                let tile = self.tile((col, row));
                proof {
                    lemma_count_cells_bound(done, cols, row as int);
                    lemma_count_row_bound(done, row as int, col as int);
                    assert(cols * row + col < cols * self@.rows) by (nonlinear_arith)
                        requires
                            0 <= col < cols,
                            0 <= row < self@.rows,
                    ;
                }
                if tile.is_mined || (tile.is_mine && tile.is_flagged) {
                    count += 1;
                }
                col += 1;
            }
            row += 1;
        }
        proof {
            lemma_count_cells_bound(done, cols, self@.rows);
            assert(1 <= cols * self@.rows) by (nonlinear_arith)
                requires
                    1 <= cols,
                    1 <= self@.rows,
            ;
        }
        let cells: u32 = (self.dim.0 as u32) * (self.dim.1 as u32);
        count * 100 / cells
    }

    /// Lists the neighbours of the cell at `c`, which the sweep has just
    /// revealed, that may be revealed and are not listed yet.
    fn spread(
        &self,
        c: Coords<i32>,
        marks: &mut Vec<Vec<bool>>,
        stack: &mut Vec<Coords<i32>>,
        Ghost(before): Ghost<Field>,
        Ghost(pos): Ghost<Cell>,
    )
        requires
            (Sweep {
                before,
                pos,
                now: self@,
                marks: marks_of(*old(marks)),
                stack: old(stack)@,
                busy: Some(cell(c)),
            }).inv(),
            before.opens(pos, cell(c)),
            before.spreads(cell(c)),
        ensures
            (Sweep {
                before,
                pos,
                now: self@,
                marks: marks_of(*final(marks)),
                stack: final(stack)@,
                busy: None,
            }).inv(),
            mark_total(marks_of(*final(marks)), before.cols, before.rows) <= before.cols
                * before.rows,
            final(stack)@.len() - old(stack)@.len() == mark_total(
                marks_of(*final(marks)),
                before.cols,
                before.rows,
            ) - mark_total(marks_of(*old(marks)), before.cols, before.rows),
            final(stack)@.len() >= old(stack)@.len(),
    {
        let near = self.get_adjacent_tiles(c);
        let ghost around = before.neighbours(cell(c));
        proof {
            lemma_neighbours(before, cell(c));
            assert(self@.neighbours(cell(c)) == around);
            lemma_count_cells_bound(
                |c: int, r: int| marked(marks_of(*marks), (c, r)),
                before.cols,
                before.rows,
            );
        }
        let mut k: usize = 0;
        while k < near.len()
            invariant
                (Sweep {
                    before,
                    pos,
                    now: self@,
                    marks: marks_of(*marks),
                    stack: stack@,
                    busy: Some(cell(c)),
                }).inv(),
                before.opens(pos, cell(c)),
                before.spreads(cell(c)),
                cells(near@) == around,
                around == before.neighbours(cell(c)),
                forall|q: Cell| #[trigger]
                    around.contains(q) <==> before.in_bounds(q) && adjacent(cell(c), q),
                0 <= k <= near.len(),
                forall|j: int|
                    0 <= j < k && before.openable(#[trigger] around[j]) ==> marked(
                        marks_of(*marks),
                        around[j],
                    ),
                mark_total(marks_of(*marks), before.cols, before.rows) <= before.cols * before.rows,
                stack@.len() - old(stack)@.len() == mark_total(
                    marks_of(*marks),
                    before.cols,
                    before.rows,
                ) - mark_total(marks_of(*old(marks)), before.cols, before.rows),
                stack@.len() >= old(stack)@.len(),
            decreases near.len() - k,
        {
            let q = near[k];
            let ghost w = Sweep {
                before,
                pos,
                now: self@,
                marks: marks_of(*marks),
                stack: stack@,
                busy: Some(cell(c)),
            };
            proof {
                assert(around[k as int] == cell(q));
                assert(around.contains(cell(q)));
                assert(w.marks[cell(q).1].len() == before.cols);
            }
            let tile = self.tile(q);
            if !tile.is_mined && !tile.is_flagged && !is_marked(marks, q) {
                proof {
                    assert(self@.at(cell(q)) == (Tile {
                        is_mined: self@.at(cell(q)).is_mined,
                        ..before.at(cell(q))
                    }));
                    lemma_sweep_mark(w, q);
                    lemma_mark_total(w.marks, cell(q), before.cols, before.rows);
                }
                mark(marks, q);
                stack.push(q);
            } else {
                proof {
                    if before.openable(cell(q)) && !marked(w.marks, cell(q)) {
                        assert(self@.at(cell(q)) == (Tile {
                            is_mined: self@.at(cell(q)).is_mined,
                            ..before.at(cell(q))
                        }));
                        assert(newly(before, self@, cell(q)));
                    }
                }
            }
            proof {
                let ms = marks_of(*marks);
                assert forall|j: int|
                    0 <= j < k + 1 && before.openable(#[trigger] around[j]) implies marked(
                    ms,
                    around[j],
                ) by {
                    assert(around.contains(around[j]));
                    if j < k {
                        assert(marked(w.marks, around[j]));
                    }
                }
            }
            k += 1;
        }
        proof {
            let w = Sweep {
                before,
                pos,
                now: self@,
                marks: marks_of(*marks),
                stack: stack@,
                busy: Some(cell(c)),
            };
            assert forall|q: Cell| #[trigger]
                adjacent(cell(c), q) && before.openable(q) implies marked(w.marks, q) by {
                assert(around.contains(q));
                let j = choose|j: int| 0 <= j < around.len() && around[j] == q;
                assert(before.openable(around[j]));
            }
            lemma_sweep_release(w);
        }
    }

    /// Reveals the cells at `seeds` and every cell that the reveal spreads to
    /// from there. The cells to reveal wait on a stack, and a list of the
    /// cells that were ever put on it keeps each from being put there twice.
    fn sweep(&mut self, seeds: &Vec<Coords<i32>>, Ghost(pos): Ghost<Cell>)
        requires
            old(self)@.wf(),
            !old(self)@.first_move,
            old(self)@.in_bounds(pos),
            forall|i: int|
                0 <= i < seeds@.len() ==> old(self)@.starts(pos, cell(#[trigger] seeds@[i])) && old(
                    self,
                )@.openable(cell(seeds@[i])),
            forall|s: Cell| #[trigger] old(self)@.starts(pos, s) ==> among(seeds@, s),
        ensures
            final(self)@ == old(self)@.unearthed(pos),
            final(self)@.wf(),
            final(self).clock() == old(self).clock(),
    {
        let ghost before = self@;
        let mut marks = blank_marks(self.dim.0, self.dim.1);
        let mut stack: Vec<Coords<i32>> = Vec::new();
        let mut i: usize = 0;
        while i < seeds.len()
            invariant
                self@ == before,
                before.wf(),
                0 <= i <= seeds@.len(),
                marks_of(marks).len() == before.rows,
                forall|r: int|
                    0 <= r < before.rows ==> (#[trigger] marks_of(marks)[r]).len() == before.cols,
                forall|j: int|
                    0 <= j < seeds@.len() ==> before.starts(pos, cell(#[trigger] seeds@[j]))
                        && before.openable(cell(seeds@[j])),
                forall|p: Cell|
                    before.in_bounds(p) && #[trigger] marked(marks_of(marks), p) ==> before.opens(
                        pos,
                        p,
                    ) && among(stack@, p),
                forall|j: int|
                    0 <= j < stack@.len() ==> before.in_bounds(cell(#[trigger] stack@[j]))
                        && marked(marks_of(marks), cell(stack@[j])),
                forall|j: int| 0 <= j < i ==> marked(marks_of(marks), cell(#[trigger] seeds@[j])),
            decreases seeds@.len() - i,
        {
            let s = seeds[i];
            let ghost ms = marks_of(marks);
            let ghost st = stack@;
            assert(before.openable(cell(s)));
            assert(ms[cell(s).1].len() == before.cols);
            if !is_marked(&marks, s) {
                mark(&mut marks, s);
                stack.push(s);
                proof {
                    let ms2 = marks_of(marks);
                    lemma_opens_start(before, pos, cell(s));
                    assert forall|p: Cell| before.in_bounds(p) implies #[trigger] marked(ms2, p) == (
                    p == cell(s) || marked(ms, p)) by {
                        assert(ms[p.1].len() == before.cols);
                    }
                    assert forall|r: int| 0 <= r < before.rows implies (#[trigger] ms2[r]).len()
                        == before.cols by {
                        assert(ms[r].len() == before.cols);
                    }
                    assert forall|p: Cell| before.in_bounds(p) && #[trigger] marked(ms2, p) implies
                        before.opens(pos, p) && among(stack@, p) by {
                        if p == cell(s) {
                            assert(cell(stack@[st.len() as int]) == p);
                        } else {
                            let j = choose|j: int| 0 <= j < st.len() && cell(#[trigger] st[j]) == p;
                            assert(cell(stack@[j]) == p);
                        }
                    }
                    assert forall|j: int| 0 <= j < stack@.len() implies before.in_bounds(
                        cell(#[trigger] stack@[j]),
                    ) && marked(ms2, cell(stack@[j])) by {
                        if j < st.len() {
                            assert(stack@[j] == st[j]);
                        }
                    }
                    assert forall|j: int| 0 <= j < i + 1 implies marked(
                        ms2,
                        cell(#[trigger] seeds@[j]),
                    ) by {
                        assert(before.openable(cell(seeds@[j])));
                    }
                }
            }
            i += 1;
        }
        proof {
            let w = Sweep {
                before,
                pos,
                now: self@,
                marks: marks_of(marks),
                stack: stack@,
                busy: None,
            };
            assert forall|s: Cell| #[trigger] before.starts(pos, s) implies marked(w.marks, s) by {
                let j = choose|j: int| 0 <= j < seeds@.len() && cell(#[trigger] seeds@[j]) == s;
                assert(marked(w.marks, cell(seeds@[j])));
            }
            lemma_sweep_begin(w);
            lemma_count_cells_bound(
                |c: int, r: int| marked(w.marks, (c, r)),
                before.cols,
                before.rows,
            );
        }
        while stack.len() > 0
            invariant
                (Sweep {
                    before,
                    pos,
                    now: self@,
                    marks: marks_of(marks),
                    stack: stack@,
                    busy: None,
                }).inv(),
                self.clock() == old(self).clock(),
                mark_total(marks_of(marks), before.cols, before.rows) <= before.cols * before.rows,
            decreases
                    before.cols * before.rows - mark_total(
                        marks_of(marks),
                        before.cols,
                        before.rows,
                    ),
                    stack@.len(),
        {
            let ghost w = Sweep {
                before,
                pos,
                now: self@,
                marks: marks_of(marks),
                stack: stack@,
                busy: None,
            };
            proof {
                lemma_sweep_reveal(w);
            }
            let top = stack.pop();
            let c = top.unwrap();
            assert(stack@ == w.stack.drop_last());
            let mut tile = self.tile(c);
            assert(tile == (Tile { is_mined: tile.is_mined, ..before.at(cell(c)) }));
            let boom = tile.mine();
            self.put(c, tile);
            if boom {
                self.lost = true;
            }
            assert(self@ == revealed_top(w));
            let spreads = !tile.is_mine && match tile.value {
                Some(v) => v == 0,
                None => false,
            };
            if spreads {
                self.spread(c, &mut marks, &mut stack, Ghost(before), Ghost(pos));
            } else {
                proof {
                    lemma_sweep_release(
                        Sweep {
                            before,
                            pos,
                            now: self@,
                            marks: marks_of(marks),
                            stack: stack@,
                            busy: Some(cell(c)),
                        },
                    );
                }
            }
        }
        proof {
            lemma_sweep_end(
                Sweep {
                    before,
                    pos,
                    now: self@,
                    marks: marks_of(marks),
                    stack: stack@,
                    busy: None,
                },
            );
        }
    }

    /// The cells where a move on the revealed cell at `pos` starts: the
    /// hidden, unflagged cells around it if as many flags lie around it as its
    /// count says, and none otherwise.
    fn chord(&self, pos: Coords<i32>) -> (seeds: Vec<Coords<i32>>)
        requires
            self@.wf(),
            self@.in_bounds(cell(pos)),
            self@.at(cell(pos)).is_mined,
        ensures
            forall|i: int|
                0 <= i < seeds@.len() ==> self@.starts(cell(pos), cell(#[trigger] seeds@[i]))
                    && self@.openable(cell(seeds@[i])),
            forall|s: Cell| #[trigger] self@.starts(cell(pos), s) ==> among(seeds@, s),
    {
        let near = self.get_adjacent_tiles(pos);
        let ghost around = self@.neighbours(cell(pos));
        let ghost is_flagged = |q: Cell| self@.at(q).is_flagged;
        proof {
            lemma_neighbours(self@, cell(pos));
            assert(self@.at(cell(pos)).wf());
        }
        let mut hidden: Vec<Coords<i32>> = Vec::new();
        let mut flags: u8 = 0;
        let mut k: usize = 0;
        while k < near.len()
            invariant
                self@.wf(),
                cells(near@) == around,
                around == self@.neighbours(cell(pos)),
                around.len() <= 8,
                forall|q: Cell| #[trigger]
                    around.contains(q) <==> self@.in_bounds(q) && adjacent(cell(pos), q),
                is_flagged == |q: Cell| self@.at(q).is_flagged,
                0 <= k <= near.len(),
                flags == tally(around.take(k as int), is_flagged),
                flags <= k,
                forall|i: int|
                    0 <= i < hidden@.len() ==> adjacent(cell(pos), cell(#[trigger] hidden@[i]))
                        && self@.openable(cell(hidden@[i])),
                forall|j: int|
                    0 <= j < k && self@.openable(#[trigger] around[j]) ==> among(
                        hidden@,
                        around[j],
                    ),
            decreases near.len() - k,
        {
            let q = near[k];
            let ghost was = hidden@;
            proof {
                assert(around[k as int] == cell(q));
                assert(around.contains(cell(q)));
                lemma_tally_step(around, k as int, is_flagged);
            }
            let tile = self.tile(q);
            if tile.is_flagged {
                flags += 1;
            } else if !tile.is_mined {
                hidden.push(q);
            }
            proof {
                assert forall|i: int| 0 <= i < hidden@.len() implies adjacent(
                    cell(pos),
                    cell(#[trigger] hidden@[i]),
                ) && self@.openable(cell(hidden@[i])) by {
                    if i < was.len() {
                        assert(hidden@[i] == was[i]);
                    }
                }
                assert forall|j: int|
                    0 <= j < k + 1 && self@.openable(#[trigger] around[j]) implies among(
                    hidden@,
                    around[j],
                ) by {
                    if j < k {
                        let i = choose|i: int|
                            0 <= i < was.len() && cell(#[trigger] was[i]) == around[j];
                        assert(cell(hidden@[i]) == around[j]);
                    } else {
                        assert(cell(hidden@[was.len() as int]) == around[j]);
                    }
                }
            }
            k += 1;
        }
        assert(around.take(k as int) =~= around);
        let matched = match self.tile(pos).value {
            Some(v) => v == flags,
            None => false,
        };
        if matched {
            proof {
                assert(self@.satisfied(cell(pos)));
                assert forall|s: Cell| #[trigger] self@.starts(cell(pos), s) implies among(
                    hidden@,
                    s,
                ) by {
                    assert(around.contains(s));
                    let j = choose|j: int| 0 <= j < around.len() && around[j] == s;
                    assert(self@.openable(around[j]));
                }
            }
            hidden
        } else {
            assert(!self@.satisfied(cell(pos)));
            Vec::new()
        }
    }

    /// Makes a move at `pos`. Once the game is over, and on a flagged cell,
    /// nothing happens. On a hidden cell the move reveals it, and from a cell
    /// without mines around it the reveal spreads to the neighbours that are
    /// hidden and unflagged. On a revealed cell with as many flags around it
    /// as its count says, the move reveals the hidden, unflagged cells around
    /// it in the same way. A mine among the revealed cells loses the game.
    pub fn mine(&mut self, pos: Coords<i32>)
        requires
            old(self)@.wf(),
            !old(self)@.first_move,
            old(self)@.in_bounds(cell(pos)),
        ensures
            final(self)@ == old(self)@.dug(cell(pos)),
            final(self)@.wf(),
            final(self).clock() == old(self).clock(),
    {
        match self.check_state() {
            Stage::Playing => {},
            _ => {
                return ;
            },
        }
        let tile = self.tile(pos);
        if tile.is_flagged {
            proof {
                lemma_nothing_opens(self@, cell(pos));
            }
            return ;
        }
        let seeds = if tile.is_mined {
            self.chord(pos)
        } else {
            let mut seeds: Vec<Coords<i32>> = Vec::new();
            seeds.push(pos);
            assert(cell(seeds@[0]) == cell(pos));
            seeds
        };
        self.sweep(&seeds, Ghost(cell(pos)));
    }

    /// Lays a mine at `pos` unless the cell holds one already or lies in the
    /// block of three by three cells around `seed`, and tells whether it did.
    pub fn lay_mine(&mut self, pos: Coords<i32>, seed: Coords<i32>) -> (laid: bool)
        requires
            old(self)@.sound(),
            old(self)@.untouched(),
            old(self)@.in_bounds(cell(pos)),
        ensures
            laid == old(self)@.admits_mine(cell(pos), cell(seed)),
            final(self)@ == old(self)@.with_mine(cell(pos), cell(seed)),
            final(self)@.sound(),
            final(self)@.untouched(),
            final(self).clock() == old(self).clock(),
    {
        proof {
            lemma_with_mine(self@, cell(pos), cell(seed));
        }
        let dx: i64 = pos.0 as i64 - seed.0 as i64;
        let dy: i64 = pos.1 as i64 - seed.1 as i64;
        let mut tile = self.tile(pos);
        if tile.is_mine || (-2 < dx && dx < 2 && -2 < dy && dy < 2) {
            return false;
        }
        tile.set_mine();
        self.put(pos, tile);
        true
    }

    /// Lays the mines of the board for a first move at `(x, y)`. Each mine goes
    /// to a cell that the generator draws; a draw that hits a mine or the
    /// block of three by three cells around the first move is made again. No
    /// more than `DRAW_LIMIT` draws are made: should mines be left after
    /// that, they go to the first cells that admit them, row by row, so that
    /// all the mines lie on the board when the call returns.
    pub fn generate_mines(&mut self, rng: &mut ThreadRng, x: i32, y: i32)
        requires
            old(self)@.wf(),
            old(self)@.first_move,
            old(self)@.in_bounds(cell((x, y))),
        ensures
            old(self)@.dealt(cell((x, y)), final(self)@),
            final(self)@.mine_total() == final(self)@.mines,
            forall|p: Cell|
                final(self)@.in_bounds(p) && in_zone(cell((x, y)), p) ==> !(#[trigger] final(self)@.at(
                    p,
                )).is_mine,
            final(self).clock() == old(self).clock(),
    {
        let ghost before = self@;
        let ghost seed = cell((x, y));
        proof {
            lemma_laying_begin(before, seed);
        }
        let mut placed: u8 = 0;
        let mut draws: u32 = 0;
        while placed < self.mines && draws < DRAW_LIMIT
            invariant
                before.wf(),
                before.first_move,
                seed == cell((x, y)),
                before.laying(seed, self@, placed as int),
                placed <= before.mines,
                self.clock() == old(self).clock(),
                draws <= DRAW_LIMIT,
            decreases DRAW_LIMIT - draws,
        {
            let col = roll(rng, self.dim.0);
            let row = roll(rng, self.dim.1);
            proof {
                lemma_laying_step(before, seed, self@, placed as int, (col as int, row as int));
            }
            if self.lay_mine((col, row), (x, y)) {
                placed += 1;
            }
            draws += 1;
        }
        let mut row: i32 = 0;
        while row < self.dim.1 && placed < self.mines
            invariant
                before.wf(),
                before.first_move,
                seed == cell((x, y)),
                before.laying(seed, self@, placed as int),
                placed <= before.mines,
                self.clock() == old(self).clock(),
                0 <= row <= before.rows,
                placed < before.mines ==> forall|p: Cell|
                    before.in_bounds(p) && p.1 < row && !in_zone(seed, p) ==> (#[trigger] self@.at(
                        p,
                    )).is_mine,
            decreases before.rows - row,
        {
            let mut col: i32 = 0;
            while col < self.dim.0 && placed < self.mines
                invariant
                    before.wf(),
                    before.first_move,
                    seed == cell((x, y)),
                    before.laying(seed, self@, placed as int),
                    placed <= before.mines,
                    self.clock() == old(self).clock(),
                    0 <= row < before.rows,
                    0 <= col <= before.cols,
                    placed < before.mines ==> forall|p: Cell|
                        before.in_bounds(p) && (p.1 < row || (p.1 == row && p.0 < col)) && !in_zone(
                            seed,
                            p,
                        ) ==> (#[trigger] self@.at(p)).is_mine,
                decreases before.cols - col,
            {
                let ghost was = self@;
                let ghost here = (col as int, row as int);
                proof {
                    lemma_laying_step(before, seed, was, placed as int, here);
                    lemma_with_tile(
                        was,
                        here,
                        Tile { value: None, is_mine: true, ..was.at(here) },
                    );
                }
                if self.lay_mine((col, row), (x, y)) {
                    placed += 1;
                }
                proof {
                    assert forall|p: Cell|
                        before.in_bounds(p) && (p.1 < row || (p.1 == row && p.0 < col + 1))
                            && !in_zone(seed, p) implies (#[trigger] self@.at(p)).is_mine by {
                        if p != here {
                            assert(was.at(p).is_mine);
                        }
                    }
                }
                col += 1;
            }
            row += 1;
        }
        proof {
            if placed < self.mines {
                assert forall|p: Cell| self@.in_bounds(p) && !in_zone(seed, p) implies self@.at(
                    p,
                ).is_mine by {}
                lemma_room_left(self@, seed);
            }
            lemma_laying_end(before, seed, self@);
        }
        self.first_move = false;
    }

    /// Uncovers the cell at `pos`. The first call in a game lays the mines
    /// around `pos`, writes the counts and starts the stopwatch; every call
    /// then makes a move at `pos`. The stopwatch is stopped once the game is
    /// over.
    pub fn uncover(&mut self, rng: &mut ThreadRng, pos: Coords<i32>)
        requires
            old(self)@.wf(),
            old(self)@.in_bounds(cell(pos)),
        ensures
            old(self)@.uncovered_into(cell(pos), final(self)@),
            final(self)@.wf(),
            !final(self)@.first_move,
            final(self).clock().running() <==> final(self)@.stage() == Stage::Playing && (old(
                self,
            )@.first_move || old(self).clock().running()),
            old(self).clock().banked() <= final(self).clock().banked(),
    {
        if self.first_move {
            self.generate_mines(rng, pos.0, pos.1);
            let ghost mid = self@;
            self.generate_tiles();
            self.stopwatch.start();
            self.mine(pos);
            assert(old(self)@.dealt(cell(pos), mid) && self@ == mid.with_counts().dug(cell(pos)));
        } else {
            self.mine(pos);
        }
        match self.check_state() {
            Stage::Playing => {},
            _ => {
                self.stopwatch.stop();
            },
        }
    }

    /// Handles a click on the point `(x, y)` of the picture of the board. A
    /// click off the picture does nothing. A flagging click toggles the flag
    /// of the cell under the point; any other click uncovers that cell.
    pub fn click(&mut self, rng: &mut ThreadRng, x: i32, y: i32, flagging: bool)
        requires
            old(self)@.wf(),
        ensures
            final(self)@.wf(),
            match old(self)@.under(x as int, y as int) {
                None => final(self)@ == old(self)@ && final(self).clock() == old(self).clock(),
                Some(p) => if flagging {
                    final(self)@ == old(self)@.toggled(p) && final(self).clock() == old(
                        self,
                    ).clock()
                } else {
                    &&& old(self)@.uncovered_into(p, final(self)@)
                    &&& final(self).clock().running() <==> final(self)@.stage() == Stage::Playing
                        && (old(self)@.first_move || old(self).clock().running())
                    &&& old(self).clock().banked() <= final(self).clock().banked()
                },
            },
    {
        match self.inside(x, y) {
            None => {},
            Some(pos) => {
                if flagging {
                    let _ = self.flag(pos);
                } else {
                    self.uncover(rng, pos);
                }
            },
        }
    }
}

} // verus!
