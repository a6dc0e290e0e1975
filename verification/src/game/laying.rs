//! Laying the mines: what holds of the board while they are laid, and why
//! there is always room for the next one.

use vstd::prelude::*;

use crate::game::count::{
    count_cells, count_row, lemma_count_cells_gain, lemma_count_cells_mono,
    lemma_count_cells_same, lemma_count_cells_split, lemma_count_cells_zero,
};
use crate::game::field::{in_zone, zone_max, Cell, Field};
use crate::game::proofs::{lemma_totals_same, lemma_with_tile};
use crate::game::tile::Tile;

verus! {

/// How many of the numbers from zero up to, but not including, `upto` lie
/// next to `centre` or on it.
pub open spec fn span(centre: int, upto: int) -> int {
    let lo = if centre - 1 < 0 {
        0
    } else {
        centre - 1
    };
    let hi = if centre + 2 < upto {
        centre + 2
    } else {
        upto
    };
    if hi < lo {
        0
    } else {
        hi - lo
    }
}

/// The cells of a row that lie in the block around `seed`.
proof fn lemma_zone_row(seed: Cell, row: int, upto: int)
    requires
        0 <= upto,
    ensures
        count_row(|c: int, r: int| in_zone(seed, (c, r)), row, upto) == if -2 < row - seed.1 < 2 {
            span(seed.0, upto)
        } else {
            0
        },
    decreases upto,
{
    if upto > 0 {
        lemma_zone_row(seed, row, upto - 1);
    }
}

/// The cells of a grid that lie in the block around `seed`.
proof fn lemma_zone_cells(seed: Cell, cols: int, rows: int)
    requires
        0 <= cols,
        0 <= rows,
    ensures
        count_cells(|c: int, r: int| in_zone(seed, (c, r)), cols, rows) == span(seed.0, cols)
            * span(seed.1, rows),
    decreases rows,
{
    let z = |c: int, r: int| in_zone(seed, (c, r));
    let w = span(seed.0, cols);
    if rows > 0 {
        lemma_zone_cells(seed, cols, rows - 1);
        lemma_zone_row(seed, rows - 1, cols);
        let k = span(seed.1, rows - 1);
        if -2 < (rows - 1) - seed.1 < 2 {
            assert(span(seed.1, rows) == k + 1);
            assert(w * (k + 1) == w * k + w) by (nonlinear_arith);
        } else {
            assert(span(seed.1, rows) == k);
        }
    } else {
        assert(w * 0 == 0) by (nonlinear_arith);
    }
}

/// The block around a first move covers no more cells than `zone_max` says.
pub proof fn lemma_zone_bound(seed: Cell, cols: int, rows: int)
    requires
        0 <= cols,
        0 <= rows,
    ensures
        count_cells(|c: int, r: int| in_zone(seed, (c, r)), cols, rows) <= zone_max(cols, rows),
{
    lemma_zone_cells(seed, cols, rows);
    let a = span(seed.0, cols);
    let b = span(seed.1, rows);
    let m = if cols < 3 {
        cols
    } else {
        3
    };
    let n = if rows < 3 {
        rows
    } else {
        3
    };
    assert(a * b <= m * n) by (nonlinear_arith)
        requires
            0 <= a <= m,
            0 <= b <= n,
    ;
}

/// On a board with room for its mines, a grid on which every cell outside
/// the block around the first move holds a mine holds more than `mines`.
pub proof fn lemma_room_left(f: Field, seed: Cell)
    requires
        f.shaped(),
        f.roomy(),
        forall|p: Cell| f.in_bounds(p) && !in_zone(seed, p) ==> f.at(p).is_mine,
    ensures
        f.mine_total() > f.mines,
{
    let z = |c: int, r: int| in_zone(seed, (c, r));
    let nz = |c: int, r: int| !z(c, r);
    let m = |c: int, r: int| f.at((c, r)).is_mine;
    lemma_zone_bound(seed, f.cols, f.rows);
    lemma_count_cells_split(z, f.cols, f.rows);
    assert forall|c: int, r: int| 0 <= c < f.cols && 0 <= r < f.rows && #[trigger] nz(
        c,
        r,
    ) implies m(c, r) by {
        assert(f.in_bounds((c, r)));
    }
    lemma_count_cells_mono(nz, m, f.cols, f.rows);
}

impl Field {
    /// What holds of the board `now` while the mines are laid on `self`
    /// around the first move `seed`: `placed` mines lie on it, none in the
    /// block around `seed`, and every tile is otherwise as it was.
    pub open spec fn laying(self, seed: Cell, now: Field, placed: int) -> bool {
        &&& now == (Field { tiles: now.tiles, ..self })
        &&& now.sound()
        &&& now.untouched()
        &&& now.mine_total() == placed
        &&& forall|p: Cell|
            self.in_bounds(p) ==> {
                let t = #[trigger] now.at(p);
                &&& in_zone(seed, p) ==> !t.is_mine
                &&& t == if t.is_mine {
                    Tile { value: None, is_mine: true, ..self.at(p) }
                } else {
                    self.at(p)
                }
            }
    }
}

/// Laying a mine on a board that no move has touched keeps it sound and
/// untouched, and raises the number of mines by one where the cell admits it.
pub proof fn lemma_with_mine(f: Field, p: Cell, seed: Cell)
    requires
        f.sound(),
        f.untouched(),
        f.in_bounds(p),
    ensures
        f.with_mine(p, seed).sound(),
        f.with_mine(p, seed).untouched(),
        f.with_mine(p, seed).mine_total() == f.mine_total() + if f.admits_mine(p, seed) {
            1nat
        } else {
            0nat
        },
{
    let g = f.with_mine(p, seed);
    if f.admits_mine(p, seed) {
        lemma_with_tile(f, p, Tile { value: None, is_mine: true, ..f.at(p) });
        assert forall|q: Cell| g.in_bounds(q) implies (#[trigger] g.at(q)).wf() by {
            assert(f.at(q).wf());
        }
        assert forall|q: Cell| g.in_bounds(q) implies !(#[trigger] g.at(q)).is_mined by {
            assert(!f.at(q).is_mined);
        }
        assert(g.flag_total() == f.flag_total()) by {
            lemma_count_cells_same(
                |c: int, r: int| f.at((c, r)).is_flagged,
                |c: int, r: int| g.at((c, r)).is_flagged,
                f.cols,
                f.rows,
            );
        }
        lemma_count_cells_gain(
            |c: int, r: int| f.at((c, r)).is_mine,
            |c: int, r: int| g.at((c, r)).is_mine,
            f.cols,
            f.rows,
            p,
        );
        assert(g.lost <==> exists|q: Cell| #[trigger] g.blown(q)) by {
            if f.lost {
                let q = choose|q: Cell| #[trigger] f.blown(q);
                assert(f.at(q).is_mined);
            }
            if exists|q: Cell| #[trigger] g.blown(q) {
                let q = choose|q: Cell| #[trigger] g.blown(q);
                assert(g.at(q).is_mined);
            }
        }
    }
}

/// Laying the mines starts from a board without mines.
pub proof fn lemma_laying_begin(f: Field, seed: Cell)
    requires
        f.wf(),
        f.first_move,
    ensures
        f.laying(seed, f, 0),
{
    lemma_count_cells_zero(|c: int, r: int| f.at((c, r)).is_mine, f.cols, f.rows);
}

/// Once all the mines are laid the board is ready for play.
pub proof fn lemma_laying_end(f: Field, seed: Cell, now: Field)
    requires
        f.wf(),
        f.first_move,
        f.laying(seed, now, f.mines),
    ensures
        f.dealt(seed, Field { first_move: false, ..now }),
{
    let g = Field { first_move: false, ..now };
    assert forall|p: Cell| g.blown(p) == now.blown(p) by {}
    lemma_totals_same(now, g);
    assert forall|p: Cell| g.in_bounds(p) implies (#[trigger] g.at(p)).wf() by {
        assert(now.at(p).wf());
    }
    assert(g.lost <==> exists|p: Cell| #[trigger] g.blown(p)) by {
        if now.lost {
            let p = choose|p: Cell| #[trigger] now.blown(p);
            assert(g.blown(p));
        }
        if exists|p: Cell| #[trigger] g.blown(p) {
            let p = choose|p: Cell| #[trigger] g.blown(p);
            assert(now.blown(p));
        }
    }
    assert forall|p: Cell| f.in_bounds(p) implies {
        let t = #[trigger] g.at(p);
        &&& in_zone(seed, p) ==> !t.is_mine
        &&& t == if t.is_mine {
            Tile { value: None, is_mine: true, ..f.at(p) }
        } else {
            f.at(p)
        }
    } by {
        assert(now.at(p).wf());
    }
}

/// Laying a mine is a step of laying the mines.
pub proof fn lemma_laying_step(f: Field, seed: Cell, now: Field, placed: int, p: Cell)
    requires
        f.laying(seed, now, placed),
        now.in_bounds(p),
    ensures
        f.laying(
            seed,
            now.with_mine(p, seed),
            placed + if now.admits_mine(p, seed) {
                1int
            } else {
                0int
            },
        ),
{
    lemma_with_mine(now, p, seed);
    if now.admits_mine(p, seed) {
        lemma_with_tile(now, p, Tile { value: None, is_mine: true, ..now.at(p) });
        let g = now.with_mine(p, seed);
        assert forall|q: Cell| f.in_bounds(q) implies {
            let t = #[trigger] g.at(q);
            &&& in_zone(seed, q) ==> !t.is_mine
            &&& t == if t.is_mine {
                Tile { value: None, is_mine: true, ..f.at(q) }
            } else {
                f.at(q)
            }
        } by {
            assert(now.at(q).wf());
        }
    }
}

} // verus!
