//! How a reveal spreads over the grid: the state of the sweep that carries
//! it out, and the proof that the sweep reveals what the move reaches and
//! nothing else.

use vstd::prelude::*;

use crate::game::count::{
    count_cells, lemma_count_cells_bound, lemma_count_cells_gain, lemma_count_cells_same,
};
use crate::game::field::{adjacent, among, cell, Cell, Field};
use crate::game::proofs::{lemma_same_tiles, lemma_with_tile};
use crate::game::tile::Tile;

verus! {

/// Whether the sweep has put `p` on its list of cells to reveal.
pub open spec fn marked(marks: Seq<Seq<bool>>, p: Cell) -> bool {
    marks[p.1][p.0]
}

/// Whether `p` was hidden in `before` and is revealed in `now`.
pub open spec fn newly(before: Field, now: Field, p: Cell) -> bool {
    now.at(p).is_mined && !before.at(p).is_mined
}

/// A sweep in progress.
pub struct Sweep {
    /// The field when the move was made.
    pub before: Field,
    /// Where the move was made.
    pub pos: Cell,
    /// The field as the sweep has left it so far.
    pub now: Field,
    /// The cells that the sweep has listed, row by row.
    pub marks: Seq<Seq<bool>>,
    /// The listed cells that are still to be revealed.
    pub stack: Seq<(i32, i32)>,
    /// The revealed cell whose neighbours are being listed, if any.
    pub busy: Option<Cell>,
}

impl Sweep {
    /// The marks cover the grid.
    pub open spec fn marks_fit(self) -> bool {
        &&& self.marks.len() == self.before.rows
        &&& forall|r: int|
            0 <= r < self.before.rows ==> (#[trigger] self.marks[r]).len() == self.before.cols
    }

    /// The field differs from the one before the move only in cells that
    /// have been revealed since, and in the loss that this may have brought.
    pub open spec fn only_reveals(self) -> bool {
        &&& self.now == (Field { tiles: self.now.tiles, lost: self.now.lost, ..self.before })
        &&& self.now.shaped()
        &&& forall|p: Cell|
            self.before.in_bounds(p) ==> (#[trigger] self.now.at(p)) == (Tile {
                is_mined: self.now.at(p).is_mined,
                ..self.before.at(p)
            }) && (self.before.at(p).is_mined ==> self.now.at(p).is_mined)
    }

    /// Every listed cell is one that the move reaches, and is revealed or
    /// waits on the stack; every cell revealed since the move is listed; and
    /// the stack holds listed cells only.
    pub open spec fn marks_sound(self) -> bool {
        &&& forall|p: Cell|
            self.before.in_bounds(p) && #[trigger] marked(self.marks, p) ==> self.before.opens(
                self.pos,
                p,
            ) && (self.now.at(p).is_mined || among(self.stack, p))
        &&& forall|p: Cell|
            self.before.in_bounds(p) && #[trigger] newly(self.before, self.now, p) ==> marked(
                self.marks,
                p,
            )
        &&& forall|i: int|
            0 <= i < self.stack.len() ==> self.before.in_bounds(cell(#[trigger] self.stack[i]))
                && marked(self.marks, cell(self.stack[i]))
    }

    /// Every cell where the move starts is listed, and so is every cell that
    /// may be revealed next to a revealed cell that spreads, but for the cell
    /// whose neighbours are being listed.
    pub open spec fn marks_closed(self) -> bool {
        &&& forall|s: Cell| #[trigger] self.before.starts(self.pos, s) ==> marked(self.marks, s)
        &&& forall|p: Cell, q: Cell|
            self.before.in_bounds(p) && newly(self.before, self.now, p) && self.before.spreads(p)
                && self.busy != Some(p) && #[trigger] adjacent(p, q) && self.before.openable(q)
                ==> marked(self.marks, q)
    }

    /// The game is lost exactly if it was lost before or a mine has been
    /// revealed since.
    pub open spec fn loss_tracked(self) -> bool {
        self.now.lost == (self.before.lost || exists|p: Cell|
            self.before.in_bounds(p) && #[trigger] newly(self.before, self.now, p)
                && self.before.at(p).is_mine)
    }

    /// What holds of a sweep at every step.
    pub open spec fn inv(self) -> bool {
        &&& self.before.wf()
        &&& !self.before.first_move
        &&& self.before.in_bounds(self.pos)
        &&& self.marks_fit()
        &&& self.only_reveals()
        &&& self.marks_sound()
        &&& self.marks_closed()
        &&& self.loss_tracked()
    }
}

/// A move reaches every cell where it starts.
pub proof fn lemma_opens_start(f: Field, pos: Cell, s: Cell)
    requires
        f.starts(pos, s),
        f.openable(s),
    ensures
        f.opens(pos, s),
{
    let t = seq![s];
    assert(f.trail(t));
    assert(t.first() == s && t.last() == s);
    assert(f.floods(s, s));
}

/// A move that reaches a cell which spreads reaches the cells next to it
/// that may be revealed.
pub proof fn lemma_opens_next(f: Field, pos: Cell, p: Cell, q: Cell)
    requires
        f.opens(pos, p),
        f.spreads(p),
        adjacent(p, q),
        f.openable(q),
    ensures
        f.opens(pos, q),
{
    let s = choose|s: Cell| #[trigger] f.starts(pos, s) && f.floods(s, p);
    let t = choose|t: Seq<Cell>| #[trigger] f.trail(t) && t.first() == s && t.last() == p;
    let u = t.push(q);
    assert forall|i: int| 0 <= i < u.len() implies f.openable(#[trigger] u[i]) by {
        if i < t.len() {
            assert(u[i] == t[i]);
        }
    }
    assert forall|i: int| 0 <= i < u.len() - 1 implies f.spreads(#[trigger] u[i]) && adjacent(
        u[i],
        u[i + 1],
    ) by {
        if i < t.len() - 1 {
            assert(u[i] == t[i]);
            assert(u[i + 1] == t[i + 1]);
            assert(f.spreads(t[i]) && adjacent(t[i], t[i + 1]));
        } else {
            assert(u[i] == p);
            assert(u[i + 1] == q);
        }
    }
    assert(f.trail(u));
    assert(u.first() == s && u.last() == q);
    assert(f.floods(s, q));
}

/// Every cell that a move reaches may be revealed.
pub proof fn lemma_opens_openable(f: Field, pos: Cell, p: Cell)
    requires
        f.opens(pos, p),
    ensures
        f.openable(p),
{
    let s = choose|s: Cell| #[trigger] f.starts(pos, s) && f.floods(s, p);
    let t = choose|t: Seq<Cell>| #[trigger] f.trail(t) && t.first() == s && t.last() == p;
    assert(f.openable(t[t.len() - 1]));
}

/// What revealing the cells that a move reaches does to each tile.
pub proof fn lemma_unearthed_tiles(f: Field, pos: Cell)
    requires
        f.shaped(),
    ensures
        f.unearthed(pos).shaped(),
        forall|p: Cell|
            f.in_bounds(p) ==> (#[trigger] f.unearthed(pos).at(p)) == if f.opens(pos, p) {
                Tile { is_mined: true, ..f.at(p) }
            } else {
                f.at(p)
            },
{
}

/// Revealing the cells that a move reaches keeps a board well formed.
pub proof fn lemma_unearthed_wf(f: Field, pos: Cell)
    requires
        f.wf(),
        !f.first_move,
    ensures
        f.unearthed(pos).wf(),
{
    let g = f.unearthed(pos);
    lemma_unearthed_tiles(f, pos);
    assert forall|p: Cell| g.in_bounds(p) implies (#[trigger] g.at(p)).wf() by {
        assert(f.at(p).wf());
        if f.opens(pos, p) {
            lemma_opens_openable(f, pos, p);
        }
    }
    assert(g.flag_total() == f.flag_total()) by {
        lemma_count_cells_same(
            |c: int, r: int| f.at((c, r)).is_flagged,
            |c: int, r: int| g.at((c, r)).is_flagged,
            f.cols,
            f.rows,
        );
    }
    assert(g.mine_total() == f.mine_total()) by {
        lemma_count_cells_same(
            |c: int, r: int| f.at((c, r)).is_mine,
            |c: int, r: int| g.at((c, r)).is_mine,
            f.cols,
            f.rows,
        );
    }
    assert(g.lost <==> exists|p: Cell| #[trigger] g.blown(p)) by {
        if f.lost {
            let p = choose|p: Cell| #[trigger] f.blown(p);
            assert(g.blown(p));
        }
        if f.hits_mine(pos) {
            let p = choose|p: Cell| #[trigger] f.opens(pos, p) && f.at(p).is_mine;
            lemma_opens_openable(f, pos, p);
            assert(g.blown(p));
        }
        if exists|p: Cell| #[trigger] g.blown(p) {
            let p = choose|p: Cell| #[trigger] g.blown(p);
            if f.opens(pos, p) {
                assert(f.hits_mine(pos));
            } else {
                assert(f.blown(p));
            }
        }
    }
}

/// A sweep starts from the cells where the move starts, all listed and all
/// waiting on the stack.
pub proof fn lemma_sweep_begin(w: Sweep)
    requires
        w.before.wf(),
        !w.before.first_move,
        w.before.in_bounds(w.pos),
        w.now == w.before,
        w.busy is None,
        w.marks_fit(),
        forall|p: Cell|
            w.before.in_bounds(p) && #[trigger] marked(w.marks, p) ==> w.before.opens(w.pos, p)
                && among(w.stack, p),
        forall|i: int|
            0 <= i < w.stack.len() ==> w.before.in_bounds(cell(#[trigger] w.stack[i])) && marked(
                w.marks,
                cell(w.stack[i]),
            ),
        forall|s: Cell| #[trigger] w.before.starts(w.pos, s) ==> marked(w.marks, s),
    ensures
        w.inv(),
{
    assert(!exists|p: Cell|
        w.before.in_bounds(p) && #[trigger] newly(w.before, w.now, p) && w.before.at(p).is_mine);
}

/// The field after the cell on top of the stack has been revealed.
pub open spec fn revealed_top(w: Sweep) -> Field {
    let c = cell(w.stack.last());
    Field {
        lost: w.now.lost || w.now.at(c).is_mine,
        ..w.now.with_tile(c, Tile { is_mined: true, ..w.now.at(c) })
    }
}

/// Revealing the cell on top of the stack is a step of the sweep, which then
/// has the neighbours of that cell to list.
pub proof fn lemma_sweep_reveal(w: Sweep)
    requires
        w.inv(),
        w.busy is None,
        w.stack.len() > 0,
    ensures
        (Sweep {
            now: revealed_top(w),
            stack: w.stack.drop_last(),
            busy: Some(cell(w.stack.last())),
            ..w
        }).inv(),
        w.before.opens(w.pos, cell(w.stack.last())),
        w.before.openable(cell(w.stack.last())),
{
    let c = cell(w.stack.last());
    let old_tile = w.now.at(c);
    let v = Sweep {
        now: revealed_top(w),
        stack: w.stack.drop_last(),
        busy: Some(c),
        ..w
    };
    assert(w.before.in_bounds(c) && marked(w.marks, c));
    lemma_opens_openable(w.before, w.pos, c);
    lemma_with_tile(w.now, c, Tile { is_mined: true, ..old_tile });
    assert(v.only_reveals()) by {
        assert forall|p: Cell| v.before.in_bounds(p) implies (#[trigger] v.now.at(p)) == (Tile {
            is_mined: v.now.at(p).is_mined,
            ..v.before.at(p)
        }) && (v.before.at(p).is_mined ==> v.now.at(p).is_mined) by {
            assert(w.now.at(p) == (Tile { is_mined: w.now.at(p).is_mined, ..w.before.at(p) }));
        }
    }
    assert(v.marks_sound()) by {
        assert forall|p: Cell| v.before.in_bounds(p) && #[trigger] marked(v.marks, p) implies (
        v.now.at(p).is_mined || among(v.stack, p)) by {
            if p != c && !w.now.at(p).is_mined {
                let i = choose|i: int| 0 <= i < w.stack.len() && cell(#[trigger] w.stack[i]) == p;
                assert(cell(v.stack[i]) == p);
            }
        }
        assert forall|p: Cell|
            v.before.in_bounds(p) && #[trigger] newly(v.before, v.now, p) implies marked(
            v.marks,
            p,
        ) by {
            if p != c {
                assert(newly(w.before, w.now, p));
            }
        }
        assert forall|i: int| 0 <= i < v.stack.len() implies v.before.in_bounds(
            cell(#[trigger] v.stack[i]),
        ) && marked(v.marks, cell(v.stack[i])) by {
            assert(v.stack[i] == w.stack[i]);
        }
    }
    assert(v.marks_closed()) by {
        assert forall|p: Cell, q: Cell|
            v.before.in_bounds(p) && newly(v.before, v.now, p) && v.before.spreads(p) && v.busy
                != Some(p) && #[trigger] adjacent(p, q) && v.before.openable(q) implies marked(
            v.marks,
            q,
        ) by {
            assert(newly(w.before, w.now, p));
        }
    }
    assert(v.loss_tracked()) by {
        let was = exists|p: Cell|
            w.before.in_bounds(p) && #[trigger] newly(w.before, w.now, p) && w.before.at(p).is_mine;
        let is = exists|p: Cell|
            v.before.in_bounds(p) && #[trigger] newly(v.before, v.now, p) && v.before.at(p).is_mine;
        assert(old_tile.is_mine == w.before.at(c).is_mine);
        if was {
            let p = choose|p: Cell|
                w.before.in_bounds(p) && #[trigger] newly(w.before, w.now, p) && w.before.at(
                    p,
                ).is_mine;
            assert(newly(v.before, v.now, p));
        }
        if old_tile.is_mine {
            assert(newly(v.before, v.now, c));
        }
        if is {
            let p = choose|p: Cell|
                v.before.in_bounds(p) && #[trigger] newly(v.before, v.now, p) && v.before.at(
                    p,
                ).is_mine;
            if p != c {
                assert(newly(w.before, w.now, p));
            }
        }
    }
}

/// The marks with the one at `q` set.
pub open spec fn with_mark(marks: Seq<Seq<bool>>, q: Cell) -> Seq<Seq<bool>> {
    marks.update(q.1, marks[q.1].update(q.0, true))
}

/// Listing a neighbour of the cell that was revealed last is a step of the
/// sweep.
pub proof fn lemma_sweep_mark(w: Sweep, q: (i32, i32))
    requires
        w.inv(),
        w.busy matches Some(c) && w.before.opens(w.pos, c) && w.before.spreads(c) && adjacent(
            c,
            cell(q),
        ),
        w.before.openable(cell(q)),
    ensures
        (Sweep { marks: with_mark(w.marks, cell(q)), stack: w.stack.push(q), ..w }).inv(),
        forall|p: Cell|
            w.before.in_bounds(p) ==> #[trigger] marked(with_mark(w.marks, cell(q)), p) == (p
                == cell(q) || marked(w.marks, p)),
{
    let c = w.busy->0;
    let v = Sweep { marks: with_mark(w.marks, cell(q)), stack: w.stack.push(q), ..w };
    lemma_opens_next(w.before, w.pos, c, cell(q));
    assert(w.marks[cell(q).1].len() == w.before.cols);
    assert forall|p: Cell| w.before.in_bounds(p) implies #[trigger] marked(v.marks, p) == (p
        == cell(q) || marked(w.marks, p)) by {
        assert(w.marks[p.1].len() == w.before.cols);
    }
    assert(v.marks_fit()) by {
        assert forall|r: int| 0 <= r < v.before.rows implies (#[trigger] v.marks[r]).len()
            == v.before.cols by {
            assert(w.marks[r].len() == w.before.cols);
        }
    }
    assert(v.marks_sound()) by {
        assert forall|p: Cell| v.before.in_bounds(p) && #[trigger] marked(v.marks, p) implies
            v.before.opens(v.pos, p) && (v.now.at(p).is_mined || among(v.stack, p)) by {
            if p == cell(q) {
                assert(cell(v.stack[w.stack.len() as int]) == p);
            } else {
                assert(marked(w.marks, p));
                if !w.now.at(p).is_mined {
                    let i = choose|i: int|
                        0 <= i < w.stack.len() && cell(#[trigger] w.stack[i]) == p;
                    assert(cell(v.stack[i]) == p);
                }
            }
        }
        assert forall|p: Cell|
            v.before.in_bounds(p) && #[trigger] newly(v.before, v.now, p) implies marked(
            v.marks,
            p,
        ) by {
            assert(marked(w.marks, p));
        }
        assert forall|i: int| 0 <= i < v.stack.len() implies v.before.in_bounds(
            cell(#[trigger] v.stack[i]),
        ) && marked(v.marks, cell(v.stack[i])) by {
            if i < w.stack.len() {
                assert(v.stack[i] == w.stack[i]);
                assert(marked(w.marks, cell(w.stack[i])));
            }
        }
    }
    assert(v.marks_closed()) by {
        assert forall|s: Cell| #[trigger] v.before.starts(v.pos, s) implies marked(v.marks, s) by {
            assert(marked(w.marks, s));
            assert(w.before.in_bounds(s));
        }
        assert forall|p: Cell, r: Cell|
            v.before.in_bounds(p) && newly(v.before, v.now, p) && v.before.spreads(p) && v.busy
                != Some(p) && #[trigger] adjacent(p, r) && v.before.openable(r) implies marked(
            v.marks,
            r,
        ) by {
            assert(marked(w.marks, r));
        }
    }
}

/// Once the neighbours of the cell that was revealed last are listed, or
/// where that cell does not spread, the sweep is ready for its next cell.
pub proof fn lemma_sweep_release(w: Sweep)
    requires
        w.inv(),
        w.busy is Some,
        w.before.spreads(w.busy->0) ==> forall|q: Cell| #[trigger]
            adjacent(w.busy->0, q) && w.before.openable(q) ==> marked(w.marks, q),
    ensures
        (Sweep { busy: None, ..w }).inv(),
{
    let v = Sweep { busy: None, ..w };
    let c = w.busy->0;
    assert(v.marks_closed()) by {
        assert forall|p: Cell, q: Cell|
            v.before.in_bounds(p) && newly(v.before, v.now, p) && v.before.spreads(p) && v.busy
                != Some(p) && #[trigger] adjacent(p, q) && v.before.openable(q) implies marked(
            v.marks,
            q,
        ) by {
            if p == c {
                assert(adjacent(c, q));
            } else {
                assert(w.busy != Some(p));
            }
        }
    }
}

/// When nothing waits on the stack, every cell along a way on which the
/// move spreads is listed.
pub proof fn lemma_trail_marked(w: Sweep, t: Seq<Cell>, i: int)
    requires
        w.inv(),
        w.busy is None,
        w.stack.len() == 0,
        w.before.trail(t),
        w.before.starts(w.pos, t.first()),
        0 <= i < t.len(),
    ensures
        marked(w.marks, t[i]),
    decreases i,
{
    if i > 0 {
        lemma_trail_marked(w, t, i - 1);
        let p = t[i - 1];
        assert(w.before.openable(p));
        assert(w.before.spreads(p) && adjacent(p, t[i - 1 + 1]));
        assert(w.before.openable(t[i]));
        assert(w.now.at(p).is_mined || among(w.stack, p));
        assert(newly(w.before, w.now, p));
    }
}

/// When nothing waits on the stack, the sweep has revealed the cells that
/// the move reaches and no others.
pub proof fn lemma_sweep_end(w: Sweep)
    requires
        w.inv(),
        w.busy is None,
        w.stack.len() == 0,
    ensures
        w.now == w.before.unearthed(w.pos),
        w.now.wf(),
{
    let f = w.before;
    let g = f.unearthed(w.pos);
    lemma_unearthed_tiles(f, w.pos);
    lemma_unearthed_wf(f, w.pos);
    assert forall|p: Cell| f.in_bounds(p) implies (marked(w.marks, p) <==> f.opens(w.pos, p)) by {
        if f.opens(w.pos, p) {
            let s = choose|s: Cell| #[trigger] f.starts(w.pos, s) && f.floods(s, p);
            let t = choose|t: Seq<Cell>| #[trigger] f.trail(t) && t.first() == s && t.last() == p;
            lemma_trail_marked(w, t, t.len() - 1);
        }
    }
    assert forall|p: Cell| f.in_bounds(p) implies w.now.at(p) == g.at(p) by {
        if f.opens(w.pos, p) {
            lemma_opens_openable(f, w.pos, p);
            assert(marked(w.marks, p));
            assert(w.now.at(p).is_mined || among(w.stack, p));
        } else {
            if newly(f, w.now, p) {
                assert(marked(w.marks, p));
            }
        }
    }
    lemma_same_tiles(w.now, g);
    assert(w.now.lost == g.lost) by {
        if f.hits_mine(w.pos) {
            let p = choose|p: Cell| #[trigger] f.opens(w.pos, p) && f.at(p).is_mine;
            lemma_opens_openable(f, w.pos, p);
            assert(marked(w.marks, p));
            assert(w.now.at(p).is_mined || among(w.stack, p));
            assert(newly(f, w.now, p));
        }
        if exists|p: Cell| f.in_bounds(p) && #[trigger] newly(f, w.now, p) && f.at(p).is_mine {
            let p = choose|p: Cell|
                f.in_bounds(p) && #[trigger] newly(f, w.now, p) && f.at(p).is_mine;
            assert(marked(w.marks, p));
            assert(f.opens(w.pos, p));
        }
    }
}

/// The number of cells that the sweep has listed.
pub open spec fn mark_total(marks: Seq<Seq<bool>>, cols: int, rows: int) -> nat {
    count_cells(|c: int, r: int| marked(marks, (c, r)), cols, rows)
}

/// Listing a cell that was not listed yet makes the list one longer, and the
/// list is never longer than the grid is large.
pub proof fn lemma_mark_total(marks: Seq<Seq<bool>>, q: Cell, cols: int, rows: int)
    requires
        marks.len() == rows,
        forall|r: int| 0 <= r < rows ==> (#[trigger] marks[r]).len() == cols,
        0 <= q.0 < cols,
        0 <= q.1 < rows,
        !marked(marks, q),
    ensures
        mark_total(with_mark(marks, q), cols, rows) == mark_total(marks, cols, rows) + 1,
        mark_total(with_mark(marks, q), cols, rows) <= cols * rows,
{
    let after = with_mark(marks, q);
    let was = |c: int, r: int| marked(marks, (c, r));
    let is = |c: int, r: int| marked(after, (c, r));
    assert(marks[q.1].len() == cols);
    assert forall|c: int, r: int| 0 <= c < cols && 0 <= r < rows && (c, r) != q implies #[trigger] was(
        c,
        r,
    ) == is(c, r) by {
        assert(marks[r].len() == cols);
    }
    lemma_count_cells_gain(was, is, cols, rows, q);
    lemma_count_cells_bound(is, cols, rows);
}

/// A move that starts nowhere leaves the field as it is.
pub proof fn lemma_nothing_opens(f: Field, pos: Cell)
    requires
        f.shaped(),
        forall|s: Cell| !#[trigger] f.starts(pos, s),
    ensures
        f.unearthed(pos) == f,
{
    lemma_unearthed_tiles(f, pos);
    lemma_same_tiles(f.unearthed(pos), f);
}

} // verus!
