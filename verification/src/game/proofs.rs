//! Facts about the model that the moves of the game rest on.

use vstd::prelude::*;

use crate::game::count::{lemma_count_cells_gain, lemma_count_cells_same};
use crate::game::field::{adjacent, tally, Cell, Field};
use crate::game::tile::Tile;

verus! {

/// The neighbours of a cell are the cells on the grid that touch it, and
/// there are at most eight of them.
pub proof fn lemma_neighbours(f: Field, p: Cell)
    ensures
        f.neighbours(p).len() <= 8,
        forall|q: Cell| #[trigger]
            f.neighbours(p).contains(q) <==> f.in_bounds(q) && adjacent(p, q),
{
    broadcast use vstd::seq_lib::lemma_seq_concat_contains_all_elements;
    broadcast use vstd::seq_lib::lemma_seq_empty_contains_nothing;

    assert forall|q: Cell| #[trigger] f.on_grid(q).contains(q) == f.in_bounds(q) by {
        if f.in_bounds(q) {
            assert(f.on_grid(q)[0] == q);
        }
    }
    assert forall|q: Cell, d: Cell| q != d implies !#[trigger] f.on_grid(d).contains(q) by {}
    assert forall|q: Cell| #[trigger]
        f.neighbours(p).contains(q) <==> f.in_bounds(q) && adjacent(p, q) by {
        let n0 = f.on_grid((p.0 - 1, p.1 - 1));
        let n1 = f.on_grid((p.0 - 1, p.1));
        let n2 = f.on_grid((p.0 - 1, p.1 + 1));
        let n3 = f.on_grid((p.0 + 1, p.1 - 1));
        let n4 = f.on_grid((p.0 + 1, p.1));
        let n5 = f.on_grid((p.0 + 1, p.1 + 1));
        let n6 = f.on_grid((p.0, p.1 - 1));
        let n7 = f.on_grid((p.0, p.1 + 1));
        assert(f.neighbours(p) == n0 + n1 + n2 + n3 + n4 + n5 + n6 + n7);
        if f.in_bounds(q) && adjacent(p, q) {
            assert(n0.contains(q) || n1.contains(q) || n2.contains(q) || n3.contains(q)
                || n4.contains(q) || n5.contains(q) || n6.contains(q) || n7.contains(q));
        }
    }
}

/// Counting over a sequence with one more cell at its end.
pub proof fn lemma_tally_push(s: Seq<Cell>, q: Cell, f: spec_fn(Cell) -> bool)
    ensures
        tally(s.push(q), f) == tally(s, f) + if f(q) {
            1nat
        } else {
            0nat
        },
{
    assert(s.push(q).drop_last() =~= s);
}

/// Counting over the first `i + 1` cells of a sequence.
pub proof fn lemma_tally_step(s: Seq<Cell>, i: int, f: spec_fn(Cell) -> bool)
    requires
        0 <= i < s.len(),
    ensures
        tally(s.take(i + 1), f) == tally(s.take(i), f) + if f(s[i]) {
            1nat
        } else {
            0nat
        },
{
    assert(s.take(i + 1) =~= s.take(i).push(s[i]));
    lemma_tally_push(s.take(i), s[i], f);
}

/// No more cells are counted than the sequence holds.
pub proof fn lemma_tally_bound(s: Seq<Cell>, f: spec_fn(Cell) -> bool)
    ensures
        tally(s, f) <= s.len(),
    decreases s.len(),
{
    if s.len() > 0 {
        lemma_tally_bound(s.drop_last(), f);
    }
}

/// Predicates that agree on the cells of a sequence count the same number.
pub proof fn lemma_tally_same(s: Seq<Cell>, f: spec_fn(Cell) -> bool, g: spec_fn(Cell) -> bool)
    requires
        forall|i: int| 0 <= i < s.len() ==> f(#[trigger] s[i]) == g(s[i]),
    ensures
        tally(s, f) == tally(s, g),
    decreases s.len(),
{
    if s.len() > 0 {
        lemma_tally_same(s.drop_last(), f, g);
    }
}

/// Grids of one shape that hold the same tile at every cell are the same grid.
pub proof fn lemma_same_tiles(f: Field, g: Field)
    requires
        f.shaped(),
        g.shaped(),
        f.cols == g.cols,
        f.rows == g.rows,
        forall|p: Cell| f.in_bounds(p) ==> f.at(p) == g.at(p),
    ensures
        f.tiles == g.tiles,
{
    assert forall|r: int| 0 <= r < f.rows implies f.tiles[r] == g.tiles[r] by {
        assert forall|c: int| 0 <= c < f.cols implies f.tiles[r][c] == g.tiles[r][c] by {
            assert(f.at((c, r)) == g.at((c, r)));
        }
        assert(f.tiles[r] =~= g.tiles[r]);
    }
    assert(f.tiles =~= g.tiles);
}

/// Replacing one tile keeps the shape of the grid and every other tile.
pub proof fn lemma_with_tile(f: Field, p: Cell, t: Tile)
    requires
        f.shaped(),
        f.in_bounds(p),
    ensures
        f.with_tile(p, t).shaped(),
        f.with_tile(p, t).at(p) == t,
        forall|q: Cell| f.in_bounds(q) && q != p ==> #[trigger] f.with_tile(p, t).at(q) == f.at(q),
{
    let g = f.with_tile(p, t);
    assert(f.tiles[p.1].len() == f.cols);
    assert forall|r: int| 0 <= r < g.rows implies (#[trigger] g.tiles[r]).len() == g.cols by {
        assert(f.tiles[r].len() == f.cols);
    }
    assert forall|q: Cell| f.in_bounds(q) && q != p implies #[trigger] g.at(q) == f.at(q) by {
        assert(f.tiles[q.1].len() == f.cols);
    }
}

/// Fields that agree on where the mines and the flags are hold as many of
/// each.
pub proof fn lemma_totals_same(f: Field, g: Field)
    requires
        f.cols == g.cols,
        f.rows == g.rows,
        forall|p: Cell|
            f.in_bounds(p) ==> (#[trigger] g.at(p)).is_mine == f.at(p).is_mine && g.at(
                p,
            ).is_flagged == f.at(p).is_flagged,
    ensures
        g.mine_total() == f.mine_total(),
        g.flag_total() == f.flag_total(),
{
    assert forall|c: int, r: int| 0 <= c < f.cols && 0 <= r < f.rows implies (g.at(
        (c, r),
    ).is_mine == f.at((c, r)).is_mine && g.at((c, r)).is_flagged == f.at((c, r)).is_flagged) by {
        assert(f.in_bounds((c, r)));
    }
    lemma_count_cells_same(
        |c: int, r: int| f.at((c, r)).is_flagged,
        |c: int, r: int| g.at((c, r)).is_flagged,
        f.cols,
        f.rows,
    );
    lemma_count_cells_same(
        |c: int, r: int| f.at((c, r)).is_mine,
        |c: int, r: int| g.at((c, r)).is_mine,
        f.cols,
        f.rows,
    );
}

/// What writing the mine counts into the safe cells does to each tile.
pub proof fn lemma_with_counts_tiles(f: Field)
    requires
        f.shaped(),
    ensures
        f.with_counts().shaped(),
        forall|p: Cell| f.in_bounds(p) ==> (#[trigger] f.with_counts().at(p)) == f.recounted(p),
{
}

/// Fields that agree on where the mines are agree on the mines around a cell.
pub proof fn lemma_mines_around_same(f: Field, g: Field, p: Cell)
    requires
        f.cols == g.cols,
        f.rows == g.rows,
        forall|q: Cell| f.in_bounds(q) ==> f.at(q).is_mine == g.at(q).is_mine,
    ensures
        f.mines_around(p) == g.mines_around(p),
        f.mines_around(p) <= 8,
{
    lemma_neighbours(f, p);
    assert(f.neighbours(p) == g.neighbours(p));
    let s = f.neighbours(p);
    assert forall|i: int| 0 <= i < s.len() implies f.at(#[trigger] s[i]).is_mine == g.at(
        s[i],
    ).is_mine by {
        assert(s.contains(s[i]));
    }
    lemma_tally_same(s, |q: Cell| f.at(q).is_mine, |q: Cell| g.at(q).is_mine);
    lemma_tally_bound(s, |q: Cell| f.at(q).is_mine);
}

/// A field in which some safe cells have their counts written already
/// gives a cell the same count as the field from which it was made.
pub proof fn lemma_recounted_same(now: Field, f: Field, p: Cell)
    requires
        f.shaped(),
        now.cols == f.cols,
        now.rows == f.rows,
        f.in_bounds(p),
        now.at(p) == f.at(p),
        forall|q: Cell|
            f.in_bounds(q) ==> (#[trigger] now.at(q)) == f.at(q) || now.at(q) == f.recounted(q),
    ensures
        now.recounted(p) == f.recounted(p),
{
    assert forall|q: Cell| now.in_bounds(q) implies now.at(q).is_mine == f.at(q).is_mine by {
        assert(now.at(q) == f.at(q) || now.at(q) == f.recounted(q));
    }
    lemma_mines_around_same(now, f, p);
}

/// A field that differs from a sound one only in the counts of its safe
/// cells is sound, and well formed if the other is.
pub proof fn lemma_recounted(f: Field, g: Field)
    requires
        f.sound(),
        g.shaped(),
        g == (Field { tiles: g.tiles, ..f }),
        forall|p: Cell|
            f.in_bounds(p) ==> (#[trigger] g.at(p)) == if f.at(p).is_mine {
                f.at(p)
            } else {
                Tile { value: g.at(p).value, ..f.at(p) }
            } && (g.at(p).is_mine || g.at(p).value is Some),
    ensures
        g.sound(),
        f.wf() ==> g.wf(),
{
    assert forall|p: Cell| g.in_bounds(p) implies (#[trigger] g.at(p)).wf() by {
        assert(f.at(p).wf());
    }
    assert(g.flag_total() == f.flag_total()) by {
        lemma_count_cells_same(
            |c: int, r: int| f.at((c, r)).is_flagged,
            |c: int, r: int| g.at((c, r)).is_flagged,
            f.cols,
            f.rows,
        );
    }
    assert(g.mine_total() == f.mine_total()) by {
        lemma_count_cells_same(
            |c: int, r: int| f.at((c, r)).is_mine,
            |c: int, r: int| g.at((c, r)).is_mine,
            f.cols,
            f.rows,
        );
    }
    assert(g.lost <==> exists|p: Cell| #[trigger] g.blown(p)) by {
        if f.lost {
            let p = choose|p: Cell| #[trigger] f.blown(p);
            assert(g.blown(p));
        }
        if exists|p: Cell| #[trigger] g.blown(p) {
            let p = choose|p: Cell| #[trigger] g.blown(p);
            assert(f.blown(p));
        }
    }
    if f.wf() && f.first_move {
        assert forall|p: Cell| g.in_bounds(p) implies !(#[trigger] g.at(p)).is_mine by {
            assert(!f.at(p).is_mine);
        }
        assert forall|p: Cell| g.in_bounds(p) implies !(#[trigger] g.at(p)).is_mined by {
            assert(!f.at(p).is_mined);
        }
    }
}

/// Writing the mine counts into the safe cells leaves every safe cell with
/// the number of mines around it and keeps a board well formed.
pub proof fn lemma_with_counts(f: Field)
    requires
        f.sound(),
    ensures
        f.with_counts().counted(),
        f.with_counts().sound(),
        f.wf() ==> f.with_counts().wf(),
{
    let g = f.with_counts();
    lemma_with_counts_tiles(f);
    assert forall|p: Cell| g.in_bounds(p) && !(#[trigger] g.at(p)).is_mine implies g.at(p).value
        == Some(g.mines_around(p) as u8) by {
        lemma_mines_around_same(f, g, p);
    }
    lemma_recounted(f, g);
}

/// Toggling a flag keeps a board well formed.
pub proof fn lemma_toggled(f: Field, pos: Cell)
    requires
        f.wf(),
        f.in_bounds(pos),
    ensures
        f.toggled(pos).wf(),
{
    let g = f.toggled(pos);
    let t = f.at(pos);
    if !(t.is_mined || (!t.is_flagged && f.flags == 0)) {
        lemma_with_tile(f, pos, Tile { is_flagged: !t.is_flagged, ..t });
        assert forall|p: Cell| g.in_bounds(p) implies (#[trigger] g.at(p)).wf() by {
            assert(f.at(p).wf());
        }
        let was = |c: int, r: int| f.at((c, r)).is_flagged;
        let is = |c: int, r: int| g.at((c, r)).is_flagged;
        if t.is_flagged {
            lemma_count_cells_gain(is, was, f.cols, f.rows, pos);
        } else {
            lemma_count_cells_gain(was, is, f.cols, f.rows, pos);
        }
        assert(g.mine_total() == f.mine_total()) by {
            lemma_count_cells_same(
                |c: int, r: int| f.at((c, r)).is_mine,
                |c: int, r: int| g.at((c, r)).is_mine,
                f.cols,
                f.rows,
            );
        }
        assert(g.lost <==> exists|p: Cell| #[trigger] g.blown(p)) by {
            if f.lost {
                let p = choose|p: Cell| #[trigger] f.blown(p);
                assert(g.blown(p));
            }
            if exists|p: Cell| #[trigger] g.blown(p) {
                let p = choose|p: Cell| #[trigger] g.blown(p);
                assert(f.blown(p));
            }
        }
        if f.first_move {
            assert forall|p: Cell| g.in_bounds(p) implies !(#[trigger] g.at(p)).is_mine by {
                assert(!f.at(p).is_mine);
            }
            assert forall|p: Cell| g.in_bounds(p) implies !(#[trigger] g.at(p)).is_mined by {
                assert(!f.at(p).is_mined);
            }
        }
    }
}

} // verus!
