//! What the rules of the game imply, proved over the model of the board.

use vstd::prelude::*;

use crate::game::field::{adjacent, in_zone, tally, Cell, Field};
use crate::game::flood::{
    lemma_nothing_opens, lemma_opens_next, lemma_opens_openable, lemma_opens_start,
    lemma_unearthed_tiles, lemma_unearthed_wf,
};
use crate::game::proofs::{
    lemma_neighbours, lemma_tally_bound, lemma_toggled, lemma_with_counts,
    lemma_with_counts_tiles, lemma_with_tile,
};
use crate::game::tile::Tile;
use crate::game::{Size, Stage};

verus! {

/// Where nothing is counted, no cell of the sequence satisfies the predicate.
proof fn lemma_tally_none(s: Seq<Cell>, f: spec_fn(Cell) -> bool)
    requires
        tally(s, f) == 0,
    ensures
        forall|i: int| 0 <= i < s.len() ==> !f(#[trigger] s[i]),
    decreases s.len(),
{
    if s.len() > 0 {
        lemma_tally_none(s.drop_last(), f);
        assert forall|i: int| 0 <= i < s.len() implies !f(#[trigger] s[i]) by {
            if i < s.len() - 1 {
                assert(s.drop_last()[i] == s[i]);
            }
        }
    }
}

/// A game starts in play: a new board, of whatever size, is neither won nor
/// lost, and has all its flags in hand.
pub proof fn new_game_is_playing(size: Option<Size>, cols: int, rows: int, mines: int)
    requires
        1 <= cols,
        1 <= rows,
    ensures
        Field::fresh(size, cols, rows, mines).stage() == Stage::Playing,
        Field::fresh(size, cols, rows, mines).flags == mines,
{
    let f = Field::fresh(size, cols, rows, mines);
    assert(f.in_bounds((0, 0)) && !f.at((0, 0)).is_mined && !f.at((0, 0)).is_mine);
}

/// A well-formed board has between none and all of its flags in hand.
pub proof fn flags_stay_in_budget(f: Field)
    requires
        f.wf(),
    ensures
        0 <= f.flags <= f.mines,
{
}

/// Once its mines are laid, a board holds exactly as many mines as it is
/// played with, and every move and every toggled flag keeps it so.
pub proof fn mine_count_is_kept(f: Field, pos: Cell)
    requires
        f.wf(),
        !f.first_move,
        f.in_bounds(pos),
    ensures
        f.mine_total() == f.mines,
        f.dug(pos).mine_total() == f.mines,
        f.toggled(pos).mine_total() == f.mines,
        f.with_counts().mine_total() == f.mines,
{
    lemma_unearthed_wf(f, pos);
    lemma_toggled(f, pos);
    lemma_with_counts(f);
}

/// A reveal goes no further than the border of the region it spreads over:
/// every cell that a move reveals is one where the move starts, or touches a
/// revealed cell that has no mines around it.
pub proof fn spread_stops_at_border(f: Field, pos: Cell, p: Cell)
    requires
        f.opens(pos, p),
    ensures
        f.starts(pos, p) || exists|d: Cell|
            f.opens(pos, d) && f.spreads(d) && #[trigger] adjacent(d, p),
{
    let s = choose|s: Cell| #[trigger] f.starts(pos, s) && f.floods(s, p);
    let t = choose|t: Seq<Cell>| #[trigger] f.trail(t) && t.first() == s && t.last() == p;
    if t.len() > 1 {
        let u = t.drop_last();
        let d = u.last();
        assert forall|i: int| 0 <= i < u.len() implies f.openable(#[trigger] u[i]) by {
            assert(u[i] == t[i]);
        }
        assert forall|i: int| 0 <= i < u.len() - 1 implies f.spreads(#[trigger] u[i]) && adjacent(
            u[i],
            u[i + 1],
        ) by {
            assert(u[i] == t[i]);
            assert(u[i + 1] == t[i + 1]);
            assert(f.spreads(t[i]) && adjacent(t[i], t[i + 1]));
        }
        assert(f.trail(u));
        assert(u.first() == s);
        assert(f.floods(s, d));
        assert(f.opens(pos, d));
        assert(d == t[t.len() - 2]);
        assert(f.spreads(t[t.len() - 2]) && adjacent(t[t.len() - 2], t[t.len() - 2 + 1]));
        assert(adjacent(d, p));
    }
}

/// A reveal covers the whole region it spreads over and its border: a
/// hidden, unflagged cell that touches a revealed cell without mines around
/// it is revealed too.
pub proof fn spread_reaches_border(f: Field, pos: Cell, d: Cell, p: Cell)
    requires
        f.opens(pos, d),
        f.spreads(d),
        adjacent(d, p),
        f.openable(p),
    ensures
        f.opens(pos, p),
{
    lemma_opens_next(f, pos, d, p);
}

/// On a board whose counts are written, a reveal never spreads onto a mine:
/// a mine is revealed only where the move starts.
pub proof fn spread_never_hits_mine(f: Field, pos: Cell, p: Cell)
    requires
        f.shaped(),
        f.counted(),
        f.opens(pos, p),
        !f.starts(pos, p),
    ensures
        !f.at(p).is_mine,
{
    spread_stops_at_border(f, pos, p);
    let d = choose|d: Cell| f.opens(pos, d) && f.spreads(d) && #[trigger] adjacent(d, p);
    lemma_opens_openable(f, pos, p);
    lemma_neighbours(f, d);
    let around = f.neighbours(d);
    let is_mine = |q: Cell| f.at(q).is_mine;
    lemma_tally_bound(around, is_mine);
    assert(f.at(d).value == Some(f.mines_around(d) as u8));
    assert(f.mines_around(d) == 0);
    lemma_tally_none(around, is_mine);
    assert(around.contains(p));
    let i = choose|i: int| 0 <= i < around.len() && around[i] == p;
    assert(!is_mine(around[i]));
}

/// A move on a hidden, unflagged cell reveals that cell, and loses the game
/// if the cell holds a mine.
pub proof fn move_reveals_cell(f: Field, pos: Cell)
    requires
        f.wf(),
        f.stage() == Stage::Playing,
        f.openable(pos),
    ensures
        f.dug(pos).at(pos).is_mined,
        f.at(pos).is_mine ==> f.dug(pos).stage() == Stage::Lose,
{
    lemma_unearthed_tiles(f, pos);
    lemma_opens_start(f, pos, pos);
}

/// A move on a flagged cell changes nothing.
pub proof fn flagged_cell_is_protected(f: Field, pos: Cell)
    requires
        f.shaped(),
        f.at(pos).is_flagged,
    ensures
        f.dug(pos) == f,
{
    lemma_nothing_opens(f, pos);
}

/// A move on a revealed cell with as many flags around it as its count says
/// reveals every hidden, unflagged cell around it.
pub proof fn chord_reveals_neighbours(f: Field, pos: Cell, q: Cell)
    requires
        f.wf(),
        f.stage() == Stage::Playing,
        f.satisfied(pos),
        !f.at(pos).is_flagged,
        adjacent(pos, q),
        f.openable(q),
    ensures
        f.dug(pos).at(q).is_mined,
{
    lemma_unearthed_tiles(f, pos);
    lemma_opens_start(f, pos, q);
}

/// A move on a revealed cell whose count differs from the number of flags
/// around it changes nothing.
pub proof fn unmatched_chord_is_idle(f: Field, pos: Cell)
    requires
        f.shaped(),
        f.at(pos).is_mined,
        !f.satisfied(pos),
    ensures
        f.dug(pos) == f,
{
    lemma_nothing_opens(f, pos);
}

/// A move reveals cells and does nothing else: no revealed cell is hidden
/// again, no flag and no mine moves, and no count changes.
pub proof fn move_only_reveals(f: Field, pos: Cell, p: Cell)
    requires
        f.shaped(),
        f.in_bounds(p),
    ensures
        f.dug(pos).at(p) == (Tile {
            is_mined: f.dug(pos).at(p).is_mined,
            ..f.at(p)
        }),
        f.at(p).is_mined ==> f.dug(pos).at(p).is_mined,
        f.dug(pos).flags == f.flags,
{
    lemma_unearthed_tiles(f, pos);
}

/// A flag can be put on a hidden cell while a flag is left in hand, which
/// then is one fewer; with none left the cell stays as it is; and a flag on
/// the grid can always be taken back, which returns it to the hand.
pub proof fn flag_budget(f: Field, pos: Cell)
    requires
        f.wf(),
        f.in_bounds(pos),
    ensures
        f.at(pos).is_mined ==> f.toggled(pos) == f,
        !f.at(pos).is_mined && !f.at(pos).is_flagged && f.flags > 0 ==> f.toggled(pos).at(
            pos,
        ).is_flagged && f.toggled(pos).flags == f.flags - 1,
        !f.at(pos).is_mined && !f.at(pos).is_flagged && f.flags == 0 ==> f.toggled(pos) == f,
        f.at(pos).is_flagged ==> !f.toggled(pos).at(pos).is_flagged && f.toggled(pos).flags
            == f.flags + 1 && f.toggled(pos).flags <= f.mines,
{
    lemma_toggled(f, pos);
    let t = f.at(pos);
    assert(t.wf());
    lemma_with_tile(f, pos, Tile { is_flagged: !t.is_flagged, ..t });
}

/// Putting a flag on a cell and taking it back leaves the board as it was.
pub proof fn flag_and_unflag(f: Field, pos: Cell)
    requires
        f.wf(),
        f.in_bounds(pos),
        !f.at(pos).is_flagged,
    ensures
        f.toggled(pos).toggled(pos) == f,
{
    let t = f.at(pos);
    assert(t.wf());
    if !(t.is_mined || f.flags == 0) {
        let u = Tile { is_flagged: true, ..t };
        lemma_with_tile(f, pos, u);
        let g = f.toggled(pos);
        lemma_with_tile(g, pos, t);
        assert(f.tiles[pos.1].len() == f.cols);
        assert(g.toggled(pos).tiles =~~= f.tiles);
    }
}

/// Toggling a flag never changes where the game stands.
pub proof fn flag_keeps_stage(f: Field, pos: Cell)
    requires
        f.shaped(),
        f.in_bounds(pos),
    ensures
        f.toggled(pos).stage() == f.stage(),
{
    let g = f.toggled(pos);
    let t = f.at(pos);
    if g != f {
        lemma_with_tile(f, pos, Tile { is_flagged: !t.is_flagged, ..t });
        if f.cleared() {
            assert forall|p: Cell| g.in_bounds(p) implies (#[trigger] g.at(p)).is_mined || g.at(
                p,
            ).is_mine by {
                assert(f.at(p).is_mined || f.at(p).is_mine);
            }
        }
        if g.cleared() {
            assert forall|p: Cell| f.in_bounds(p) implies (#[trigger] f.at(p)).is_mined || f.at(
                p,
            ).is_mine by {
                assert(g.at(p).is_mined || g.at(p).is_mine);
            }
        }
    }
}

/// A game that is won or lost stays so: no move and no flag changes where it
/// stands, and a move changes nothing at all.
pub proof fn game_over_is_final(f: Field, pos: Cell)
    requires
        f.shaped(),
        f.in_bounds(pos),
        f.stage() != Stage::Playing,
    ensures
        f.dug(pos) == f,
        f.toggled(pos).stage() == f.stage(),
{
    flag_keeps_stage(f, pos);
}

/// A game is lost exactly when a mine lies revealed, and won exactly when it
/// is not lost and every safe cell is revealed, whatever has become of the
/// mines and the flags.
pub proof fn stage_by_cells(f: Field)
    requires
        f.wf(),
    ensures
        f.stage() == Stage::Lose <==> exists|p: Cell| #[trigger] f.blown(p),
        f.stage() == Stage::Win <==> !f.lost && forall|p: Cell|
            f.in_bounds(p) && !(#[trigger] f.at(p)).is_mine ==> f.at(p).is_mined,
{
    if f.cleared() {
        assert forall|p: Cell| f.in_bounds(p) && !(#[trigger] f.at(p)).is_mine implies f.at(
            p,
        ).is_mined by {}
    }
    if forall|p: Cell| f.in_bounds(p) && !(#[trigger] f.at(p)).is_mine ==> f.at(p).is_mined {
        assert(f.cleared());
    }
}

/// The first move of a game is safe: whatever way the mines fall, it loses
/// nothing, and it reveals the cell it is made on unless that cell is
/// flagged.
pub proof fn first_move_is_safe(f: Field, pos: Cell, next: Field)
    requires
        f.wf(),
        f.first_move,
        f.in_bounds(pos),
        f.opened_into(pos, next),
    ensures
        !next.lost,
        !next.at(pos).is_mine,
        !f.at(pos).is_flagged ==> next.at(pos).is_mined,
{
    let mid = choose|mid: Field| #[trigger] f.dealt(pos, mid) && next == mid.with_counts().dug(pos);
    let g = mid.with_counts();
    lemma_with_counts(mid);
    lemma_with_counts_tiles(mid);
    assert(in_zone(pos, pos));
    assert(!mid.at(pos).is_mine);
    assert(g.at(pos) == mid.recounted(pos));
    assert(!f.at(pos).is_mined);
    assert(!g.lost);
    assert(!g.cleared()) by {
        assert(!g.at(pos).is_mined && !g.at(pos).is_mine);
    }
    assert(g.stage() == Stage::Playing);
    lemma_unearthed_tiles(g, pos);
    if g.hits_mine(pos) {
        let p = choose|p: Cell| #[trigger] g.opens(pos, p) && g.at(p).is_mine;
        if g.starts(pos, p) {
            assert(p == pos);
        } else {
            spread_never_hits_mine(g, pos, p);
        }
    }
    if !f.at(pos).is_flagged {
        assert(g.openable(pos));
        lemma_opens_start(g, pos, pos);
    }
}

} // verus!
