//! Laws of the game, proved of the model of the board.
//!
//! The executable operations are specified by [`BoardView::with_ship`],
//! [`BoardView::fired`] and [`BoardView::all_sunk`]; what is proved here of
//! those holds of every board that the operations produce.

use vstd::prelude::*;
use crate::board::{lemma_fired_wf, lemma_with_ship_wf, BoardView, CellState};
use crate::placement::{fleet_sizes, placed, placed_all};
use crate::position::{segment, segment_cell, segment_fits, Orientation, Position};

verus! {

impl BoardView {
    /// The cells of the board that belong to a ship, hit or not.
    pub open spec fn occupied(self) -> Set<Position> {
        Set::new(|p: Position| p.in_bounds() && self.cell(p).is_occupied())
    }

    /// The board after the shots of `shots`, first to last.
    pub open spec fn after_shots(self, shots: Seq<Position>) -> BoardView
        decreases shots.len(),
    {
        if shots.len() == 0 {
            self
        } else {
            self.after_shots(shots.drop_last()).fired(shots.last())
        }
    }
}

/// Every position of `shots` lies on the board.
pub open spec fn all_in_bounds(shots: Seq<Position>) -> bool {
    forall|i: int| 0 <= i < shots.len() ==> (#[trigger] shots[i]).in_bounds()
}

/// The sum of the numbers of `sizes`.
pub open spec fn total(sizes: Seq<nat>) -> nat
    decreases sizes.len(),
{
    if sizes.len() == 0 {
        0
    } else {
        total(sizes.drop_last()) + sizes.last()
    }
}

/// `cells` lie on the board and each one after the first is the next cell
/// along `orientation` from the one before it.
pub open spec fn straight_run(cells: Seq<Position>, orientation: Orientation) -> bool {
    &&& forall|i: int| 0 <= i < cells.len() ==> (#[trigger] cells[i]).in_bounds()
    &&& forall|i: int|
        0 <= i < cells.len() - 1 ==> (#[trigger] cells[i + 1]) == segment_cell(
            cells[i],
            orientation,
            1,
        )
}

/// The cells recorded on `s` from index `from` on, `size` of them.
pub open spec fn ship_cells(s: BoardView, from: int, size: int) -> Seq<Position> {
    s.ships.subrange(from, from + size)
}

/// On a board that keeps its invariant, the number of cells in state `Ship`
/// or `Hit` is the number of recorded ship cells.
pub proof fn lemma_occupied_count(s: BoardView)
    requires
        s.wf(),
    ensures
        s.occupied().finite(),
        s.occupied().len() == s.ships.len(),
{
    assert(s.occupied() =~= s.ships.to_set()) by {
        assert forall|p: Position| s.ships.to_set().contains(p) implies s.occupied().contains(
            p,
        ) by {
            let i = choose|i: int| 0 <= i < s.ships.len() && s.ships[i] == p;
            assert(s.ships[i].in_bounds());
        }
    }
    vstd::seq_lib::seq_to_set_is_finite(s.ships);
    s.ships.unique_seq_to_set();
}

/// Shots change neither the invariant of the board, nor the recorded ship
/// cells, nor which cells belong to a ship.
pub proof fn lemma_after_shots(s: BoardView, shots: Seq<Position>)
    requires
        s.wf(),
        all_in_bounds(shots),
    ensures
        s.after_shots(shots).wf(),
        s.after_shots(shots).ships == s.ships,
        s.after_shots(shots).visibility == s.visibility,
        s.after_shots(shots).occupied() == s.occupied(),
    decreases shots.len(),
{
    if shots.len() > 0 {
        let before = s.after_shots(shots.drop_last());
        lemma_after_shots(s, shots.drop_last());
        lemma_fired_wf(before, shots.last());
        assert(before.fired(shots.last()).occupied() =~= before.occupied()) by {
            assert forall|q: Position| q.in_bounds() implies before.fired(shots.last()).cell(
                q,
            ).is_occupied() == before.cell(q).is_occupied() by {}
        }
    }
}

/// Ships placed one after the other keep the invariant of the board, and
/// the board records as many more ship cells as the ships have together.
pub proof fn lemma_placed_all(pre: BoardView, post: BoardView, sizes: Seq<nat>)
    requires
        pre.wf(),
        placed_all(pre, post, sizes),
    ensures
        post.wf(),
        post.ships.len() == pre.ships.len() + total(sizes),
        post.visibility == pre.visibility,
    decreases sizes.len(),
{
    if sizes.len() > 0 {
        let mid = choose|mid: BoardView|
            placed_all(pre, mid, sizes.drop_last()) && #[trigger] placed(mid, post, sizes.last());
        lemma_placed_all(pre, mid, sizes.drop_last());
        let (anchor, orientation) = choose|anchor: Position, orientation: Orientation|
            anchor.in_bounds() && mid.can_place(anchor, sizes.last(), orientation) && post
                == #[trigger] mid.with_ship(anchor, sizes.last(), orientation);
        lemma_with_ship_wf(mid, anchor, sizes.last(), orientation);
    }
}

/// The fleet has fourteen cells.
pub proof fn lemma_fleet_total()
    ensures
        total(fleet_sizes()) == 14,
{
    let f = fleet_sizes();
    assert(f.drop_last() =~= seq![2nat, 3, 4]);
    assert(f.drop_last().drop_last() =~= seq![2nat, 3]);
    assert(f.drop_last().drop_last().drop_last() =~= seq![2nat]);
    assert(f.drop_last().drop_last().drop_last().drop_last() =~= Seq::<nat>::empty());
    reveal_with_fuel(total, 5);
}

/// No overlap: once the four ships of a fleet have been placed on a fresh
/// board, any two distinct recorded ship cells are different positions.
pub proof fn lemma_fleet_no_overlap(visibility: crate::board::BoardVisibility, s: BoardView)
    requires
        placed_all(BoardView::empty(visibility), s, fleet_sizes()),
    ensures
        forall|i: int, j: int|
            0 <= i < s.ships.len() && 0 <= j < s.ships.len() && i != j ==> s.ships[i] != s.ships[j],
{
    lemma_placed_all(BoardView::empty(visibility), s, fleet_sizes());
}

/// Full coverage: once the four ships of a fleet have been placed on a
/// fresh board, fourteen cells are in state `Ship` or `Hit`, and so it stays
/// whatever shots follow.
pub proof fn lemma_fleet_coverage(
    visibility: crate::board::BoardVisibility,
    s: BoardView,
    shots: Seq<Position>,
)
    requires
        placed_all(BoardView::empty(visibility), s, fleet_sizes()),
        all_in_bounds(shots),
    ensures
        s.ships.len() == 14,
        s.after_shots(shots).occupied().finite(),
        s.after_shots(shots).occupied().len() == 14,
{
    lemma_placed_all(BoardView::empty(visibility), s, fleet_sizes());
    lemma_fleet_total();
    lemma_after_shots(s, shots);
    lemma_occupied_count(s);
}

/// A segment that ends on the board is a straight run of cells on the
/// board.
pub proof fn lemma_segment_straight(anchor: Position, size: nat, orientation: Orientation)
    requires
        anchor.in_bounds(),
        segment_fits(anchor, size, orientation),
    ensures
        straight_run(segment(anchor, size, orientation), orientation),
{
}

/// Containment: the cells of a ship that was placed are recorded after the
/// cells that were there, and they are a straight run of cells on the board.
pub proof fn lemma_placed_contained(pre: BoardView, post: BoardView, size: nat)
    requires
        placed(pre, post, size),
    ensures
        post.ships.len() == pre.ships.len() + size,
        post.ships.take(pre.ships.len() as int) == pre.ships,
        exists|orientation: Orientation| #[trigger]
            straight_run(ship_cells(post, pre.ships.len() as int, size as int), orientation),
{
    let (anchor, orientation) = choose|anchor: Position, orientation: Orientation|
        anchor.in_bounds() && pre.can_place(anchor, size, orientation) && post
            == #[trigger] pre.with_ship(anchor, size, orientation);
    lemma_segment_straight(anchor, size, orientation);
    assert(post.ships.take(pre.ships.len() as int) =~= pre.ships);
    assert(ship_cells(post, pre.ships.len() as int, size as int) =~= segment(
        anchor,
        size,
        orientation,
    ));
}

/// A shot at open water reports a miss and leaves a miss; a shot at an
/// intact ship cell reports a hit and leaves a hit. A second shot at the
/// same cell reports a miss and changes nothing.
pub proof fn lemma_refire(s: BoardView, p: Position)
    requires
        s.well_shaped(),
        p.in_bounds(),
    ensures
        s.cell(p) == CellState::Empty ==> s.cell(p).fire_report() == CellState::Miss && s.fired(
            p,
        ).cell(p) == CellState::Miss,
        s.cell(p) == CellState::Ship ==> s.cell(p).fire_report() == CellState::Hit && s.fired(
            p,
        ).cell(p) == CellState::Hit,
        s.fired(p).cell(p).fire_report() == CellState::Miss,
        s.fired(p).fired(p) == s.fired(p),
{
    assert(s.fired(p).fired(p).cells =~~= s.fired(p).cells);
}

/// A shot at a cell that has been fired at before changes nothing.
pub proof fn lemma_fire_resolved(s: BoardView, p: Position)
    requires
        s.well_shaped(),
        p.in_bounds(),
        s.cell(p) == CellState::Hit || s.cell(p) == CellState::Miss,
    ensures
        s.cell(p).fire_report() == CellState::Miss,
        s.fired(p) == s,
{
    assert(s.fired(p).cells =~~= s.cells);
}

/// Once every ship cell has been hit, it stays so whatever shots follow.
pub proof fn lemma_game_over_stable(s: BoardView, shots: Seq<Position>)
    requires
        s.wf(),
        s.all_sunk(),
        all_in_bounds(shots),
    ensures
        s.after_shots(shots).all_sunk(),
    decreases shots.len(),
{
    if shots.len() > 0 {
        let before = s.after_shots(shots.drop_last());
        lemma_game_over_stable(s, shots.drop_last());
        lemma_after_shots(s, shots.drop_last());
        let after = before.fired(shots.last());
        assert forall|i: int| 0 <= i < after.ships.len() implies after.cell(
            #[trigger] after.ships[i],
        ) == CellState::Hit by {
            assert(before.cell(before.ships[i]) == CellState::Hit);
            assert(before.ships[i].in_bounds());
        }
    }
}

} // verus!
