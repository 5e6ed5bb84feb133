//! The board: its cells, the ship cells recorded on it, and the operations of
//! the game.

use vstd::prelude::*;
use crate::position::{
    on_segment, segment, segment_cell, segment_fits, Orientation, Position, BOARD_SIZE,
};

verus! {

/// What is known of a single cell.
#[derive(Clone, Copy, PartialEq, Eq, Structural, Debug)]
pub enum CellState {
    /// Open water that has not been fired at.
    Empty,
    /// Part of a ship that has not been hit.
    Ship,
    /// Part of a ship that has been hit.
    Hit,
    /// Open water that has been fired at.
    Miss,
}

/// Whether the owner of a board lets intact cells be shown.
#[derive(Clone, Copy, PartialEq, Eq, Structural, Debug)]
pub enum BoardVisibility {
    Visible,
    Hidden,
}

/// One player's board.
pub struct Board {
    grid: [[CellState; BOARD_SIZE]; BOARD_SIZE],
    ships: Vec<Position>,
    board_visibility: BoardVisibility,
}

/// The mathematical model of a [`Board`].
pub struct BoardView {
    /// The cell states, by row and then by column.
    pub cells: Seq<Seq<CellState>>,
    /// Every cell that belongs to a ship, in the order of placement.
    pub ships: Seq<Position>,
    pub visibility: BoardVisibility,
}

impl CellState {
    /// Part of a ship, hit or not.
    pub open spec fn is_occupied(self) -> bool {
        self == CellState::Ship || self == CellState::Hit
    }

    /// The state of a cell after a shot at it.
    pub open spec fn after_fire(self) -> CellState {
        match self {
            CellState::Empty => CellState::Miss,
            CellState::Ship => CellState::Hit,
            CellState::Hit => CellState::Hit,
            CellState::Miss => CellState::Miss,
        }
    }

    /// What a shot at a cell in this state reports: a hit only on an intact
    /// ship cell, a miss otherwise.
    pub open spec fn fire_report(self) -> CellState {
        if self == CellState::Ship {
            CellState::Hit
        } else {
            CellState::Miss
        }
    }
}

impl BoardView {
    /// A board of open water with no ships.
    pub open spec fn empty(visibility: BoardVisibility) -> BoardView {
        BoardView {
            cells: Seq::new(
                BOARD_SIZE as nat,
                |r: int| Seq::new(BOARD_SIZE as nat, |c: int| CellState::Empty),
            ),
            ships: Seq::empty(),
            visibility,
        }
    }

    /// The state of the cell at `p`.
    pub open spec fn cell(self, p: Position) -> CellState {
        self.cells[p.row as int][p.column as int]
    }

    /// The grid has `BOARD_SIZE` rows of `BOARD_SIZE` cells.
    pub open spec fn well_shaped(self) -> bool {
        &&& self.cells.len() == BOARD_SIZE
        &&& forall|r: int| 0 <= r < BOARD_SIZE ==> (#[trigger] self.cells[r]).len() == BOARD_SIZE
    }

    /// The invariant of a board: the recorded ship cells lie on the board,
    /// none is recorded twice, and they are exactly the cells whose state is
    /// `Ship` or `Hit`.
    pub open spec fn wf(self) -> bool {
        &&& self.well_shaped()
        &&& forall|i: int| 0 <= i < self.ships.len() ==> (#[trigger] self.ships[i]).in_bounds()
        &&& self.ships.no_duplicates()
        &&& forall|p: Position|
            p.in_bounds() ==> (self.ships.contains(p) <==> (#[trigger] self.cell(p)).is_occupied())
    }
}

impl BoardView {
    /// A ship of `size` cells may be placed from `anchor` along
    /// `orientation`: the segment ends on the board and every cell of it is
    /// open water that has not been fired at.
    pub open spec fn can_place(
        self,
        anchor: Position,
        size: nat,
        orientation: Orientation,
    ) -> bool {
        &&& segment_fits(anchor, size, orientation)
        &&& forall|i: int|
            0 <= i < size ==> self.cell(#[trigger] segment_cell(anchor, orientation, i))
                == CellState::Empty
    }

    /// The board with a ship of `size` cells placed from `anchor` along
    /// `orientation`: the cells of the segment become `Ship` and are
    /// recorded, from the anchor outwards, after the ship cells already there.
    pub open spec fn with_ship(
        self,
        anchor: Position,
        size: nat,
        orientation: Orientation,
    ) -> BoardView {
        BoardView {
            cells: Seq::new(
                BOARD_SIZE as nat,
                |r: int|
                    Seq::new(
                        BOARD_SIZE as nat,
                        |c: int|
                            if on_segment(
                                anchor,
                                size,
                                orientation,
                                Position { row: r as usize, column: c as usize },
                            ) {
                                CellState::Ship
                            } else {
                                self.cells[r][c]
                            },
                    ),
            ),
            ships: self.ships + segment(anchor, size, orientation),
            visibility: self.visibility,
        }
    }

    /// The board after a shot at `p`: that cell changes as
    /// [`CellState::after_fire`] says, and nothing else does.
    pub open spec fn fired(self, p: Position) -> BoardView {
        BoardView {
            cells: self.cells.update(
                p.row as int,
                self.cells[p.row as int].update(p.column as int, self.cell(p).after_fire()),
            ),
            ships: self.ships,
            visibility: self.visibility,
        }
    }

    /// What an onlooker is shown of the cell at `p`: its state, unless the
    /// board is hidden and the cell has not been fired at.
    pub open spec fn shown(self, p: Position) -> Option<CellState> {
        if self.visibility == BoardVisibility::Hidden && (self.cell(p) == CellState::Empty
            || self.cell(p) == CellState::Ship) {
            None
        } else {
            Some(self.cell(p))
        }
    }

    /// Every recorded ship cell has been hit.
    pub open spec fn all_sunk(self) -> bool {
        forall|i: int|
            0 <= i < self.ships.len() ==> self.cell(#[trigger] self.ships[i]) == CellState::Hit
    }
}

impl View for Board {
    type V = BoardView;

    closed spec fn view(&self) -> BoardView {
        BoardView {
            cells: Seq::new(BOARD_SIZE as nat, |r: int| self.grid[r]@),
            ships: self.ships@,
            visibility: self.board_visibility,
        }
    }
}

impl Board {
    /// A board of open water with no ships.
    pub fn new(board_visibility: BoardVisibility) -> (board: Board)
        ensures
            board@ == BoardView::empty(board_visibility),
            board@.wf(),
    {
        let board = Board {
            grid: [[CellState::Empty; BOARD_SIZE]; BOARD_SIZE],
            ships: Vec::new(),
            board_visibility,
        };
        assert(board@.cells =~~= BoardView::empty(board_visibility).cells);
        board
    }

    /// The state of the cell at `position`.
    pub fn cell(&self, position: Position) -> (state: CellState)
        requires
            position.in_bounds(),
        ensures
            state == self@.cell(position),
    {
        self.grid[position.row][position.column]
    }

    /// What an onlooker is shown of the cell at `position`: nothing of a cell
    /// that has not been fired at if the board is hidden, the state of the
    /// cell otherwise.
    pub fn shown(&self, position: Position) -> (shown: Option<CellState>)
        requires
            position.in_bounds(),
        ensures
            shown == self@.shown(position),
    {
        let state = self.grid[position.row][position.column];
        match (self.board_visibility, state) {
            (BoardVisibility::Hidden, CellState::Empty) => None,
            (BoardVisibility::Hidden, CellState::Ship) => None,
            _ => Some(state),
        }
    }

    /// The visibility chosen when the board was made.
    pub fn visibility(&self) -> (visibility: BoardVisibility)
        ensures
            visibility == self@.visibility,
    {
        self.board_visibility
    }

    /// The recorded ship cells, in the order of placement.
    pub fn ships(&self) -> (ships: &Vec<Position>)
        ensures
            ships@ == self@.ships,
    {
        &self.ships
    }

    /// Whether a ship of `size` cells may be placed from `position` along
    /// `orientation`.
    pub fn can_place(
        &self,
        position: &Position,
        size: usize,
        orientation: Orientation,
    ) -> (ok: bool)
        requires
            position.in_bounds(),
        ensures
            ok == self@.can_place(*position, size as nat, orientation),
    {
        let start = match orientation {
            Orientation::Horizontal => position.column,
            Orientation::Vertical => position.row,
        };
        if size > BOARD_SIZE || start > BOARD_SIZE - size {
            return false;
        }
        let mut i: usize = 0;
        while i < size
            invariant
                position.in_bounds(),
                segment_fits(*position, size as nat, orientation),
                i <= size,
                forall|j: int|
                    0 <= j < i ==> self@.cell(#[trigger] segment_cell(*position, orientation, j))
                        == CellState::Empty,
            decreases size - i,
        {
            let target = position.step(orientation, i);
            if self.grid[target.row][target.column] != CellState::Empty {
                return false;
            }
            i += 1;
        }
        true
    }

    /// Places a ship of `size` cells from `position` along `orientation` if
    /// [`Board::can_place`] allows it, and says whether it did. A board that
    /// cannot take the ship there is left as it was.
    pub fn place_ship_at(
        &mut self,
        position: Position,
        size: usize,
        orientation: Orientation,
    ) -> (placed: bool)
        requires
            old(self)@.wf(),
            position.in_bounds(),
        ensures
            placed == old(self)@.can_place(position, size as nat, orientation),
            placed ==> final(self)@ == old(self)@.with_ship(position, size as nat, orientation),
            !placed ==> final(self)@ == old(self)@,
            final(self)@.wf(),
    {
        if !self.can_place(&position, size, orientation) {
            return false;
        }
        assert(self@.cells =~~= self@.with_ship(position, 0, orientation).cells);
        let mut i: usize = 0;
        while i < size
            invariant
                position.in_bounds(),
                segment_fits(position, size as nat, orientation),
                i <= size,
                self@.cells == old(self)@.with_ship(position, i as nat, orientation).cells,
                self@.ships == old(self)@.ships + segment(position, i as nat, orientation),
                self@.visibility == old(self)@.visibility,
            decreases size - i,
        {
            let target = position.step(orientation, i);
            let ghost before = self@;
            self.grid[target.row][target.column] = CellState::Ship;
            self.ships.push(target);
            proof {
                let shorter = old(self)@.with_ship(position, i as nat, orientation);
                let longer = old(self)@.with_ship(position, (i + 1) as nat, orientation);
                assert(self@.cells =~~= before.cells.update(
                    target.row as int,
                    before.cells[target.row as int].update(target.column as int, CellState::Ship),
                ));
                assert forall|r: int, c: int|
                    0 <= r < BOARD_SIZE && 0 <= c < BOARD_SIZE implies self@.cells[r][c]
                    == longer.cells[r][c] by {
                    let q = Position { row: r as usize, column: c as usize };
                    assert(on_segment(position, (i + 1) as nat, orientation, q) == (on_segment(
                        position,
                        i as nat,
                        orientation,
                        q,
                    ) || q == target));
                    assert(before.cells[r][c] == shorter.cells[r][c]);
                }
                assert(self@.cells =~~= longer.cells);
                assert(self@.ships =~= longer.ships);
            }
            i += 1;
        }
        proof {
            lemma_with_ship_wf(old(self)@, position, size as nat, orientation);
        }
        true
    }

    /// Fires at `position` and reports the outcome: `Hit` if an intact ship
    /// cell was struck, `Miss` otherwise, also for a cell that had been fired
    /// at before.
    pub fn fire(&mut self, position: Position) -> (report: CellState)
        requires
            old(self)@.wf(),
            position.in_bounds(),
        ensures
            report == old(self)@.cell(position).fire_report(),
            final(self)@ == old(self)@.fired(position),
            final(self)@.wf(),
    {
        proof {
            lemma_fired_wf(self@, position);
        }
        match self.grid[position.row][position.column] {
            CellState::Empty => {
                self.grid[position.row][position.column] = CellState::Miss;
                assert(self@.cells =~~= old(self)@.fired(position).cells);
                CellState::Miss
            },
            CellState::Ship => {
                self.grid[position.row][position.column] = CellState::Hit;
                assert(self@.cells =~~= old(self)@.fired(position).cells);
                CellState::Hit
            },
            _ => {
                assert(self@.cells =~~= old(self)@.fired(position).cells);
                CellState::Miss
            },
        }
    }

    /// Whether every ship cell on the board has been hit.
    pub fn game_over(&self) -> (over: bool)
        requires
            self@.wf(),
        ensures
            over == self@.all_sunk(),
    {
        let mut i: usize = 0;
        while i < self.ships.len()
            invariant
                self@.wf(),
                i <= self.ships.len(),
                forall|j: int|
                    0 <= j < i ==> self@.cell(#[trigger] self@.ships[j]) == CellState::Hit,
            decreases self.ships.len() - i,
        {
            let position = self.ships[i];
            if self.grid[position.row][position.column] != CellState::Hit {
                return false;
            }
            i += 1;
        }
        true
    }
}

/// Placing a ship where [`BoardView::can_place`] allows keeps the invariant
/// of the board and records exactly `size` more ship cells.
pub proof fn lemma_with_ship_wf(
    s: BoardView,
    anchor: Position,
    size: nat,
    orientation: Orientation,
)
    requires
        s.wf(),
        anchor.in_bounds(),
        s.can_place(anchor, size, orientation),
    ensures
        s.with_ship(anchor, size, orientation).wf(),
        s.with_ship(anchor, size, orientation).ships.len() == s.ships.len() + size,
{
    let t = s.with_ship(anchor, size, orientation);
    let seg = segment(anchor, size, orientation);
    assert forall|p: Position| p.in_bounds() implies (t.ships.contains(p) <==> (
    #[trigger] t.cell(p)).is_occupied()) by {
        if on_segment(anchor, size, orientation, p) {
            let k = match orientation {
                Orientation::Horizontal => p.column - anchor.column,
                Orientation::Vertical => p.row - anchor.row,
            };
            assert(seg[k] == p);
            assert(t.ships[s.ships.len() + k] == p);
        } else {
            assert(t.cell(p) == s.cell(p));
            if t.ships.contains(p) {
                let j = choose|j: int| 0 <= j < t.ships.len() && t.ships[j] == p;
                if j >= s.ships.len() {
                    assert(seg[j - s.ships.len()] == p);
                }
                assert(s.ships[j] == p);
            }
            if s.ships.contains(p) {
                let j = choose|j: int| 0 <= j < s.ships.len() && s.ships[j] == p;
                assert(t.ships[j] == p);
            }
        }
    }
    assert forall|i: int, j: int|
        0 <= i < t.ships.len() && 0 <= j < t.ships.len() && i != j implies t.ships[i]
        != t.ships[j] by {
        let n = s.ships.len() as int;
        if i < n && j >= n {
            assert(s.ships.contains(s.ships[i]));
            assert(s.cell(segment_cell(anchor, orientation, j - n)) == CellState::Empty);
        }
        if j < n && i >= n {
            assert(s.ships.contains(s.ships[j]));
            assert(s.cell(segment_cell(anchor, orientation, i - n)) == CellState::Empty);
        }
    }
}

/// A shot keeps the invariant of the board.
pub proof fn lemma_fired_wf(s: BoardView, p: Position)
    requires
        s.wf(),
        p.in_bounds(),
    ensures
        s.fired(p).wf(),
{
    let t = s.fired(p);
    assert forall|q: Position| q.in_bounds() implies (t.ships.contains(q) <==> (
    #[trigger] t.cell(q)).is_occupied()) by {
        assert(s.cell(q).is_occupied() == t.cell(q).is_occupied());
    }
}

} // verus!
