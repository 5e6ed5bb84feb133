//! Coordinates on the board and the straight segments that ships occupy.

use vstd::prelude::*;

verus! {

/// Number of rows, and of columns, of a board.
pub const BOARD_SIZE: usize = 10;

/// A cell of the board, by zero-based row and column.
#[derive(Clone, Copy, PartialEq, Eq, Structural, Debug)]
pub struct Position {
    pub row: usize,
    pub column: usize,
}

/// The direction in which a ship extends from its anchor.
#[derive(Clone, Copy, PartialEq, Eq, Structural, Debug)]
pub enum Orientation {
    /// Along a row, towards higher columns.
    Horizontal,
    /// Along a column, towards higher rows.
    Vertical,
}

impl Position {
    /// Both coordinates lie on the board.
    pub open spec fn in_bounds(self) -> bool {
        self.row < BOARD_SIZE && self.column < BOARD_SIZE
    }

    /// Whether both coordinates lie on the board.
    pub fn is_in_bounds(&self) -> (b: bool)
        ensures
            b == self.in_bounds(),
    {
        self.row < BOARD_SIZE && self.column < BOARD_SIZE
    }
}

impl Position {
    /// The cell `i` steps from `self` along `orientation`.
    pub fn step(self, orientation: Orientation, i: usize) -> (p: Position)
        requires
            match orientation {
                Orientation::Horizontal => self.column + i <= usize::MAX,
                Orientation::Vertical => self.row + i <= usize::MAX,
            },
        ensures
            p == segment_cell(self, orientation, i as int),
    {
        match orientation {
            Orientation::Horizontal => Position { row: self.row, column: self.column + i },
            Orientation::Vertical => Position { row: self.row + i, column: self.column },
        }
    }
}

impl Orientation {
    /// The orientation that a draw from `{0, 1}` selects: `0` is horizontal,
    /// anything else vertical.
    pub fn from_draw(draw: usize) -> (orientation: Orientation)
        ensures
            orientation == if draw == 0 {
                Orientation::Horizontal
            } else {
                Orientation::Vertical
            },
    {
        if draw == 0 {
            Orientation::Horizontal
        } else {
            Orientation::Vertical
        }
    }
}

/// The `i`-th cell of the segment that starts at `anchor` and runs along
/// `orientation`.
pub open spec fn segment_cell(anchor: Position, orientation: Orientation, i: int) -> Position {
    match orientation {
        Orientation::Horizontal => Position {
            row: anchor.row,
            column: (anchor.column + i) as usize,
        },
        Orientation::Vertical => Position { row: (anchor.row + i) as usize, column: anchor.column },
    }
}

/// A segment of `size` cells from `anchor` along `orientation` ends on the
/// board.
pub open spec fn segment_fits(anchor: Position, size: nat, orientation: Orientation) -> bool {
    match orientation {
        Orientation::Horizontal => anchor.column + size <= BOARD_SIZE,
        Orientation::Vertical => anchor.row + size <= BOARD_SIZE,
    }
}

/// The cells of a segment, from the anchor outwards.
pub open spec fn segment(anchor: Position, size: nat, orientation: Orientation) -> Seq<Position> {
    Seq::new(size, |i: int| segment_cell(anchor, orientation, i))
}

/// `p` is one of the `size` cells from `anchor` along `orientation`.
pub open spec fn on_segment(
    anchor: Position,
    size: nat,
    orientation: Orientation,
    p: Position,
) -> bool {
    match orientation {
        Orientation::Horizontal => p.row == anchor.row && anchor.column <= p.column < anchor.column
            + size,
        Orientation::Vertical => p.column == anchor.column && anchor.row <= p.row < anchor.row
            + size,
    }
}

} // verus!
