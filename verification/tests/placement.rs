use battleship::placement::FLEET;
use battleship::{
    opponent_move, Board, BoardVisibility, CellState, Orientation, PlacementFailed, Position,
    BOARD_SIZE, MAX_PLACEMENT_ATTEMPTS,
};

fn occupied_cells(board: &Board) -> Vec<Position> {
    let mut cells = Vec::new();
    for row in 0..BOARD_SIZE {
        for column in 0..BOARD_SIZE {
            let position = Position { row, column };
            let state = board.cell(position);
            if state == CellState::Ship || state == CellState::Hit {
                cells.push(position);
            }
        }
    }
    cells
}

fn is_straight_run(cells: &[Position]) -> bool {
    let horizontal = cells
        .windows(2)
        .all(|w| w[1].row == w[0].row && w[1].column == w[0].column + 1);
    let vertical = cells
        .windows(2)
        .all(|w| w[1].column == w[0].column && w[1].row == w[0].row + 1);
    cells.iter().all(|p| p.is_in_bounds()) && (horizontal || vertical)
}

fn full_board() -> Board {
    let mut board = Board::new(BoardVisibility::Visible);
    for row in 0..BOARD_SIZE {
        assert!(board.place_ship_at(Position { row, column: 0 }, BOARD_SIZE, Orientation::Horizontal));
    }
    board
}

#[test]
fn fleet_is_two_three_four_five() {
    assert_eq!(FLEET, [2, 3, 4, 5]);
    assert_eq!(FLEET.iter().sum::<usize>(), 14);
}

#[test]
fn fleet_cells_are_distinct() {
    for _ in 0..200 {
        let mut board = Board::new(BoardVisibility::Hidden);
        assert_eq!(board.place_fleet(), Ok(()));
        let ships = board.ships();
        for i in 0..ships.len() {
            for j in 0..ships.len() {
                if i != j {
                    assert_ne!(ships[i], ships[j]);
                }
            }
        }
    }
}

#[test]
fn fleet_covers_fourteen_cells() {
    for _ in 0..200 {
        let mut board = Board::new(BoardVisibility::Hidden);
        assert_eq!(board.place_fleet(), Ok(()));
        assert_eq!(board.ships().len(), 14);
        let mut recorded = board.ships().clone();
        recorded.sort_by_key(|p| (p.row, p.column));
        assert_eq!(occupied_cells(&board), recorded);
        for _ in 0..50 {
            let report = board.fire(opponent_move());
            assert!(report == CellState::Hit || report == CellState::Miss);
            assert_eq!(occupied_cells(&board), recorded);
        }
    }
}

#[test]
fn fleet_ships_are_straight_runs_on_the_board() {
    for _ in 0..200 {
        let mut board = Board::new(BoardVisibility::Visible);
        assert_eq!(board.place_fleet(), Ok(()));
        let ships = board.ships();
        assert!(is_straight_run(&ships[0..2]));
        assert!(is_straight_run(&ships[2..5]));
        assert!(is_straight_run(&ships[5..9]));
        assert!(is_straight_run(&ships[9..14]));
    }
}

#[test]
fn four_placements_by_hand_give_a_fleet() {
    let mut board = Board::new(BoardVisibility::Visible);
    for size in [2, 3, 4, 5] {
        assert_eq!(board.place_ship(size), Ok(()));
    }
    assert_eq!(board.ships().len(), 14);
    assert_eq!(occupied_cells(&board).len(), 14);
}

#[test]
fn place_ship_adds_one_straight_run_of_open_water() {
    for size in 1..=BOARD_SIZE {
        let mut board = Board::new(BoardVisibility::Visible);
        board.fire(Position { row: 5, column: 5 });
        assert!(board.place_ship_at(Position { row: 0, column: 0 }, 3, Orientation::Vertical));
        assert_eq!(board.place_ship(size), Ok(()));
        let ships = board.ships();
        assert_eq!(ships.len(), 3 + size);
        assert!(is_straight_run(&ships[3..]));
        for position in &ships[3..] {
            assert!(!ships[..3].contains(position));
            assert_ne!(*position, Position { row: 5, column: 5 });
            assert_eq!(board.cell(*position), CellState::Ship);
        }
        assert_eq!(occupied_cells(&board).len(), 3 + size);
        assert_eq!(board.cell(Position { row: 5, column: 5 }), CellState::Miss);
    }
}

#[test]
fn place_ship_finds_every_free_row() {
    let mut board = Board::new(BoardVisibility::Visible);
    for _ in 0..5 {
        assert_eq!(board.place_ship(BOARD_SIZE), Ok(()));
    }
    assert_eq!(board.ships().len(), 50);
    assert_eq!(occupied_cells(&board).len(), 50);
}

#[test]
fn place_ship_gives_up_on_a_ship_that_is_too_long() {
    let mut board = Board::new(BoardVisibility::Visible);
    assert!(board.place_ship_at(Position { row: 1, column: 1 }, 2, Orientation::Horizontal));
    assert_eq!(board.place_ship(BOARD_SIZE + 1), Err(PlacementFailed));
    assert_eq!(board.place_ship(usize::MAX), Err(PlacementFailed));
    assert_eq!(board.ships().len(), 2);
    assert_eq!(occupied_cells(&board).len(), 2);
}

#[test]
fn place_ship_gives_up_on_a_full_board() {
    let mut board = full_board();
    assert_eq!(board.place_ship(1), Err(PlacementFailed));
    assert_eq!(board.ships().len(), 100);
    assert_eq!(occupied_cells(&board).len(), 100);
}

#[test]
fn place_ship_of_no_cells_changes_nothing() {
    let mut board = full_board();
    assert_eq!(board.place_ship(0), Ok(()));
    assert_eq!(board.ships().len(), 100);
}

#[test]
fn place_fleet_gives_up_on_a_full_board() {
    let mut board = full_board();
    assert_eq!(board.place_fleet(), Err(PlacementFailed));
    assert_eq!(board.ships().len(), 100);
}

#[test]
fn place_fleet_keeps_the_ships_it_could_place() {
    // Only the first two cells of the last row are free: room for the ship
    // of two cells and for nothing after it.
    let mut board = Board::new(BoardVisibility::Visible);
    for row in 0..9 {
        assert!(board.place_ship_at(Position { row, column: 0 }, BOARD_SIZE, Orientation::Horizontal));
    }
    assert!(board.place_ship_at(Position { row: 9, column: 2 }, 8, Orientation::Horizontal));
    assert_eq!(board.place_fleet(), Err(PlacementFailed));
    assert_eq!(board.ships().len(), 100);
    assert_eq!(occupied_cells(&board).len(), 100);
    assert_eq!(
        board.ships()[98..],
        [Position { row: 9, column: 0 }, Position { row: 9, column: 1 }]
    );
}

#[test]
fn attempts_are_bounded() {
    assert_eq!(MAX_PLACEMENT_ATTEMPTS, 10_000);
}

#[test]
fn opponent_move_is_on_the_board() {
    for _ in 0..10_000 {
        assert!(opponent_move().is_in_bounds());
    }
}

#[test]
fn opponent_move_reaches_every_cell() {
    let mut seen = [[false; BOARD_SIZE]; BOARD_SIZE];
    for _ in 0..100_000 {
        let position = opponent_move();
        seen[position.row][position.column] = true;
    }
    assert!(seen.iter().all(|row| row.iter().all(|cell| *cell)));
}
