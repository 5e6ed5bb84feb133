use battleship::coordinates::is_space;
use battleship::{parse_coordinates, CoordinateError, Position, BOARD_SIZE};

/// Trims the line, splits it at commas, and reads the two fields as
/// unsigned numbers with the standard library.
fn by_the_standard_library(input: &str) -> Result<Position, CoordinateError> {
    let fields: Vec<&str> = input.trim().split(',').collect();
    if fields.len() != 2 {
        return Err(CoordinateError::Malformed);
    }
    let row = fields[0].trim().parse::<usize>();
    let column = fields[1].trim().parse::<usize>();
    match (row, column) {
        (Ok(row), Ok(column)) => {
            if row < BOARD_SIZE && column < BOARD_SIZE {
                Ok(Position { row, column })
            } else {
                Err(CoordinateError::OutOfBounds)
            }
        }
        _ => Err(CoordinateError::Malformed),
    }
}

#[test]
fn parses_row_then_column() {
    assert_eq!(parse_coordinates("3, 4"), Ok(Position { row: 3, column: 4 }));
    assert_eq!(parse_coordinates("0,0"), Ok(Position { row: 0, column: 0 }));
    assert_eq!(parse_coordinates("9,9"), Ok(Position { row: 9, column: 9 }));
    assert_eq!(parse_coordinates("7,2"), Ok(Position { row: 7, column: 2 }));
}

#[test]
fn rejects_three_fields() {
    assert_eq!(parse_coordinates("3,4,5"), Err(CoordinateError::Malformed));
    assert_eq!(parse_coordinates("3,4,"), Err(CoordinateError::Malformed));
    assert_eq!(parse_coordinates(",3,4"), Err(CoordinateError::Malformed));
    assert_eq!(parse_coordinates("3,,4"), Err(CoordinateError::Malformed));
}

#[test]
fn rejects_what_is_not_a_number() {
    assert_eq!(parse_coordinates("a,b"), Err(CoordinateError::Malformed));
    assert_eq!(parse_coordinates("3,b"), Err(CoordinateError::Malformed));
    assert_eq!(parse_coordinates("a,4"), Err(CoordinateError::Malformed));
    assert_eq!(parse_coordinates("-1,4"), Err(CoordinateError::Malformed));
    assert_eq!(parse_coordinates("3,-0"), Err(CoordinateError::Malformed));
    assert_eq!(parse_coordinates("3.0,4"), Err(CoordinateError::Malformed));
    assert_eq!(parse_coordinates("0x3,4"), Err(CoordinateError::Malformed));
    assert_eq!(parse_coordinates("3 3,4"), Err(CoordinateError::Malformed));
    assert_eq!(parse_coordinates("3,4_"), Err(CoordinateError::Malformed));
    assert_eq!(parse_coordinates("(3,4)"), Err(CoordinateError::Malformed));
    assert_eq!(parse_coordinates("\u{ff13},\u{ff14}"), Err(CoordinateError::Malformed));
    assert_eq!(parse_coordinates("\u{663},4"), Err(CoordinateError::Malformed));
}

#[test]
fn rejects_missing_fields() {
    assert_eq!(parse_coordinates(""), Err(CoordinateError::Malformed));
    assert_eq!(parse_coordinates("   "), Err(CoordinateError::Malformed));
    assert_eq!(parse_coordinates("\n"), Err(CoordinateError::Malformed));
    assert_eq!(parse_coordinates(","), Err(CoordinateError::Malformed));
    assert_eq!(parse_coordinates("3"), Err(CoordinateError::Malformed));
    assert_eq!(parse_coordinates("3,"), Err(CoordinateError::Malformed));
    assert_eq!(parse_coordinates(",4"), Err(CoordinateError::Malformed));
    assert_eq!(parse_coordinates(" , "), Err(CoordinateError::Malformed));
    assert_eq!(parse_coordinates("3 4"), Err(CoordinateError::Malformed));
    assert_eq!(parse_coordinates("3;4"), Err(CoordinateError::Malformed));
}

#[test]
fn rejects_targets_off_the_board() {
    assert_eq!(parse_coordinates("10,0"), Err(CoordinateError::OutOfBounds));
    assert_eq!(parse_coordinates("0,10"), Err(CoordinateError::OutOfBounds));
    assert_eq!(parse_coordinates("10,10"), Err(CoordinateError::OutOfBounds));
    assert_eq!(parse_coordinates("3,400"), Err(CoordinateError::OutOfBounds));
    assert_eq!(
        parse_coordinates(&format!("{},0", usize::MAX)),
        Err(CoordinateError::OutOfBounds)
    );
}

#[test]
fn a_number_off_the_board_beside_a_malformed_one_is_malformed() {
    assert_eq!(parse_coordinates("10,b"), Err(CoordinateError::Malformed));
    assert_eq!(parse_coordinates("a,10"), Err(CoordinateError::Malformed));
}

#[test]
fn rejects_numbers_too_large_for_the_machine() {
    assert_eq!(
        parse_coordinates("340282366920938463463374607431768211456,1"),
        Err(CoordinateError::Malformed)
    );
    assert_eq!(
        parse_coordinates(&format!("1,{}0", usize::MAX)),
        Err(CoordinateError::Malformed)
    );
    let one_more = format!("{}", usize::MAX as u128 + 1);
    assert_eq!(parse_coordinates(&format!("{},1", one_more)), Err(CoordinateError::Malformed));
}

#[test]
fn takes_white_space_around_the_line_and_the_numbers() {
    let expected = Ok(Position { row: 3, column: 4 });
    assert_eq!(parse_coordinates("3,4\n"), expected);
    assert_eq!(parse_coordinates("3,4\r\n"), expected);
    assert_eq!(parse_coordinates("  3 ,\t4  \n"), expected);
    assert_eq!(parse_coordinates("\u{3000}3\u{a0},\u{2003}4\u{85}"), expected);
    assert_eq!(parse_coordinates("\u{b}3\u{c},\u{1680}4\u{2028}\u{2029}\u{202f}\u{205f}"), expected);
}

#[test]
fn takes_a_plus_sign_and_leading_zeros() {
    assert_eq!(parse_coordinates("+3,+4"), Ok(Position { row: 3, column: 4 }));
    assert_eq!(parse_coordinates("003,0000000000000000000000000004"), Ok(Position { row: 3, column: 4 }));
    assert_eq!(parse_coordinates("+010,1"), Err(CoordinateError::OutOfBounds));
    assert_eq!(parse_coordinates("+,1"), Err(CoordinateError::Malformed));
    assert_eq!(parse_coordinates("++1,1"), Err(CoordinateError::Malformed));
    assert_eq!(parse_coordinates("+ 1,1"), Err(CoordinateError::Malformed));
    assert_eq!(parse_coordinates("1+,1"), Err(CoordinateError::Malformed));
}

#[test]
fn reads_every_cell_of_the_board() {
    for row in 0..BOARD_SIZE {
        for column in 0..BOARD_SIZE {
            assert_eq!(
                parse_coordinates(&format!("{}, {}\n", row, column)),
                Ok(Position { row, column })
            );
        }
    }
}

#[test]
fn parsed_targets_are_on_the_board() {
    for row in 0..30 {
        for column in 0..30 {
            match parse_coordinates(&format!("{},{}", row, column)) {
                Ok(position) => {
                    assert!(position.is_in_bounds());
                    assert!(row < 10 && column < 10);
                }
                Err(error) => {
                    assert_eq!(error, CoordinateError::OutOfBounds);
                    assert!(row >= 10 || column >= 10);
                }
            }
        }
    }
}

#[test]
fn agrees_with_the_standard_library_on_short_lines() {
    let alphabet = ['0', '1', '9', ' ', ',', '+', '-', 'a', '\n', '\u{a0}'];
    let mut lines: Vec<String> = vec![String::new()];
    let mut from = 0;
    for _ in 0..5 {
        let upto = lines.len();
        for i in from..upto {
            for c in alphabet {
                let mut line = lines[i].clone();
                line.push(c);
                lines.push(line);
            }
        }
        from = upto;
    }
    assert_eq!(lines.len(), 111_111);
    for line in &lines {
        assert_eq!(parse_coordinates(line), by_the_standard_library(line), "{:?}", line);
    }
}

#[test]
fn white_space_is_what_the_standard_library_trims() {
    for code in 0..=0x10FFFF_u32 {
        if let Some(c) = char::from_u32(code) {
            assert_eq!(is_space(c), c.is_whitespace(), "{:?}", c);
        }
    }
}

#[test]
fn every_white_space_character_may_surround_a_number() {
    for code in 0..=0x10FFFF_u32 {
        if let Some(c) = char::from_u32(code) {
            if c == ',' {
                continue;
            }
            let line = format!("{}3{},{}4{}", c, c, c, c);
            assert_eq!(parse_coordinates(&line), by_the_standard_library(&line), "{:?}", c);
        }
    }
}

#[test]
fn messages_are_sentences_for_the_player() {
    assert_eq!(
        CoordinateError::Malformed.message(),
        "Invalid input. Please enter coordinates in the form of (row, column)."
    );
    assert_eq!(CoordinateError::OutOfBounds.message(), "Those coordinates are not on the board.");
}
