use tictactoe::{ParsePositionError, Position};

fn compact(s: &str) -> Vec<char> {
    s.chars().collect()
}

#[test]
fn parses_one_based_corners() {
    assert_eq!(Position::parse("1,1"), Ok(Position { x: 0, y: 0 }));
    assert_eq!(Position::parse("3,3"), Ok(Position { x: 2, y: 2 }));
}

#[test]
fn first_number_is_the_row() {
    assert_eq!(Position::parse(" 2 , 3 "), Ok(Position { x: 2, y: 1 }));
    assert_eq!(Position::parse("1,3"), Ok(Position { x: 2, y: 0 }));
}

#[test]
fn white_space_anywhere_is_ignored() {
    assert_eq!(Position::parse("\t1\n,\r 2 \n"), Ok(Position { x: 1, y: 0 }));
    assert_eq!(Position::parse("1 2,3"), Ok(Position { x: 2, y: 11 }));
    assert_eq!(Position::parse("2,\u{a0}1"), Ok(Position { x: 0, y: 1 }));
}

#[test]
fn below_one_is_out_of_range() {
    assert_eq!(Position::parse("0,1"), Err(ParsePositionError::IndexOutOfRange));
    assert_eq!(Position::parse("1,0"), Err(ParsePositionError::IndexOutOfRange));
    assert_eq!(Position::parse("-4,2"), Err(ParsePositionError::IndexOutOfRange));
    assert_eq!(Position::parse("-0,2"), Err(ParsePositionError::IndexOutOfRange));
}

#[test]
fn non_numbers_are_rejected() {
    assert_eq!(Position::parse("a,1"), Err(ParsePositionError::NotANumber));
    assert_eq!(Position::parse("1,b"), Err(ParsePositionError::NotANumber));
    assert_eq!(Position::parse(","), Err(ParsePositionError::NotANumber));
    assert_eq!(Position::parse("+,1"), Err(ParsePositionError::NotANumber));
    assert_eq!(Position::parse("1,-"), Err(ParsePositionError::NotANumber));
    assert_eq!(Position::parse("1.5,1"), Err(ParsePositionError::NotANumber));
}

#[test]
fn malformed_input_is_rejected() {
    assert_eq!(Position::parse("1"), Err(ParsePositionError::MalformedInput));
    assert_eq!(Position::parse(""), Err(ParsePositionError::MalformedInput));
    assert_eq!(Position::parse("1,2,3"), Err(ParsePositionError::MalformedInput));
    assert_eq!(Position::parse("1,2,"), Err(ParsePositionError::MalformedInput));
}

#[test]
fn numbers_beyond_the_board_are_left_to_placement() {
    assert_eq!(Position::parse("4,9"), Ok(Position { x: 8, y: 3 }));
    assert_eq!(Position::parse("+2,+2"), Ok(Position { x: 1, y: 1 }));
}

#[test]
fn numbers_must_fit_in_an_i32() {
    assert_eq!(
        Position::parse("2147483647,1"),
        Ok(Position { x: 0, y: 2147483646 })
    );
    assert_eq!(Position::parse("2147483648,1"), Err(ParsePositionError::NotANumber));
    assert_eq!(Position::parse("1,99999999999999999999"), Err(ParsePositionError::NotANumber));
    assert_eq!(Position::parse("-2147483648,1"), Err(ParsePositionError::IndexOutOfRange));
    assert_eq!(Position::parse("-2147483649,1"), Err(ParsePositionError::NotANumber));
}

#[test]
fn compact_text_is_read_as_is() {
    assert_eq!(Position::parse_compact(&compact("2,3")), Ok(Position { x: 2, y: 1 }));
    assert_eq!(Position::parse_compact(&compact(" 2,3")), Err(ParsePositionError::NotANumber));
    assert_eq!(Position::parse_compact(&compact("23")), Err(ParsePositionError::MalformedInput));
}

#[test]
fn from_str_parses_like_parse() {
    let p: Result<Position, ParsePositionError> = " 3 ,1".parse();
    assert_eq!(p, Ok(Position { x: 0, y: 2 }));
}

#[test]
fn error_messages() {
    assert_eq!(
        ParsePositionError::MalformedInput.message(),
        "Expected two numbers separated by a comma"
    );
    assert_eq!(
        ParsePositionError::NotANumber.message(),
        "Couldn't parse row/column, expected an integer"
    );
    assert_eq!(
        ParsePositionError::IndexOutOfRange.message(),
        "Couldn't parse row/column, index must start from 1"
    );
}
