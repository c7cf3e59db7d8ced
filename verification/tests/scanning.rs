use grid_scenario::error::ParseError;
use grid_scenario::parse::{parse_frames, parse_point, parse_points};
use grid_scenario::scan::{expect_char, scan_number, skip_whitespace};
use grid_scenario::scenario::Point;

fn cv(s: &str) -> Vec<char> {
    s.chars().collect()
}

#[test]
fn skip_whitespace_advances_past_spaces() {
    let v = cv("  \t x");
    assert_eq!(skip_whitespace(&v, 0), 4);
    assert_eq!(skip_whitespace(&v, 4), 4);
    assert_eq!(skip_whitespace(&v, 5), 5);
    let empty = cv("");
    assert_eq!(skip_whitespace(&empty, 0), 0);
}

#[test]
fn scan_number_ws_then_digits() {
    let v = cv("  42");
    assert_eq!(scan_number(&v, 0), Ok((4, 42)));
}

#[test]
fn scan_number_stops_after_digits() {
    let v = cv("12x");
    assert_eq!(scan_number(&v, 0), Ok((2, 12)));
}

#[test]
fn scan_number_empty_input() {
    let v = cv("");
    assert_eq!(scan_number(&v, 0), Err(ParseError::InvalidNumber));
}

#[test]
fn scan_number_no_digits() {
    let v = cv("abc");
    assert_eq!(scan_number(&v, 0), Err(ParseError::InvalidNumber));
}

#[test]
fn scan_number_largest_value() {
    let v = cv("4294967295");
    assert_eq!(scan_number(&v, 0), Ok((10, u32::MAX)));
}

#[test]
fn scan_number_overflow() {
    let v = cv("4294967296");
    assert_eq!(scan_number(&v, 0), Err(ParseError::InvalidNumber));
}

#[test]
fn expect_char_matches() {
    let v = cv("  (");
    assert_eq!(expect_char(&v, 0, '('), Ok(3));
}

#[test]
fn expect_char_wrong_token() {
    let v = cv(";");
    assert_eq!(expect_char(&v, 0, '('), Err(ParseError::UnexpectedToken));
}

#[test]
fn expect_char_end_of_input() {
    let v = cv("   ");
    assert_eq!(expect_char(&v, 0, '('), Err(ParseError::UnexpectedEndOfInput));
}

#[test]
fn parse_point_plain() {
    let v = cv("(7,8)");
    assert_eq!(parse_point(&v, 0), Ok((5, Point { x: 7, y: 8 })));
}

#[test]
fn parse_point_inner_whitespace() {
    let v = cv(" ( 7 , 8 )");
    assert_eq!(parse_point(&v, 0), Ok((10, Point { x: 7, y: 8 })));
}

#[test]
fn parse_point_wrong_separator() {
    let v = cv("(0;0)");
    assert_eq!(parse_point(&v, 0), Err(ParseError::UnexpectedToken));
}

#[test]
fn parse_point_truncated() {
    let v = cv("(0");
    assert_eq!(parse_point(&v, 0), Err(ParseError::UnexpectedEndOfInput));
}

#[test]
fn parse_point_truncated_in_digits() {
    let v = cv("(0,");
    assert_eq!(parse_point(&v, 0), Err(ParseError::InvalidNumber));
}

#[test]
fn parse_points_two_points() {
    let v = cv("(0,0) (1,2)");
    let (pos, ps) = parse_points(&v, 0).unwrap();
    assert_eq!(pos, 11);
    assert_eq!(ps, vec![Point { x: 0, y: 0 }, Point { x: 1, y: 2 }]);
}

#[test]
fn parse_points_empty_input() {
    let v = cv("");
    assert_eq!(parse_points(&v, 0), Ok((0, vec![])));
}

#[test]
fn parse_points_stops_without_consuming() {
    let v = cv("x(0,0)");
    assert_eq!(parse_points(&v, 0), Ok((0, vec![])));
}

#[test]
fn parse_points_propagates_point_error() {
    let v = cv("(0,0) (1,");
    assert_eq!(parse_points(&v, 0), Err(ParseError::InvalidNumber));
}

#[test]
fn parse_points_propagates_truncation() {
    let v = cv("(0,0) (1");
    assert_eq!(parse_points(&v, 0), Err(ParseError::UnexpectedEndOfInput));
}

#[test]
fn parse_frames_two_frames() {
    let v = cv("[(0,0)(0,1)][(0,1)(0,2)]");
    let (pos, fs) = parse_frames(&v, 0).unwrap();
    assert_eq!(pos, 24);
    assert_eq!(
        fs,
        vec![
            vec![Point { x: 0, y: 0 }, Point { x: 0, y: 1 }],
            vec![Point { x: 0, y: 1 }, Point { x: 0, y: 2 }],
        ]
    );
}

#[test]
fn parse_frames_zero_frames() {
    let v = cv("");
    assert_eq!(parse_frames(&v, 0), Ok((0, vec![])));
}

#[test]
fn parse_frames_unclosed_bracket() {
    let v = cv("[(0,0)");
    assert_eq!(parse_frames(&v, 0), Err(ParseError::UnexpectedEndOfInput));
}

#[test]
fn parse_frames_empty_frame() {
    let v = cv("[]");
    assert_eq!(parse_frames(&v, 0), Ok((2, vec![vec![]])));
}
