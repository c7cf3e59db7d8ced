use grid_scenario::error::{LoadError, ParseError};
use grid_scenario::loader::load;
use grid_scenario::scenario::{Point, ScenarioDescriptor};

fn cv(s: &str) -> Vec<char> {
    s.chars().collect()
}

fn example_descriptor() -> ScenarioDescriptor {
    ScenarioDescriptor {
        rows: 3,
        cols: 3,
        start: Point { x: 0, y: 0 },
        goal: Point { x: 2, y: 2 },
        blocked: vec![Point { x: 1, y: 1 }],
        frames: vec![
            vec![Point { x: 0, y: 0 }, Point { x: 0, y: 1 }],
            vec![Point { x: 0, y: 1 }, Point { x: 0, y: 2 }],
        ],
    }
}

#[test]
fn example_file_loads() {
    let text = cv("rows:3\ncols:3\nini:(0,0)\nend:(2,2)\nblocked:(1,1)\npaths:[(0,0)(0,1)][(0,1)(0,2)]\n");
    assert_eq!(load(&text), Ok(example_descriptor()));
}

#[test]
fn example_file_without_final_newline_loads() {
    let text = cv("rows:3\ncols:3\nini:(0,0)\nend:(2,2)\nblocked:(1,1)\npaths:[(0,0)(0,1)][(0,1)(0,2)]");
    assert_eq!(load(&text), Ok(example_descriptor()));
}

#[test]
fn crlf_line_endings_load() {
    let text = cv("rows:3\r\ncols:3\r\nini:(0,0)\r\nend:(2,2)\r\nblocked:(1,1)\r\npaths:\r\n");
    let d = load(&text).unwrap();
    assert_eq!(d.rows, 3);
    assert_eq!(d.frames, Vec::<Vec<Point>>::new());
}

#[test]
fn empty_blocked_value_is_empty_list() {
    let text = cv("rows:3\ncols:3\nini:(0,0)\nend:(2,2)\nblocked:\npaths:\n");
    let d = load(&text).unwrap();
    assert_eq!(d.blocked, Vec::<Point>::new());
    assert_eq!(d.frames, Vec::<Vec<Point>>::new());
}

#[test]
fn line_without_colon_is_malformed() {
    let text = cv("foo");
    assert_eq!(
        load(&text),
        Err(LoadError::AtLine { line: 0, error: ParseError::MalformedLine })
    );
}

#[test]
fn blank_line_is_malformed() {
    let text = cv("rows:3\n\ncols:3\n");
    assert_eq!(
        load(&text),
        Err(LoadError::AtLine { line: 1, error: ParseError::MalformedLine })
    );
}

#[test]
fn two_colons_are_malformed() {
    let text = cv("rows:5:6");
    assert_eq!(
        load(&text),
        Err(LoadError::AtLine { line: 0, error: ParseError::MalformedLine })
    );
}

#[test]
fn unknown_key_is_rejected() {
    let text = cv("color:blue");
    assert_eq!(
        load(&text),
        Err(LoadError::AtLine { line: 0, error: ParseError::UnknownKey })
    );
}

#[test]
fn equal_start_and_goal_are_invalid() {
    let text = cv("rows:3\ncols:3\nini:(0,0)\nend:(0,0)\nblocked:\npaths:\n");
    match load(&text) {
        Err(LoadError::InvalidScenario { snapshot }) => {
            assert_eq!(snapshot.rows, 3);
            assert_eq!(snapshot.start, snapshot.goal);
        },
        other => panic!("expected InvalidScenario, got {:?}", other),
    }
}

#[test]
fn trailing_characters_after_number() {
    let text = cv("rows:5extra");
    assert_eq!(
        load(&text),
        Err(LoadError::AtLine { line: 0, error: ParseError::TrailingCharacters })
    );
}

#[test]
fn trailing_characters_after_point() {
    let text = cv("ini:(0,0)x");
    assert_eq!(
        load(&text),
        Err(LoadError::AtLine { line: 0, error: ParseError::TrailingCharacters })
    );
}

#[test]
fn invalid_number_in_rows() {
    let text = cv("rows:abc");
    assert_eq!(
        load(&text),
        Err(LoadError::AtLine { line: 0, error: ParseError::InvalidNumber })
    );
}

#[test]
fn truncated_point_reports_end_of_input() {
    let text = cv("ini:(0");
    assert_eq!(
        load(&text),
        Err(LoadError::AtLine { line: 0, error: ParseError::UnexpectedEndOfInput })
    );
}

#[test]
fn error_carries_line_index() {
    let text = cv("rows:3\ncols:oops\n");
    assert_eq!(
        load(&text),
        Err(LoadError::AtLine { line: 1, error: ParseError::InvalidNumber })
    );
}

#[test]
fn later_key_overwrites_earlier() {
    let text = cv("rows:9\nrows:3\ncols:3\nini:(0,0)\nend:(2,2)\nblocked:\npaths:\n");
    let d = load(&text).unwrap();
    assert_eq!(d.rows, 3);
}

#[test]
fn whitespace_around_key_and_value_is_ignored() {
    let text = cv("  rows  :  3  \ncols: 3\nini: ( 0 , 0 )\nend: (2,2)\nblocked:\npaths:\n");
    let d = load(&text).unwrap();
    assert_eq!(d.rows, 3);
    assert_eq!(d.start, Point { x: 0, y: 0 });
}

#[test]
fn empty_text_is_invalid_scenario() {
    let text = cv("");
    match load(&text) {
        Err(LoadError::InvalidScenario { snapshot }) => {
            assert_eq!(snapshot, ScenarioDescriptor::empty());
        },
        other => panic!("expected InvalidScenario, got {:?}", other),
    }
}

#[test]
fn zero_rows_is_invalid_scenario() {
    let text = cv("rows:0\ncols:3\nini:(0,0)\nend:(2,2)\nblocked:\npaths:\n");
    assert!(matches!(load(&text), Err(LoadError::InvalidScenario { .. })));
}

#[test]
fn descriptor_validity() {
    let d = example_descriptor();
    assert!(d.is_valid());
    assert!(!ScenarioDescriptor::empty().is_valid());
}

#[test]
fn point_is_equal_compares_coordinates() {
    let p = Point { x: 1, y: 2 };
    assert!(p.is_equal(1, 2));
    assert!(!p.is_equal(2, 1));
}
