use grid_scenario::loader::load;
use grid_scenario::scenario::{Point, ScenarioDescriptor};
use grid_scenario::text::{points_text, to_text};

fn cs(v: &[char]) -> String {
    v.iter().collect()
}

fn sample() -> ScenarioDescriptor {
    ScenarioDescriptor {
        rows: 3,
        cols: 3,
        start: Point { x: 0, y: 0 },
        goal: Point { x: 2, y: 2 },
        blocked: vec![Point { x: 1, y: 1 }],
        frames: vec![
            vec![Point { x: 0, y: 0 }, Point { x: 0, y: 1 }],
            vec![Point { x: 0, y: 1 }, Point { x: 0, y: 2 }],
        ],
    }
}

#[test]
fn to_text_writes_the_file_grammar() {
    let d = sample();
    assert_eq!(
        cs(&to_text(&d)),
        "rows:3\ncols:3\nini:(0,0)\nend:(2,2)\nblocked:(1,1)\npaths:[(0,0)(0,1)][(0,1)(0,2)]\n"
    );
}

#[test]
fn round_trip_restores_the_descriptor() {
    let d = sample();
    let text = to_text(&d);
    assert_eq!(load(&text), Ok(d));
}

#[test]
fn round_trip_with_large_values() {
    let d = ScenarioDescriptor {
        rows: u32::MAX,
        cols: 1,
        start: Point { x: 4294967295, y: 0 },
        goal: Point { x: 0, y: 1000000007 },
        blocked: vec![],
        frames: vec![vec![], vec![Point { x: 10, y: 20 }]],
    };
    let text = to_text(&d);
    assert_eq!(load(&text), Ok(d));
}

#[test]
fn points_text_concatenates_points() {
    let ps = vec![Point { x: 1, y: 1 }, Point { x: 12, y: 345 }];
    assert_eq!(cs(&points_text(&ps)), "(1,1)(12,345)");
    assert_eq!(cs(&points_text(&vec![])), "");
}

#[test]
fn blocked_text_matches_points_text() {
    let d = sample();
    assert_eq!(cs(&d.blocked_text()), "(1,1)");
}

#[test]
fn paths_text_brackets_each_frame() {
    let d = sample();
    assert_eq!(cs(&d.paths_text()), "[(0,0)(0,1)][(0,1)(0,2)]");
}

#[test]
fn summary_text_lists_all_fields() {
    let d = sample();
    assert_eq!(
        cs(&d.summary_text()),
        "{rows:3,cols:3,ini:(0,0),end:(2,2),blocked:(1,1),paths:[(0,0)(0,1)][(0,1)(0,2)]}"
    );
}
