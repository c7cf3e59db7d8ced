//! The line dispatcher and the load pipeline: split each line at its colon,
//! route the value to the sub-parser its key selects, require the value to
//! be consumed completely, accumulate the fields, and validate once at the
//! end.

use vstd::prelude::*;
use crate::error::{LoadError, LoadErrorModel, ParseError};
use crate::lines::{
    count_char, copy_range, find_char, lemma_find_char_at, line_views, spec_lines, spec_trim,
    split_lines, trim_range,
};
use crate::parse::{
    frame_views, parse_frames, parse_point, parse_points, spec_parse_frames, spec_parse_point,
    spec_parse_points,
};
use crate::scan::{scan_number, spec_scan_number};
use crate::scenario::{Point, ScenarioDescriptor, ScenarioModel};

verus! {

/// The closed set of recognized line keys.
#[derive(Clone, Copy, Debug, PartialEq, Eq, Structural)]
pub enum Key {
    Rows,
    Cols,
    Ini,
    End,
    Blocked,
    Paths,
}

/// The characters a key is written with in the file.
pub open spec fn key_chars(k: Key) -> Seq<char> {
    match k {
        Key::Rows => seq!['r', 'o', 'w', 's'],
        Key::Cols => seq!['c', 'o', 'l', 's'],
        Key::Ini => seq!['i', 'n', 'i'],
        Key::End => seq!['e', 'n', 'd'],
        Key::Blocked => seq!['b', 'l', 'o', 'c', 'k', 'e', 'd'],
        Key::Paths => seq!['p', 'a', 't', 'h', 's'],
    }
}

/// The key a trimmed key string denotes, if any.
pub open spec fn spec_key_of(s: Seq<char>) -> Option<Key> {
    if s == key_chars(Key::Rows) {
        Some(Key::Rows)
    } else if s == key_chars(Key::Cols) {
        Some(Key::Cols)
    } else if s == key_chars(Key::Ini) {
        Some(Key::Ini)
    } else if s == key_chars(Key::End) {
        Some(Key::End)
    } else if s == key_chars(Key::Blocked) {
        Some(Key::Blocked)
    } else if s == key_chars(Key::Paths) {
        Some(Key::Paths)
    } else {
        None
    }
}

/// Recognizes the key written in `s` between `a` and `b`.
fn key_of(s: &Vec<char>, a: usize, b: usize) -> (r: Option<Key>)
    requires
        a <= b <= s@.len(),
    ensures
        r == spec_key_of(s@.subrange(a as int, b as int)),
{
    let ghost k = s@.subrange(a as int, b as int);
    let n = b - a;
    if n == 4 && s[a] == 'r' && s[a + 1] == 'o' && s[a + 2] == 'w' && s[a + 3] == 's' {
        proof {
            assert(k =~= key_chars(Key::Rows));
        }
        Some(Key::Rows)
    } else if n == 4 && s[a] == 'c' && s[a + 1] == 'o' && s[a + 2] == 'l' && s[a + 3] == 's' {
        proof {
            assert(k =~= key_chars(Key::Cols));
        }
        Some(Key::Cols)
    } else if n == 3 && s[a] == 'i' && s[a + 1] == 'n' && s[a + 2] == 'i' {
        proof {
            assert(k =~= key_chars(Key::Ini));
        }
        Some(Key::Ini)
    } else if n == 3 && s[a] == 'e' && s[a + 1] == 'n' && s[a + 2] == 'd' {
        proof {
            assert(k =~= key_chars(Key::End));
        }
        Some(Key::End)
    } else if n == 7 && s[a] == 'b' && s[a + 1] == 'l' && s[a + 2] == 'o' && s[a + 3] == 'c'
        && s[a + 4] == 'k' && s[a + 5] == 'e' && s[a + 6] == 'd' {
        proof {
            assert(k =~= key_chars(Key::Blocked));
        }
        Some(Key::Blocked)
    } else if n == 5 && s[a] == 'p' && s[a + 1] == 'a' && s[a + 2] == 't' && s[a + 3] == 'h'
        && s[a + 4] == 's' {
        proof {
            assert(k =~= key_chars(Key::Paths));
        }
        Some(Key::Paths)
    } else {
        proof {
            assert(k.len() == n);
        }
        None
    }
}

/// The field update a key performs on the accumulated scenario, after its
/// sub-parser consumed the whole trimmed value.
pub open spec fn spec_apply_key(k: Key, val: Seq<char>, m: ScenarioModel) -> Result<
    ScenarioModel,
    ParseError,
> {
    match k {
        Key::Rows => match spec_scan_number(val, 0) {
            Err(e) => Err(e),
            Ok((p, n)) => if p == val.len() {
                Ok(ScenarioModel { rows: n, ..m })
            } else {
                Err(ParseError::TrailingCharacters)
            },
        },
        Key::Cols => match spec_scan_number(val, 0) {
            Err(e) => Err(e),
            Ok((p, n)) => if p == val.len() {
                Ok(ScenarioModel { cols: n, ..m })
            } else {
                Err(ParseError::TrailingCharacters)
            },
        },
        Key::Ini => match spec_parse_point(val, 0) {
            Err(e) => Err(e),
            Ok((p, pt)) => if p == val.len() {
                Ok(ScenarioModel { start: pt, ..m })
            } else {
                Err(ParseError::TrailingCharacters)
            },
        },
        Key::End => match spec_parse_point(val, 0) {
            Err(e) => Err(e),
            Ok((p, pt)) => if p == val.len() {
                Ok(ScenarioModel { goal: pt, ..m })
            } else {
                Err(ParseError::TrailingCharacters)
            },
        },
        Key::Blocked => match spec_parse_points(val, 0) {
            Err(e) => Err(e),
            Ok((p, ps)) => if p == val.len() {
                Ok(ScenarioModel { blocked: ps, ..m })
            } else {
                Err(ParseError::TrailingCharacters)
            },
        },
        Key::Paths => match spec_parse_frames(val, 0) {
            Err(e) => Err(e),
            Ok((p, fs)) => if p == val.len() {
                Ok(ScenarioModel { frames: fs, ..m })
            } else {
                Err(ParseError::TrailingCharacters)
            },
        },
    }
}

/// What one line does to the accumulated scenario: split at the single
/// colon, trim both sides, look the key up, run its sub-parser over the
/// whole trimmed value.
pub open spec fn spec_parse_line(line: Seq<char>, m: ScenarioModel) -> Result<
    ScenarioModel,
    ParseError,
> {
    if count_char(line, ':') != 1 {
        Err(ParseError::MalformedLine)
    } else {
        let c = find_char(line, ':');
        let key = spec_trim(line.subrange(0, c));
        let val = spec_trim(line.subrange(c + 1, line.len() as int));
        match spec_key_of(key) {
            None => Err(ParseError::UnknownKey),
            Some(k) => spec_apply_key(k, val, m),
        }
    }
}

/// Counts the colons of `line` and finds the first one.
fn find_colon(line: &Vec<char>) -> (r: (usize, usize))
    ensures
        r.0 as int == count_char(line@, ':'),
        r.0 == 1 ==> r.1 as int == find_char(line@, ':') && r.1 < line@.len(),
{
    let mut cnt: usize = 0;
    let mut first: usize = line.len();
    let mut i: usize = 0;
    while i < line.len()
        invariant
            i <= line@.len(),
            cnt <= i,
            cnt as int == count_char(line@.subrange(0, i as int), ':'),
            cnt == 0 ==> first == line@.len() && forall|k: int| 0 <= k < i ==> line@[k] != ':',
            cnt > 0 ==> first < i && line@[first as int] == ':' && forall|k: int|
                0 <= k < first ==> line@[k] != ':',
        decreases line@.len() - i,
    {
        proof {
            assert(line@.subrange(0, i + 1).drop_last() =~= line@.subrange(0, i as int));
        }
        if line[i] == ':' {
            cnt = cnt + 1;
            if cnt == 1 {
                first = i;
            }
        }
        i = i + 1;
    }
    proof {
        assert(line@.subrange(0, line@.len() as int) =~= line@);
        if cnt == 1 {
            lemma_find_char_at(line@, ':', first as int);
        }
    }
    (cnt, first)
}

/// Parses one `key ":" value` line and assigns the parsed field; on any
/// failure the descriptor is left unchanged.
pub fn parse_line(line: &Vec<char>, d: &mut ScenarioDescriptor) -> (r: Result<(), ParseError>)
    ensures
        match r {
            Ok(_) => spec_parse_line(line@, old(d)@) == Ok::<ScenarioModel, ParseError>(
                final(d)@,
            ),
            Err(e) => spec_parse_line(line@, old(d)@) == Err::<ScenarioModel, ParseError>(e)
                && final(d)@ == old(d)@,
        },
{
    let (cnt, c) = find_colon(line);
    if cnt != 1 {
        return Err(ParseError::MalformedLine);
    }
    let len = line.len();
    assert(c < len);
    let (ka, kb) = trim_range(line, 0, c);
    let key = match key_of(line, ka, kb) {
        Some(k) => k,
        None => { return Err(ParseError::UnknownKey); },
    };
    let (va, vb) = trim_range(line, c + 1, len);
    let val = copy_range(line, va, vb);
    let ghost m0 = d@;
    match key {
        Key::Rows => {
            let (p, n) = match scan_number(&val, 0) {
                Ok(v) => v,
                Err(e) => { return Err(e); },
            };
            if p != val.len() {
                return Err(ParseError::TrailingCharacters);
            }
            d.rows = n;
            proof {
                assert(d@ =~= ScenarioModel { rows: n, ..m0 });
            }
            Ok(())
        },
        Key::Cols => {
            let (p, n) = match scan_number(&val, 0) {
                Ok(v) => v,
                Err(e) => { return Err(e); },
            };
            if p != val.len() {
                return Err(ParseError::TrailingCharacters);
            }
            d.cols = n;
            proof {
                assert(d@ =~= ScenarioModel { cols: n, ..m0 });
            }
            Ok(())
        },
        Key::Ini => {
            let (p, pt) = match parse_point(&val, 0) {
                Ok(v) => v,
                Err(e) => { return Err(e); },
            };
            if p != val.len() {
                return Err(ParseError::TrailingCharacters);
            }
            d.start = pt;
            proof {
                assert(d@ =~= ScenarioModel { start: pt, ..m0 });
            }
            Ok(())
        },
        Key::End => {
            let (p, pt) = match parse_point(&val, 0) {
                Ok(v) => v,
                Err(e) => { return Err(e); },
            };
            if p != val.len() {
                return Err(ParseError::TrailingCharacters);
            }
            d.goal = pt;
            proof {
                assert(d@ =~= ScenarioModel { goal: pt, ..m0 });
            }
            Ok(())
        },
        Key::Blocked => {
            let (p, ps) = match parse_points(&val, 0) {
                Ok(v) => v,
                Err(e) => { return Err(e); },
            };
            if p != val.len() {
                return Err(ParseError::TrailingCharacters);
            }
            d.blocked = ps;
            proof {
                assert(d@ =~= ScenarioModel { blocked: d.blocked@, ..m0 });
            }
            Ok(())
        },
        Key::Paths => {
            let (p, fs) = match parse_frames(&val, 0) {
                Ok(v) => v,
                Err(e) => { return Err(e); },
            };
            if p != val.len() {
                return Err(ParseError::TrailingCharacters);
            }
            let ghost fviews = frame_views(fs@);
            d.frames = fs;
            proof {
                assert(d@ =~= ScenarioModel { frames: fviews, ..m0 });
            }
            Ok(())
        },
    }
}

/// What a sequence of lines does to the accumulated scenario, starting at
/// line index `base`: the first failure aborts with its line index.
pub open spec fn spec_run_lines(
    ls: Seq<Seq<char>>,
    m: ScenarioModel,
    base: int,
) -> Result<ScenarioModel, LoadErrorModel>
    decreases ls.len()
{
    if ls.len() == 0 {
        Ok(m)
    } else {
        match spec_parse_line(ls[0], m) {
            Err(e) => Err(LoadErrorModel::AtLine { line: base, error: e }),
            Ok(m2) => spec_run_lines(ls.drop_first(), m2, base + 1),
        }
    }
}

/// What loading a whole input text yields: run every line over the all-zero
/// initial scenario, then check the structural invariant.
pub open spec fn spec_load(text: Seq<char>) -> Result<ScenarioModel, LoadErrorModel> {
    match spec_run_lines(spec_lines(text), ScenarioModel::init(), 0) {
        Err(e) => Err(e),
        Ok(m) => if m.valid() {
            Ok(m)
        } else {
            Err(LoadErrorModel::InvalidScenario { snapshot: m })
        },
    }
}

/// Loads a scenario from raw text: single pass, strictly fail-fast, and the
/// returned descriptor satisfies the structural invariant.
pub fn load(text: &Vec<char>) -> (r: Result<ScenarioDescriptor, LoadError>)
    ensures
        match r {
            Ok(d) => spec_load(text@) == Ok::<ScenarioModel, LoadErrorModel>(d@) && d@.valid(),
            Err(e) => spec_load(text@) == Err::<ScenarioModel, LoadErrorModel>(e@),
        },
{
    let lines = split_lines(text);
    let ghost all = line_views(lines@);
    let mut d = ScenarioDescriptor::empty();
    let mut k: usize = 0;
    proof {
        assert(all.subrange(0, all.len() as int) =~= all);
    }
    while k < lines.len()
        invariant
            k <= lines@.len(),
            all == line_views(lines@),
            all == spec_lines(text@),
            spec_run_lines(all, ScenarioModel::init(), 0) == spec_run_lines(
                all.subrange(k as int, all.len() as int),
                d@,
                k as int,
            ),
        decreases lines@.len() - k,
    {
        let ghost rest = all.subrange(k as int, all.len() as int);
        let ghost dpre = d@;
        proof {
            assert(rest[0] == lines@[k as int]@);
            assert(rest.drop_first() =~= all.subrange(k + 1, all.len() as int));
        }
        match parse_line(&lines[k], &mut d) {
            Ok(_) => {
                proof {
                    assert(spec_run_lines(rest, dpre, k as int) == spec_run_lines(
                        rest.drop_first(),
                        d@,
                        k + 1,
                    ));
                }
            },
            Err(e) => {
                proof {
                    assert(spec_run_lines(rest, dpre, k as int)
                        == Err::<ScenarioModel, LoadErrorModel>(LoadErrorModel::AtLine {
                        line: k as int,
                        error: e,
                    }));
                    assert(spec_run_lines(all, ScenarioModel::init(), 0)
                        == Err::<ScenarioModel, LoadErrorModel>(LoadErrorModel::AtLine {
                        line: k as int,
                        error: e,
                    }));
                    assert(spec_lines(text@) == all);
                    assert(spec_load(text@) == Err::<ScenarioModel, LoadErrorModel>(
                        LoadErrorModel::AtLine { line: k as int, error: e },
                    ));
                    assert((LoadError::AtLine { line: k, error: e })@
                        == LoadErrorModel::AtLine { line: k as int, error: e });
                }
                return Err(LoadError::AtLine { line: k, error: e });
            },
        }
        k = k + 1;
    }
    proof {
        assert(all.subrange(k as int, all.len() as int) =~= Seq::<Seq<char>>::empty());
    }
    if d.is_valid() {
        Ok(d)
    } else {
        Err(LoadError::InvalidScenario { snapshot: d })
    }
}

} // verus!
