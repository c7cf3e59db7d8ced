//! The recursive grammar parsers: a point `(x,y)`, a point list, and a
//! bracketed frame list, composed from the cursor primitives.

use vstd::prelude::*;
use crate::error::ParseError;
use crate::scan::{
    expect_char, lemma_skip_ws, scan_number, skip_whitespace, spec_expect, spec_scan_number,
    spec_skip_ws,
};
use crate::scenario::Point;

verus! {

/// Result of parsing `'(' number ',' number ')'` at `i`: position after the
/// closing parenthesis and the point, or the first sub-parser failure.
pub open spec fn spec_parse_point(s: Seq<char>, i: int) -> Result<(int, Point), ParseError> {
    match spec_expect(s, i, '(') {
        Err(e) => Err(e),
        Ok(i1) => match spec_scan_number(s, i1) {
            Err(e) => Err(e),
            Ok((i2, x)) => match spec_expect(s, i2, ',') {
                Err(e) => Err(e),
                Ok(i3) => match spec_scan_number(s, i3) {
                    Err(e) => Err(e),
                    Ok((i4, y)) => match spec_expect(s, i4, ')') {
                        Err(e) => Err(e),
                        Ok(i5) => Ok((i5, Point { x, y })),
                    },
                },
            },
        },
    }
}

/// Result of parsing a possibly empty point list at `i`: points are read as
/// long as the next non-space character is `'('`; zero points is valid.
pub open spec fn spec_parse_points(s: Seq<char>, i: int) -> Result<(int, Seq<Point>), ParseError>
    decreases s.len() - i when 0 <= i <= s.len()
{
    let w = spec_skip_ws(s, i);
    if i <= w && w < s.len() && s[w] == '(' {
        match spec_parse_point(s, w) {
            Err(e) => Err(e),
            Ok((j, p)) => if w < j <= s.len() {
                match spec_parse_points(s, j) {
                    Err(e) => Err(e),
                    Ok((k, ps)) => Ok((k, seq![p] + ps)),
                }
            } else {
                // parse_point always moves the cursor forward within bounds,
                // so this branch is unreachable
                Err(ParseError::UnexpectedToken)
            },
        }
    } else {
        Ok((w, Seq::empty()))
    }
}

/// Result of parsing a possibly empty frame list at `i`: frames
/// `'[' points ']'` are read as long as the next non-space character is
/// `'['`; zero frames is valid.
pub open spec fn spec_parse_frames(s: Seq<char>, i: int) -> Result<
    (int, Seq<Seq<Point>>),
    ParseError,
>
    decreases s.len() - i when 0 <= i <= s.len()
{
    let w = spec_skip_ws(s, i);
    if i <= w && w < s.len() && s[w] == '[' {
        match spec_parse_points(s, w + 1) {
            Err(e) => Err(e),
            Ok((j, ps)) => match spec_expect(s, j, ']') {
                Err(e) => Err(e),
                Ok(k) => if w < k <= s.len() {
                    match spec_parse_frames(s, k) {
                        Err(e) => Err(e),
                        Ok((m, fs)) => Ok((m, seq![ps] + fs)),
                    }
                } else {
                    // the closing bracket is past the opening one, so this
                    // branch is unreachable
                    Err(ParseError::UnexpectedToken)
                },
            },
        }
    } else {
        Ok((w, Seq::empty()))
    }
}

/// Parses `'(' number ',' number ')'`, each sub-token allowed leading white
/// space; no partial point is ever returned.
pub fn parse_point(s: &Vec<char>, pos: usize) -> (r: Result<(usize, Point), ParseError>)
    requires
        pos <= s@.len(),
    ensures
        match r {
            Ok((p, pt)) => spec_parse_point(s@, pos as int) == Ok::<(int, Point), ParseError>((
                p as int,
                pt,
            )) && pos < p <= s@.len(),
            Err(e) => spec_parse_point(s@, pos as int) == Err::<(int, Point), ParseError>(e),
        },
{
    let i1 = match expect_char(s, pos, '(') {
        Ok(p) => p,
        Err(e) => { return Err(e); },
    };
    let (i2, x) = match scan_number(s, i1) {
        Ok(v) => v,
        Err(e) => { return Err(e); },
    };
    let i3 = match expect_char(s, i2, ',') {
        Ok(p) => p,
        Err(e) => { return Err(e); },
    };
    let (i4, y) = match scan_number(s, i3) {
        Ok(v) => v,
        Err(e) => { return Err(e); },
    };
    let i5 = match expect_char(s, i4, ')') {
        Ok(p) => p,
        Err(e) => { return Err(e); },
    };
    Ok((i5, Point { x, y }))
}

/// Repeatedly skips white space and parses a point while the lookahead is
/// `'('`; stops at the first other character. Zero points is valid.
pub fn parse_points(s: &Vec<char>, pos: usize) -> (r: Result<(usize, Vec<Point>), ParseError>)
    requires
        pos <= s@.len(),
    ensures
        match r {
            Ok((p, ps)) => spec_parse_points(s@, pos as int) == Ok::<
                (int, Seq<Point>),
                ParseError,
            >((p as int, ps@)) && pos <= p <= s@.len(),
            Err(e) => spec_parse_points(s@, pos as int) == Err::<(int, Seq<Point>), ParseError>(e),
        },
{
    let mut points: Vec<Point> = Vec::new();
    let mut i = skip_whitespace(s, pos);
    proof {
        lemma_skip_ws_idempotent(s@, pos as int);
        lemma_points_from_init(s@, pos as int);
    }
    while i < s.len() && s[i] == '('
        invariant
            pos <= i <= s@.len(),
            spec_skip_ws(s@, i as int) == i,
            spec_points_from(s@, pos as int, i as int, points@),
        decreases s@.len() - i,
    {
        let (j, p) = match parse_point(s, i) {
            Ok(v) => v,
            Err(e) => {
                proof {
                    lemma_points_from_err(s@, pos as int, i as int, points@, e);
                }
                return Err(e);
            },
        };
        proof {
            lemma_points_from_step(s@, pos as int, i as int, j as int, points@, p);
        }
        points.push(p);
        i = skip_whitespace(s, j);
        proof {
            lemma_skip_ws(s@, j as int);
            lemma_skip_ws_idempotent(s@, j as int);
        }
    }
    proof {
        lemma_points_from_done(s@, pos as int, i as int, points@);
    }
    Ok((i, points))
}

/// Repeatedly skips white space and, while the lookahead is `'['`, consumes
/// `'['`, parses a point list, consumes `']'`, and appends the list as one
/// frame. Zero frames is valid.
pub fn parse_frames(s: &Vec<char>, pos: usize) -> (r: Result<
    (usize, Vec<Vec<Point>>),
    ParseError,
>)
    requires
        pos <= s@.len(),
    ensures
        match r {
            Ok((p, fs)) => spec_parse_frames(s@, pos as int) == Ok::<
                (int, Seq<Seq<Point>>),
                ParseError,
            >((p as int, frame_views(fs@))) && pos <= p <= s@.len(),
            Err(e) => spec_parse_frames(s@, pos as int) == Err::<
                (int, Seq<Seq<Point>>),
                ParseError,
            >(e),
        },
{
    let mut frames: Vec<Vec<Point>> = Vec::new();
    let mut i = skip_whitespace(s, pos);
    proof {
        lemma_skip_ws_idempotent(s@, pos as int);
        lemma_frames_from_init(s@, pos as int);
        assert(frame_views(frames@) =~= Seq::<Seq<Point>>::empty());
    }
    while i < s.len() && s[i] == '['
        invariant
            pos <= i <= s@.len(),
            spec_skip_ws(s@, i as int) == i,
            spec_frames_from(s@, pos as int, i as int, frame_views(frames@)),
        decreases s@.len() - i,
    {
        let (j, ps) = match parse_points(s, i + 1) {
            Ok(v) => v,
            Err(e) => {
                proof {
                    lemma_frames_from_err_points(s@, pos as int, i as int, frame_views(frames@), e);
                }
                return Err(e);
            },
        };
        let k = match expect_char(s, j, ']') {
            Ok(p) => p,
            Err(e) => {
                proof {
                    lemma_frames_from_err_close(
                        s@,
                        pos as int,
                        i as int,
                        j as int,
                        ps@,
                        frame_views(frames@),
                        e,
                    );
                }
                return Err(e);
            },
        };
        proof {
            lemma_frames_from_step(
                s@,
                pos as int,
                i as int,
                j as int,
                k as int,
                frame_views(frames@),
                ps@,
            );
            assert(frame_views(frames@.push(ps)) =~= frame_views(frames@).push(ps@));
        }
        frames.push(ps);
        i = skip_whitespace(s, k);
        proof {
            lemma_skip_ws_idempotent(s@, k as int);
        }
    }
    proof {
        lemma_frames_from_done(s@, pos as int, i as int, frame_views(frames@));
    }
    Ok((i, frames))
}

/// The sequence of views of a vector of frames.
pub open spec fn frame_views(fs: Seq<Vec<Point>>) -> Seq<Seq<Point>> {
    Seq::new(fs.len(), |i: int| fs[i]@)
}

/// `spec_parse_frames(s, pos)` equals `acc` followed by whatever parsing
/// yields from `i`; the loop invariant of [`parse_frames`].
pub open spec fn spec_frames_from(s: Seq<char>, pos: int, i: int, acc: Seq<Seq<Point>>) -> bool {
    &&& 0 <= pos <= i <= s.len()
    &&& spec_parse_frames(s, pos) == match spec_parse_frames(s, i) {
        Ok((k, fs)) => Ok::<(int, Seq<Seq<Point>>), ParseError>((k, acc + fs)),
        Err(e) => Err::<(int, Seq<Seq<Point>>), ParseError>(e),
    }
}

/// Parsing a frame list from `i` and from the space-skipped position agree.
proof fn lemma_parse_frames_skip(s: Seq<char>, i: int, w: int)
    requires
        0 <= i <= s.len(),
        w == spec_skip_ws(s, i),
    ensures
        spec_parse_frames(s, i) == spec_parse_frames(s, w),
{
    lemma_skip_ws(s, i);
    lemma_skip_ws_idempotent(s, i);
}

proof fn lemma_frames_from_init(s: Seq<char>, pos: int)
    requires
        0 <= pos <= s.len(),
    ensures
        spec_frames_from(s, pos, spec_skip_ws(s, pos), Seq::empty()),
{
    lemma_skip_ws(s, pos);
    let w = spec_skip_ws(s, pos);
    lemma_parse_frames_skip(s, pos, w);
    match spec_parse_frames(s, w) {
        Ok((k, fs)) => {
            assert(Seq::<Seq<Point>>::empty() + fs =~= fs);
        },
        Err(_) => {},
    }
}

proof fn lemma_frames_from_err_points(
    s: Seq<char>,
    pos: int,
    i: int,
    acc: Seq<Seq<Point>>,
    e: ParseError,
)
    requires
        spec_frames_from(s, pos, i, acc),
        spec_skip_ws(s, i) == i,
        i < s.len(),
        s[i] == '[',
        spec_parse_points(s, i + 1) == Err::<(int, Seq<Point>), ParseError>(e),
    ensures
        spec_parse_frames(s, pos) == Err::<(int, Seq<Seq<Point>>), ParseError>(e),
{
}

proof fn lemma_frames_from_err_close(
    s: Seq<char>,
    pos: int,
    i: int,
    j: int,
    ps: Seq<Point>,
    acc: Seq<Seq<Point>>,
    e: ParseError,
)
    requires
        spec_frames_from(s, pos, i, acc),
        spec_skip_ws(s, i) == i,
        i < s.len(),
        s[i] == '[',
        spec_parse_points(s, i + 1) == Ok::<(int, Seq<Point>), ParseError>((j, ps)),
        0 <= j <= s.len(),
        spec_expect(s, j, ']') == Err::<int, ParseError>(e),
    ensures
        spec_parse_frames(s, pos) == Err::<(int, Seq<Seq<Point>>), ParseError>(e),
{
}

proof fn lemma_frames_from_step(
    s: Seq<char>,
    pos: int,
    i: int,
    j: int,
    k: int,
    acc: Seq<Seq<Point>>,
    ps: Seq<Point>,
)
    requires
        spec_frames_from(s, pos, i, acc),
        spec_skip_ws(s, i) == i,
        i < s.len(),
        s[i] == '[',
        spec_parse_points(s, i + 1) == Ok::<(int, Seq<Point>), ParseError>((j, ps)),
        i < j <= s.len(),
        spec_expect(s, j, ']') == Ok::<int, ParseError>(k),
        j < k <= s.len(),
    ensures
        spec_frames_from(s, pos, spec_skip_ws(s, k), acc.push(ps)),
{
    lemma_skip_ws(s, k);
    let w = spec_skip_ws(s, k);
    lemma_skip_ws_idempotent(s, k);
    assert(spec_parse_frames(s, k) == spec_parse_frames(s, w)) by {
        lemma_parse_frames_skip(s, k, w);
    }
    match spec_parse_frames(s, w) {
        Ok((m, fs)) => {
            assert(spec_parse_frames(s, i) == Ok::<(int, Seq<Seq<Point>>), ParseError>((
                m,
                seq![ps] + fs,
            )));
            assert(acc + (seq![ps] + fs) =~= acc.push(ps) + fs);
        },
        Err(_) => {},
    }
}

proof fn lemma_frames_from_done(s: Seq<char>, pos: int, i: int, acc: Seq<Seq<Point>>)
    requires
        spec_frames_from(s, pos, i, acc),
        spec_skip_ws(s, i) == i,
        i == s.len() || s[i] != '[',
    ensures
        spec_parse_frames(s, pos) == Ok::<(int, Seq<Seq<Point>>), ParseError>((i, acc)),
{
    assert(spec_parse_frames(s, i) == Ok::<(int, Seq<Seq<Point>>), ParseError>((
        i,
        Seq::empty(),
    )));
    assert(acc + Seq::<Seq<Point>>::empty() =~= acc);
}

/// `spec_parse_points(s, pos)` equals `acc` followed by whatever parsing
/// yields from `i`; the loop invariant of [`parse_points`].
pub open spec fn spec_points_from(s: Seq<char>, pos: int, i: int, acc: Seq<Point>) -> bool {
    &&& 0 <= pos <= i <= s.len()
    &&& spec_parse_points(s, pos) == match spec_parse_points(s, i) {
        Ok((k, ps)) => Ok::<(int, Seq<Point>), ParseError>((k, acc + ps)),
        Err(e) => Err::<(int, Seq<Point>), ParseError>(e),
    }
}

proof fn lemma_points_from_init(s: Seq<char>, pos: int)
    requires
        0 <= pos <= s.len(),
    ensures
        spec_points_from(s, pos, spec_skip_ws(s, pos), Seq::empty()),
{
    lemma_skip_ws(s, pos);
    let w = spec_skip_ws(s, pos);
    lemma_parse_points_skip(s, pos, w);
    match spec_parse_points(s, w) {
        Ok((k, ps)) => {
            assert(Seq::<Point>::empty() + ps =~= ps);
        },
        Err(_) => {},
    }
}

proof fn lemma_skip_ws_idempotent(s: Seq<char>, i: int)
    requires
        0 <= i <= s.len(),
    ensures
        spec_skip_ws(s, spec_skip_ws(s, i)) == spec_skip_ws(s, i),
{
    lemma_skip_ws(s, i);
}

proof fn lemma_points_from_err(s: Seq<char>, pos: int, i: int, acc: Seq<Point>, e: ParseError)
    requires
        spec_points_from(s, pos, i, acc),
        spec_skip_ws(s, i) == i,
        i < s.len(),
        s[i] == '(',
        spec_parse_point(s, i) == Err::<(int, Point), ParseError>(e),
    ensures
        spec_parse_points(s, pos) == Err::<(int, Seq<Point>), ParseError>(e),
{
}

proof fn lemma_points_from_step(
    s: Seq<char>,
    pos: int,
    i: int,
    j: int,
    acc: Seq<Point>,
    p: Point,
)
    requires
        spec_points_from(s, pos, i, acc),
        spec_skip_ws(s, i) == i,
        i < s.len(),
        s[i] == '(',
        i < j <= s.len(),
        spec_parse_point(s, i) == Ok::<(int, Point), ParseError>((j, p)),
    ensures
        spec_points_from(s, pos, spec_skip_ws(s, j), acc.push(p)),
{
    lemma_skip_ws(s, j);
    let w = spec_skip_ws(s, j);
    lemma_skip_ws_idempotent(s, j);
    assert(spec_parse_points(s, j) == spec_parse_points(s, w)) by {
        lemma_parse_points_skip(s, j, w);
    }
    match spec_parse_points(s, w) {
        Ok((k, ps)) => {
            assert(spec_parse_points(s, i) == Ok::<(int, Seq<Point>), ParseError>((
                k,
                seq![p] + ps,
            )));
            assert(acc + (seq![p] + ps) =~= acc.push(p) + ps);
        },
        Err(_) => {},
    }
}

/// Parsing a point list from `i` and from the space-skipped position agree.
proof fn lemma_parse_points_skip(s: Seq<char>, i: int, w: int)
    requires
        0 <= i <= s.len(),
        w == spec_skip_ws(s, i),
    ensures
        spec_parse_points(s, i) == spec_parse_points(s, w),
{
    lemma_skip_ws(s, i);
    lemma_skip_ws_idempotent(s, i);
}

proof fn lemma_points_from_done(s: Seq<char>, pos: int, i: int, acc: Seq<Point>)
    requires
        spec_points_from(s, pos, i, acc),
        spec_skip_ws(s, i) == i,
        i == s.len() || s[i] != '(',
    ensures
        spec_parse_points(s, pos) == Ok::<(int, Seq<Point>), ParseError>((i, acc)),
{
    assert(spec_parse_points(s, i) == Ok::<(int, Seq<Point>), ParseError>((i, Seq::empty())));
    assert(acc + Seq::<Point>::empty() =~= acc);
}

} // verus!
