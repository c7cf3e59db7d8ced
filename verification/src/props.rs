//! The library-wide laws: the exact behaviour of the scanner on
//! white-space-then-digits input, and the round trip from a valid scenario
//! through the file grammar and back.

use vstd::prelude::*;
use crate::chars::{digit_char_of, digit_val, is_digit, is_space};
use crate::error::{LoadErrorModel, ParseError};
use crate::lines::{count_char, lemma_find_char_at, lemma_trim_no_space, spec_lines};
use crate::loader::{
    key_chars, spec_apply_key, spec_key_of, spec_load, spec_parse_line, spec_run_lines, Key,
};
use crate::parse::{spec_parse_frames, spec_parse_point, spec_parse_points};
use crate::scan::{
    digits_value, lemma_digits_end_at, lemma_digits_value_nonneg, lemma_skip_ws_at, spec_expect,
    spec_scan_number,
};
use crate::scenario::{Point, ScenarioModel};
use crate::text::{frames_chars, point_chars, points_chars, scenario_text, u32_chars};

verus! {

/// Every character a serialized number consists of is a decimal digit.
pub proof fn lemma_u32_chars_digits(n: u32)
    ensures
        u32_chars(n).len() >= 1,
        forall|k: int| 0 <= k < u32_chars(n).len() ==> is_digit(#[trigger] u32_chars(n)[k]),
    decreases n,
{
    if n >= 10 {
        lemma_u32_chars_digits(n / 10);
    }
}

/// Reading the serialized digits of `n` back gives `n`.
pub proof fn lemma_u32_chars_value(n: u32)
    ensures
        digits_value(u32_chars(n)) == n,
    decreases n,
{
    if n < 10 {
        crate::chars::lemma_digit_char_of(n as int);
        assert(u32_chars(n) == seq![digit_char_of(n as int)]);
        assert(u32_chars(n).len() == 1);
        assert(u32_chars(n).drop_last() =~= Seq::<char>::empty());
        assert(u32_chars(n).last() == digit_char_of(n as int));
        assert(digits_value(Seq::<char>::empty()) == 0);
        assert(digits_value(u32_chars(n)) == digits_value(u32_chars(n).drop_last()) * 10
            + digit_val(u32_chars(n).last()));
        assert(digits_value(u32_chars(n)) == n);
    } else {
        crate::chars::lemma_digit_char_of((n % 10) as int);
        lemma_u32_chars_value(n / 10);
        assert(u32_chars(n).drop_last() =~= u32_chars(n / 10));
        assert(u32_chars(n).last() == digit_char_of((n % 10) as int));
        assert(digits_value(u32_chars(n)) == digits_value(u32_chars(n / 10)) * 10 + digit_val(
            digit_char_of((n % 10) as int),
        ));
        assert(n == (n / 10) * 10 + n % 10);
    }
}

/// The scanner on a string of the shape `\s*<digits>` returns the numeric
/// value of the digits, with the cursor exactly after the last digit —
/// provided the value fits in `u32`; a longer digit run is rejected as
/// `InvalidNumber` by the scanner's contract.
pub proof fn lemma_scan_number_ws_digits(s: Seq<char>, w: int)
    requires
        0 <= w < s.len(),
        forall|k: int| 0 <= k < w ==> is_space(#[trigger] s[k]),
        forall|k: int| w <= k < s.len() ==> is_digit(#[trigger] s[k]),
        digits_value(s.subrange(w, s.len() as int)) <= u32::MAX,
    ensures
        spec_scan_number(s, 0) == Ok::<(int, u32), ParseError>((
            s.len() as int,
            digits_value(s.subrange(w, s.len() as int)) as u32,
        )),
{
    assert(!is_space(s[w]));
    lemma_skip_ws_at(s, 0, w);
    lemma_digits_end_at(s, w, s.len() as int);
    assert(forall|k: int| 0 <= k < s.subrange(w, s.len() as int).len()
        ==> is_digit(#[trigger] s.subrange(w, s.len() as int)[k]));
    lemma_digits_value_nonneg(s.subrange(w, s.len() as int));
}

/// The characters a serialized value is made of: digits and the grammar's
/// delimiters, but never white space, a colon or a newline.
pub open spec fn value_char(c: char) -> bool {
    is_digit(c) || c == '(' || c == ')' || c == ',' || c == '[' || c == ']'
}

pub open spec fn all_value_chars(s: Seq<char>) -> bool {
    forall|k: int| 0 <= k < s.len() ==> value_char(#[trigger] s[k])
}

proof fn lemma_all_value_concat(a: Seq<char>, b: Seq<char>)
    requires
        all_value_chars(a),
        all_value_chars(b),
    ensures
        all_value_chars(a + b),
{
    assert forall|k: int| 0 <= k < (a + b).len() implies value_char(#[trigger] (a + b)[k]) by {
        if k < a.len() {
            assert((a + b)[k] == a[k]);
        } else {
            assert((a + b)[k] == b[k - a.len()]);
        }
    }
}

proof fn lemma_u32_chars_value_chars(n: u32)
    ensures
        all_value_chars(u32_chars(n)),
{
    lemma_u32_chars_digits(n);
}

proof fn lemma_point_chars_value_chars(p: Point)
    ensures
        all_value_chars(point_chars(p)),
        point_chars(p).len() >= 5,
        point_chars(p)[0] == '(',
{
    lemma_u32_chars_digits(p.x);
    lemma_u32_chars_digits(p.y);
    lemma_u32_chars_value_chars(p.x);
    lemma_u32_chars_value_chars(p.y);
    lemma_all_value_concat(seq!['('], u32_chars(p.x));
    lemma_all_value_concat(seq!['('] + u32_chars(p.x), seq![',']);
    lemma_all_value_concat(seq!['('] + u32_chars(p.x) + seq![','], u32_chars(p.y));
    lemma_all_value_concat(seq!['('] + u32_chars(p.x) + seq![','] + u32_chars(p.y), seq![')']);
}

proof fn lemma_points_chars_value_chars(ps: Seq<Point>)
    ensures
        all_value_chars(points_chars(ps)),
    decreases ps.len(),
{
    if ps.len() == 0 {
    } else {
        lemma_point_chars_value_chars(ps[0]);
        lemma_points_chars_value_chars(ps.drop_first());
        lemma_all_value_concat(point_chars(ps[0]), points_chars(ps.drop_first()));
    }
}

proof fn lemma_frames_chars_value_chars(fs: Seq<Seq<Point>>)
    ensures
        all_value_chars(frames_chars(fs)),
    decreases fs.len(),
{
    if fs.len() == 0 {
    } else {
        lemma_points_chars_value_chars(fs[0]);
        lemma_frames_chars_value_chars(fs.drop_first());
        lemma_all_value_concat(seq!['['], points_chars(fs[0]));
        lemma_all_value_concat(seq!['['] + points_chars(fs[0]), seq![']']);
        lemma_all_value_concat(seq!['['] + points_chars(fs[0]) + seq![']'], frames_chars(
            fs.drop_first(),
        ));
    }
}

proof fn lemma_count_concat(a: Seq<char>, b: Seq<char>, c: char)
    ensures
        count_char(a + b, c) == count_char(a, c) + count_char(b, c),
    decreases b.len(),
{
    if b.len() == 0 {
        assert(a + b =~= a);
    } else {
        assert((a + b).drop_last() =~= a + b.drop_last());
        lemma_count_concat(a, b.drop_last(), c);
    }
}

proof fn lemma_count_zero(s: Seq<char>, c: char)
    requires
        forall|k: int| 0 <= k < s.len() ==> s[k] != c,
    ensures
        count_char(s, c) == 0,
    decreases s.len(),
{
    if s.len() > 0 {
        lemma_count_zero(s.drop_last(), c);
    }
}

/// No key contains a colon, a newline or white space.
proof fn lemma_key_chars_plain(k: Key)
    ensures
        key_chars(k).len() >= 1,
        forall|i: int| 0 <= i < key_chars(k).len() ==> #[trigger] key_chars(k)[i] != ':'
            && key_chars(k)[i] != '\n' && !is_space(key_chars(k)[i]),
{
}

/// Requiring a non-space character that stands right at the cursor.
proof fn lemma_expect_at(s: Seq<char>, i: int, c: char)
    requires
        0 <= i < s.len(),
        s[i] == c,
        !is_space(c),
    ensures
        spec_expect(s, i, c) == Ok::<int, ParseError>(i + 1),
{
    lemma_skip_ws_at(s, i, i);
}

/// Scanning at the start of the serialized digits of `n`, with anything
/// but a digit after them, yields `n` and stops right after them.
proof fn lemma_scan_number_at(s: Seq<char>, i: int, n: u32)
    requires
        0 <= i,
        i + u32_chars(n).len() <= s.len(),
        s.subrange(i, i + u32_chars(n).len() as int) == u32_chars(n),
        i + u32_chars(n).len() == s.len() || !is_digit(s[i + u32_chars(n).len() as int]),
    ensures
        spec_scan_number(s, i) == Ok::<(int, u32), ParseError>((
            i + u32_chars(n).len() as int,
            n,
        )),
{
    let v = u32_chars(n);
    let e = i + v.len() as int;
    lemma_u32_chars_digits(n);
    lemma_u32_chars_value(n);
    assert(forall|k: int| i <= k < e ==> s[k] == v[k - i]);
    assert(forall|k: int| i <= k < e ==> is_digit(#[trigger] s[k]));
    assert(!is_space(s[i]));
    lemma_skip_ws_at(s, i, i);
    lemma_digits_end_at(s, i, e);
    assert(s.subrange(i, e) == v);
    assert(digits_value(s.subrange(i, e)) == n);
}

/// Where each piece of a serialized point stands inside `s`.
proof fn lemma_point_chars_layout(s: Seq<char>, i: int, p: Point)
    requires
        0 <= i,
        i + point_chars(p).len() <= s.len(),
        s.subrange(i, i + point_chars(p).len() as int) == point_chars(p),
    ensures
        point_chars(p).len() == 3 + u32_chars(p.x).len() + u32_chars(p.y).len(),
        s[i] == '(',
        s.subrange(i + 1, i + 1 + u32_chars(p.x).len() as int) == u32_chars(p.x),
        s[i + 1 + u32_chars(p.x).len() as int] == ',',
        s.subrange(
            i + 2 + u32_chars(p.x).len() as int,
            i + 2 + u32_chars(p.x).len() + u32_chars(p.y).len() as int,
        ) == u32_chars(p.y),
        s[i + 2 + u32_chars(p.x).len() + u32_chars(p.y).len() as int] == ')',
{
    let pc = point_chars(p);
    let px = u32_chars(p.x);
    let py = u32_chars(p.y);
    let lx = px.len() as int;
    let ly = py.len() as int;
    let e = i + pc.len() as int;
    assert(pc.len() == 3 + lx + ly);
    assert(forall|k: int| i <= k < e ==> s[k] == pc[k - i]);
    assert(pc[0] == '(');
    assert(forall|k: int| 0 <= k < lx ==> pc[1 + k] == px[k]);
    assert(pc[1 + lx] == ',');
    assert(forall|k: int| 0 <= k < ly ==> pc[2 + lx + k] == py[k]);
    assert(pc[2 + lx + ly] == ')');
    assert(s.subrange(i + 1, i + 1 + lx) =~= px);
    assert(s.subrange(i + 2 + lx, i + 2 + lx + ly) =~= py);
}

/// Parsing at the start of a serialized point yields that point and stops
/// right after its closing parenthesis.
proof fn lemma_parse_point_at(s: Seq<char>, i: int, p: Point)
    requires
        0 <= i,
        i + point_chars(p).len() <= s.len(),
        s.subrange(i, i + point_chars(p).len() as int) == point_chars(p),
    ensures
        spec_parse_point(s, i) == Ok::<(int, Point), ParseError>((
            i + point_chars(p).len() as int,
            p,
        )),
{
    let px = u32_chars(p.x);
    let py = u32_chars(p.y);
    let lx = px.len() as int;
    let ly = py.len() as int;
    let e = i + point_chars(p).len() as int;
    lemma_point_chars_layout(s, i, p);
    lemma_u32_chars_digits(p.x);
    lemma_u32_chars_digits(p.y);
    lemma_expect_at(s, i, '(');
    lemma_scan_number_at(s, i + 1, p.x);
    lemma_expect_at(s, i + 1 + lx, ',');
    lemma_scan_number_at(s, i + 2 + lx, p.y);
    lemma_expect_at(s, i + 2 + lx + ly, ')');
    assert(spec_parse_point(s, i) == Ok::<(int, Point), ParseError>((e, Point { x: p.x, y: p.y })));
    assert(Point { x: p.x, y: p.y } == p);
}

/// Parsing at the start of a serialized point list consumes exactly the
/// list, provided what follows can start no further point.
proof fn lemma_parse_points_at(s: Seq<char>, i: int, ps: Seq<Point>)
    requires
        0 <= i,
        i + points_chars(ps).len() <= s.len(),
        s.subrange(i, i + points_chars(ps).len() as int) == points_chars(ps),
        i + points_chars(ps).len() == s.len() || (!is_space(s[i + points_chars(ps).len() as int])
            && s[i + points_chars(ps).len() as int] != '('),
    ensures
        spec_parse_points(s, i) == Ok::<(int, Seq<Point>), ParseError>((
            i + points_chars(ps).len() as int,
            ps,
        )),
    decreases ps.len(),
{
    let e = i + points_chars(ps).len() as int;
    if ps.len() == 0 {
        if i < s.len() {
            lemma_skip_ws_at(s, i, i);
        }
        assert(spec_parse_points(s, i) == Ok::<(int, Seq<Point>), ParseError>((i, Seq::empty())));
        assert(ps =~= Seq::<Point>::empty());
    } else {
        let pc = point_chars(ps[0]);
        let j = i + pc.len() as int;
        lemma_points_chars_layout(s, i, ps);
        lemma_point_chars_value_chars(ps[0]);
        lemma_skip_ws_at(s, i, i);
        lemma_parse_point_at(s, i, ps[0]);
        lemma_parse_points_at(s, j, ps.drop_first());
        assert(spec_parse_points(s, i) == Ok::<(int, Seq<Point>), ParseError>((
            e,
            seq![ps[0]] + ps.drop_first(),
        )));
        assert(seq![ps[0]] + ps.drop_first() =~= ps);
    }
}

/// Where the first serialized point and the remaining points stand inside
/// `s`.
proof fn lemma_points_chars_layout(s: Seq<char>, i: int, ps: Seq<Point>)
    requires
        ps.len() > 0,
        0 <= i,
        i + points_chars(ps).len() <= s.len(),
        s.subrange(i, i + points_chars(ps).len() as int) == points_chars(ps),
    ensures
        points_chars(ps).len() == point_chars(ps[0]).len() + points_chars(ps.drop_first()).len(),
        s[i] == '(',
        s.subrange(i, i + point_chars(ps[0]).len() as int) == point_chars(ps[0]),
        s.subrange(
            i + point_chars(ps[0]).len() as int,
            i + point_chars(ps[0]).len() + points_chars(ps.drop_first()).len() as int,
        ) == points_chars(ps.drop_first()),
{
    let pc = point_chars(ps[0]);
    let rest = points_chars(ps.drop_first());
    let e = i + points_chars(ps).len() as int;
    let j = i + pc.len() as int;
    lemma_point_chars_value_chars(ps[0]);
    assert(points_chars(ps) == pc + rest);
    assert(forall|k: int| i <= k < e ==> s[k] == points_chars(ps)[k - i]);
    assert(forall|k: int| 0 <= k < pc.len() ==> points_chars(ps)[k] == pc[k]);
    assert(forall|k: int| 0 <= k < rest.len() ==> points_chars(ps)[pc.len() + k] == rest[k]);
    assert(s[i] == '(');
    assert(s.subrange(i, j) =~= pc);
    assert(s.subrange(j, j + rest.len() as int) =~= rest);
}

/// Parsing at the start of a serialized frame list consumes exactly the
/// list, provided what follows can start no further frame.
proof fn lemma_parse_frames_at(s: Seq<char>, i: int, fs: Seq<Seq<Point>>)
    requires
        0 <= i,
        i + frames_chars(fs).len() <= s.len(),
        s.subrange(i, i + frames_chars(fs).len() as int) == frames_chars(fs),
        i + frames_chars(fs).len() == s.len() || (!is_space(s[i + frames_chars(fs).len() as int])
            && s[i + frames_chars(fs).len() as int] != '['),
    ensures
        spec_parse_frames(s, i) == Ok::<(int, Seq<Seq<Point>>), ParseError>((
            i + frames_chars(fs).len() as int,
            fs,
        )),
    decreases fs.len(),
{
    let e = i + frames_chars(fs).len() as int;
    if fs.len() == 0 {
        if i < s.len() {
            lemma_skip_ws_at(s, i, i);
        }
        assert(spec_parse_frames(s, i) == Ok::<(int, Seq<Seq<Point>>), ParseError>((
            i,
            Seq::empty(),
        )));
        assert(fs =~= Seq::<Seq<Point>>::empty());
    } else {
        let pts = points_chars(fs[0]);
        let rest = frames_chars(fs.drop_first());
        let j = i + 1 + pts.len() as int;
        lemma_frame_chars_layout(s, i, fs);
        lemma_points_chars_value_chars(fs[0]);
        lemma_skip_ws_at(s, i, i);
        lemma_parse_points_at(s, i + 1, fs[0]);
        lemma_expect_at(s, j, ']');
        lemma_parse_frames_at(s, j + 1, fs.drop_first());
        assert(spec_parse_frames(s, i) == Ok::<(int, Seq<Seq<Point>>), ParseError>((
            e,
            seq![fs[0]] + fs.drop_first(),
        )));
        assert(seq![fs[0]] + fs.drop_first() =~= fs);
    }
}

/// Where the pieces of the first serialized frame and the remaining frames
/// stand inside `s`.
proof fn lemma_frame_chars_layout(s: Seq<char>, i: int, fs: Seq<Seq<Point>>)
    requires
        fs.len() > 0,
        0 <= i,
        i + frames_chars(fs).len() <= s.len(),
        s.subrange(i, i + frames_chars(fs).len() as int) == frames_chars(fs),
    ensures
        frames_chars(fs).len() == 2 + points_chars(fs[0]).len() + frames_chars(
            fs.drop_first(),
        ).len(),
        s[i] == '[',
        s.subrange(i + 1, i + 1 + points_chars(fs[0]).len() as int) == points_chars(fs[0]),
        s[i + 1 + points_chars(fs[0]).len() as int] == ']',
        s.subrange(
            i + 2 + points_chars(fs[0]).len() as int,
            i + 2 + points_chars(fs[0]).len() + frames_chars(fs.drop_first()).len() as int,
        ) == frames_chars(fs.drop_first()),
{
    let pts = points_chars(fs[0]);
    let fc = seq!['['] + pts + seq![']'];
    let rest = frames_chars(fs.drop_first());
    let e = i + frames_chars(fs).len() as int;
    let j = i + 1 + pts.len() as int;
    assert(frames_chars(fs) == fc + rest);
    assert(forall|k: int| i <= k < e ==> s[k] == frames_chars(fs)[k - i]);
    assert(forall|k: int| 0 <= k < fc.len() ==> frames_chars(fs)[k] == fc[k]);
    assert(forall|k: int| 0 <= k < rest.len() ==> frames_chars(fs)[fc.len() + k] == rest[k]);
    assert(fc[0] == '[');
    assert(forall|k: int| 0 <= k < pts.len() ==> fc[1 + k] == pts[k]);
    assert(fc[1 + pts.len() as int] == ']');
    assert(s.subrange(i + 1, j) =~= pts);
    assert(s.subrange(j + 1, j + 1 + rest.len() as int) =~= rest);
}

/// A serialized `key ":" value` line dispatches to exactly the key's field
/// update on the unchanged value.
proof fn lemma_parse_line_serialized(k: Key, v: Seq<char>, m: ScenarioModel)
    requires
        all_value_chars(v),
    ensures
        spec_parse_line(key_chars(k) + seq![':'] + v, m) == spec_apply_key(k, v, m),
{
    let kc = key_chars(k);
    let line = kc + seq![':'] + v;
    let c = kc.len() as int;
    lemma_key_chars_plain(k);
    assert(forall|idx: int| 0 <= idx < c ==> line[idx] == kc[idx]);
    assert(line[c] == ':');
    assert(forall|idx: int| 0 <= idx < v.len() ==> line[c + 1 + idx] == v[idx]);
    assert(forall|idx: int| 0 <= idx < v.len() ==> #[trigger] v[idx] != ':' && !is_space(v[idx]))
        by {
        assert(forall|idx: int| 0 <= idx < v.len() ==> value_char(#[trigger] v[idx]));
    }
    lemma_count_concat(kc + seq![':'], v, ':');
    lemma_count_concat(kc, seq![':'], ':');
    lemma_count_zero(kc, ':');
    assert(count_char(seq![':'], ':') == 1) by {
        assert(seq![':'].drop_last() =~= Seq::<char>::empty());
        assert(seq![':'].last() == ':');
        assert(count_char(Seq::<char>::empty(), ':') == 0);
    }
    lemma_count_zero(v, ':');
    assert(count_char(line, ':') == 1);
    lemma_find_char_at(line, ':', c);
    assert(line.subrange(0, c) =~= kc);
    lemma_trim_no_space(kc);
    assert(line.subrange(c + 1, line.len() as int) =~= v);
    lemma_trim_no_space(v);
    assert(spec_key_of(kc) == Some(k)) by {
        assert(key_chars(Key::Rows)[0] == 'r');
        assert(key_chars(Key::Cols)[0] == 'c');
        assert(key_chars(Key::Ini)[0] == 'i');
        assert(key_chars(Key::End)[0] == 'e');
        assert(key_chars(Key::Rows).len() == 4);
        assert(key_chars(Key::Cols).len() == 4);
        assert(key_chars(Key::Ini).len() == 3);
        assert(key_chars(Key::End).len() == 3);
        assert(key_chars(Key::Blocked).len() == 7);
        assert(key_chars(Key::Paths).len() == 5);
    }
}

/// Splitting off one newline-terminated line whose body has no newline.
proof fn lemma_lines_cons(l: Seq<char>, rest: Seq<char>)
    requires
        forall|k: int| 0 <= k < l.len() ==> #[trigger] l[k] != '\n',
    ensures
        spec_lines(l + seq!['\n'] + rest) == seq![l] + spec_lines(rest),
{
    let t = l + seq!['\n'] + rest;
    assert(forall|k: int| 0 <= k < l.len() ==> t[k] == l[k]);
    assert(t[l.len() as int] == '\n');
    lemma_find_char_at(t, '\n', l.len() as int);
    assert(t.subrange(0, l.len() as int) =~= l);
    assert(t.subrange(l.len() as int + 1, t.len() as int) =~= rest);
}

/// The six serialized lines of a scenario, in file order.
pub open spec fn text_lines(m: ScenarioModel) -> Seq<Seq<char>> {
    seq![
        key_chars(Key::Rows) + seq![':'] + u32_chars(m.rows),
        key_chars(Key::Cols) + seq![':'] + u32_chars(m.cols),
        key_chars(Key::Ini) + seq![':'] + point_chars(m.start),
        key_chars(Key::End) + seq![':'] + point_chars(m.goal),
        key_chars(Key::Blocked) + seq![':'] + points_chars(m.blocked),
        key_chars(Key::Paths) + seq![':'] + frames_chars(m.frames),
    ]
}

/// The serialized scenario splits back into exactly its six lines.
proof fn lemma_scenario_text_lines(m: ScenarioModel)
    ensures
        spec_lines(scenario_text(m)) == text_lines(m),
{
    let v1 = u32_chars(m.rows);
    let v2 = u32_chars(m.cols);
    let v3 = point_chars(m.start);
    let v4 = point_chars(m.goal);
    let v5 = points_chars(m.blocked);
    let v6 = frames_chars(m.frames);
    lemma_u32_chars_value_chars(m.rows);
    lemma_u32_chars_value_chars(m.cols);
    lemma_point_chars_value_chars(m.start);
    lemma_point_chars_value_chars(m.goal);
    lemma_points_chars_value_chars(m.blocked);
    lemma_frames_chars_value_chars(m.frames);
    let l1 = key_chars(Key::Rows) + seq![':'] + v1;
    let l2 = key_chars(Key::Cols) + seq![':'] + v2;
    let l3 = key_chars(Key::Ini) + seq![':'] + v3;
    let l4 = key_chars(Key::End) + seq![':'] + v4;
    let l5 = key_chars(Key::Blocked) + seq![':'] + v5;
    let l6 = key_chars(Key::Paths) + seq![':'] + v6;
    lemma_line_no_newline(Key::Rows, v1);
    lemma_line_no_newline(Key::Cols, v2);
    lemma_line_no_newline(Key::Ini, v3);
    lemma_line_no_newline(Key::End, v4);
    lemma_line_no_newline(Key::Blocked, v5);
    lemma_line_no_newline(Key::Paths, v6);
    let t6 = l6 + seq!['\n'] + Seq::<char>::empty();
    let t5 = l5 + seq!['\n'] + t6;
    let t4 = l4 + seq!['\n'] + t5;
    let t3 = l3 + seq!['\n'] + t4;
    let t2 = l2 + seq!['\n'] + t3;
    let t1 = l1 + seq!['\n'] + t2;
    assert(scenario_text(m) =~= t1);
    lemma_lines_cons(l6, Seq::<char>::empty());
    lemma_lines_cons(l5, t6);
    lemma_lines_cons(l4, t5);
    lemma_lines_cons(l3, t4);
    lemma_lines_cons(l2, t3);
    lemma_lines_cons(l1, t2);
    assert(spec_lines(Seq::<char>::empty()) == Seq::<Seq<char>>::empty());
    assert(spec_lines(t1) =~= text_lines(m));
}

/// A serialized `rows` line sets exactly the `rows` field.
proof fn lemma_line_rows(n: u32, mm: ScenarioModel)
    ensures
        spec_parse_line(key_chars(Key::Rows) + seq![':'] + u32_chars(n), mm)
            == Ok::<ScenarioModel, ParseError>(ScenarioModel { rows: n, ..mm }),
{
    let v = u32_chars(n);
    lemma_u32_chars_value_chars(n);
    lemma_parse_line_serialized(Key::Rows, v, mm);
    assert(v.subrange(0, v.len() as int) =~= v);
    lemma_scan_number_at(v, 0, n);
}

/// A serialized `cols` line sets exactly the `cols` field.
proof fn lemma_line_cols(n: u32, mm: ScenarioModel)
    ensures
        spec_parse_line(key_chars(Key::Cols) + seq![':'] + u32_chars(n), mm)
            == Ok::<ScenarioModel, ParseError>(ScenarioModel { cols: n, ..mm }),
{
    let v = u32_chars(n);
    lemma_u32_chars_value_chars(n);
    lemma_parse_line_serialized(Key::Cols, v, mm);
    assert(v.subrange(0, v.len() as int) =~= v);
    lemma_scan_number_at(v, 0, n);
}

/// A serialized `ini` line sets exactly the `start` field.
proof fn lemma_line_ini(p: Point, mm: ScenarioModel)
    ensures
        spec_parse_line(key_chars(Key::Ini) + seq![':'] + point_chars(p), mm)
            == Ok::<ScenarioModel, ParseError>(ScenarioModel { start: p, ..mm }),
{
    let v = point_chars(p);
    lemma_point_chars_value_chars(p);
    lemma_parse_line_serialized(Key::Ini, v, mm);
    assert(v.subrange(0, v.len() as int) =~= v);
    lemma_parse_point_at(v, 0, p);
}

/// A serialized `end` line sets exactly the `goal` field.
proof fn lemma_line_end(p: Point, mm: ScenarioModel)
    ensures
        spec_parse_line(key_chars(Key::End) + seq![':'] + point_chars(p), mm)
            == Ok::<ScenarioModel, ParseError>(ScenarioModel { goal: p, ..mm }),
{
    let v = point_chars(p);
    lemma_point_chars_value_chars(p);
    lemma_parse_line_serialized(Key::End, v, mm);
    assert(v.subrange(0, v.len() as int) =~= v);
    lemma_parse_point_at(v, 0, p);
}

/// A serialized `blocked` line sets exactly the `blocked` field.
proof fn lemma_line_blocked(ps: Seq<Point>, mm: ScenarioModel)
    ensures
        spec_parse_line(key_chars(Key::Blocked) + seq![':'] + points_chars(ps), mm)
            == Ok::<ScenarioModel, ParseError>(ScenarioModel { blocked: ps, ..mm }),
{
    let v = points_chars(ps);
    lemma_points_chars_value_chars(ps);
    lemma_parse_line_serialized(Key::Blocked, v, mm);
    assert(v.subrange(0, v.len() as int) =~= v);
    lemma_parse_points_at(v, 0, ps);
}

/// A serialized `paths` line sets exactly the `frames` field.
proof fn lemma_line_paths(fs: Seq<Seq<Point>>, mm: ScenarioModel)
    ensures
        spec_parse_line(key_chars(Key::Paths) + seq![':'] + frames_chars(fs), mm)
            == Ok::<ScenarioModel, ParseError>(ScenarioModel { frames: fs, ..mm }),
{
    let v = frames_chars(fs);
    lemma_frames_chars_value_chars(fs);
    lemma_parse_line_serialized(Key::Paths, v, mm);
    assert(v.subrange(0, v.len() as int) =~= v);
    lemma_parse_frames_at(v, 0, fs);
}

/// Running the six serialized lines over the initial scenario rebuilds the
/// scenario, field by field.
proof fn lemma_run_text_lines(m: ScenarioModel)
    ensures
        spec_run_lines(text_lines(m), ScenarioModel::init(), 0)
            == Ok::<ScenarioModel, LoadErrorModel>(m),
{
    let ls = text_lines(m);
    let l2 = key_chars(Key::Cols) + seq![':'] + u32_chars(m.cols);
    let l3 = key_chars(Key::Ini) + seq![':'] + point_chars(m.start);
    let l4 = key_chars(Key::End) + seq![':'] + point_chars(m.goal);
    let l5 = key_chars(Key::Blocked) + seq![':'] + points_chars(m.blocked);
    let l6 = key_chars(Key::Paths) + seq![':'] + frames_chars(m.frames);
    let m0 = ScenarioModel::init();
    let m1 = ScenarioModel { rows: m.rows, ..m0 };
    let m2 = ScenarioModel { cols: m.cols, ..m1 };
    let m3 = ScenarioModel { start: m.start, ..m2 };
    let m4 = ScenarioModel { goal: m.goal, ..m3 };
    let m5 = ScenarioModel { blocked: m.blocked, ..m4 };
    let m6 = ScenarioModel { frames: m.frames, ..m5 };
    lemma_line_rows(m.rows, m0);
    lemma_line_cols(m.cols, m1);
    lemma_line_ini(m.start, m2);
    lemma_line_end(m.goal, m3);
    lemma_line_blocked(m.blocked, m4);
    lemma_line_paths(m.frames, m5);
    assert(m6 =~= m);
    assert(ls.drop_first() =~= seq![l2, l3, l4, l5, l6]);
    assert(seq![l2, l3, l4, l5, l6].drop_first() =~= seq![l3, l4, l5, l6]);
    assert(seq![l3, l4, l5, l6].drop_first() =~= seq![l4, l5, l6]);
    assert(seq![l4, l5, l6].drop_first() =~= seq![l5, l6]);
    assert(seq![l5, l6].drop_first() =~= seq![l6]);
    assert(seq![l6].drop_first() =~= Seq::<Seq<char>>::empty());
    assert(spec_run_lines(Seq::<Seq<char>>::empty(), m6, 6) == Ok::<
        ScenarioModel,
        LoadErrorModel,
    >(m6));
    assert(spec_run_lines(seq![l6], m5, 5) == Ok::<ScenarioModel, LoadErrorModel>(m6));
    assert(spec_run_lines(seq![l5, l6], m4, 4) == Ok::<ScenarioModel, LoadErrorModel>(m6));
    assert(spec_run_lines(seq![l4, l5, l6], m3, 3) == Ok::<ScenarioModel, LoadErrorModel>(m6));
    assert(spec_run_lines(seq![l3, l4, l5, l6], m2, 2) == Ok::<ScenarioModel, LoadErrorModel>(m6));
    assert(spec_run_lines(seq![l2, l3, l4, l5, l6], m1, 1) == Ok::<ScenarioModel, LoadErrorModel>(
        m6,
    ));
    assert(ls[0] == key_chars(Key::Rows) + seq![':'] + u32_chars(m.rows));
    assert(spec_run_lines(ls, m0, 0) == Ok::<ScenarioModel, LoadErrorModel>(m6));
    assert(spec_run_lines(ls, m0, 0) == Ok::<ScenarioModel, LoadErrorModel>(m));
}

/// Round trip: a valid scenario, serialized to the file grammar and loaded
/// back, yields exactly itself.
pub proof fn lemma_round_trip(m: ScenarioModel)
    requires
        m.valid(),
    ensures
        spec_load(scenario_text(m)) == Ok::<ScenarioModel, LoadErrorModel>(m),
{
    lemma_scenario_text_lines(m);
    lemma_run_text_lines(m);
}

/// No character of a serialized line is a newline.
proof fn lemma_line_no_newline(k: Key, v: Seq<char>)
    requires
        all_value_chars(v),
    ensures
        forall|idx: int| 0 <= idx < (key_chars(k) + seq![':'] + v).len() ==> #[trigger] (key_chars(
            k,
        ) + seq![':'] + v)[idx] != '\n',
{
    let kc = key_chars(k);
    let line = kc + seq![':'] + v;
    lemma_key_chars_plain(k);
    assert forall|idx: int| 0 <= idx < line.len() implies #[trigger] line[idx] != '\n' by {
        if idx < kc.len() {
            assert(line[idx] == kc[idx]);
        } else if idx == kc.len() {
            assert(line[idx] == ':');
        } else {
            assert(line[idx] == v[idx - kc.len() - 1]);
            assert(value_char(v[idx - kc.len() - 1]));
        }
    }
}

} // verus!
