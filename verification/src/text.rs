//! Serialization of a scenario back to the file grammar, and the plain-text
//! summary of a descriptor, both proved equal to spec-level counterparts.

use vstd::prelude::*;
use crate::chars::{char_of_digit, digit_char_of};
use crate::loader::{key_chars, Key};
use crate::scenario::{Point, ScenarioDescriptor, ScenarioModel};

verus! {

/// The decimal digits of `n`, most significant first.
pub open spec fn u32_chars(n: u32) -> Seq<char>
    decreases n
{
    if n < 10 {
        seq![digit_char_of(n as int)]
    } else {
        u32_chars((n / 10) as u32) + seq![digit_char_of((n % 10) as int)]
    }
}

/// A point written as `(x,y)`.
pub open spec fn point_chars(p: Point) -> Seq<char> {
    seq!['('] + u32_chars(p.x) + seq![','] + u32_chars(p.y) + seq![')']
}

/// A point list written as adjacent points.
pub open spec fn points_chars(ps: Seq<Point>) -> Seq<char>
    decreases ps.len()
{
    if ps.len() == 0 {
        Seq::empty()
    } else {
        point_chars(ps[0]) + points_chars(ps.drop_first())
    }
}

/// A frame list written as adjacent `[points]` groups.
pub open spec fn frames_chars(fs: Seq<Seq<Point>>) -> Seq<char>
    decreases fs.len()
{
    if fs.len() == 0 {
        Seq::empty()
    } else {
        seq!['['] + points_chars(fs[0]) + seq![']'] + frames_chars(fs.drop_first())
    }
}

/// One serialized line: the key, a colon, the value, a newline.
pub open spec fn line_chars(k: Key, value: Seq<char>) -> Seq<char> {
    key_chars(k) + seq![':'] + value + seq!['\n']
}

/// A whole scenario in the file grammar, one line per field.
pub open spec fn scenario_text(m: ScenarioModel) -> Seq<char> {
    line_chars(Key::Rows, u32_chars(m.rows)) + line_chars(Key::Cols, u32_chars(m.cols))
        + line_chars(Key::Ini, point_chars(m.start)) + line_chars(Key::End, point_chars(m.goal))
        + line_chars(Key::Blocked, points_chars(m.blocked)) + line_chars(
        Key::Paths,
        frames_chars(m.frames),
    )
}

/// Appends the decimal digits of `n`.
pub fn push_u32(out: &mut Vec<char>, n: u32)
    ensures
        final(out)@ == old(out)@ + u32_chars(n),
    decreases n,
{
    if n < 10 {
        out.push(char_of_digit(n));
        proof {
            assert(out@ =~= old(out)@ + u32_chars(n));
        }
    } else {
        push_u32(out, n / 10);
        out.push(char_of_digit(n % 10));
        proof {
            assert(out@ =~= old(out)@ + u32_chars(n));
        }
    }
}

/// Appends a point as `(x,y)`.
pub fn push_point(out: &mut Vec<char>, p: &Point)
    ensures
        final(out)@ == old(out)@ + point_chars(*p),
{
    out.push('(');
    push_u32(out, p.x);
    out.push(',');
    push_u32(out, p.y);
    out.push(')');
    proof {
        assert(out@ =~= old(out)@ + point_chars(*p));
    }
}

/// Appends a point list as adjacent points.
pub fn push_points(out: &mut Vec<char>, ps: &Vec<Point>)
    ensures
        final(out)@ == old(out)@ + points_chars(ps@),
{
    let mut i: usize = 0;
    proof {
        assert(ps@.skip(0) =~= ps@);
        assert(out@ + points_chars(ps@.skip(0)) =~= old(out)@ + points_chars(ps@));
    }
    while i < ps.len()
        invariant
            i <= ps@.len(),
            out@ + points_chars(ps@.skip(i as int)) =~= old(out)@ + points_chars(ps@),
        decreases ps@.len() - i,
    {
        let ghost pre = out@;
        push_point(out, &ps[i]);
        proof {
            assert(ps@.skip(i as int).drop_first() =~= ps@.skip(i + 1));
            assert(ps@.skip(i as int)[0] == ps@[i as int]);
            assert(points_chars(ps@.skip(i as int)) == point_chars(ps@[i as int]) + points_chars(
                ps@.skip(i + 1),
            ));
            assert(out@ + points_chars(ps@.skip(i + 1)) =~= pre + points_chars(
                ps@.skip(i as int),
            ));
        }
        i = i + 1;
    }
    proof {
        assert(ps@.skip(ps@.len() as int) =~= Seq::<Point>::empty());
        assert(out@ =~= out@ + points_chars(ps@.skip(ps@.len() as int)));
    }
}

/// Appends a frame list as adjacent `[points]` groups.
pub fn push_frames(out: &mut Vec<char>, fs: &Vec<Vec<Point>>)
    ensures
        final(out)@ == old(out)@ + frames_chars(crate::parse::frame_views(fs@)),
{
    let ghost views = crate::parse::frame_views(fs@);
    let mut i: usize = 0;
    proof {
        assert(views.skip(0) =~= views);
        assert(out@ + frames_chars(views.skip(0)) =~= old(out)@ + frames_chars(views));
    }
    while i < fs.len()
        invariant
            i <= fs@.len(),
            views == crate::parse::frame_views(fs@),
            out@ + frames_chars(views.skip(i as int)) =~= old(out)@ + frames_chars(views),
        decreases fs@.len() - i,
    {
        let ghost pre = out@;
        out.push('[');
        push_points(out, &fs[i]);
        out.push(']');
        proof {
            assert(views.skip(i as int).drop_first() =~= views.skip(i + 1));
            assert(views.skip(i as int)[0] == views[i as int]);
            assert(frames_chars(views.skip(i as int)) == seq!['['] + points_chars(views[i as int])
                + seq![']'] + frames_chars(views.skip(i + 1)));
            assert(out@ + frames_chars(views.skip(i + 1)) =~= pre + frames_chars(
                views.skip(i as int),
            ));
        }
        i = i + 1;
    }
    proof {
        assert(views.skip(views.len() as int) =~= Seq::<Seq<Point>>::empty());
        assert(out@ =~= out@ + frames_chars(views.skip(views.len() as int)));
    }
}

/// Appends `key ":"` for a recognized key.
fn push_key(out: &mut Vec<char>, k: Key)
    ensures
        final(out)@ == old(out)@ + key_chars(k) + seq![':'],
{
    match k {
        Key::Rows => {
            out.push('r');
            out.push('o');
            out.push('w');
            out.push('s');
        },
        Key::Cols => {
            out.push('c');
            out.push('o');
            out.push('l');
            out.push('s');
        },
        Key::Ini => {
            out.push('i');
            out.push('n');
            out.push('i');
        },
        Key::End => {
            out.push('e');
            out.push('n');
            out.push('d');
        },
        Key::Blocked => {
            out.push('b');
            out.push('l');
            out.push('o');
            out.push('c');
            out.push('k');
            out.push('e');
            out.push('d');
        },
        Key::Paths => {
            out.push('p');
            out.push('a');
            out.push('t');
            out.push('h');
            out.push('s');
        },
    }
    out.push(':');
    proof {
        assert(out@ =~= old(out)@ + key_chars(k) + seq![':']);
    }
}

/// Serializes a descriptor to the file grammar of the input format: the six
/// `key:value` lines, each newline-terminated.
pub fn to_text(d: &ScenarioDescriptor) -> (r: Vec<char>)
    ensures
        r@ == scenario_text(d@),
{
    let mut out: Vec<char> = Vec::new();
    push_key(&mut out, Key::Rows);
    push_u32(&mut out, d.rows);
    out.push('\n');
    push_key(&mut out, Key::Cols);
    push_u32(&mut out, d.cols);
    out.push('\n');
    push_key(&mut out, Key::Ini);
    push_point(&mut out, &d.start);
    out.push('\n');
    push_key(&mut out, Key::End);
    push_point(&mut out, &d.goal);
    out.push('\n');
    push_key(&mut out, Key::Blocked);
    push_points(&mut out, &d.blocked);
    out.push('\n');
    push_key(&mut out, Key::Paths);
    push_frames(&mut out, &d.frames);
    out.push('\n');
    proof {
        assert(out@ =~= scenario_text(d@));
    }
    out
}

/// The one-line summary of a descriptor:
/// `{rows:R,cols:C,ini:P,end:Q,blocked:POINTS,paths:FRAMES}`.
pub open spec fn summary_chars(m: ScenarioModel) -> Seq<char> {
    seq!['{'] + key_chars(Key::Rows) + seq![':'] + u32_chars(m.rows) + seq![','] + key_chars(
        Key::Cols,
    ) + seq![':'] + u32_chars(m.cols) + seq![','] + key_chars(Key::Ini) + seq![':'] + point_chars(
        m.start,
    ) + seq![','] + key_chars(Key::End) + seq![':'] + point_chars(m.goal) + seq![','] + key_chars(
        Key::Blocked,
    ) + seq![':'] + points_chars(m.blocked) + seq![','] + key_chars(Key::Paths) + seq![':']
        + frames_chars(m.frames) + seq!['}']
}

impl ScenarioDescriptor {
    /// The blocked cells written as adjacent points.
    pub fn blocked_text(&self) -> (r: Vec<char>)
        ensures
            r@ == points_chars(self@.blocked),
    {
        let mut out: Vec<char> = Vec::new();
        push_points(&mut out, &self.blocked);
        proof {
            assert(out@ =~= points_chars(self@.blocked));
        }
        out
    }

    /// The frames written as adjacent `[points]` groups.
    pub fn paths_text(&self) -> (r: Vec<char>)
        ensures
            r@ == frames_chars(self@.frames),
    {
        let mut out: Vec<char> = Vec::new();
        push_frames(&mut out, &self.frames);
        proof {
            assert(out@ =~= frames_chars(self@.frames));
        }
        out
    }

    /// The one-line summary used for diagnostics.
    pub fn summary_text(&self) -> (r: Vec<char>)
        ensures
            r@ == summary_chars(self@),
    {
        let mut out: Vec<char> = Vec::new();
        out.push('{');
        push_key(&mut out, Key::Rows);
        push_u32(&mut out, self.rows);
        out.push(',');
        push_key(&mut out, Key::Cols);
        push_u32(&mut out, self.cols);
        out.push(',');
        push_key(&mut out, Key::Ini);
        push_point(&mut out, &self.start);
        out.push(',');
        push_key(&mut out, Key::End);
        push_point(&mut out, &self.goal);
        out.push(',');
        push_key(&mut out, Key::Blocked);
        push_points(&mut out, &self.blocked);
        out.push(',');
        push_key(&mut out, Key::Paths);
        push_frames(&mut out, &self.frames);
        out.push('}');
        proof {
            assert(out@ =~= summary_chars(self@));
        }
        out
    }
}

/// A point list written as adjacent points; mirrors the descriptor's
/// `blocked_text` for a free-standing list.
pub fn points_text(points: &Vec<Point>) -> (r: Vec<char>)
    ensures
        r@ == points_chars(points@),
{
    let mut out: Vec<char> = Vec::new();
    push_points(&mut out, points);
    proof {
        assert(out@ =~= points_chars(points@));
    }
    out
}

} // verus!
