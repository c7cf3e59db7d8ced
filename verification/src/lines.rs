//! Line-level text handling: splitting the input into lines, locating the
//! key/value colon, and trimming white space, each proved against a
//! spec-level counterpart.

use vstd::prelude::*;
use crate::chars::{is_space, space_char};

verus! {

/// `s` without its leading white space.
pub open spec fn spec_trim_front(s: Seq<char>) -> Seq<char>
    decreases s.len()
{
    if s.len() > 0 && is_space(s[0]) {
        spec_trim_front(s.drop_first())
    } else {
        s
    }
}

/// `s` without its trailing white space.
pub open spec fn spec_trim_back(s: Seq<char>) -> Seq<char>
    decreases s.len()
{
    if s.len() > 0 && is_space(s.last()) {
        spec_trim_back(s.drop_last())
    } else {
        s
    }
}

/// `s` without leading and trailing white space.
pub open spec fn spec_trim(s: Seq<char>) -> Seq<char> {
    spec_trim_back(spec_trim_front(s))
}

/// How many times `c` occurs in `s`.
pub open spec fn count_char(s: Seq<char>, c: char) -> int
    decreases s.len()
{
    if s.len() == 0 {
        0
    } else {
        count_char(s.drop_last(), c) + if s.last() == c { 1int } else { 0int }
    }
}

/// Index of the first occurrence of `c` in `s`, or `s.len()` if there is none.
pub open spec fn find_char(s: Seq<char>, c: char) -> int
    decreases s.len()
{
    if s.len() == 0 {
        0
    } else if s[0] == c {
        0
    } else {
        1 + find_char(s.drop_first(), c)
    }
}

/// `find_char` returns the position of a known first occurrence.
pub proof fn lemma_find_char_at(s: Seq<char>, c: char, j: int)
    requires
        0 <= j <= s.len(),
        forall|k: int| 0 <= k < j ==> s[k] != c,
        j < s.len() ==> s[j] == c,
    ensures
        find_char(s, c) == j,
    decreases s.len(),
{
    if s.len() > 0 && s[0] != c {
        lemma_find_char_at(s.drop_first(), c, j - 1);
    }
}

/// Trimming the front lands on the first non-space position of a known split.
pub proof fn lemma_trim_front_at(s: Seq<char>, a: int, b: int, a2: int)
    requires
        0 <= a <= a2 <= b <= s.len(),
        forall|k: int| a <= k < a2 ==> is_space(#[trigger] s[k]),
        a2 < b ==> !is_space(s[a2]),
    ensures
        spec_trim_front(s.subrange(a, b)) == s.subrange(a2, b),
    decreases a2 - a,
{
    if a < a2 {
        assert(s.subrange(a, b).drop_first() =~= s.subrange(a + 1, b));
        lemma_trim_front_at(s, a + 1, b, a2);
    } else {
        if a < b {
            assert(!is_space(s.subrange(a, b)[0]));
        }
    }
}

/// Trimming the back lands on the last non-space position of a known split.
pub proof fn lemma_trim_back_at(s: Seq<char>, a: int, b: int, b2: int)
    requires
        0 <= a <= b2 <= b <= s.len(),
        forall|k: int| b2 <= k < b ==> is_space(#[trigger] s[k]),
        b2 > a ==> !is_space(s[b2 - 1]),
    ensures
        spec_trim_back(s.subrange(a, b)) == s.subrange(a, b2),
    decreases b - b2,
{
    if b2 < b {
        assert(s.subrange(a, b).drop_last() =~= s.subrange(a, b - 1));
        lemma_trim_back_at(s, a, b - 1, b2);
    } else {
        if a < b {
            assert(!is_space(s.subrange(a, b).last()));
        }
    }
}

/// Trimming a string with no white space at all leaves it unchanged.
pub proof fn lemma_trim_no_space(s: Seq<char>)
    requires
        forall|k: int| 0 <= k < s.len() ==> !is_space(#[trigger] s[k]),
    ensures
        spec_trim(s) == s,
{
    assert(s.subrange(0, s.len() as int) =~= s);
    lemma_trim_front_at(s, 0, s.len() as int, 0);
    lemma_trim_back_at(s, 0, s.len() as int, s.len() as int);
}

/// The input split at newlines: each `'\n'` ends a line, and a final line
/// ending is optional, so a trailing newline adds no empty line.
pub open spec fn spec_lines(text: Seq<char>) -> Seq<Seq<char>>
    decreases text.len()
{
    if text.len() == 0 {
        Seq::empty()
    } else {
        let j = find_char(text, '\n');
        if 0 <= j && j < text.len() {
            seq![text.subrange(0, j)] + spec_lines(text.subrange(j + 1, text.len() as int))
        } else {
            seq![text]
        }
    }
}

/// The sequence of views of a vector of lines.
pub open spec fn line_views(ls: Seq<Vec<char>>) -> Seq<Seq<char>> {
    Seq::new(ls.len(), |i: int| ls[i]@)
}

/// A fresh copy of the characters of `s` between `a` and `b`.
pub fn copy_range(s: &Vec<char>, a: usize, b: usize) -> (r: Vec<char>)
    requires
        a <= b <= s@.len(),
    ensures
        r@ == s@.subrange(a as int, b as int),
{
    let mut r: Vec<char> = Vec::new();
    let mut k = a;
    while k < b
        invariant
            a <= k <= b <= s@.len(),
            r@ =~= s@.subrange(a as int, k as int),
        decreases b - k,
    {
        r.push(s[k]);
        k = k + 1;
    }
    proof {
        assert(r@ =~= s@.subrange(a as int, b as int));
    }
    r
}

/// The bounds of the trimmed middle of `s` between `a` and `b`:
/// `s[r.0 .. r.1]` is `spec_trim(s[a .. b])`.
pub fn trim_range(s: &Vec<char>, a: usize, b: usize) -> (r: (usize, usize))
    requires
        a <= b <= s@.len(),
    ensures
        a <= r.0 <= r.1 <= b,
        s@.subrange(r.0 as int, r.1 as int) == spec_trim(s@.subrange(a as int, b as int)),
{
    let mut a2 = a;
    while a2 < b && space_char(s[a2])
        invariant
            a <= a2 <= b <= s@.len(),
            forall|k: int| a <= k < a2 ==> is_space(#[trigger] s@[k]),
        decreases b - a2,
    {
        a2 = a2 + 1;
    }
    let mut b2 = b;
    while b2 > a2 && space_char(s[b2 - 1])
        invariant
            a2 <= b2 <= b <= s@.len(),
            forall|k: int| b2 <= k < b ==> is_space(#[trigger] s@[k]),
        decreases b2,
    {
        b2 = b2 - 1;
    }
    proof {
        lemma_trim_front_at(s@, a as int, b as int, a2 as int);
        lemma_trim_back_at(s@, a2 as int, b as int, b2 as int);
    }
    (a2, b2)
}

/// Splits the input into lines at `'\n'`; a trailing newline adds no line.
pub fn split_lines(text: &Vec<char>) -> (r: Vec<Vec<char>>)
    ensures
        line_views(r@) == spec_lines(text@),
{
    let mut lines: Vec<Vec<char>> = Vec::new();
    let mut pos: usize = 0;
    proof {
        assert(line_views(lines@) + spec_lines(text@.subrange(0, text@.len() as int)) =~= spec_lines(
            text@.subrange(0, text@.len() as int),
        ));
        assert(text@.subrange(0, text@.len() as int) =~= text@);
    }
    while pos < text.len()
        invariant
            pos <= text@.len(),
            line_views(lines@) + spec_lines(text@.subrange(pos as int, text@.len() as int))
                =~= spec_lines(text@),
        decreases text@.len() - pos,
    {
        let mut j = pos;
        while j < text.len() && text[j] != '\n'
            invariant
                pos <= j <= text@.len(),
                forall|k: int| pos <= k < j ==> text@[k] != '\n',
            decreases text@.len() - j,
        {
            j = j + 1;
        }
        let ghost rest = text@.subrange(pos as int, text@.len() as int);
        proof {
            assert(forall|k: int| 0 <= k < j - pos ==> rest[k] != '\n');
            if j < text@.len() {
                assert(rest[j - pos] == '\n');
            }
            lemma_find_char_at(rest, '\n', j - pos);
        }
        let line = copy_range(text, pos, j);
        proof {
            assert(line@ =~= rest.subrange(0, j - pos));
            if j < text@.len() {
                assert(rest.subrange(j - pos + 1, rest.len() as int) =~= text@.subrange(
                    j + 1,
                    text@.len() as int,
                ));
                assert(spec_lines(rest) == seq![line@] + spec_lines(
                    text@.subrange(j + 1, text@.len() as int),
                ));
            } else {
                assert(rest =~= line@);
                assert(spec_lines(rest) == seq![line@] + spec_lines(
                    text@.subrange(text@.len() as int, text@.len() as int),
                ));
            }
            assert(line_views(lines@.push(line)) =~= line_views(lines@) + seq![line@]);
        }
        lines.push(line);
        if j < text.len() {
            pos = j + 1;
        } else {
            pos = text.len();
        }
        proof {
            assert(line_views(lines@) + spec_lines(text@.subrange(pos as int, text@.len() as int))
                =~= spec_lines(text@));
        }
    }
    proof {
        assert(text@.subrange(pos as int, text@.len() as int) =~= Seq::<char>::empty());
        assert(line_views(lines@) + Seq::<Seq<char>>::empty() =~= line_views(lines@));
    }
    lines
}

} // verus!
