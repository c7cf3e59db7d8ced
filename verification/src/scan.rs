//! Cursor primitives: white-space skipping, expected-character matching and
//! greedy decimal scanning over an indexed character sequence, each proved
//! against a spec-level counterpart.

use vstd::prelude::*;
use crate::chars::{digit_char, digit_val, digit_value, is_digit, is_space, space_char};
use crate::error::ParseError;

verus! {

/// First position at or after `i` whose character is not white space.
pub open spec fn spec_skip_ws(s: Seq<char>, i: int) -> int
    decreases s.len() - i when 0 <= i <= s.len()
{
    if i < s.len() && is_space(s[i]) {
        spec_skip_ws(s, i + 1)
    } else {
        i
    }
}

pub proof fn lemma_skip_ws(s: Seq<char>, i: int)
    requires
        0 <= i <= s.len(),
    ensures
        i <= spec_skip_ws(s, i) <= s.len(),
        forall|k: int| i <= k < spec_skip_ws(s, i) ==> is_space(#[trigger] s[k]),
        spec_skip_ws(s, i) < s.len() ==> !is_space(s[spec_skip_ws(s, i)]),
    decreases s.len() - i,
{
    if i < s.len() && is_space(s[i]) {
        lemma_skip_ws(s, i + 1);
    }
}

/// Skipping lands on the first non-space position of a known split.
pub proof fn lemma_skip_ws_at(s: Seq<char>, i: int, w: int)
    requires
        0 <= i <= w <= s.len(),
        forall|k: int| i <= k < w ==> is_space(#[trigger] s[k]),
        w < s.len() ==> !is_space(s[w]),
    ensures
        spec_skip_ws(s, i) == w,
    decreases w - i,
{
    if i < w {
        lemma_skip_ws_at(s, i + 1, w);
    }
}

/// End of the maximal digit run that starts at `i`.
pub open spec fn digits_end(s: Seq<char>, i: int) -> int
    decreases s.len() - i when 0 <= i <= s.len()
{
    if i < s.len() && is_digit(s[i]) {
        digits_end(s, i + 1)
    } else {
        i
    }
}

pub proof fn lemma_digits_end(s: Seq<char>, i: int)
    requires
        0 <= i <= s.len(),
    ensures
        i <= digits_end(s, i) <= s.len(),
        forall|k: int| i <= k < digits_end(s, i) ==> is_digit(#[trigger] s[k]),
        digits_end(s, i) < s.len() ==> !is_digit(s[digits_end(s, i)]),
    decreases s.len() - i,
{
    if i < s.len() && is_digit(s[i]) {
        lemma_digits_end(s, i + 1);
    }
}

/// The digit run ends exactly at a known digit/non-digit split.
pub proof fn lemma_digits_end_at(s: Seq<char>, i: int, e: int)
    requires
        0 <= i <= e <= s.len(),
        forall|k: int| i <= k < e ==> is_digit(#[trigger] s[k]),
        e < s.len() ==> !is_digit(s[e]),
    ensures
        digits_end(s, i) == e,
    decreases e - i,
{
    if i < e {
        lemma_digits_end_at(s, i + 1, e);
    }
}

/// Value of a digit sequence read left to right.
pub open spec fn digits_value(s: Seq<char>) -> int
    decreases s.len()
{
    if s.len() == 0 {
        0
    } else {
        digits_value(s.drop_last()) * 10 + digit_val(s.last())
    }
}

pub proof fn lemma_digits_value_nonneg(s: Seq<char>)
    requires
        forall|k: int| 0 <= k < s.len() ==> is_digit(#[trigger] s[k]),
    ensures
        digits_value(s) >= 0,
    decreases s.len(),
{
    if s.len() > 0 {
        lemma_digits_value_nonneg(s.drop_last());
    }
}

/// A longer digit run never has a smaller value: the value of
/// `s.subrange(w, a)` is at most that of `s.subrange(w, b)` for `a <= b`.
pub proof fn lemma_digits_value_mono(s: Seq<char>, w: int, a: int, b: int)
    requires
        0 <= w <= a <= b <= s.len(),
        forall|k: int| w <= k < b ==> is_digit(#[trigger] s[k]),
    ensures
        digits_value(s.subrange(w, a)) <= digits_value(s.subrange(w, b)),
    decreases b - a,
{
    if a < b {
        lemma_digits_value_mono(s, w, a, b - 1);
        assert(s.subrange(w, b).drop_last() =~= s.subrange(w, b - 1));
        lemma_digits_value_nonneg(s.subrange(w, b - 1));
        assert(forall|k: int| 0 <= k < s.subrange(w, b - 1).len()
            ==> is_digit(#[trigger] s.subrange(w, b - 1)[k]));
    }
}

/// Result of scanning a number at `i`: position after the digits and the
/// value, or `InvalidNumber` on an empty or overflowing digit run.
pub open spec fn spec_scan_number(s: Seq<char>, i: int) -> Result<(int, u32), ParseError> {
    let w = spec_skip_ws(s, i);
    let e = digits_end(s, w);
    if e == w {
        Err(ParseError::InvalidNumber)
    } else if digits_value(s.subrange(w, e)) > u32::MAX {
        Err(ParseError::InvalidNumber)
    } else {
        Ok((e, digits_value(s.subrange(w, e)) as u32))
    }
}

/// Result of requiring the character `c` at the first non-space position.
pub open spec fn spec_expect(s: Seq<char>, i: int, c: char) -> Result<int, ParseError> {
    let w = spec_skip_ws(s, i);
    if w == s.len() {
        Err(ParseError::UnexpectedEndOfInput)
    } else if s[w] == c {
        Ok(w + 1)
    } else {
        Err(ParseError::UnexpectedToken)
    }
}

/// Advances past zero or more white-space characters; never fails.
pub fn skip_whitespace(s: &Vec<char>, pos: usize) -> (r: usize)
    requires
        pos <= s@.len(),
    ensures
        r == spec_skip_ws(s@, pos as int),
        pos <= r <= s@.len(),
{
    proof {
        lemma_skip_ws(s@, pos as int);
    }
    let mut i = pos;
    while i < s.len() && space_char(s[i])
        invariant
            pos <= i <= s@.len(),
            spec_skip_ws(s@, pos as int) == spec_skip_ws(s@, i as int),
        decreases s@.len() - i,
    {
        i = i + 1;
    }
    i
}

/// Skips white space, then requires the next character to equal `c`;
/// fails with `UnexpectedEndOfInput` past the end and `UnexpectedToken`
/// on a different character.
pub fn expect_char(s: &Vec<char>, pos: usize, c: char) -> (r: Result<usize, ParseError>)
    requires
        pos <= s@.len(),
    ensures
        match r {
            Ok(p) => spec_expect(s@, pos as int, c) == Ok::<int, ParseError>(p as int)
                && pos < p <= s@.len(),
            Err(e) => spec_expect(s@, pos as int, c) == Err::<int, ParseError>(e),
        },
{
    let w = skip_whitespace(s, pos);
    if w == s.len() {
        Err(ParseError::UnexpectedEndOfInput)
    } else if s[w] == c {
        Ok(w + 1)
    } else {
        Err(ParseError::UnexpectedToken)
    }
}

/// Skips white space, then greedily consumes a maximal run of decimal
/// digits; fails with `InvalidNumber` if the run is empty or its value
/// does not fit in `u32`.
pub fn scan_number(s: &Vec<char>, pos: usize) -> (r: Result<(usize, u32), ParseError>)
    requires
        pos <= s@.len(),
    ensures
        match r {
            Ok((p, n)) => spec_scan_number(s@, pos as int) == Ok::<(int, u32), ParseError>((
                p as int,
                n,
            )) && pos <= p <= s@.len(),
            Err(e) => spec_scan_number(s@, pos as int) == Err::<(int, u32), ParseError>(e),
        },
{
    let w = skip_whitespace(s, pos);
    let ghost e = digits_end(s@, w as int);
    proof {
        lemma_digits_end(s@, w as int);
    }
    let mut i = w;
    let mut acc: u32 = 0;
    while i < s.len() && digit_char(s[i])
        invariant
            pos <= w <= i <= e <= s@.len(),
            w == spec_skip_ws(s@, pos as int),
            e == digits_end(s@, w as int),
            forall|k: int| w <= k < e ==> is_digit(#[trigger] s@[k]),
            e < s@.len() ==> !is_digit(s@[e]),
            i < e ==> is_digit(s@[i as int]),
            acc == digits_value(s@.subrange(w as int, i as int)),
        decreases s@.len() - i,
    {
        proof {
            lemma_digits_end(s@, i as int);
            assert(digits_end(s@, i as int) == e) by {
                lemma_digits_end_at(s@, i as int, e);
            }
        }
        let d = digit_value(s[i]);
        proof {
            assert(s@.subrange(w as int, i + 1).drop_last() =~= s@.subrange(w as int, i as int));
            assert(s@.subrange(w as int, i + 1).last() == s@[i as int]);
        }
        if acc > 429496729 || (acc == 429496729 && d > 5) {
            proof {
                assert(digits_value(s@.subrange(w as int, i + 1)) == acc * 10 + d);
                assert(digits_value(s@.subrange(w as int, i + 1)) > u32::MAX);
                lemma_digits_value_mono(s@, w as int, i + 1, e);
                assert(digits_value(s@.subrange(w as int, e)) > u32::MAX);
            }
            return Err(ParseError::InvalidNumber);
        }
        acc = acc * 10 + d;
        i = i + 1;
    }
    proof {
        assert(i == e) by {
            lemma_digits_end_at(s@, i as int, i as int);
        }
    }
    if i == w {
        Err(ParseError::InvalidNumber)
    } else {
        Ok((i, acc))
    }
}

} // verus!
