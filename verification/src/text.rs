//! Splitting a text into lines and white-space separated tokens, on bytes.

use vstd::prelude::*;

verus! {

/// White space between data tokens: tab, line feed, form feed, carriage
/// return and space.
pub open spec fn is_ascii_space(c: u8) -> bool {
    c == 0x09 || c == 0x0A || c == 0x0C || c == 0x0D || c == 0x20
}

/// Length in bytes of the white-space character of Unicode whose UTF-8 form
/// starts at `i` and ends by `end`; 0 where none starts. These are U+0009 to
/// U+000D, U+0020, U+0085, U+00A0, U+1680, U+2000 to U+200A, U+2028, U+2029,
/// U+202F, U+205F and U+3000.
pub open spec fn unicode_space_len(s: Seq<u8>, i: int, end: int) -> int {
    if !(0 <= i < end <= s.len()) {
        0
    } else if (0x09 <= s[i] <= 0x0D) || s[i] == 0x20 {
        1
    } else if i + 1 < end && s[i] == 0xC2 && (s[i + 1] == 0x85 || s[i + 1] == 0xA0) {
        2
    } else if i + 2 < end && s[i] == 0xE1 && s[i + 1] == 0x9A && s[i + 2] == 0x80 {
        3
    } else if i + 2 < end && s[i] == 0xE2 && s[i + 1] == 0x80 && ((0x80 <= s[i + 2] <= 0x8A)
        || s[i + 2] == 0xA8 || s[i + 2] == 0xA9 || s[i + 2] == 0xAF) {
        3
    } else if i + 2 < end && s[i] == 0xE2 && s[i + 1] == 0x81 && s[i + 2] == 0x9F {
        3
    } else if i + 2 < end && s[i] == 0xE3 && s[i + 1] == 0x80 && s[i + 2] == 0x80 {
        3
    } else {
        0
    }
}

/// Length of the white space that starts at `i`, 0 where none does: of
/// Unicode where `unicode` holds, else of the five ASCII characters.
pub open spec fn space_len(s: Seq<u8>, i: int, end: int, unicode: bool) -> int {
    if unicode {
        unicode_space_len(s, i, end)
    } else if 0 <= i < end <= s.len() && is_ascii_space(s[i]) {
        1
    } else {
        0
    }
}

/// Where the line that holds position `i` ends: behind its line feed, or at
/// the end of the text.
pub open spec fn line_end(s: Seq<u8>, i: int) -> int
    decreases s.len() - i,
{
    if i < 0 || i >= s.len() {
        s.len() as int
    } else if s[i] == 0x0A {
        i + 1
    } else {
        line_end(s, i + 1)
    }
}

/// Where the token that starts at `i` ends: at the next white space, or at
/// `end`.
pub open spec fn token_end(s: Seq<u8>, i: int, end: int, unicode: bool) -> int
    decreases end - i,
{
    if i >= end || space_len(s, i, end, unicode) > 0 {
        i
    } else {
        token_end(s, i + 1, end, unicode)
    }
}

/// A token that starts at `i` ends between `i` and `end`, and behind `i`
/// where `i` holds no white space.
pub proof fn lemma_token_end_bounds(s: Seq<u8>, i: int, end: int, unicode: bool)
    requires
        i <= end,
    ensures
        i <= token_end(s, i, end, unicode) <= end,
        i < end && space_len(s, i, end, unicode) == 0 ==> i < token_end(s, i, end, unicode),
    decreases end - i,
{
    if i >= end || space_len(s, i, end, unicode) > 0 {
    } else {
        lemma_token_end_bounds(s, i + 1, end, unicode);
    }
}

/// The tokens of `s` between `i` and `end`: the longest runs of bytes that
/// hold no white space.
pub open spec fn tokens_in(s: Seq<u8>, i: int, end: int, unicode: bool) -> Seq<Seq<u8>>
    decreases end - i,
{
    if i < 0 || i >= end || end > s.len() {
        Seq::empty()
    } else {
        let k = space_len(s, i, end, unicode);
        if k > 0 {
            tokens_in(s, i + k, end, unicode)
        } else {
            let j = token_end(s, i, end, unicode);
            proof {
                lemma_token_end_bounds(s, i, end, unicode);
            }
            seq![s.subrange(i, j)] + tokens_in(s, j, end, unicode)
        }
    }
}

/// Finds the end of the first line.
pub fn first_line_end(s: &[u8]) -> (cut: usize)
    ensures
        cut == line_end(s@, 0),
        cut <= s.len(),
{
    let mut i: usize = 0;
    while i < s.len()
        invariant
            i <= s.len(),
            line_end(s@, 0) == line_end(s@, i as int),
        decreases s.len() - i,
    {
        if s[i] == 0x0A {
            return i + 1;
        }
        i += 1;
    }
    i
}

/// Length of the white space that starts at `i`.
pub fn space_at(s: &[u8], i: usize, end: usize, unicode: bool) -> (k: usize)
    requires
        i < end <= s.len(),
    ensures
        k == space_len(s@, i as int, end as int, unicode),
        i + k <= end,
{
    let c: u8 = s[i];
    if !unicode {
        if c == 0x09 || c == 0x0A || c == 0x0C || c == 0x0D || c == 0x20 {
            return 1;
        }
        return 0;
    }
    if (0x09 <= c && c <= 0x0D) || c == 0x20 {
        return 1;
    }
    if end - i >= 2 && c == 0xC2 {
        let d: u8 = s[i + 1];
        if d == 0x85 || d == 0xA0 {
            return 2;
        }
    }
    if end - i >= 3 {
        let d: u8 = s[i + 1];
        let e: u8 = s[i + 2];
        if c == 0xE1 && d == 0x9A && e == 0x80 {
            return 3;
        }
        if c == 0xE2 && d == 0x80 && ((0x80 <= e && e <= 0x8A) || e == 0xA8 || e == 0xA9 || e
            == 0xAF) {
            return 3;
        }
        if c == 0xE2 && d == 0x81 && e == 0x9F {
            return 3;
        }
        if c == 0xE3 && d == 0x80 && e == 0x80 {
            return 3;
        }
    }
    0
}

/// Finds the first token between `i` and `end`: where it starts and where it
/// ends. `None` where only white space is left.
pub fn next_token(s: &[u8], i: usize, end: usize, unicode: bool) -> (r: Option<(usize, usize)>)
    requires
        i <= end <= s.len(),
    ensures
        match r {
            Some((a, b)) => i <= a < b <= end && tokens_in(s@, i as int, end as int, unicode)
                == seq![s@.subrange(a as int, b as int)] + tokens_in(
                s@,
                b as int,
                end as int,
                unicode,
            ),
            None => tokens_in(s@, i as int, end as int, unicode) == Seq::<Seq<u8>>::empty(),
        },
{
    let mut a: usize = i;
    loop
        invariant
            i <= a <= end <= s.len(),
            tokens_in(s@, i as int, end as int, unicode) == tokens_in(
                s@,
                a as int,
                end as int,
                unicode,
            ),
        ensures
            a < end,
            space_len(s@, a as int, end as int, unicode) == 0,
        decreases end - a,
    {
        if a >= end {
            return None;
        }
        let k: usize = space_at(s, a, end, unicode);
        if k == 0 {
            break;
        }
        a += k;
    }
    let mut b: usize = a + 1;
    proof {
        lemma_token_end_bounds(s@, a as int, end as int, unicode);
    }
    while b < end
        invariant
            a < b <= end <= s.len(),
            token_end(s@, a as int, end as int, unicode) == token_end(
                s@,
                b as int,
                end as int,
                unicode,
            ),
        ensures
            a < b <= end,
            token_end(s@, a as int, end as int, unicode) == b,
        decreases end - b,
    {
        let k: usize = space_at(s, b, end, unicode);
        if k > 0 {
            break;
        }
        b += 1;
    }
    Some((a, b))
}

} // verus!
