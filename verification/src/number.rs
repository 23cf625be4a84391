//! Fixed-point numbers in text: a decimal token without its point, read as a
//! signed 32-bit integer.

use vstd::prelude::*;

verus! {

/// `c` is one of the digits `0` to `9`.
pub open spec fn is_digit(c: u8) -> bool {
    0x30 <= c <= 0x39
}

/// The number that a digit stands for; 0 for any other byte.
pub open spec fn digit_value(c: u8) -> nat {
    if is_digit(c) {
        (c - 0x30) as nat
    } else {
        0
    }
}

/// Every byte is a digit.
pub open spec fn all_digits(d: Seq<u8>) -> bool {
    forall|i: int| 0 <= i < d.len() ==> is_digit(#[trigger] d[i])
}

/// The number that a string of digits spells in base ten.
pub open spec fn decimal(d: Seq<u8>) -> nat
    decreases d.len(),
{
    if d.len() == 0 {
        0
    } else {
        10 * decimal(d.drop_last()) + digit_value(d.last())
    }
}

/// The token without its `.` characters.
pub open spec fn strip_dots(t: Seq<u8>) -> Seq<u8>
    decreases t.len(),
{
    if t.len() == 0 {
        t
    } else if t.last() == 0x2E {
        strip_dots(t.drop_last())
    } else {
        strip_dots(t.drop_last()).push(t.last())
    }
}

/// The signed 32-bit number that `t` spells: an optional `+` or `-`, then
/// one digit or more. `None` where `t` has another form or the number does
/// not fit.
pub open spec fn signed_decimal(t: Seq<u8>) -> Option<int> {
    if t.len() == 0 {
        None
    } else {
        let negative = t[0] == 0x2D;
        let digits = if negative || t[0] == 0x2B {
            t.skip(1)
        } else {
            t
        };
        let magnitude = decimal(digits) as int;
        let v = if negative {
            -magnitude
        } else {
            magnitude
        };
        if digits.len() == 0 || !all_digits(digits) || v < i32::MIN || v > i32::MAX {
            None
        } else {
            Some(v)
        }
    }
}

/// The sample that a data token spells: its digits with the point taken out.
pub open spec fn token_value(t: Seq<u8>) -> Option<int> {
    signed_decimal(strip_dots(t))
}

/// More digits never spell a smaller number.
pub proof fn lemma_decimal_prefix(d: Seq<u8>, k: int)
    requires
        0 <= k <= d.len(),
    ensures
        decimal(d.take(k)) <= decimal(d),
    decreases d.len(),
{
    if k == d.len() {
        assert(d.take(k) =~= d);
    } else {
        lemma_decimal_prefix(d.drop_last(), k);
        assert(d.drop_last().take(k) =~= d.take(k));
    }
}

/// Copies the bytes of `s` between `a` and `b` into `buf`, but for the `.`
/// characters. What `buf` held before is dropped.
pub fn strip_dots_into(s: &[u8], a: usize, b: usize, buf: &mut Vec<u8>)
    requires
        a <= b <= s.len(),
    ensures
        final(buf)@ == strip_dots(s@.subrange(a as int, b as int)),
{
    buf.clear();
    let mut k: usize = a;
    assert(s@.subrange(a as int, a as int) =~= Seq::<u8>::empty());
    while k < b
        invariant
            a <= k <= b <= s.len(),
            buf@ == strip_dots(s@.subrange(a as int, k as int)),
        decreases b - k,
    {
        let c: u8 = s[k];
        proof {
            let t = s@.subrange(a as int, k + 1);
            assert(t.drop_last() =~= s@.subrange(a as int, k as int));
            assert(t.last() == c);
        }
        if c != 0x2E {
            buf.push(c);
        }
        k += 1;
    }
}

/// Reads `t` as a signed 32-bit number in base ten.
pub fn parse_signed(t: &Vec<u8>) -> (r: Option<i32>)
    ensures
        match r {
            Some(v) => signed_decimal(t@) == Some(v as int),
            None => signed_decimal(t@) is None,
        },
{
    let n: usize = t.len();
    if n == 0 {
        return None;
    }
    let negative: bool = t[0] == 0x2D;
    let start: usize = if negative || t[0] == 0x2B {
        1
    } else {
        0
    };
    let ghost digits = if start == 1 {
        t@.skip(1)
    } else {
        t@
    };
    if start == n {
        return None;
    }
    let mut acc: i64 = 0;
    let mut k: usize = start;
    assert(digits.take(0) =~= Seq::<u8>::empty());
    while k < n
        invariant
            start <= k <= n,
            n == t.len(),
            start <= 1,
            n > 0,
            negative == (t@[0] == 0x2D),
            (start == 1) == (t@[0] == 0x2D || t@[0] == 0x2B),
            digits == if start == 1 {
                t@.skip(1)
            } else {
                t@
            },
            all_digits(digits.take(k - start)),
            acc == decimal(digits.take(k - start)),
            0 <= acc <= 0x8000_0000,
        decreases n - k,
    {
        let c: u8 = t[k];
        if c < 0x30 || c > 0x39 {
            assert(!is_digit(digits[k - start]));
            return None;
        }
        proof {
            let more = digits.take(k + 1 - start);
            assert(more.drop_last() =~= digits.take(k - start));
            assert(more.last() == c);
            assert forall|j: int| 0 <= j < more.len() implies is_digit(#[trigger] more[j]) by {
                if j < k - start {
                    assert(more[j] == digits.take(k - start)[j]);
                }
            }
        }
        acc = acc * 10 + (c - 0x30) as i64;
        if acc > 0x8000_0000 {
            proof {
                lemma_decimal_prefix(digits, k + 1 - start);
            }
            return None;
        }
        k += 1;
    }
    assert(digits.take(n - start) =~= digits);
    let v: i64 = if negative {
        -acc
    } else {
        acc
    };
    if v > 0x7FFF_FFFF {
        return None;
    }
    Some(v as i32)
}

/// Reads the token of `s` between `a` and `b` as a sample. `buf` is working
/// space.
pub fn parse_token(s: &[u8], a: usize, b: usize, buf: &mut Vec<u8>) -> (r: Option<i32>)
    requires
        a <= b <= s.len(),
    ensures
        match r {
            Some(v) => token_value(s@.subrange(a as int, b as int)) == Some(v as int),
            None => token_value(s@.subrange(a as int, b as int)) is None,
        },
{
    strip_dots_into(s, a, b, buf);
    parse_signed(buf)
}

} // verus!
