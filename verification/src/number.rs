//! Decimal numbers in settings.

use crate::text::chars_of;
use vstd::prelude::*;

verus! {

/// Whether `c` is one of the digits `0` to `9`.
pub open spec fn digit(c: char) -> bool {
    '0' <= c <= '9'
}

/// The value of a digit.
pub open spec fn digit_value(c: char) -> int {
    c as int - '0' as int
}

/// Whether `s` consists of digits, at least one.
pub open spec fn all_digits(s: Seq<char>) -> bool {
    s.len() > 0 && forall|k: int| 0 <= k < s.len() ==> digit(#[trigger] s[k])
}

/// The value of a run of digits.
pub open spec fn digits_value(s: Seq<char>) -> int
    decreases s.len(),
{
    if s.len() == 0 {
        0
    } else {
        10 * digits_value(s.drop_last()) + digit_value(s.last())
    }
}

/// The number that `s` writes: digits, with an optional `+` before them.
pub open spec fn unsigned_value(s: Seq<char>) -> Option<int> {
    let digits = if s.len() > 0 && s[0] == '+' {
        s.skip(1)
    } else {
        s
    };
    if all_digits(digits) {
        Some(digits_value(digits))
    } else {
        None
    }
}

/// The number that `s` writes: digits, with an optional `+` or `-` before
/// them.
pub open spec fn signed_value(s: Seq<char>) -> Option<int> {
    if s.len() > 0 && s[0] == '-' {
        if all_digits(s.skip(1)) {
            Some(-digits_value(s.skip(1)))
        } else {
            None
        }
    } else {
        unsigned_value(s)
    }
}

/// The value, if it lies in a range.
pub open spec fn in_range(value: Option<int>, low: int, high: int) -> Option<int> {
    match value {
        Some(v) => if low <= v <= high {
            Some(v)
        } else {
            None
        },
        None => None,
    }
}

proof fn lemma_digits_value_nonnegative(s: Seq<char>)
    requires
        forall|k: int| 0 <= k < s.len() ==> digit(#[trigger] s[k]),
    ensures
        digits_value(s) >= 0,
    decreases s.len(),
{
    if s.len() > 0 {
        let r = s.drop_last();
        assert forall|k: int| 0 <= k < r.len() implies digit(#[trigger] r[k]) by {
            assert(digit(s[k]));
        }
        lemma_digits_value_nonnegative(r);
        assert(digit(s[s.len() - 1]));
    }
}

/// The value of the digits from position `from` on, if there are any, all of
/// them are digits, and it is at most `limit`.
fn read_digits(chars: &Vec<char>, from: usize, limit: u64) -> (value: Option<u64>)
    requires
        from <= chars.len(),
    ensures
        ({
            let digits = chars@.skip(from as int);
            match value {
                Some(v) => all_digits(digits) && v == digits_value(digits) && v <= limit,
                None => !all_digits(digits) || digits_value(digits) > limit,
            }
        }),
{
    let ghost digits = chars@.skip(from as int);
    let n: usize = chars.len();
    if from == n {
        return None;
    }
    let mut value: u64 = 0;
    let mut over: bool = false;
    let mut i: usize = from;
    assert(digits.take(0) =~= Seq::<char>::empty());
    while i < n
        invariant
            n == chars.len(),
            from <= i <= n,
            digits == chars@.skip(from as int),
            forall|k: int| 0 <= k < i - from ==> digit(#[trigger] digits[k]),
            digits_value(digits.take(i - from)) >= 0,
            over ==> digits_value(digits.take(i - from)) > limit,
            !over ==> value == digits_value(digits.take(i - from)) && value <= limit,
        decreases n - i,
    {
        let c: char = chars[i];
        assert(digits[i - from] == c);
        if c < '0' || '9' < c {
            return None;
        }
        let d: u64 = c as u64 - '0' as u64;
        proof {
            assert(digits.take(i - from + 1).drop_last() =~= digits.take(i - from));
            assert(digits.take(i - from + 1).last() == c);
        }
        if !over {
            let next: u128 = value as u128 * 10 + d as u128;
            if next <= limit as u128 {
                value = next as u64;
            } else {
                over = true;
            }
        }
        i = i + 1;
    }
    assert(digits.take(n - from) =~= digits);
    if over {
        None
    } else {
        Some(value)
    }
}

/// Reads an unsigned number of at most `limit`.
fn parse_unsigned(s: &str, limit: u64) -> (value: Option<u64>)
    ensures
        match value {
            Some(v) => in_range(unsigned_value(s@), 0, limit as int) == Some(v as int),
            None => in_range(unsigned_value(s@), 0, limit as int) is None,
        },
{
    let chars: Vec<char> = chars_of(s);
    let from: usize = if chars.len() > 0 && chars[0] == '+' {
        1
    } else {
        0
    };
    proof {
        assert(s@.skip(0) =~= s@);
        let digits = s@.skip(from as int);
        if all_digits(digits) {
            lemma_digits_value_nonnegative(digits);
        }
    }
    read_digits(&chars, from, limit)
}

/// Reads a `u64`.
pub fn parse_u64(s: &str) -> (value: Option<u64>)
    ensures
        match value {
            Some(v) => in_range(unsigned_value(s@), 0, u64::MAX as int) == Some(v as int),
            None => in_range(unsigned_value(s@), 0, u64::MAX as int) is None,
        },
{
    parse_unsigned(s, u64::MAX)
}

/// Reads a `u32`.
pub fn parse_u32(s: &str) -> (value: Option<u32>)
    ensures
        match value {
            Some(v) => in_range(unsigned_value(s@), 0, u32::MAX as int) == Some(v as int),
            None => in_range(unsigned_value(s@), 0, u32::MAX as int) is None,
        },
{
    match parse_unsigned(s, u32::MAX as u64) {
        Some(v) => Some(v as u32),
        None => None,
    }
}

/// Reads an `i64`.
pub fn parse_i64(s: &str) -> (value: Option<i64>)
    ensures
        match value {
            Some(v) => in_range(signed_value(s@), i64::MIN as int, i64::MAX as int) == Some(
                v as int,
            ),
            None => in_range(signed_value(s@), i64::MIN as int, i64::MAX as int) is None,
        },
{
    let chars: Vec<char> = chars_of(s);
    if chars.len() > 0 && chars[0] == '-' {
        proof {
            if all_digits(s@.skip(1)) {
                lemma_digits_value_nonnegative(s@.skip(1));
            }
        }
        match read_digits(&chars, 1, 9_223_372_036_854_775_808) {
            Some(v) => {
                if v == 9_223_372_036_854_775_808 {
                    Some(i64::MIN)
                } else {
                    Some(-(v as i64))
                }
            },
            None => None,
        }
    } else {
        match parse_unsigned(s, i64::MAX as u64) {
            Some(v) => Some(v as i64),
            None => {
                proof {
                    if unsigned_value(s@) is Some {
                        let digits = if s@.len() > 0 && s@[0] == '+' {
                            s@.skip(1)
                        } else {
                            s@
                        };
                        lemma_digits_value_nonnegative(digits);
                    }
                }
                None
            },
        }
    }
}

} // verus!
