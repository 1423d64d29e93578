//! Decimal numbers in text.
//!
//! A counter is written as one or more ASCII digits, with an optional `+` before them. A
//! process id may have a `-` in that place. A token that is written otherwise, or whose
//! value is outside the type, is no number.

use vstd::prelude::*;
use crate::text::chars_of;

verus! {

/// Whether `c` is one of the ASCII digits `0` to `9`.
pub open spec fn is_digit(c: char) -> bool {
    0x30 <= c as u32 <= 0x39
}

/// The value of the ASCII digit `c`.
pub open spec fn digit_value(c: char) -> int {
    c as u32 - 0x30
}

/// Whether every character of `s` is an ASCII digit.
pub open spec fn all_digits(s: Seq<char>) -> bool {
    forall|i: int| 0 <= i < s.len() ==> is_digit(#[trigger] s[i])
}

/// The number that the digits of `s` write in base ten; 0 for no digits.
pub open spec fn decimal_value(s: Seq<char>) -> int
    decreases s.len(),
{
    if s.len() == 0 {
        0
    } else {
        10 * decimal_value(s.drop_last()) + digit_value(s.last())
    }
}

/// The number that `digits` write, where they are one or more digits and the number is at
/// most `limit`.
pub open spec fn bounded_decimal(digits: Seq<char>, limit: u64) -> Option<u64> {
    if digits.len() > 0 && all_digits(digits) && decimal_value(digits) <= limit {
        Some(decimal_value(digits) as u64)
    } else {
        None
    }
}

/// `token` without a `+` at its start.
pub open spec fn without_plus(token: Seq<char>) -> Seq<char> {
    if token.len() > 0 && token[0] == '+' {
        token.skip(1)
    } else {
        token
    }
}

/// The counter that `token` writes, if it writes one.
pub open spec fn parsed_u64(token: Seq<char>) -> Option<u64> {
    bounded_decimal(without_plus(token), u64::MAX)
}

/// The signed number that `token` writes, if it writes one.
pub open spec fn parsed_i32(token: Seq<char>) -> Option<i32> {
    if token.len() > 0 && token[0] == '-' {
        match bounded_decimal(token.skip(1), 0x8000_0000) {
            Some(m) => Some((-(m as int)) as i32),
            None => None,
        }
    } else {
        match bounded_decimal(without_plus(token), 0x7fff_ffff) {
            Some(m) => Some(m as i32),
            None => None,
        }
    }
}

/// Digits written after a number do not make it smaller.
pub proof fn lemma_decimal_value_grows(s: Seq<char>, k: int)
    requires
        0 <= k <= s.len(),
        all_digits(s),
    ensures
        0 <= decimal_value(s.take(k)) <= decimal_value(s),
    decreases s.len() - k,
{
    if k == s.len() {
        assert(s.take(k) =~= s);
        lemma_decimal_value_nonnegative(s);
    } else {
        let front = s.drop_last();
        assert(front.take(k) =~= s.take(k));
        assert(all_digits(front)) by {
            assert forall|i: int| 0 <= i < front.len() implies is_digit(#[trigger] front[i]) by {
                assert(front[i] == s[i]);
            }
        }
        lemma_decimal_value_grows(front, k);
        assert(is_digit(s[s.len() - 1]));
    }
}

/// A number written in digits is not negative.
pub proof fn lemma_decimal_value_nonnegative(s: Seq<char>)
    requires
        all_digits(s),
    ensures
        0 <= decimal_value(s),
    decreases s.len(),
{
    if s.len() > 0 {
        let front = s.drop_last();
        assert forall|i: int| 0 <= i < front.len() implies is_digit(#[trigger] front[i]) by {
            assert(front[i] == s[i]);
        }
        lemma_decimal_value_nonnegative(front);
        assert(is_digit(s[s.len() - 1]));
    }
}

/// The number that the characters from `from` on write, where it is at most `limit`.
fn parse_digits(cs: &Vec<char>, from: usize, limit: u64) -> (r: Option<u64>)
    requires
        from <= cs.len(),
    ensures
        r == bounded_decimal(cs@.skip(from as int), limit),
        r matches Some(m) ==> m <= limit,
{
    let ghost digits = cs@.skip(from as int);
    if from == cs.len() {
        return None;
    }
    let mut acc: u64 = 0;
    let mut i: usize = from;
    proof {
        assert(digits.take(0) =~= Seq::<char>::empty());
    }
    while i < cs.len()
        invariant
            from <= i <= cs.len(),
            digits == cs@.skip(from as int),
            all_digits(digits.take(i - from)),
            acc == decimal_value(digits.take(i - from)),
            acc <= limit,
        decreases cs.len() - i,
    {
        let c = cs[i];
        let u: u32 = c as u32;
        if u < 0x30 || u > 0x39 {
            proof {
                assert(digits[i - from] == c);
            }
            return None;
        }
        let ghost seen = digits.take(i - from);
        let ghost next = digits.take(i - from + 1);
        proof {
            assert(next.drop_last() =~= seen);
            assert(next.last() == c);
            assert forall|k: int| 0 <= k < next.len() implies is_digit(#[trigger] next[k]) by {
                if k < seen.len() {
                    assert(next[k] == seen[k]);
                }
            }
        }
        let wide: u128 = (acc as u128) * 10 + ((u - 0x30) as u128);
        if wide > limit as u128 {
            proof {
                if all_digits(digits) {
                    lemma_decimal_value_grows(digits, i - from + 1);
                }
            }
            return None;
        }
        acc = wide as u64;
        i += 1;
    }
    proof {
        assert(digits.take(i - from) =~= digits);
    }
    Some(acc)
}

/// Reads `token` as a counter.
pub fn parse_u64(token: &str) -> (r: Option<u64>)
    ensures
        r == parsed_u64(token@),
{
    let cs = chars_of(token);
    let from: usize = if cs.len() > 0 && cs[0] == '+' {
        1
    } else {
        0
    };
    proof {
        assert(cs@.skip(0) =~= cs@);
    }
    parse_digits(&cs, from, u64::MAX)
}

/// Reads `token` as a signed number of 32 bits.
pub fn parse_i32(token: &str) -> (r: Option<i32>)
    ensures
        r == parsed_i32(token@),
{
    let cs = chars_of(token);
    proof {
        assert(cs@.skip(0) =~= cs@);
    }
    if cs.len() > 0 && cs[0] == '-' {
        match parse_digits(&cs, 1, 0x8000_0000) {
            Some(m) => Some((-(m as i64)) as i32),
            None => None,
        }
    } else {
        let from: usize = if cs.len() > 0 && cs[0] == '+' {
            1
        } else {
            0
        };
        match parse_digits(&cs, from, 0x7fff_ffff) {
            Some(m) => Some(m as i32),
            None => None,
        }
    }
}

} // verus!
