//! Reading numbers from what a user typed.
use crate::text::{chars_of, trim, trimmed};
use vstd::prelude::*;

verus! {

/// The digit that a character stands for.
pub open spec fn digit_value(c: char) -> Option<int> {
    if '0' as u32 <= c as u32 <= '9' as u32 {
        Some(c as u32 - '0' as u32)
    } else {
        None
    }
}

/// Whether every character is a digit.
pub open spec fn all_digits(s: Seq<char>) -> bool {
    forall|i: int| 0 <= i < s.len() ==> digit_value(#[trigger] s[i]) is Some
}

/// The number that digits stand for, read in base ten.
pub open spec fn decimal_value(s: Seq<char>) -> int
    decreases s.len(),
{
    if s.len() == 0 {
        0
    } else {
        decimal_value(s.drop_last()) * 10 + digit_value(s.last()).unwrap_or(0)
    }
}

/// The digits of a text: the text itself, without a `+` at its start.
pub open spec fn unsigned_digits(s: Seq<char>) -> Seq<char> {
    if s.len() > 0 && s[0] == '+' {
        s.drop_first()
    } else {
        s
    }
}

/// The number from 0 to 255 that a text stands for: at least one digit,
/// after a `+` or not, and nothing else; zeros at the start do not count.
pub open spec fn parsed_u8(s: Seq<char>) -> Option<u8> {
    let digits = unsigned_digits(s);
    if digits.len() > 0 && all_digits(digits) && decimal_value(digits) <= 255 {
        Some(decimal_value(digits) as u8)
    } else {
        None
    }
}

/// The value of digits does not fall when more digits follow.
pub proof fn lemma_decimal_value_grows(s: Seq<char>, n: int)
    requires
        0 <= n <= s.len(),
    ensures
        0 <= decimal_value(s.take(n)) <= decimal_value(s),
    decreases s.len() - n,
{
    lemma_decimal_value_nonnegative(s.take(n));
    if n < s.len() {
        assert(s.take(n + 1).drop_last() =~= s.take(n));
        lemma_decimal_value_grows(s, n + 1);
    } else {
        assert(s.take(n) =~= s);
    }
}

proof fn lemma_decimal_value_nonnegative(s: Seq<char>)
    ensures
        0 <= decimal_value(s),
    decreases s.len(),
{
    if s.len() > 0 {
        lemma_decimal_value_nonnegative(s.drop_last());
    }
}

/// The number from 0 to 255 that the user typed, white space around it
/// aside.
pub fn read_u8(inp: &str) -> (r: Option<u8>)
    ensures
        r == parsed_u8(trimmed(inp@)),
{
    let text = trim(&chars_of(inp));
    let start: usize = if text.len() > 0 && text[0] == '+' {
        1
    } else {
        0
    };
    let ghost digits = unsigned_digits(text@);
    assert(digits =~= text@.skip(start as int));
    if start == text.len() {
        return None;
    }
    let mut value: u32 = 0;
    let mut i: usize = start;
    assert(digits.take(0) =~= Seq::<char>::empty());
    while i < text.len()
        invariant
            start <= i <= text.len(),
            text@ == trimmed(inp@),
            digits == unsigned_digits(text@),
            digits == text@.skip(start as int),
            all_digits(digits.take(i - start)),
            value == decimal_value(digits.take(i - start)),
            value <= 255,
        decreases text.len() - i,
    {
        let c: u32 = text[i] as u32;
        proof {
            let next = digits.take(i - start + 1);
            assert(next.drop_last() =~= digits.take(i - start));
            assert(next.last() == text@[i as int]);
            assert(digits[i - start] == text@[i as int]);
        }
        if c < '0' as u32 || c > '9' as u32 {
            assert(!all_digits(digits));
            return None;
        }
        value = value * 10 + (c - '0' as u32);
        if value > 255 {
            proof {
                lemma_decimal_value_grows(digits, i - start + 1);
            }
            return None;
        }
        assert(all_digits(digits.take(i - start + 1))) by {
            let next = digits.take(i - start + 1);
            assert forall|j: int| 0 <= j < next.len() implies digit_value(
                #[trigger] next[j],
            ) is Some by {
                if j < i - start {
                    assert(next[j] == digits.take(i - start)[j]);
                }
            }
        }
        i = i + 1;
    }
    assert(digits.take(text.len() - start) =~= digits);
    Some(value as u8)
}

} // verus!
