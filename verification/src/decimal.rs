//! Unsigned integers as base-10 text, in both directions.

use vstd::prelude::*;
use crate::text::push_char;

verus! {

/// `c` is one of the ten digits `0` to `9`.
pub open spec fn is_digit(c: char) -> bool {
    '0' <= c <= '9'
}

/// The number that the digit `c` stands for.
pub open spec fn digit_value(c: char) -> nat
    recommends
        is_digit(c),
{
    (c as u32 - '0' as u32) as nat
}

/// The digit that stands for `d`.
pub open spec fn digit_char(d: nat) -> char
    recommends
        d < 10,
{
    (d + 48) as char
}

/// Every character of `s` is a digit.
pub open spec fn all_digits(s: Seq<char>) -> bool {
    forall|i: int| 0 <= i < s.len() ==> is_digit(#[trigger] s[i])
}

/// The number that a run of digits denotes, most significant digit first.
pub open spec fn digits_value(s: Seq<char>) -> nat
    decreases s.len(),
{
    if s.len() == 0 {
        0
    } else {
        digits_value(s.drop_last()) * 10 + digit_value(s.last())
    }
}

/// What is left of a token once one leading `+` is taken away.
pub open spec fn unsigned_digits(s: Seq<char>) -> Seq<char> {
    if s.len() > 0 && s[0] == '+' {
        s.skip(1)
    } else {
        s
    }
}

/// The number that a token denotes if it is an optional `+` followed by one
/// or more digits whose value does not exceed `max`; leading zeros are
/// allowed, anything else is not a number.
pub open spec fn parse_decimal(s: Seq<char>, max: nat) -> Option<nat> {
    let digits = unsigned_digits(s);
    if digits.len() > 0 && all_digits(digits) && digits_value(digits) <= max {
        Some(digits_value(digits))
    } else {
        None
    }
}

/// The shortest run of digits that denotes `n`.
pub open spec fn decimal(n: nat) -> Seq<char>
    decreases n,
{
    if n < 10 {
        seq![digit_char(n)]
    } else {
        decimal(n / 10).push(digit_char(n % 10))
    }
}

/// A run of digits denotes at least as much as any of its prefixes.
pub proof fn lemma_value_of_prefix(s: Seq<char>, k: int)
    requires
        all_digits(s),
        0 <= k <= s.len(),
    ensures
        digits_value(s.take(k)) <= digits_value(s),
    decreases s.len() - k,
{
    if k == s.len() {
        assert(s.take(k) =~= s);
    } else {
        lemma_value_of_prefix(s, k + 1);
        assert(s.take(k + 1).drop_last() =~= s.take(k));
        assert(is_digit(s[k]));
    }
}

/// The text of a number is made of digits only, is not empty, and denotes
/// that number.
pub proof fn lemma_decimal_digits(n: nat)
    ensures
        decimal(n).len() >= 1,
        all_digits(decimal(n)),
        digits_value(decimal(n)) == n,
    decreases n,
{
    if n < 10 {
        let s = decimal(n);
        assert(s.drop_last() =~= Seq::<char>::empty());
        assert(digits_value(s) == digits_value(s.drop_last()) * 10 + digit_value(s.last()));
    } else {
        lemma_decimal_digits(n / 10);
        let s = decimal(n);
        assert(s.drop_last() =~= decimal(n / 10));
        assert(s.last() == digit_char(n % 10));
    }
}

/// Reading the text of a number gives the number back, whenever it fits.
pub proof fn lemma_parse_decimal_of_decimal(n: nat, max: nat)
    requires
        n <= max,
    ensures
        parse_decimal(decimal(n), max) == Some(n),
{
    lemma_decimal_digits(n);
    assert(is_digit(decimal(n)[0]));
}

/// Reads `token` as a base-10 number no larger than `max`.
pub fn parse_unsigned(token: &str, max: u32) -> (r: Option<u32>)
    ensures
        r matches Some(v) ==> parse_decimal(token@, max as nat) == Some(v as nat),
        r is None ==> parse_decimal(token@, max as nat) is None,
{
    let mut acc: u32 = 0;
    let mut any_digit: bool = false;
    let mut at_start: bool = true;
    let ghost mut skipped: int = 0;
    for c in it: token.chars()
        invariant
            it.seq() == token@,
            at_start == (it.index() == 0),
            skipped == (if it.index() > 0 && token@[0] == '+' { 1int } else { 0int }),
            skipped <= it.index(),
            any_digit == (it.index() > skipped),
            all_digits(token@.subrange(skipped, it.index() as int)),
            acc == digits_value(token@.subrange(skipped, it.index() as int)),
            acc <= max,
    {
        let ghost i = it.index() as int;
        if at_start && c == '+' {
            proof {
                skipped = 1;
                assert(token@.subrange(1, 1) =~= Seq::<char>::empty());
            }
        } else {
            let ghost digits = unsigned_digits(token@);
            proof {
                assert(digits =~= token@.subrange(skipped, token@.len() as int));
                assert(digits[i - skipped] == c);
            }
            if !(c >= '0' && c <= '9') {
                return None;
            }
            let d: u32 = (c as u32) - ('0' as u32);
            proof {
                let seen = token@.subrange(skipped, i + 1);
                assert(seen.drop_last() =~= token@.subrange(skipped, i));
                assert(seen.last() == c);
                assert(digits_value(seen) == acc * 10 + d);
                assert(digits.take(i + 1 - skipped) =~= seen);
                if all_digits(digits) {
                    lemma_value_of_prefix(digits, i + 1 - skipped);
                }
            }
            if d > max || acc > (max - d) / 10 {
                return None;
            }
            acc = acc * 10 + d;
            any_digit = true;
        }
        at_start = false;
    }
    proof {
        assert(unsigned_digits(token@) =~= token@.subrange(skipped, token@.len() as int));
    }
    if any_digit {
        Some(acc)
    } else {
        None
    }
}

/// The character for a single digit.
fn digit_to_char(d: u32) -> (c: char)
    requires
        d < 10,
    ensures
        c == digit_char(d as nat),
{
    let b: u8 = d as u8;
    (b + 48) as char
}

/// Writes the base-10 text of `n` behind what `out` already holds.
pub fn push_decimal(out: &mut String, n: u32)
    ensures
        final(out)@ == old(out)@ + decimal(n as nat),
    decreases n,
{
    if n >= 10 {
        push_decimal(out, n / 10);
    }
    push_char(out, digit_to_char(n % 10));
    proof {
        if n >= 10 {
            assert((old(out)@ + decimal((n / 10) as nat)).push(digit_char((n % 10) as nat))
                =~= old(out)@ + decimal(n as nat));
        } else {
            assert(old(out)@.push(digit_char(n as nat)) =~= old(out)@ + decimal(n as nat));
        }
    }
}

} // verus!
