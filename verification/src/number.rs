//! Decimal integers: what a text means as a number, and reading it.

use crate::scan::{is_digit, lemma_lexeme_end, lemma_run_end, token_at, CharClass};
use crate::token::Kind;
use vstd::prelude::*;
use vstd::string::*;

verus! {

/// The value of a decimal digit.
pub open spec fn digit_value(c: char) -> int {
    c as int - '0' as int
}

/// The number that a run of decimal digits spells; 0 for the empty run.
pub open spec fn decimal_value(digits: Seq<char>) -> int
    decreases digits.len(),
{
    if digits.len() == 0 {
        0
    } else {
        decimal_value(digits.drop_last()) * 10 + digit_value(digits.last())
    }
}

/// Whether every character of `text` is a decimal digit.
pub open spec fn all_digits(text: Seq<char>) -> bool {
    forall|i: int| 0 <= i < text.len() ==> is_digit(#[trigger] text[i])
}

/// Whether `text` starts with a sign.
pub open spec fn has_sign(text: Seq<char>) -> bool {
    text.len() > 0 && (text[0] == '+' || text[0] == '-')
}

/// The digits of `text`: all of it but a leading sign.
pub open spec fn unsigned_part(text: Seq<char>) -> Seq<char> {
    if has_sign(text) {
        text.drop_first()
    } else {
        text
    }
}

/// Whether `text` is a decimal integer: an optional sign, then one digit or
/// more, and nothing else.
pub open spec fn is_integer_text(text: Seq<char>) -> bool {
    unsigned_part(text).len() > 0 && all_digits(unsigned_part(text))
}

/// The number that an integer text spells.
pub open spec fn signed_value(text: Seq<char>) -> int {
    if has_sign(text) && text[0] == '-' {
        -decimal_value(unsigned_part(text))
    } else {
        decimal_value(unsigned_part(text))
    }
}

/// What `text` means as a 64-bit signed integer: its value, if it is an
/// integer text and the value fits; nothing otherwise.
pub open spec fn integer_value(text: Seq<char>) -> Option<i64> {
    if is_integer_text(text) && i64::MIN <= signed_value(text) <= i64::MAX {
        Some(signed_value(text) as i64)
    } else {
        None
    }
}

/// A longer run of digits spells a number that is at least as large.
pub proof fn lemma_decimal_value_grows(digits: Seq<char>, k: int)
    requires
        all_digits(digits),
        0 <= k <= digits.len(),
    ensures
        0 <= decimal_value(digits.take(k)) <= decimal_value(digits),
    decreases digits.len() - k,
{
    if k == digits.len() {
        assert(digits.take(k) =~= digits);
        lemma_decimal_value_bounds(digits);
    } else {
        lemma_decimal_value_grows(digits, k + 1);
        let longer = digits.take(k + 1);
        assert(longer.drop_last() =~= digits.take(k));
        assert(is_digit(digits[k]));
        assert(longer.last() == digits[k]);
        lemma_decimal_value_bounds(digits.take(k));
    }
}

/// A run of digits spells a number that is not negative.
pub proof fn lemma_decimal_value_bounds(digits: Seq<char>)
    requires
        all_digits(digits),
    ensures
        0 <= decimal_value(digits),
    decreases digits.len(),
{
    if digits.len() > 0 {
        assert(is_digit(digits.last()));
        lemma_decimal_value_bounds(digits.drop_last());
    }
}

/// A run of digits that is not empty means the number it spells, if that
/// number is below 2^63, and nothing if it is not.
pub proof fn lemma_digits_value(digits: Seq<char>)
    requires
        digits.len() > 0,
        all_digits(digits),
    ensures
        0 <= decimal_value(digits),
        decimal_value(digits) <= i64::MAX ==> integer_value(digits) == Some(
            decimal_value(digits) as i64,
        ),
        decimal_value(digits) > i64::MAX ==> integer_value(digits) is None,
{
    lemma_decimal_value_bounds(digits);
    assert(is_digit(digits[0]));
}

/// The literal of a number token is a run of digits that is not empty.
pub proof fn lemma_number_token(text: Seq<char>, start: int)
    requires
        0 <= start < text.len(),
        token_at(text, start).kind == Kind::Number,
    ensures
        token_at(text, start).literal.len() > 0,
        all_digits(token_at(text, start).literal),
{
    lemma_lexeme_end(text, start);
    lemma_run_end(text, start, CharClass::Digit);
}

/// Reads `text` as a 64-bit signed integer, the way the standard library
/// reads one: an optional `+` or `-`, then decimal digits only.
pub fn parse_i64(text: &str) -> (value: Option<i64>)
    ensures
        value == integer_value(text@),
{
    let n: usize = text.unicode_len();
    if n == 0 {
        return None;
    }
    let first = text.get_char(0);
    let negative = first == '-';
    let start: usize = if first == '+' || first == '-' {
        1
    } else {
        0
    };
    if start == n {
        return None;
    }
    let ghost digits = unsigned_part(text@);
    assert(digits =~= text@.subrange(start as int, n as int));
    // the largest magnitude that fits: 2^63 - 1, or 2^63 below zero
    let limit: u64 = if negative {
        9223372036854775808
    } else {
        9223372036854775807
    };
    let mut magnitude: u64 = 0;
    let mut i: usize = start;
    while i < n
        invariant
            start <= i <= n,
            n == text@.len(),
            digits == text@.subrange(start as int, n as int),
            digits == unsigned_part(text@),
            all_digits(digits.take(i - start)),
            magnitude == decimal_value(digits.take(i - start)),
            magnitude <= limit,
            9223372036854775807 <= limit <= 9223372036854775808,
            limit == if negative {
                9223372036854775808u64
            } else {
                9223372036854775807u64
            },
            negative == (has_sign(text@) && text@[0] == '-'),
        decreases n - i,
    {
        let c = text.get_char(i);
        let ghost seen = digits.take(i - start);
        let ghost longer = digits.take(i - start + 1);
        proof {
            assert(digits[i - start] == c);
            assert(longer.drop_last() =~= seen);
            assert(longer.last() == c);
        }
        if !(c >= '0' && c <= '9') {
            proof {
                let at = i - start;
                assert(!is_digit(digits[at]));
                assert(!all_digits(digits));
            }
            return None;
        }
        let digit: u64 = (c as u64) - ('0' as u64);
        assert(digit == digit_value(c));
        if magnitude > (limit - digit) / 10 {
            proof {
                assert(decimal_value(longer) > limit);
                if all_digits(digits) {
                    lemma_decimal_value_grows(digits, i - start + 1);
                }
            }
            return None;
        }
        magnitude = magnitude * 10 + digit;
        proof {
            assert forall|j: int| 0 <= j < longer.len() implies is_digit(#[trigger] longer[j]) by {
                if j < seen.len() {
                    assert(longer[j] == seen[j]);
                }
            }
        }
        i = i + 1;
    }
    assert(digits.take(n - start) =~= digits);
    if negative {
        if magnitude == 9223372036854775808 {
            Some(i64::MIN)
        } else {
            Some(-(magnitude as i64))
        }
    } else {
        Some(magnitude as i64)
    }
}

} // verus!
