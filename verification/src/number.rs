//! Decimal integers in text.
//!
//! A text denotes an integer when it is an optional sign followed by one or more of the digits
//! `0` to `9`, and nothing else: no blanks, no separators, no digits of other scripts. A `-` is a
//! sign only where the range asked for reaches below zero; elsewhere it counts as a character
//! that is no digit.

use vstd::prelude::*;
use vstd::std_specs::iter::IteratorSpec;

verus! {

broadcast use vstd::string::group_string_axioms;

/// Why a text does not denote an integer of the range asked for.
#[derive(Clone, Copy, Debug, PartialEq, Eq, Structural)]
pub enum ParseFailure {
    /// The text has no characters.
    Empty,
    /// A character is no decimal digit, or a sign stands alone.
    InvalidDigit,
    /// The number is above the range.
    PosOverflow,
    /// The number is below the range.
    NegOverflow,
}

/// Whether `c` is one of the ten decimal digits.
pub open spec fn is_digit(c: char) -> bool {
    '0' <= c && c <= '9'
}

/// The number from 0 to 9 that the digit `c` stands for.
pub open spec fn digit_value(c: char) -> nat {
    (c as int - '0' as int) as nat
}

/// Whether every character of `s` is a decimal digit.
pub open spec fn all_digits(s: Seq<char>) -> bool {
    forall|i: int| 0 <= i < s.len() ==> is_digit(#[trigger] s[i])
}

/// The number that a run of decimal digits denotes, the first digit weighing most.
pub open spec fn decimal_value(digits: Seq<char>) -> nat
    decreases digits.len(),
{
    if digits.len() == 0 {
        0
    } else {
        decimal_value(digits.drop_last()) * 10 + digit_value(digits.last())
    }
}

/// Whether `text` opens with a sign, for a range that starts at `lo`.
pub open spec fn has_sign(text: Seq<char>, lo: int) -> bool {
    text.len() > 0 && (text[0] == '+' || (lo < 0 && text[0] == '-'))
}

/// Whether the number in `text` is written as a negative one, for a range that starts at `lo`.
pub open spec fn is_negative(text: Seq<char>, lo: int) -> bool {
    text.len() > 0 && lo < 0 && text[0] == '-'
}

/// The digits of `text`: all of it but an opening sign.
pub open spec fn digits_of(text: Seq<char>, lo: int) -> Seq<char> {
    if has_sign(text, lo) {
        text.skip(1)
    } else {
        text
    }
}

/// The integer between `lo` and `hi` that `text` denotes, or why it denotes none.
///
/// A character that is no digit is reported before a number out of range, wherever it stands.
pub open spec fn integer_of(text: Seq<char>, lo: int, hi: int) -> Result<int, ParseFailure> {
    let digits = digits_of(text, lo);
    if text.len() == 0 {
        Err(ParseFailure::Empty)
    } else if digits.len() == 0 || !all_digits(digits) {
        Err(ParseFailure::InvalidDigit)
    } else {
        let value = if is_negative(text, lo) {
            -(decimal_value(digits) as int)
        } else {
            decimal_value(digits) as int
        };
        if value > hi {
            Err(ParseFailure::PosOverflow)
        } else if value < lo {
            Err(ParseFailure::NegOverflow)
        } else {
            Ok(value)
        }
    }
}

/// One more digit at the end multiplies by ten and adds the digit.
pub proof fn lemma_decimal_value_push(digits: Seq<char>, c: char)
    ensures
        decimal_value(digits.push(c)) == decimal_value(digits) * 10 + digit_value(c),
{
    assert(digits.push(c).drop_last() =~= digits);
}

/// The digit that a character stands for, if it is one.
fn digit_of(c: char) -> (d: Option<u8>)
    ensures
        d is Some <==> is_digit(c),
        d matches Some(v) ==> v == digit_value(c) && v <= 9,
{
    if c >= '0' && c <= '9' {
        let code: u32 = c as u32;
        let zero: u32 = '0' as u32;
        Some((code - zero) as u8)
    } else {
        None
    }
}

/// A number one digit longer: `None` where it no longer fits, and likewise where `magnitude`
/// already did not.
fn append_digit(magnitude: Option<u128>, digit: u8) -> (r: Option<u128>)
    requires
        digit <= 9,
    ensures
        match magnitude {
            Some(m) => match r {
                Some(n) => n == m * 10 + digit,
                None => m * 10 + digit > u128::MAX,
            },
            None => r is None,
        },
{
    match magnitude {
        None => None,
        Some(m) => match m.checked_mul(10) {
            None => None,
            Some(tens) => tens.checked_add(digit as u128),
        },
    }
}

/// Places the number of magnitude `magnitude` (`None`: above every 128-bit number) in the range
/// from `lo` to `hi`.
fn within(negative: bool, magnitude: Option<u128>, lo: i128, hi: i128, Ghost(value): Ghost<
    nat,
>) -> (r: Result<i128, ParseFailure>)
    requires
        match magnitude {
            Some(m) => m == value,
            None => value > u128::MAX,
        },
    ensures
        ({
            let v = if negative {
                -(value as int)
            } else {
                value as int
            };
            if v > hi {
                r == Err::<i128, ParseFailure>(ParseFailure::PosOverflow)
            } else if v < lo {
                r == Err::<i128, ParseFailure>(ParseFailure::NegOverflow)
            } else {
                r == Ok::<i128, ParseFailure>(v as i128)
            }
        }),
{
    let top: u128 = i128::MAX as u128;
    let signed: Option<i128> = match magnitude {
        None => None,
        Some(m) => if !negative {
            if m <= top {
                Some(m as i128)
            } else {
                None
            }
        } else if m <= top {
            Some(-(m as i128))
        } else if m == top + 1 {
            Some(i128::MIN)
        } else {
            None
        },
    };
    match signed {
        Some(v) => if v > hi {
            Err(ParseFailure::PosOverflow)
        } else if v < lo {
            Err(ParseFailure::NegOverflow)
        } else {
            Ok(v)
        },
        None => if negative {
            Err(ParseFailure::NegOverflow)
        } else {
            Err(ParseFailure::PosOverflow)
        },
    }
}

/// Reads `text` as a decimal integer between `lo` and `hi`.
pub fn parse_integer(text: &str, lo: i128, hi: i128) -> (r: Result<i128, ParseFailure>)
    ensures
        match integer_of(text@, lo as int, hi as int) {
            Ok(v) => r == Ok::<i128, ParseFailure>(v as i128),
            Err(e) => r == Err::<i128, ParseFailure>(e),
        },
{
    let mut it = text.chars();
    let first = match it.next() {
        None => {
            return Err(ParseFailure::Empty);
        },
        Some(c) => c,
    };
    let negative = lo < 0 && first == '-';
    let has_sign = first == '+' || negative;
    let ghost digits = digits_of(text@, lo as int);
    let ghost mut seen: int = 0;
    let mut magnitude: Option<u128> = Some(0);
    let mut any_digit = false;
    if !has_sign {
        match digit_of(first) {
            None => {
                return Err(ParseFailure::InvalidDigit);
            },
            Some(d) => {
                magnitude = Some(d as u128);
                any_digit = true;
                proof {
                    seen = 1;
                    lemma_decimal_value_push(Seq::empty(), first);
                    assert(digits.take(1) =~= Seq::<char>::empty().push(first));
                }
            },
        }
    }
    assert(digits.take(0) =~= Seq::<char>::empty());
    loop
        invariant
            it.obeys_prophetic_iter_laws(),
            digits == digits_of(text@, lo as int),
            0 <= seen <= digits.len(),
            it.remaining() == digits.skip(seen),
            all_digits(digits.take(seen)),
            any_digit <==> seen > 0,
            match magnitude {
                Some(m) => m == decimal_value(digits.take(seen)),
                None => decimal_value(digits.take(seen)) > u128::MAX,
            },
        ensures
            seen == digits.len(),
        decreases digits.len() - seen,
    {
        match it.next() {
            None => {
                break;
            },
            Some(c) => {
                let ghost before = digits.take(seen);
                proof {
                    assert(c == digits[seen]);
                    assert(digits.take(seen + 1) =~= before.push(c));
                    assert(digits.skip(seen).drop_first() =~= digits.skip(seen + 1));
                    lemma_decimal_value_push(before, c);
                }
                match digit_of(c) {
                    None => {
                        return Err(ParseFailure::InvalidDigit);
                    },
                    Some(d) => {
                        magnitude = append_digit(magnitude, d);
                        any_digit = true;
                        proof {
                            seen = seen + 1;
                        }
                    },
                }
            },
        }
    }
    assert(digits.take(seen) =~= digits);
    if !any_digit {
        return Err(ParseFailure::InvalidDigit);
    }
    within(negative, magnitude, lo, hi, Ghost(decimal_value(digits)))
}

} // verus!
