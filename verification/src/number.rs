//! Numeric literals.
//!
//! A numeric literal is an optional sign, one or more digits, an optional
//! fraction (a `.` and one or more digits) and an optional exponent (`e` or
//! `E`, an optional sign and one or more digits). Nothing else is a number:
//! `1.`, `.5`, `1.2.3` and `1e` are not.

use vstd::prelude::*;
use vstd::slice::slice_to_vec;
use crate::ast::Number;
use crate::ast::NumberValue;
use crate::chars::byte_at;
use crate::chars::is_digit;
use crate::chars::DIGIT_NINE;
use crate::chars::DIGIT_ZERO;

verus! {

/// `+`
pub const PLUS: u8 = 43;

/// `-`
pub const MINUS: u8 = 45;

/// `.`
pub const DOT: u8 = 46;

/// `e`
pub const LOWER_E: u8 = 101;

/// `E`
pub const UPPER_E: u8 = 69;

/// The largest magnitude of a 64-bit integer: that of the smallest one.
pub const MAGNITUDE_LIMIT: u64 = 9223372036854775808;

/// Where the run of digits that starts at `pos` ends: `pos` itself where no
/// digit stands there.
pub open spec fn digits_end(s: Seq<u8>, pos: int) -> int
    decreases s.len() - pos,
{
    if 0 <= pos < s.len() && is_digit(s[pos]) {
        digits_end(s, pos + 1)
    } else {
        pos
    }
}

/// The offset after the sign at `pos`, or `pos` where no sign stands there.
pub open spec fn sign_end(s: Seq<u8>, pos: int) -> int {
    if byte_at(s, pos, PLUS) || byte_at(s, pos, MINUS) {
        pos + 1
    } else {
        pos
    }
}

/// Where the fraction at `pos` ends: `pos` where no `.` stands there, and
/// nothing where no digit follows the `.`.
pub open spec fn fraction_end(s: Seq<u8>, pos: int) -> Option<int> {
    if byte_at(s, pos, DOT) {
        if digits_end(s, pos + 1) > pos + 1 {
            Some(digits_end(s, pos + 1))
        } else {
            None
        }
    } else {
        Some(pos)
    }
}

/// Where the exponent at `pos` ends: `pos` where neither `e` nor `E` stands
/// there, and nothing where no digit follows the letter and its sign.
pub open spec fn exponent_end(s: Seq<u8>, pos: int) -> Option<int> {
    if byte_at(s, pos, LOWER_E) || byte_at(s, pos, UPPER_E) {
        if digits_end(s, sign_end(s, pos + 1)) > sign_end(s, pos + 1) {
            Some(digits_end(s, sign_end(s, pos + 1)))
        } else {
            None
        }
    } else {
        Some(pos)
    }
}

/// Where the longest numeric literal at the start of `s` ends, if one starts
/// there.
pub open spec fn numeric_end(s: Seq<u8>) -> Option<int> {
    if digits_end(s, sign_end(s, 0)) > sign_end(s, 0) {
        match fraction_end(s, digits_end(s, sign_end(s, 0))) {
            Some(f) => exponent_end(s, f),
            None => None,
        }
    } else {
        None
    }
}

/// Whether the whole of `lexeme` is a numeric literal.
pub open spec fn is_numeric_literal(lexeme: Seq<u8>) -> bool {
    numeric_end(lexeme) == Some(lexeme.len() as int)
}

/// Whether the whole of `lexeme` is a sign, if any, and digits.
pub open spec fn is_integer_literal(lexeme: Seq<u8>) -> bool {
    sign_end(lexeme, 0) < lexeme.len() && digits_end(lexeme, sign_end(lexeme, 0)) == lexeme.len()
}

/// The number that a run of decimal digits writes.
pub open spec fn decimal_value(digits: Seq<u8>) -> nat
    decreases digits.len(),
{
    if digits.len() == 0 {
        0
    } else {
        (10 * decimal_value(digits.drop_last()) + (digits.last() - DIGIT_ZERO)) as nat
    }
}

/// The value of an integer literal.
pub open spec fn integer_value(lexeme: Seq<u8>) -> int {
    let magnitude = decimal_value(lexeme.subrange(sign_end(lexeme, 0), lexeme.len() as int));
    if byte_at(lexeme, 0, MINUS) {
        -magnitude
    } else {
        magnitude as int
    }
}

/// What a numeric literal stands for: its value where it is an integer of 64
/// bits, and its text otherwise.
pub open spec fn number_value(lexeme: Seq<u8>) -> NumberValue {
    if is_integer_literal(lexeme) && i64::MIN <= integer_value(lexeme) <= i64::MAX {
        NumberValue::Integer(integer_value(lexeme))
    } else {
        NumberValue::Real(lexeme)
    }
}

/// A run of digits ends inside the text, and holds digits only.
pub proof fn lemma_digits_end(s: Seq<u8>, pos: int)
    requires
        0 <= pos <= s.len(),
    ensures
        pos <= digits_end(s, pos) <= s.len(),
        forall|i: int| pos <= i < digits_end(s, pos) ==> is_digit(#[trigger] s[i]),
        digits_end(s, pos) < s.len() ==> !is_digit(s[digits_end(s, pos)]),
    decreases s.len() - pos,
{
    if pos < s.len() && is_digit(s[pos]) {
        lemma_digits_end(s, pos + 1);
    }
}

/// More digits never write a smaller number.
pub proof fn lemma_decimal_value_grows(s: Seq<u8>, from: int, mid: int, to: int)
    requires
        0 <= from <= mid <= to <= s.len(),
        forall|i: int| from <= i < to ==> is_digit(#[trigger] s[i]),
    ensures
        decimal_value(s.subrange(from, mid)) <= decimal_value(s.subrange(from, to)),
    decreases to - mid,
{
    if mid < to {
        lemma_decimal_value_grows(s, from, mid, to - 1);
        assert(s.subrange(from, to).drop_last() =~= s.subrange(from, to - 1));
    }
}

/// Finds the end of the run of digits at `pos`.
fn scan_digits(s: &[u8], pos: usize) -> (end: usize)
    requires
        pos <= s@.len(),
    ensures
        end == digits_end(s@, pos as int),
        pos <= end <= s@.len(),
{
    let mut i: usize = pos;
    while i < s.len() && DIGIT_ZERO <= s[i] && s[i] <= DIGIT_NINE
        invariant
            pos <= i <= s@.len(),
            digits_end(s@, pos as int) == digits_end(s@, i as int),
        decreases s@.len() - i,
    {
        i = i + 1;
    }
    i
}

/// Steps over the sign at `pos`, if one stands there.
fn scan_sign(s: &[u8], pos: usize) -> (end: usize)
    requires
        pos <= s@.len(),
    ensures
        end == sign_end(s@, pos as int),
        pos <= end <= s@.len(),
{
    if pos < s.len() && (s[pos] == PLUS || s[pos] == MINUS) {
        pos + 1
    } else {
        pos
    }
}

/// Computes the value of the integer literal `lexeme`, whose digits start at
/// `first_digit`, where it fits in 64 bits.
fn read_integer(lexeme: &[u8], first_digit: usize) -> (value: Option<i64>)
    requires
        is_integer_literal(lexeme@),
        first_digit == sign_end(lexeme@, 0),
    ensures
        value is Some <==> i64::MIN <= integer_value(lexeme@) <= i64::MAX,
        value matches Some(v) ==> v == integer_value(lexeme@),
{
    let len = lexeme.len();
    let negative = lexeme[0] == MINUS;
    proof {
        lemma_digits_end(lexeme@, first_digit as int);
    }
    let mut magnitude: u64 = 0;
    let mut i: usize = first_digit;
    while i < len
        invariant
            first_digit <= i <= len == lexeme@.len(),
            forall|j: int| first_digit <= j < len ==> is_digit(#[trigger] lexeme@[j]),
            magnitude == decimal_value(lexeme@.subrange(first_digit as int, i as int)),
            magnitude <= MAGNITUDE_LIMIT,
            negative == byte_at(lexeme@, 0, MINUS),
            first_digit == sign_end(lexeme@, 0),
        decreases len - i,
    {
        let digit: u8 = lexeme[i] - DIGIT_ZERO;
        let next: u128 = (magnitude as u128) * 10 + (digit as u128);
        proof {
            assert(lexeme@.subrange(first_digit as int, i + 1).drop_last() =~= lexeme@.subrange(
                first_digit as int,
                i as int,
            ));
            assert(next == decimal_value(lexeme@.subrange(first_digit as int, i + 1)));
        }
        if next > MAGNITUDE_LIMIT as u128 {
            proof {
                lemma_decimal_value_grows(lexeme@, first_digit as int, i + 1, len as int);
            }
            return None;
        }
        magnitude = next as u64;
        i = i + 1;
    }
    if negative {
        if magnitude == MAGNITUDE_LIMIT {
            Some(i64::MIN)
        } else {
            Some(-(magnitude as i64))
        }
    } else if magnitude == MAGNITUDE_LIMIT {
        None
    } else {
        Some(magnitude as i64)
    }
}

/// Reads `lexeme` as a number, where the whole of it is a numeric literal.
pub fn read_number(lexeme: &[u8]) -> (number: Option<Number>)
    ensures
        number is Some <==> is_numeric_literal(lexeme@),
        number matches Some(n) ==> n@ == number_value(lexeme@),
{
    let len = lexeme.len();
    let first_digit = scan_sign(lexeme, 0);
    let whole_end = scan_digits(lexeme, first_digit);
    if whole_end == first_digit {
        return None;
    }
    let mut end: usize = whole_end;
    if end < len && lexeme[end] == DOT {
        let fraction = scan_digits(lexeme, end + 1);
        if fraction == end + 1 {
            return None;
        }
        end = fraction;
    }
    if end < len && (lexeme[end] == LOWER_E || lexeme[end] == UPPER_E) {
        let exponent_digits = scan_sign(lexeme, end + 1);
        let exponent = scan_digits(lexeme, exponent_digits);
        if exponent == exponent_digits {
            return None;
        }
        end = exponent;
    }
    if end != len {
        return None;
    }
    if whole_end == len {
        match read_integer(lexeme, first_digit) {
            Some(v) => {
                return Some(Number::Integer(v));
            },
            None => {},
        }
    }
    Some(Number::Real(slice_to_vec(lexeme)))
}

} // verus!
