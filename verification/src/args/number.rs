//! Decimal numbers written in text, as `str::parse` reads them.
use std::num::{NonZeroU64, ParseIntError, TryFromIntError};
use crate::text::{decimal, digit_char, is_digit, lemma_decimal_digits, lemma_digit_char};
use vstd::prelude::*;

verus! {

/// Error of `str::parse` on an integer type.
#[verifier::external_type_specification]
#[verifier::external_body]
pub struct ExParseIntError(ParseIntError);

/// Whether `c` is an ASCII decimal digit.
pub open spec fn is_decimal_digit(c: char) -> bool {
    '0' <= c && c <= '9'
}

/// The value of a sequence of decimal digits, most significant first.
pub open spec fn digits_value(digits: Seq<char>) -> nat
    decreases digits.len(),
{
    if digits.len() == 0 {
        0
    } else {
        digits_value(digits.drop_last()) * 10 + (digits.last() as nat - '0' as nat) as nat
    }
}

/// The digits of an unsigned number in `text`: all of it, but a leading `+`.
pub open spec fn unsigned_digits(text: Seq<char>) -> Seq<char> {
    if text.len() > 0 && text[0] == '+' {
        text.drop_first()
    } else {
        text
    }
}

/// The number that `str::parse` reads from `text` for an unsigned integer
/// type whose greatest value is `max`: an optional `+`, then one or more
/// decimal digits whose value is at most `max`. `None` where it fails.
pub open spec fn parsed_unsigned(text: Seq<char>, max: nat) -> Option<nat> {
    let digits = unsigned_digits(text);
    if digits.len() > 0 && (forall|i: int| 0 <= i < digits.len() ==> is_decimal_digit(#[trigger] digits[i]))
        && digits_value(digits) <= max {
        Some(digits_value(digits))
    } else {
        None
    }
}

/// The digits of a decimal numeral have its value.
pub proof fn lemma_decimal_value(n: nat)
    ensures
        digits_value(decimal(n)) == n,
    decreases n,
{
    lemma_digit_char(n % 10);
    let digits = decimal(n);
    assert(digits.last() == digit_char(n % 10));
    if n >= 10 {
        lemma_decimal_value(n / 10);
        assert(digits.drop_last() =~= decimal(n / 10));
        assert((n / 10) * 10 + n % 10 == n) by (nonlinear_arith);
    } else {
        assert(digits.drop_last() =~= Seq::<char>::empty());
        assert(n % 10 == n);
    }
    assert(digits_value(digits) == digits_value(digits.drop_last()) * 10 + (digits.last() as nat
        - '0' as nat) as nat);
}

/// `str::parse` reads back the decimal numeral of a number that fits.
pub proof fn lemma_parsed_decimal(n: nat, max: nat)
    requires
        n <= max,
    ensures
        parsed_unsigned(decimal(n), max) == Some(n),
{
    lemma_decimal_digits(n);
    lemma_decimal_value(n);
    let digits = decimal(n);
    assert(is_digit(digits[0]));
    assert(unsigned_digits(digits) == digits);
    assert forall|i: int| 0 <= i < digits.len() implies is_decimal_digit(#[trigger] digits[i]) by {
        assert(is_digit(digits[i]));
    }
}

/// What `str::parse` into [`NonZeroU64`] gives for `text`, the number as a
/// `u64`: the number, or the error that says why `text` is not one.
pub uninterp spec fn positive_u64_parse(text: Seq<char>) -> Result<u64, ParseIntError>;

/// What `str::parse::<usize>` gives for `text`: the number, or the error
/// that says why `text` is not one.
pub uninterp spec fn usize_parse(text: Seq<char>) -> Result<usize, ParseIntError>;

/// A positive `u64` read from `text`, by `str::parse` into [`NonZeroU64`].
///
/// The number is read as for `u64`, and zero is refused. The result,
/// error included, is named by `positive_u64_parse`, since it depends on
/// the text alone.
#[verifier::external_body]
pub(crate) fn parse_positive_u64(text: &str) -> (parsed: Result<u64, ParseIntError>)
    ensures
        parsed == positive_u64_parse(text@),
        parsed is Ok <==> (parsed_unsigned(text@, u64::MAX as nat) matches Some(n) && n > 0),
        parsed matches Ok(n) ==> parsed_unsigned(text@, u64::MAX as nat) == Some(n as nat),
{
    text.parse::<NonZeroU64>().map(NonZeroU64::get)
}

/// A `usize` read from `text`, by `str::parse`.
///
/// The result, error included, is named by `usize_parse`, since it depends
/// on the text alone.
#[verifier::external_body]
pub(crate) fn parse_usize(text: &str) -> (parsed: Result<usize, ParseIntError>)
    ensures
        parsed == usize_parse(text@),
        parsed is Ok <==> parsed_unsigned(text@, usize::MAX as nat) is Some,
        parsed matches Ok(n) ==> parsed_unsigned(text@, usize::MAX as nat) == Some(n as nat),
{
    text.parse::<usize>()
}

/// `value` as a [`NonZeroU64`], by `TryFrom`, given back as a `u64`: it
/// fails exactly on zero.
#[verifier::external_body]
pub(crate) fn positive_u64(value: u64) -> (converted: Result<u64, TryFromIntError>)
    ensures
        converted is Ok <==> value != 0,
        converted matches Ok(n) ==> n == value,
{
    NonZeroU64::try_from(value).map(NonZeroU64::get)
}

} // verus!
