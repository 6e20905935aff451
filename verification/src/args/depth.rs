use super::number::{
    lemma_parsed_decimal, parse_positive_u64, parsed_unsigned, positive_u64, positive_u64_parse,
};
use crate::text::{
    decimal, is_digit, lemma_decimal_digits, lemma_trimmed_idempotent, lemma_trimmed_unchanged,
    push_decimal, push_text, str_equal,
    trim, trimmed,
};
use std::num::{ParseIntError, TryFromIntError};
use std::str::FromStr;
use vstd::prelude::*;

verus! {

/// The text that stands for [`Depth::Infinite`].
pub const INFINITE: &'static str = "inf";

/// Maximum depth of the tree.
///
/// A finite depth is positive (see [`Depth::is_valid`]).
#[derive(Debug, Clone, Copy, PartialEq, Eq)]
pub enum Depth {
    /// No limit.
    Infinite,
    /// At most this many levels.
    Finite(u64),
}

/// Error that occurs when parsing a string as [`Depth`].
#[derive(Debug, PartialEq, Eq)]
#[non_exhaustive]
pub enum FromStrError {
    /// The text is neither [`INFINITE`] nor a positive integer.
    InvalidSyntax(ParseIntError),
}

impl Depth {
    /// A finite depth is positive.
    pub open spec fn is_valid(self) -> bool {
        self matches Depth::Finite(value) ==> value > 0
    }

    /// The depth as a number: `u64::MAX` stands for no limit.
    pub open spec fn spec_get(self) -> u64 {
        match self {
            Depth::Infinite => u64::MAX,
            Depth::Finite(value) => value,
        }
    }

    /// Convert depth into something comparable.
    pub fn get(self) -> (value: u64)
        ensures
            value == self.spec_get(),
    {
        match self {
            Depth::Infinite => u64::MAX,
            Depth::Finite(value) => value,
        }
    }
}

impl Depth {
    /// The text of a depth: [`INFINITE`] or the number.
    pub open spec fn text(self) -> Seq<char> {
        match self {
            Depth::Infinite => INFINITE@,
            Depth::Finite(value) => decimal(value as nat),
        }
    }

    /// The text of the depth, as it is displayed.
    pub fn to_string(&self) -> (text: String)
        ensures
            text@ == self.text(),
    {
        let mut text = String::new();
        match self {
            Depth::Infinite => push_text(&mut text, INFINITE),
            Depth::Finite(value) => push_decimal(&mut text, *value),
        }
        assert(text@ =~= self.text());
        text
    }
}

/// The depth that `source` is read as, if any: [`INFINITE`] or a positive
/// integer, with white space around it ignored.
pub open spec fn parsed_depth(source: Seq<char>) -> Option<Depth> {
    let text = trimmed(source);
    if text == INFINITE@ {
        Some(Depth::Infinite)
    } else {
        match parsed_unsigned(text, u64::MAX as nat) {
            Some(value) => if value > 0 {
                Some(Depth::Finite(value as u64))
            } else {
                None
            },
            None => None,
        }
    }
}

/// What reading `source` as a depth gives: [`Depth::Infinite`] for
/// [`INFINITE`]; otherwise the positive integer that `str::parse` reads, or
/// its error; white space around the text is ignored.
pub open spec fn depth_from_text(source: Seq<char>) -> Result<Depth, FromStrError> {
    let text = trimmed(source);
    if text == INFINITE@ {
        Ok(Depth::Infinite)
    } else {
        match positive_u64_parse(text) {
            Ok(value) => Ok(Depth::Finite(value)),
            Err(error) => Err(FromStrError::InvalidSyntax(error)),
        }
    }
}

/// Reading a text and reading it trimmed give the same, error included.
pub proof fn lemma_depth_ignores_white_space(source: Seq<char>)
    ensures
        depth_from_text(trimmed(source)) == depth_from_text(source),
{
    lemma_trimmed_idempotent(source);
}

/// Reading the text of a valid depth gives it back.
pub proof fn lemma_depth_text_round_trip(depth: Depth)
    requires
        depth.is_valid(),
    ensures
        parsed_depth(depth.text()) == Some(depth),
{
    reveal_strlit("inf");
    match depth {
        Depth::Infinite => {
            lemma_trimmed_unchanged(INFINITE@);
        },
        Depth::Finite(value) => {
            let text = decimal(value as nat);
            lemma_decimal_digits(value as nat);
            assert(is_digit(text[0]));
            assert(is_digit(text.last()));
            lemma_trimmed_unchanged(text);
            assert(text[0] != INFINITE@[0]);
            lemma_parsed_decimal(value as nat, u64::MAX as nat);
        },
    }
}

impl FromStr for Depth {
    type Err = FromStrError;

    /// Read a depth: [`INFINITE`] or a positive integer, with white space
    /// around it ignored.
    fn from_str(source: &str) -> (parsed: Result<Self, Self::Err>)
        ensures
            ({
                let text = trimmed(source@);
                &&& text == INFINITE@ ==> parsed == Ok::<Depth, FromStrError>(Depth::Infinite)
                &&& text != INFINITE@ ==> (parsed is Ok <==> (parsed_unsigned(text, u64::MAX as nat) matches Some(n) && n > 0))
                &&& parsed matches Ok(Depth::Finite(n)) ==> text != INFINITE@ && parsed_unsigned(text, u64::MAX as nat) == Some(n as nat)
                &&& parsed matches Ok(depth) ==> depth.is_valid()
            }),
            parsed == depth_from_text(source@),
            parsed is Ok <==> parsed_depth(source@) is Some,
            parsed matches Ok(depth) ==> parsed_depth(source@) == Some(depth),
    {
        let source = trim(source);
        if str_equal(source, INFINITE) {
            return Ok(Depth::Infinite);
        }
        match parse_positive_u64(source) {
            Ok(value) => Ok(Depth::Finite(value)),
            Err(error) => Err(FromStrError::InvalidSyntax(error)),
        }
    }
}

impl TryFrom<u64> for Depth {
    type Error = TryFromIntError;

    /// A finite depth of `source` levels; zero is refused.
    fn try_from(source: u64) -> (depth: Result<Self, Self::Error>)
        ensures
            depth is Ok <==> source != 0,
            depth matches Ok(d) ==> d == Depth::Finite(source),
    {
        match positive_u64(source) {
            Ok(value) => Ok(Depth::Finite(value)),
            Err(error) => Err(error),
        }
    }
}

impl vstd::std_specs::convert::TryFromSpecImpl<u64> for Depth {
    /// The error of a refused conversion is opaque, so the conversion is
    /// described by the `ensures` of [`Depth::try_from`] instead.
    open spec fn obeys_try_from_spec() -> bool {
        false
    }

    open spec fn try_from_spec(source: u64) -> Result<Self, Self::Error> {
        arbitrary()
    }
}

} // verus!
