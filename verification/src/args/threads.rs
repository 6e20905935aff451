use super::number::{lemma_parsed_decimal, parse_usize, parsed_unsigned, usize_parse};
use crate::text::{
    decimal, lemma_decimal_digits, lemma_trimmed_idempotent, lemma_trimmed_unchanged, push_decimal,
    push_text, str_equal, trim, trimmed,
};
use std::num::ParseIntError;
use std::str::FromStr;
use vstd::prelude::*;

verus! {

/// The text that stands for [`Threads::Auto`].
pub const AUTO: &'static str = "auto";

/// The text that stands for [`Threads::Max`].
pub const MAX: &'static str = "max";

/// Number of threads.
#[derive(Debug, Clone, Copy, PartialEq, Eq)]
pub enum Threads {
    /// Decide from the disks that hold the files.
    Auto,
    /// As many as there are processors.
    Max,
    /// This many.
    Fixed(usize),
}

impl Default for Threads {
    fn default() -> (threads: Self)
        ensures
            threads == Threads::Auto,
    {
        Threads::Auto
    }
}

impl Threads {
    /// The text of a number of threads: [`AUTO`], [`MAX`], or the number.
    pub open spec fn text(self) -> Seq<char> {
        match self {
            Threads::Auto => AUTO@,
            Threads::Max => MAX@,
            Threads::Fixed(count) => decimal(count as nat),
        }
    }

    /// The text of the number of threads, as it is displayed.
    pub fn to_string(&self) -> (text: String)
        ensures
            text@ == self.text(),
    {
        let mut text = String::new();
        match self {
            Threads::Auto => push_text(&mut text, AUTO),
            Threads::Max => push_text(&mut text, MAX),
            Threads::Fixed(count) => push_decimal(&mut text, *count as u64),
        }
        assert(text@ =~= self.text());
        text
    }
}

/// The number of threads that `value` is read as, if any: [`AUTO`], [`MAX`]
/// or a number, with white space around it ignored.
pub open spec fn parsed_threads(value: Seq<char>) -> Option<Threads> {
    let text = trimmed(value);
    if text == AUTO@ {
        Some(Threads::Auto)
    } else if text == MAX@ {
        Some(Threads::Max)
    } else {
        match parsed_unsigned(text, usize::MAX as nat) {
            Some(count) => Some(Threads::Fixed(count as usize)),
            None => None,
        }
    }
}

/// What reading `value` as a number of threads gives: [`Threads::Auto`]
/// for [`AUTO`], [`Threads::Max`] for [`MAX`]; otherwise the number that
/// `str::parse` reads, or its error; white space around the text is ignored.
pub open spec fn threads_from_text(value: Seq<char>) -> Result<Threads, FromStrError> {
    let text = trimmed(value);
    if text == AUTO@ {
        Ok(Threads::Auto)
    } else if text == MAX@ {
        Ok(Threads::Max)
    } else {
        match usize_parse(text) {
            Ok(count) => Ok(Threads::Fixed(count)),
            Err(error) => Err(FromStrError::InvalidSyntax(error)),
        }
    }
}

/// Reading a text and reading it trimmed give the same, error included.
pub proof fn lemma_threads_ignore_white_space(value: Seq<char>)
    ensures
        threads_from_text(trimmed(value)) == threads_from_text(value),
{
    lemma_trimmed_idempotent(value);
}

/// Reading the text of a number of threads gives it back.
pub proof fn lemma_threads_text_round_trip(threads: Threads)
    ensures
        parsed_threads(threads.text()) == Some(threads),
{
    reveal_strlit("auto");
    reveal_strlit("max");
    match threads {
        Threads::Auto => {
            lemma_trimmed_unchanged(AUTO@);
        },
        Threads::Max => {
            lemma_trimmed_unchanged(MAX@);
        },
        Threads::Fixed(count) => {
            let text = decimal(count as nat);
            lemma_decimal_digits(count as nat);
            assert(crate::text::is_digit(text[0]));
            assert(crate::text::is_digit(text.last()));
            lemma_trimmed_unchanged(text);
            assert(text[0] != AUTO@[0]);
            assert(text[0] != MAX@[0]);
            lemma_parsed_decimal(count as nat, usize::MAX as nat);
        },
    }
}

/// Error that occurs when converting a string to an instance of [`Threads`].
#[derive(Debug, PartialEq, Eq)]
#[non_exhaustive]
pub enum FromStrError {
    /// The text is neither [`AUTO`], [`MAX`], nor a number.
    InvalidSyntax(ParseIntError),
}

impl FromStr for Threads {
    type Err = FromStrError;

    /// Read a number of threads: [`AUTO`], [`MAX`] or a number, with white
    /// space around it ignored.
    fn from_str(value: &str) -> (parsed: Result<Self, Self::Err>)
        ensures
            ({
                let text = trimmed(value@);
                &&& text == AUTO@ ==> parsed == Ok::<Threads, FromStrError>(Threads::Auto)
                &&& text == MAX@ && text != AUTO@ ==> parsed == Ok::<Threads, FromStrError>(Threads::Max)
                &&& text != AUTO@ && text != MAX@ ==> (parsed is Ok <==> parsed_unsigned(text, usize::MAX as nat) is Some)
                &&& parsed matches Ok(Threads::Fixed(n)) ==> text != AUTO@ && text != MAX@
                    && parsed_unsigned(text, usize::MAX as nat) == Some(n as nat)
            }),
            parsed == threads_from_text(value@),
            parsed is Ok <==> parsed_threads(value@) is Some,
            parsed matches Ok(threads) ==> parsed_threads(value@) == Some(threads),
    {
        let value = trim(value);
        if str_equal(value, AUTO) {
            return Ok(Threads::Auto);
        }
        if str_equal(value, MAX) {
            return Ok(Threads::Max);
        }
        match parse_usize(value) {
            Ok(count) => Ok(Threads::Fixed(count)),
            Err(error) => Err(FromStrError::InvalidSyntax(error)),
        }
    }
}

} // verus!
