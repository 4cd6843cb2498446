//! The failures of reading and computing, and their messages.

use crate::ev_num::EvNum;
use crate::ev_vec::EvVec;
use crate::expr::EValue;
use vstd::prelude::*;

verus! {

/// Everything that reading or computing a value can fail with.
#[derive(Debug, PartialEq)]
pub enum Error {
    /// A character that is neither a decimal digit nor `X` stood where a digit was expected.
    UnknownDigit(char),
    /// A number was to be read from the empty string.
    NumStringEmpty,
    /// A number was to be read from a string of more than one character.
    NumStringTooLong(String),
    /// A vector was to be read from a string without `|`.
    VecStringNoPipe(String),
    /// No number times the second gives the first.
    NumDivNoSolution(EvNum, EvNum),
    /// No vector times the second gives the first.
    VecDivNoSolution(EvVec, EvVec),
    /// A number and a vector were to be added.
    IncompatibleAdd(EValue, EValue),
    /// A number and a vector were to be subtracted.
    IncompatibleSub(EValue, EValue),
    /// A number and a vector were to be multiplied.
    IncompatibleMul(EValue, EValue),
    /// A number and a vector were to be divided.
    IncompatibleDiv(EValue, EValue),
}

impl Clone for Error {
    fn clone(&self) -> (r: Self)
        ensures
            r == *self,
    {
        match self {
            Error::UnknownDigit(c) => Error::UnknownDigit(*c),
            Error::NumStringEmpty => Error::NumStringEmpty,
            Error::NumStringTooLong(s) => Error::NumStringTooLong(s.clone()),
            Error::VecStringNoPipe(s) => Error::VecStringNoPipe(s.clone()),
            Error::NumDivNoSolution(a, b) => Error::NumDivNoSolution(*a, *b),
            Error::VecDivNoSolution(a, b) => Error::VecDivNoSolution(*a, *b),
            Error::IncompatibleAdd(a, b) => Error::IncompatibleAdd(a.clone(), b.clone()),
            Error::IncompatibleSub(a, b) => Error::IncompatibleSub(a.clone(), b.clone()),
            Error::IncompatibleMul(a, b) => Error::IncompatibleMul(a.clone(), b.clone()),
            Error::IncompatibleDiv(a, b) => Error::IncompatibleDiv(a.clone(), b.clone()),
        }
    }
}

/// The text that the `{:?}` format of the standard library writes for the
/// character `c`: the character between single quotes, escaped where needed.
pub uninterp spec fn char_quoted(c: char) -> Seq<char>;

/// The text that the `{:?}` format of the standard library writes for the
/// string `s`: the string between double quotes, escaped where needed.
pub uninterp spec fn str_quoted(s: Seq<char>) -> Seq<char>;

/// Calls `<char as Debug>::fmt` of the standard library through `format!`. The
/// text that comes back depends on the character alone, and is known here only
/// by the name `char_quoted`.
#[verifier::external_body]
fn quote_char(c: char) -> (r: String)
    ensures
        r@ == char_quoted(c),
{
    format!("{:?}", c)
}

/// Calls `<str as Debug>::fmt` of the standard library through `format!`. The
/// text that comes back depends on the string alone, and is known here only by
/// the name `str_quoted`.
#[verifier::external_body]
fn quote_str(s: &str) -> (r: String)
    ensures
        r@ == str_quoted(s@),
{
    format!("{:?}", s)
}

/// The two texts in a row.
fn joined(head: &str, tail: &str) -> (r: String)
    ensures
        r@ == head@ + tail@,
{
    let mut s = String::from_str(head);
    s.append(tail);
    s
}

/// The two texts in a row, each after its lead.
fn phrase(lead: &str, first: String, link: &str, second: String) -> (r: String)
    ensures
        r@ == lead@ + first@ + link@ + second@,
{
    let mut s = String::from_str(lead);
    s.append(first.as_str());
    s.append(link);
    s.append(second.as_str());
    s
}

impl Error {
    /// The character or string that the error holds, as its message quotes it;
    /// empty for an error that holds neither.
    pub open spec fn quoted(self) -> Seq<char> {
        match self {
            Error::UnknownDigit(c) => char_quoted(c),
            Error::NumStringTooLong(s) => str_quoted(s@),
            Error::VecStringNoPipe(s) => str_quoted(s@),
            _ => Seq::empty(),
        }
    }

    /// The message of the error, with `quoted` for the character or string
    /// that it holds.
    pub open spec fn message(self, quoted: Seq<char>) -> Seq<char> {
        match self {
            Error::UnknownDigit(_) => "an unknown digit was encountered: "@ + quoted,
            Error::NumStringEmpty => "tried to parse an empty string as a number"@,
            Error::NumStringTooLong(_) => "number longer than one digit: "@ + quoted,
            Error::VecStringNoPipe(_) => "vec without a separator: "@ + quoted,
            Error::NumDivNoSolution(n1, n2) => "cannot divide "@ + n1.text() + " by "@ + n2.text(),
            Error::VecDivNoSolution(v1, v2) => "cannot divide "@ + v1.text() + " by "@ + v2.text(),
            Error::IncompatibleAdd(v1, v2) => "cannot add "@ + v1.text() + " and "@ + v2.text(),
            Error::IncompatibleSub(v1, v2) => "cannot subtract "@ + v2.text() + " from "@
                + v1.text(),
            Error::IncompatibleMul(v1, v2) => "cannot multiply "@ + v1.text() + " and "@
                + v2.text(),
            Error::IncompatibleDiv(v1, v2) => "cannot divide "@ + v1.text() + " by "@ + v2.text(),
        }
    }

    /// The message of the error, with `quoted` for the character or string
    /// that it holds.
    pub fn describe(&self, quoted: &str) -> (r: String)
        ensures
            r@ == self.message(quoted@),
    {
        match self {
            Error::UnknownDigit(_) => joined("an unknown digit was encountered: ", quoted),
            Error::NumStringEmpty => String::from_str("tried to parse an empty string as a number"),
            Error::NumStringTooLong(_) => joined("number longer than one digit: ", quoted),
            Error::VecStringNoPipe(_) => joined("vec without a separator: ", quoted),
            Error::NumDivNoSolution(n1, n2) => phrase(
                "cannot divide ",
                n1.to_string(),
                " by ",
                n2.to_string(),
            ),
            Error::VecDivNoSolution(v1, v2) => phrase(
                "cannot divide ",
                v1.to_string(),
                " by ",
                v2.to_string(),
            ),
            Error::IncompatibleAdd(v1, v2) => phrase(
                "cannot add ",
                v1.to_string(),
                " and ",
                v2.to_string(),
            ),
            Error::IncompatibleSub(v1, v2) => phrase(
                "cannot subtract ",
                v2.to_string(),
                " from ",
                v1.to_string(),
            ),
            Error::IncompatibleMul(v1, v2) => phrase(
                "cannot multiply ",
                v1.to_string(),
                " and ",
                v2.to_string(),
            ),
            Error::IncompatibleDiv(v1, v2) => phrase(
                "cannot divide ",
                v1.to_string(),
                " by ",
                v2.to_string(),
            ),
        }
    }

    /// The message of the error. A character or string that the error holds
    /// stands in it as `{:?}` writes it.
    pub fn to_string(&self) -> (r: String)
        ensures
            r@ == self.message(self.quoted()),
    {
        let quoted = match self {
            Error::UnknownDigit(c) => quote_char(*c),
            Error::NumStringTooLong(s) => quote_str(s.as_str()),
            Error::VecStringNoPipe(s) => quote_str(s.as_str()),
            _ => String::new(),
        };
        self.describe(quoted.as_str())
    }
}

} // verus!
