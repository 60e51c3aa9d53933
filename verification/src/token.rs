//! The lexical units of an arithmetic expression, and the character classes
//! that drive their recognition.

use vstd::prelude::*;

verus! {

/// A classified lexical unit.
///
/// An `Int` carries the value of a run of decimal digits, accumulated with
/// wraparound modulo 2^64. A `Name` carries the text of an identifier: an
/// alphabetic character followed by alphanumeric characters. Any other
/// non-space character is passed through verbatim as `Other`.
#[derive(Debug)]
pub enum Token {
    Int(u64),
    Name(String),
    Other(char),
}

/// The mathematical value of a [`Token`]: the same three variants, with the
/// identifier text abstracted to its character sequence.
pub enum TokenModel {
    Int(u64),
    Name(Seq<char>),
    Other(char),
}

impl Clone for Token {
    fn clone(&self) -> (r: Self)
        ensures
            r == *self,
    {
        match self {
            Token::Int(n) => Token::Int(*n),
            Token::Name(s) => Token::Name(s.clone()),
            Token::Other(c) => Token::Other(*c),
        }
    }
}

impl View for Token {
    type V = TokenModel;

    open spec fn view(&self) -> TokenModel {
        match self {
            Token::Int(n) => TokenModel::Int(*n),
            Token::Name(s) => TokenModel::Name(s@),
            Token::Other(c) => TokenModel::Other(*c),
        }
    }
}

impl DeepView for Token {
    type V = TokenModel;

    open spec fn deep_view(&self) -> TokenModel {
        self.view()
    }
}

/// The abstraction of a token sequence: each token replaced by its model.
pub open spec fn seq_model(ts: Seq<Token>) -> Seq<TokenModel> {
    Seq::new(ts.len(), |i: int| ts[i].deep_view())
}

/// A decimal digit, `'0'` through `'9'`.
pub open spec fn is_decimal_digit(c: char) -> bool {
    48 <= c as u32 <= 57
}

/// The numeric value of a decimal digit.
pub open spec fn decimal_digit_value(c: char) -> u64 {
    (c as u32 - 48) as u64
}

/// Whether `c` is a decimal digit, `'0'` through `'9'`.
pub fn check_decimal_digit(c: char) -> (r: bool)
    ensures
        r == is_decimal_digit(c),
{
    let u: u32 = c as u32;
    48 <= u && u <= 57
}

/// The numeric value of a decimal digit.
pub fn digit_value(c: char) -> (r: u64)
    requires
        is_decimal_digit(c),
    ensures
        r == decimal_digit_value(c),
{
    (c as u32 - 48) as u64
}

/// Whether the Unicode character `c` has the `Alphabetic` property. The full
/// classification is the Unicode table's; nothing more is assumed of it than
/// that it is a function of the character alone.
pub uninterp spec fn unicode_alphabetic(c: char) -> bool;

/// Relies on `char::is_alphabetic`: whether `c` has the Unicode `Alphabetic`
/// property, a pure function of the character.
#[verifier::external_body]
pub fn check_alphabetic(c: char) -> (r: bool)
    ensures
        r == unicode_alphabetic(c),
{
    c.is_alphabetic()
}

} // verus!
