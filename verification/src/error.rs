//! The error taxonomy: structured failure values distinguishing end of input
//! from a mismatched character from an invalid literal, each carrying what
//! was expected and, where it helps, what was found.

use vstd::prelude::*;

verus! {

/// What a matcher was looking for when it failed.
#[derive(Debug, PartialEq)]
pub enum Expected {
    AnyToken,
    Character(char),
    Literal(String),
}

/// A structured parse failure. Errors are values returned from a parse, never
/// exceptions; each one carries enough context to render a diagnostic without
/// re-scanning the input.
#[derive(Debug, PartialEq)]
pub enum Error {
    UnexpectedEndOfInput { expected: Expected },
    MisMatchedCharacter { expected: Expected, found: char },
    InvalidLiteral { expected: Expected, found: String },
}

/// Two expectations carry the same content, comparing any carried text by its
/// characters.
pub open spec fn expecteds_agree(a: Expected, b: Expected) -> bool {
    match (a, b) {
        (Expected::AnyToken, Expected::AnyToken) => true,
        (Expected::Character(x), Expected::Character(y)) => x == y,
        (Expected::Literal(p), Expected::Literal(q)) => p@ == q@,
        _ => false,
    }
}

/// Two errors carry the same content, comparing any carried text by its
/// characters.
pub open spec fn errors_agree(a: Error, b: Error) -> bool {
    match (a, b) {
        (
            Error::UnexpectedEndOfInput { expected: ea },
            Error::UnexpectedEndOfInput { expected: eb },
        ) => expecteds_agree(ea, eb),
        (
            Error::MisMatchedCharacter { expected: ea, found: fa },
            Error::MisMatchedCharacter { expected: eb, found: fb },
        ) => expecteds_agree(ea, eb) && fa == fb,
        (
            Error::InvalidLiteral { expected: ea, found: fa },
            Error::InvalidLiteral { expected: eb, found: fb },
        ) => expecteds_agree(ea, eb) && fa@ == fb@,
        _ => false,
    }
}

} // verus!
