//! The ways in which a decode fails.

use crate::number::ParseFailure;
use vstd::prelude::*;

verus! {

/// Why a decode failed. Every failure ends the decode: nothing is retried, skipped or returned
/// in part.
#[derive(Clone, Debug, PartialEq, Eq)]
pub enum DecodeError {
    /// The pattern does not match the text.
    NoMatch,
    /// A value was asked for where no capture text is staged.
    MissingValue,
    /// A field is named after no capture group of the pattern.
    MissingField,
    /// The staged text is no number of the type asked for; the cause says why.
    InvalidPrimitive(ParseFailure),
    /// The staged text holds more than the one character asked for.
    InvalidChar,
    /// The shape asked for is one that captures cannot be decoded into.
    Unimplemented,
    /// A failure that the caller describes in its own words.
    Custom(String),
}

impl DecodeError {
    /// The words that describe this failure.
    pub open spec fn description(self) -> Seq<char> {
        match self {
            DecodeError::NoMatch => "pattern failed to match against text"@,
            DecodeError::MissingValue => "missing value"@,
            DecodeError::MissingField => "missing field name"@,
            DecodeError::InvalidPrimitive(_) => "failed to decode primitive"@,
            DecodeError::InvalidChar => "extra characters found"@,
            DecodeError::Unimplemented => "shape not supported"@,
            DecodeError::Custom(words) => words@,
        }
    }

    /// Describes this failure in words.
    pub fn message(&self) -> (words: String)
        ensures
            words@ == self.description(),
    {
        match self {
            DecodeError::NoMatch => "pattern failed to match against text".to_owned(),
            DecodeError::MissingValue => "missing value".to_owned(),
            DecodeError::MissingField => "missing field name".to_owned(),
            DecodeError::InvalidPrimitive(_) => "failed to decode primitive".to_owned(),
            DecodeError::InvalidChar => "extra characters found".to_owned(),
            DecodeError::Unimplemented => "shape not supported".to_owned(),
            DecodeError::Custom(words) => words.clone(),
        }
    }
}

} // verus!
