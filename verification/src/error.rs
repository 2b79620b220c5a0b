//! The ways in which decoding can fail.
use vstd::prelude::*;

verus! {

/// Why a datum could not be decoded.
#[derive(Clone, Copy, Debug, PartialEq, Eq, Structural)]
pub enum DecodeError {
    /// The input ended before the bytes that a read asked for.
    UnexpectedEof,
    /// A variable-length integer went on past the longest form of its width.
    VarintTooLong,
    /// A length or an item count was negative or above the allocation ceiling.
    InvalidLength,
    /// A boolean was encoded as a byte other than 0 or 1.
    NotABool,
    /// The bytes of a string were not well-formed UTF-8.
    InvalidUtf8,
    /// A union named a branch that its schema does not have.
    UnionIndexOutOfBounds,
    /// An enum named a symbol that its schema does not have.
    EnumIndexOutOfBounds,
    /// A decimal schema was laid over something other than fixed or bytes.
    DecimalSchema,
    /// The text of a UUID could not be parsed.
    InvalidUuid,
}

impl DecodeError {
    /// The text that describes each error.
    pub open spec fn spec_message(self) -> Seq<char> {
        match self {
            DecodeError::UnexpectedEof => "failed to fill whole buffer"@,
            DecodeError::VarintTooLong => "integer overflow"@,
            DecodeError::InvalidLength => "invalid length"@,
            DecodeError::NotABool => "not a bool"@,
            DecodeError::InvalidUtf8 => "not a valid utf-8 string"@,
            DecodeError::UnionIndexOutOfBounds => "union index out of bounds"@,
            DecodeError::EnumIndexOutOfBounds => "enum symbol index out of bounds"@,
            DecodeError::DecimalSchema => "not a fixed or bytes type, required for decimal schema"@,
            DecodeError::InvalidUuid => "not a valid uuid"@,
        }
    }

    /// A short description of the error, for people.
    pub fn message(&self) -> (text: String)
        ensures
            text@ == self.spec_message(),
    {
        match self {
            DecodeError::UnexpectedEof => "failed to fill whole buffer".to_string(),
            DecodeError::VarintTooLong => "integer overflow".to_string(),
            DecodeError::InvalidLength => "invalid length".to_string(),
            DecodeError::NotABool => "not a bool".to_string(),
            DecodeError::InvalidUtf8 => "not a valid utf-8 string".to_string(),
            DecodeError::UnionIndexOutOfBounds => "union index out of bounds".to_string(),
            DecodeError::EnumIndexOutOfBounds => "enum symbol index out of bounds".to_string(),
            DecodeError::DecimalSchema => "not a fixed or bytes type, required for decimal schema".to_string(),
            DecodeError::InvalidUuid => "not a valid uuid".to_string(),
        }
    }
}

} // verus!
