//! UUIDs written as text.
use std::str::FromStr;
use vstd::prelude::*;
use crate::error::DecodeError;

verus! {

/// The error type of the `uuid` crate, carried but never looked into.
#[verifier::external_type_specification]
#[verifier::external_body]
pub struct ExUuidError(uuid::Error);

/// The 128-bit number of the UUID that `text` spells, if it spells one.
pub uninterp spec fn uuid_of_text(text: Seq<char>) -> Option<u128>;

/// Calls `uuid::Uuid::from_str` and, where it succeeds, `Uuid::as_u128` on what
/// it returns. The crate's parser looks at nothing but the text, so the result
/// is a function of the text: this is the one place that says what
/// [`uuid_of_text`] is.
#[verifier::external_body]
fn uuid_from_str(text: &str) -> (r: Result<u128, uuid::Error>)
    ensures
        match r {
            Ok(number) => uuid_of_text(text@) == Some(number),
            Err(_) => uuid_of_text(text@) is None,
        },
{
    match uuid::Uuid::from_str(text) {
        Ok(id) => Ok(id.as_u128()),
        Err(e) => Err(e),
    }
}

/// What the parser's answer means to the decoder: the number, or the error
/// that the text is no UUID.
pub fn uuid_number(parsed: Result<u128, uuid::Error>) -> (r: Result<u128, DecodeError>)
    ensures
        match parsed {
            Ok(number) => r == Ok::<u128, DecodeError>(number),
            Err(_) => r == Err::<u128, DecodeError>(DecodeError::InvalidUuid),
        },
{
    match parsed {
        Ok(number) => Ok(number),
        Err(_) => Err(DecodeError::InvalidUuid),
    }
}

/// Parses the text of a UUID in any of the forms that the `uuid` crate reads.
pub fn parse_uuid(text: &str) -> (r: Result<u128, DecodeError>)
    ensures
        match uuid_of_text(text@) {
            Some(number) => r == Ok::<u128, DecodeError>(number),
            None => r == Err::<u128, DecodeError>(DecodeError::InvalidUuid),
        },
{
    uuid_number(uuid_from_str(text))
}

} // verus!
