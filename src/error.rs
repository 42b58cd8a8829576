//! The errors of every decode in this library.
use vstd::prelude::*;

use bendy::decoding::Error as BencodeError;

verus! {

#[verifier::external_type_specification]
#[verifier::external_body]
pub struct ExBencodeError(BencodeError);

/// Why a value could not be built or decoded.
#[derive(Debug)]
pub enum Error {
    /// The fields given do not make a valid value (both or neither of
    /// `length` and `files`).
    InvalidMetadata(String),
    /// A peer's address could not be resolved.
    InvalidSocketAddress(String, u16),
    /// A compact peer chunk did not hold exactly six bytes.
    InvalidCompactPeerLength(usize),
    /// A required dictionary key was absent.
    MissingField(String),
    /// A dictionary key outside the allowed set, as its raw bytes.
    UnexpectedField(Vec<u8>),
    /// A value has the wrong shape or is out of range.
    MalformedContent(String),
    /// The input is not well-formed bencode.
    Decode(BencodeError),
}

} // verus!
