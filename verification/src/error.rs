//! What can go wrong when a field is read or written.
use vstd::prelude::*;

verus! {

/// A field that could not be read. Each variant carries the bytes that were
/// handed in, as they were.
#[derive(Debug, PartialEq, Eq)]
pub enum AprsError {
    /// The bytes are not a latitude.
    InvalidLatitude(Vec<u8>),
    /// The bytes are not a longitude.
    InvalidLongitude(Vec<u8>),
}

impl AprsError {
    /// The bytes that were rejected.
    pub open spec fn rejected(self) -> Seq<u8> {
        match self {
            AprsError::InvalidLatitude(raw) => raw@,
            AprsError::InvalidLongitude(raw) => raw@,
        }
    }

    /// The bytes that were rejected.
    pub fn raw(&self) -> (bytes: &Vec<u8>)
        ensures
            bytes@ == self.rejected(),
    {
        match self {
            AprsError::InvalidLatitude(raw) => raw,
            AprsError::InvalidLongitude(raw) => raw,
        }
    }
}

/// A value that could not be written.
#[derive(Clone, Copy, Debug, PartialEq, Eq, Structural)]
pub enum EncodeError {
    /// The number has more base-91 digits than the field has room for.
    NumberTooLarge,
}

} // verus!
