//! The ways in which decoding a unit can fail.

use vstd::prelude::*;

verus! {

/// A failure that ends the decoding of the unit in which it occurs.
#[derive(Clone, Copy, Debug, PartialEq, Eq, Structural)]
pub enum DecodeError {
    /// The input ended inside a header or a payload.
    Truncated,
    /// A multi-byte tag number ran past four continuation bytes.
    TagTooLong,
    /// A long-form length announced more than four length bytes.
    LengthTooLong,
    /// A nested unit reaches past the end that its container declared.
    ChildOverrunsParent,
    /// The additional-information field holds a reserved value, or the
    /// indefinite marker on a major type that has no indefinite form.
    InvalidAdditionalInfo,
    /// A header names a major type outside 0..=7.
    InvalidMajorType,
    /// A chunk of an indefinite-length string has another major type than
    /// the string it belongs to.
    ChunkTypeMismatch,
    /// A chunk of an indefinite-length string is itself of indefinite length.
    NestedIndefiniteChunk,
    /// An indefinite-length map was closed after a key that has no value.
    DanglingMapKey,
}

impl DecodeError {
    /// Whether the input is still in step after this failure, so that a
    /// stream decoder may go on with the next unit.
    pub open spec fn recoverable(self) -> bool {
        self == DecodeError::ChunkTypeMismatch || self == DecodeError::NestedIndefiniteChunk
            || self == DecodeError::DanglingMapKey
    }

    /// The text of the message that belongs to this failure.
    pub open spec fn message_text(self) -> Seq<char> {
        match self {
            DecodeError::Truncated => "Unexpected end of input"@,
            DecodeError::TagTooLong => "Tag too long"@,
            DecodeError::LengthTooLong => "Length too long"@,
            DecodeError::ChildOverrunsParent => "Nested item overruns its container"@,
            DecodeError::InvalidAdditionalInfo => "Invalid additional info"@,
            DecodeError::InvalidMajorType => "Invalid major type"@,
            DecodeError::ChunkTypeMismatch => "Chunk of another type in indefinite string"@,
            DecodeError::NestedIndefiniteChunk => "Indefinite chunk in indefinite string"@,
            DecodeError::DanglingMapKey => "Missing value in map"@,
        }
    }

    /// Structural violations inside an indefinite-length aggregate leave the
    /// input in step; every other failure does not.
    pub fn is_recoverable(&self) -> (r: bool)
        ensures
            r == self.recoverable(),
    {
        match self {
            DecodeError::ChunkTypeMismatch => true,
            DecodeError::NestedIndefiniteChunk => true,
            DecodeError::DanglingMapKey => true,
            _ => false,
        }
    }

    /// A short human-readable message for this failure.
    pub fn message(&self) -> (m: &'static str)
        ensures
            m@ == self.message_text(),
    {
        match self {
            DecodeError::Truncated => "Unexpected end of input",
            DecodeError::TagTooLong => "Tag too long",
            DecodeError::LengthTooLong => "Length too long",
            DecodeError::ChildOverrunsParent => "Nested item overruns its container",
            DecodeError::InvalidAdditionalInfo => "Invalid additional info",
            DecodeError::InvalidMajorType => "Invalid major type",
            DecodeError::ChunkTypeMismatch => "Chunk of another type in indefinite string",
            DecodeError::NestedIndefiniteChunk => "Indefinite chunk in indefinite string",
            DecodeError::DanglingMapKey => "Missing value in map",
        }
    }
}

} // verus!
