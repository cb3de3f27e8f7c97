//! The closed set of error kinds the decoding engine can report.

use vstd::prelude::*;

verus! {

/// Everything that can go wrong while turning one input line into a
/// structured AIS message.  Each variant is one failure kind of the
/// pipeline; callers can branch on the kind.
#[derive(Debug, Clone, Copy, PartialEq, Eq, Structural)]
pub enum Error {
    /// Malformed tag block: missing or repeated `*` separator, or a
    /// non-ASCII byte where the tag-block grammar allows only ASCII.
    TagBlockFormat,
    /// A declared checksum field that is not exactly two hex digits.
    ChecksumFormat,
    /// The XOR-fold of the protected section disagrees with the declared
    /// checksum; both values are kept for diagnostics.
    ChecksumMismatch { calculated: u8, declared: u8 },
    /// Malformed sentence structure: wrong leading byte, wrong field
    /// count, or a numeric field that is not a digit in range.
    SentenceFormat,
    /// The sentence formatter is neither `AIVDM` nor `AIVDO`.
    UnsupportedSentenceType,
    /// Fragment count and index do not satisfy `1 <= index <= count`.
    FragmentRange,
    /// Inconsistent fragment stream: duplicate index, total-count change
    /// mid-sequence, or a final fragment while earlier ones are missing.
    Reassembly,
    /// An armored payload byte outside the 6-bit alphabet.
    Alphabet { byte: u8 },
    /// A message type code outside the range the standard defines.
    UnsupportedMessageType { code: u8 },
    /// Too few payload bits for the fields of the identified type.
    PayloadTooShort,
    /// A one-shot decode produced no finished message.
    Incomplete,
}

impl Error {
    /// The wording of each error kind, as a sequence of characters.
    pub open spec fn spec_message(self) -> Seq<char> {
        match self {
            Error::TagBlockFormat => "Invalid tag block format; missing checksum"@,
            Error::ChecksumFormat => "Invalid checksum format"@,
            Error::ChecksumMismatch { .. } => "Checksum mismatch"@,
            Error::SentenceFormat => "Invalid sentence format"@,
            Error::UnsupportedSentenceType => "Unsupported sentence type"@,
            Error::FragmentRange => "Invalid fragment index"@,
            Error::Reassembly => "Fragment reassembly error"@,
            Error::Alphabet { .. } => "Invalid payload character"@,
            Error::UnsupportedMessageType { .. } => "Unsupported message type"@,
            Error::PayloadTooShort => "Payload too short"@,
            Error::Incomplete => "Incomplete message"@,
        }
    }

    /// A short human-readable description of the error kind.
    pub fn message(&self) -> (r: String)
        ensures
            r@ == self.spec_message(),
    {
        match self {
            Error::TagBlockFormat => "Invalid tag block format; missing checksum".to_owned(),
            Error::ChecksumFormat => "Invalid checksum format".to_owned(),
            Error::ChecksumMismatch { .. } => "Checksum mismatch".to_owned(),
            Error::SentenceFormat => "Invalid sentence format".to_owned(),
            Error::UnsupportedSentenceType => "Unsupported sentence type".to_owned(),
            Error::FragmentRange => "Invalid fragment index".to_owned(),
            Error::Reassembly => "Fragment reassembly error".to_owned(),
            Error::Alphabet { .. } => "Invalid payload character".to_owned(),
            Error::UnsupportedMessageType { .. } => "Unsupported message type".to_owned(),
            Error::PayloadTooShort => "Payload too short".to_owned(),
            Error::Incomplete => "Incomplete message".to_owned(),
        }
    }
}

} // verus!
