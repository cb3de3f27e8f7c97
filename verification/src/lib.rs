//! Decoder for AIS (Automatic Identification System) messages carried as
//! NMEA 0183 `!AIVDM`/`!AIVDO` sentences.
//!
//! The pipeline runs: optional tag-block pre-processing, sentence framing
//! with checksum validation, multi-fragment reassembly, 6-bit payload
//! expansion into a bit sequence, and per-message-type field extraction.
//! Every stage is a pure function or a small owned buffer; the library
//! performs no I/O.

pub mod checksum;
pub mod decoders;
pub mod errors;
pub mod fields;
pub mod messages;
pub mod sixbit;
pub mod sentence;
pub mod tag_block;

pub use decoders::decode;
pub use errors::Error;
pub use sentence::{AisFragments, AisParser, AisSentence};
