//! One-shot decoding of a single complete sentence.

use vstd::prelude::*;

use crate::errors::Error;
use crate::messages::AisMessage;
use crate::sentence::{spec_parse, AisFragments, AisParser, SpecEntry};

verus! {

/// What decoding one line with a fresh parser yields: the message of a
/// sentence that completes at once, or `Incomplete` when the line only
/// buffered a fragment or carried a message type this library does not
/// decode.
pub open spec fn spec_decode(line: Seq<u8>) -> Result<AisMessage, Error> {
    let (es, res) = spec_parse(Seq::<SpecEntry>::empty(), line, true);
    match res {
        Ok(Some(s)) => match s.message {
            Some(m) => Ok(m),
            None => Err(Error::Incomplete),
        },
        Ok(None) => Err(Error::Incomplete),
        Err(e) => Err(e),
    }
}

/// Decodes a single message carried by one complete (single-fragment)
/// sentence, in strict checksum mode.
pub fn decode(message: &[u8]) -> (r: Result<AisMessage, Error>)
    ensures
        r == spec_decode(message@),
{
    let mut parser = AisParser::new();
    match parser.parse(message, true) {
        Ok(AisFragments::Complete(sentence)) => match sentence.message {
            Some(m) => Ok(m),
            None => Err(Error::Incomplete),
        },
        Ok(AisFragments::Incomplete) => Err(Error::Incomplete),
        Err(e) => Err(e),
    }
}

/// Single-fragment identity: one-shot `decode` of a line returns
/// exactly the message that feeding the same line to a fresh parser in
/// strict mode and observing the completed sentence yields; where the
/// parser reports no finished message (a buffered fragment, or a
/// recognized type this library does not decode) `decode` reports
/// `Incomplete`, and it passes every parser error through unchanged.
pub proof fn lemma_single_fragment_identity(line: Seq<u8>)
    ensures
        ({
            let (es, res) = spec_parse(Seq::<SpecEntry>::empty(), line, true);
            spec_decode(line) == (match res {
                Ok(Some(s)) => match s.message {
                    Some(m) => Ok::<AisMessage, Error>(m),
                    None => Err::<AisMessage, Error>(Error::Incomplete),
                },
                Ok(None) => Err::<AisMessage, Error>(Error::Incomplete),
                Err(e) => Err::<AisMessage, Error>(e),
            })
        }),
{
}

} // verus!
