//! XOR-fold checksums and the two-hex-digit form they are declared in.
//!
//! Both the tag block and the NMEA sentence protect a section of the line
//! with the byte-wise XOR of that section, written as two hexadecimal
//! characters.

use vstd::prelude::*;

verus! {

/// XOR of every byte of `s`, the checksum the NMEA formats use.
pub open spec fn xor_fold(s: Seq<u8>) -> u8
    decreases s.len(),
{
    if s.len() == 0 {
        0u8
    } else {
        xor_fold(s.drop_last()) ^ s.last()
    }
}

/// Calculates the checksum for the provided data using XOR operation.
pub fn calculate_checksum(data: &[u8]) -> (r: u8)
    ensures
        r == xor_fold(data@),
{
    let mut acc: u8 = 0;
    let mut i: usize = 0;
    while i < data.len()
        invariant
            i <= data@.len(),
            acc == xor_fold(data@.take(i as int)),
        decreases data@.len() - i,
    {
        proof {
            assert(data@.take(i + 1).drop_last() =~= data@.take(i as int));
        }
        acc = acc ^ data[i];
        i = i + 1;
    }
    proof {
        assert(data@.take(data@.len() as int) =~= data@);
    }
    acc
}

/// The value of one hexadecimal digit, upper or lower case, or `None`
/// for any other byte.
pub open spec fn spec_hex_digit(b: u8) -> Option<u8> {
    if 48 <= b <= 57 {
        Some((b - 48) as u8)
    } else if 97 <= b <= 102 {
        Some((b - 87) as u8)
    } else if 65 <= b <= 70 {
        Some((b - 55) as u8)
    } else {
        None
    }
}

/// The value of a two-hex-digit checksum field, or `None` if either byte
/// is not a hexadecimal digit.
pub open spec fn spec_hex_pair(hi: u8, lo: u8) -> Option<u8> {
    match (spec_hex_digit(hi), spec_hex_digit(lo)) {
        (Some(h), Some(l)) => Some((h * 16 + l) as u8),
        _ => None,
    }
}

/// Reads one hexadecimal digit, accepting both cases.
pub fn hex_digit(b: u8) -> (r: Option<u8>)
    ensures
        r == spec_hex_digit(b),
{
    if 48 <= b && b <= 57 {
        Some(b - 48)
    } else if 97 <= b && b <= 102 {
        Some(b - 87)
    } else if 65 <= b && b <= 70 {
        Some(b - 55)
    } else {
        None
    }
}

/// Reads a declared checksum written as two hexadecimal characters.
pub fn hex_pair(hi: u8, lo: u8) -> (r: Option<u8>)
    ensures
        r == spec_hex_pair(hi, lo),
{
    match (hex_digit(hi), hex_digit(lo)) {
        (Some(h), Some(l)) => Some(h * 16 + l),
        _ => None,
    }
}

/// What validating a two-hex-digit declaration against a protected body
/// yields: the confirmed checksum, or the reason it was refused.
pub open spec fn spec_validate_checksum(body: Seq<u8>, hi: u8, lo: u8) -> Result<u8, crate::errors::Error> {
    match spec_hex_pair(hi, lo) {
        None => Err(crate::errors::Error::ChecksumFormat),
        Some(declared) => if xor_fold(body) == declared {
            Ok(declared)
        } else {
            Err(crate::errors::Error::ChecksumMismatch {
                calculated: xor_fold(body),
                declared,
            })
        },
    }
}

/// Validates a declared checksum (two hex bytes `hi`, `lo`) against the
/// XOR-fold of `body`.
pub fn validate_checksum(body: &[u8], hi: u8, lo: u8) -> (r: Result<u8, crate::errors::Error>)
    ensures
        r == spec_validate_checksum(body@, hi, lo),
{
    match hex_pair(hi, lo) {
        None => Err(crate::errors::Error::ChecksumFormat),
        Some(declared) => {
            let calculated = calculate_checksum(body);
            if calculated == declared {
                Ok(declared)
            } else {
                Err(crate::errors::Error::ChecksumMismatch { calculated, declared })
            }
        },
    }
}

/// Checksum round trip: re-validation accepts exactly the bodies whose
/// XOR-fold equals the declared checksum, and rejects every other
/// declaration.
pub proof fn lemma_checksum_round_trip(body: Seq<u8>, hi: u8, lo: u8)
    ensures
        spec_validate_checksum(body, hi, lo) is Ok <==> spec_hex_pair(hi, lo) == Some(
            xor_fold(body),
        ),
        spec_validate_checksum(body, hi, lo) matches Ok(c) ==> c == xor_fold(body),
{
}

} // verus!
