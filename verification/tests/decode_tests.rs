use ais::checksum::calculate_checksum;
use ais::decoders::decode;
use ais::messages::{AisMessage, NavigationStatus};
use ais::sixbit::{expand_payload, sixbit_value};
use ais::Error;

#[test]
fn decode_position_report_end_to_end() {
    let line = b"!AIVDM,1,1,,B,15NG6V0P01G?cFhE`R2IU?wn28R>,0*05";
    let AisMessage::PositionReport(report) = decode(line).unwrap();

    assert_eq!(report.message_type, 1);
    assert_eq!(report.mmsi, 367380120);
    assert_eq!(
        report.navigation_status,
        NavigationStatus::UnderWayUsingEngine
    );
    assert_eq!(report.speed_over_ground, Some(1));
    assert_eq!(report.longitude, Some(-73442600));
    assert_eq!(report.latitude, Some(22684169));
    assert_eq!(report.course_over_ground, Some(2452));
    assert_eq!(report.timestamp, 59);
    assert!(report.raim);

    // The same values in their scaled units.
    assert_eq!(report.speed_over_ground.unwrap() as f32 * 0.1, 0.1);
    assert_eq!(report.longitude.unwrap() as f32 / 600000.0, -122.404335);
    assert_eq!(report.latitude.unwrap() as f32 / 600000.0, 37.806946);
    assert_eq!(report.course_over_ground.unwrap() as f32 * 0.1, 245.2);
}

#[test]
fn decode_maps_sentinels_to_absent() {
    // Raw fields: speed 1023, longitude 181 deg, latitude 91 deg,
    // course 3600 -- every one the standard's "not available" pattern.
    let line = b"!AIVDM,1,1,,A,15NG6V00?w<tSF0l4Q@>401p0000,0*5C";
    let AisMessage::PositionReport(report) = decode(line).unwrap();

    assert_eq!(report.mmsi, 367380120);
    assert_eq!(report.speed_over_ground, None);
    assert_eq!(report.longitude, None);
    assert_eq!(report.latitude, None);
    assert_eq!(report.course_over_ground, None);
    assert_eq!(report.timestamp, 60);
    assert!(!report.raim);
}

#[test]
fn decode_rejects_payload_byte_outside_alphabet() {
    let line = b"!AIVDM,1,1,,A,1x,0*6F";
    let err = decode(line).unwrap_err();
    assert_eq!(err, Error::Alphabet { byte: b'x' });
    assert_eq!(err.message(), "Invalid payload character");
}

#[test]
fn decode_rejects_unknown_message_type() {
    // First armored character `L` encodes type code 28, past the
    // standard's range.
    let line = b"!AIVDM,1,1,,A,L000,0*5A";
    let err = decode(line).unwrap_err();
    assert_eq!(err, Error::UnsupportedMessageType { code: 28 });
}

#[test]
fn decode_rejects_truncated_position_report() {
    let line = b"!AIVDM,1,1,,A,1,0*17";
    assert_eq!(decode(line).unwrap_err(), Error::PayloadTooShort);
}

#[test]
fn decode_recognized_but_undecoded_type_is_incomplete() {
    // Type 4 (base station report) is within the standard but not
    // decoded, so the one-shot decode has no message to hand back.
    let line = b"!AIVDM,1,1,,A,403OtVAv6s5l1o?I``E`4I?02<34,0*21";
    let err = decode(line).unwrap_err();
    assert_eq!(err, Error::Incomplete);
    assert_eq!(err.message(), "Incomplete message");
}

#[test]
fn decode_rejects_wrong_checksum() {
    let line = b"!AIVDM,1,1,,B,15NG6V0P01G?cFhE`R2IU?wn28R>,0*06";
    assert_eq!(
        decode(line).unwrap_err(),
        Error::ChecksumMismatch { calculated: 0x05, declared: 0x06 }
    );
}

#[test]
fn decode_rejects_unsupported_formatter() {
    let line = b"!GPGGA,1,1,,B,15NG6V0P01G?cFhE`R2IU?wn28R>,0*04";
    assert_eq!(decode(line).unwrap_err(), Error::UnsupportedSentenceType);
}

#[test]
fn checksum_is_the_xor_fold() {
    assert_eq!(calculate_checksum(b""), 0);
    assert_eq!(calculate_checksum(b"s:2573135,c:1671620143"), 0x0B);
    assert_eq!(
        calculate_checksum(b"AIVDM,1,1,,B,15NG6V0P01G?cFhE`R2IU?wn28R>,0"),
        0x05
    );
}

#[test]
fn sixbit_alphabet_bounds() {
    assert_eq!(sixbit_value(48), Some(0));
    assert_eq!(sixbit_value(87), Some(39));
    assert_eq!(sixbit_value(96), Some(40));
    assert_eq!(sixbit_value(119), Some(63));
    assert_eq!(sixbit_value(47), None);
    assert_eq!(sixbit_value(88), None);
    assert_eq!(sixbit_value(95), None);
    assert_eq!(sixbit_value(120), None);
}

#[test]
fn expand_payload_drops_fill_bits() {
    // '1' encodes 000001; with two fill bits only 0000 remains.
    let bits = expand_payload(b"1", 0).unwrap();
    assert_eq!(bits, vec![false, false, false, false, false, true]);
    let bits = expand_payload(b"1", 2).unwrap();
    assert_eq!(bits, vec![false, false, false, false]);
    assert_eq!(
        expand_payload(b"1x", 0).unwrap_err(),
        Error::Alphabet { byte: b'x' }
    );
    assert_eq!(expand_payload(b"", 2).unwrap_err(), Error::PayloadTooShort);
}

#[test]
fn decode_rejects_malformed_sentence_structure() {
    // No leading sentinel byte.
    assert_eq!(
        decode(b"AIVDM,1,1,,A,1,0*17").unwrap_err(),
        Error::SentenceFormat
    );
    // No checksum separator at all.
    assert_eq!(decode(b"!AIVDM,1,1,,A,1,0").unwrap_err(), Error::SentenceFormat);
    // A fill-bit count past the 0..=5 range.
    assert_eq!(
        decode(b"!AIVDM,1,1,,A,1,9*1E").unwrap_err(),
        Error::SentenceFormat
    );
    // Six fields instead of seven.
    assert_eq!(
        decode(b"!AIVDM,1,1,A,1,0*3B").unwrap_err(),
        Error::SentenceFormat
    );
}

#[test]
fn navigation_status_mapping() {
    assert_eq!(
        NavigationStatus::from_code(0),
        NavigationStatus::UnderWayUsingEngine
    );
    assert_eq!(NavigationStatus::from_code(1), NavigationStatus::AtAnchor);
    assert_eq!(NavigationStatus::from_code(5), NavigationStatus::Moored);
    assert_eq!(NavigationStatus::from_code(15), NavigationStatus::NotDefined);
    // Codes past the 4-bit range fall back to NotDefined.
    assert_eq!(NavigationStatus::from_code(99), NavigationStatus::NotDefined);
}
