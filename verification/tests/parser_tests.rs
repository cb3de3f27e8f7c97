use ais::sentence::AisParser;
use ais::AisFragments;
use ais::Error;

const TEST_MESSAGES: [&[u8]; 8] = [
    b"!AIVDM,1,1,,B,E>kb9O9aS@7PUh10dh19@;0Tah2cWrfP:l?M`00003vP100,0*01",
    b"!AIVDM,1,1,,A,403OtVAv6s5l1o?I``E`4I?02<34,0*21",
    b"!AIVDM,1,1,,B,ENkb9U79PW@80Q67h10dh1T6@Hq;`0W8:peOH00003vP000,0*1C",
    b"!AIVDM,1,1,,A,ENkb9H2`:@17W4b0h@@@@@@@@@@;WSEi:lK9800003vP000,0*08",
    b"!AIVDM,1,1,,A,E>kb9I99S@0`8@:9ah;0TahI7@@;V4=v:nv;h00003vP100,0*7A",
    b"!AIVDM,1,1,,B,403OtVAv6s5lOo?I`pE`4KO02<34,0*3E",
    b"!AIVDM,2,1,1,B,53`soB8000010KSOW<0P4eDp4l6000000000000U0p<24t@P05H3S833CDP00000,0*78",
    b"!AIVDM,2,2,1,B,0000000,2*26",
];

#[test]
fn end_to_end() {
    let mut parser = AisParser::new();
    for line in TEST_MESSAGES.iter() {
        parser.parse(line, true).unwrap();
    }
}

#[test]
fn two_part_message_reassembles() {
    let mut parser = AisParser::new();
    let first = parser
        .parse(b"!AIVDM,2,1,1,B,53`soB8000010KSOW<0P4eDp4l6000000000000U0p<24t@P05H3S833CDP00000,0*78", true)
        .unwrap();
    assert!(matches!(first, AisFragments::Incomplete));
    let second = parser.parse(b"!AIVDM,2,2,1,B,0000000,2*26", true).unwrap();
    match second {
        AisFragments::Complete(sentence) => {
            assert_eq!(sentence.payload.len(), 64 + 7);
            assert_eq!(sentence.fill_bits, 2);
            // Type 5 (static and voyage data) is recognized but not
            // decoded by this library.
            assert!(sentence.message.is_none());
        },
        AisFragments::Incomplete => panic!("expected a completed message"),
    }
}

#[test]
fn two_part_with_empty_final_payload() {
    // The final fragment carries no payload text of its own, only fill
    // bits; the assembled payload is exactly the first fragment's, and
    // the final fragment's fill-bit count is adopted.
    let mut parser = AisParser::new();
    let first = parser.parse(b"!AIVDM,2,1,3,A,55555555,0*16", true).unwrap();
    assert!(matches!(first, AisFragments::Incomplete));
    let second = parser.parse(b"!AIVDM,2,2,3,A,,2*17", true).unwrap();
    match second {
        AisFragments::Complete(sentence) => {
            assert_eq!(sentence.payload, b"55555555".to_vec());
            assert_eq!(sentence.fill_bits, 2);
            assert!(sentence.message.is_none());
        },
        AisFragments::Incomplete => panic!("expected a completed message"),
    }
}

#[test]
fn duplicate_fragment_index_is_rejected() {
    let mut parser = AisParser::new();
    parser.parse(b"!AIVDM,2,1,3,A,55555555,0*16", true).unwrap();
    let err = parser
        .parse(b"!AIVDM,2,1,3,A,55555555,0*16", true)
        .unwrap_err();
    assert_eq!(err, Error::Reassembly);
    assert_eq!(err.message(), "Fragment reassembly error");
}

#[test]
fn final_fragment_without_earlier_parts_is_rejected() {
    let mut parser = AisParser::new();
    let err = parser.parse(b"!AIVDM,2,2,3,A,,2*17", true).unwrap_err();
    assert_eq!(err, Error::Reassembly);
}

#[test]
fn changed_total_count_is_rejected() {
    let mut parser = AisParser::new();
    parser.parse(b"!AIVDM,2,1,3,A,55555555,0*16", true).unwrap();
    let err = parser.parse(b"!AIVDM,3,3,3,A,,0*15", true).unwrap_err();
    assert_eq!(err, Error::Reassembly);
}

#[test]
fn fragment_index_out_of_range_is_rejected() {
    let mut parser = AisParser::new();
    let err = parser
        .parse(b"!AIVDM,1,2,,B,15NG6V0P01G?cFhE`R2IU?wn28R>,0*06", true)
        .unwrap_err();
    assert_eq!(err, Error::FragmentRange);
}

#[test]
fn lenient_mode_tolerates_checksum_mismatch() {
    let line = b"!AIVDM,1,1,,B,15NG6V0P01G?cFhE`R2IU?wn28R>,0*06";
    let mut strict = AisParser::new();
    assert_eq!(
        strict.parse(line, true).unwrap_err(),
        Error::ChecksumMismatch { calculated: 0x05, declared: 0x06 }
    );
    let mut lenient = AisParser::new();
    let outcome = lenient.parse(line, false).unwrap();
    match outcome {
        AisFragments::Complete(sentence) => assert!(sentence.message.is_some()),
        AisFragments::Incomplete => panic!("expected a completed message"),
    }
}

#[test]
fn tag_block_prefix_is_parsed_and_attached() {
    let line = b"\\s:2573135,c:1671620143*0B\\!AIVDM,1,1,,B,15NG6V0P01G?cFhE`R2IU?wn28R>,0*05";
    let mut parser = AisParser::new();
    match parser.parse(line, true).unwrap() {
        AisFragments::Complete(sentence) => {
            let tag_block = sentence.tag_block.expect("tag block should be attached");
            assert_eq!(tag_block.source_station, Some("2573135".to_string()));
            assert_eq!(tag_block.receiver_timestamp, Some(1671620143));
            assert_eq!(tag_block.checksum, 0x0B);
            assert!(sentence.message.is_some());
            assert_eq!(sentence.channel, Some(b'B'));
        },
        AisFragments::Incomplete => panic!("expected a completed message"),
    }
}

#[test]
fn tag_block_with_bad_checksum_rejects_whole_line() {
    let line = b"\\s:2573135,c:1671620143*FF\\!AIVDM,1,1,,B,15NG6V0P01G?cFhE`R2IU?wn28R>,0*05";
    let mut parser = AisParser::new();
    let err = parser.parse(line, true).unwrap_err();
    assert_eq!(
        err,
        Error::ChecksumMismatch { calculated: 0x0B, declared: 0xFF }
    );
}
