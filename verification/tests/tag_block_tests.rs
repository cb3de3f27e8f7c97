use ais::tag_block::TagBlock;
use ais::Error;

#[test]
fn parse_tag_block_with_valid_data() {
    // The declared checksum `34` is not the XOR-fold of the key-value
    // section (which is 0x01), so the block must be rejected, not parsed.
    let input = r"\s:1234567,c:1625140800*34\";
    let result = TagBlock::parse(input);

    assert!(result.is_err());
    let err = result.err().unwrap();
    assert!(err.message().contains("Checksum mismatch"));
    assert!(matches!(
        err,
        Error::ChecksumMismatch { calculated: 0x01, declared: 0x34 }
    ));
}

#[test]
fn parse_tag_block_with_all_fields() {
    let input = r"\s:2573135,c:1671620143,d:FooBar,n:123,r:456,t:HelloWorld!*36\";
    let tag_block = TagBlock::parse(input).unwrap().unwrap();

    assert_eq!(tag_block.receiver_timestamp, Some(1671620143));
    assert_eq!(tag_block.source_station, Some("2573135".to_string()));
    assert_eq!(tag_block.destination_station, Some("FooBar".to_string()));
    assert_eq!(tag_block.line_count, Some(123));
    assert_eq!(tag_block.relative_time, Some(456));
    assert_eq!(tag_block.text, Some("HelloWorld!".to_string()));
    assert_eq!(tag_block.checksum, 0x36);
}

#[test]
fn parse_tag_block_with_invalid_format() {
    let input = r"invalid_tag_block_format";
    let result = TagBlock::parse(input);

    assert!(result.is_err());
    assert_eq!(
        result.err().unwrap().message(),
        "Invalid tag block format; missing checksum"
    );
}

#[test]
fn parse_tag_block_with_invalid_checksum_format() {
    let input = r"\s:2573135,c:1671620143*GG\";
    let result = TagBlock::parse(input);

    assert!(result.is_err());
    assert_eq!(result.err().unwrap().message(), "Invalid checksum format");
}

#[test]
fn parse_tag_block_with_checksum_mismatch() {
    let input = r"\s:2573135,c:1671620143*FF\";
    let result = TagBlock::parse(input);

    assert!(result.is_err());
    assert!(result.unwrap_err().message().contains("Checksum mismatch"));
}

#[test]
fn parse_tag_block_with_unknown_keys() {
    let input = r"\x:unknown_key,s:2573135,c:1671620143*25\";
    let tag_block = TagBlock::parse(input).unwrap().unwrap();

    assert_eq!(tag_block.receiver_timestamp, Some(1671620143));
    assert_eq!(tag_block.source_station, Some("2573135".to_string()));
    assert_eq!(tag_block.checksum, 0x25);
    assert!(tag_block.destination_station.is_none());
    assert!(tag_block.line_count.is_none());
    assert!(tag_block.relative_time.is_none());
    assert!(tag_block.text.is_none());
}

#[test]
fn parse_tag_block_short_tokens_are_skipped() {
    // Tokens below three bytes are skipped without error.
    let input = r"\s:2573135,x,,c:1671620143*73\";
    let tag_block = TagBlock::parse(input).unwrap().unwrap();
    assert_eq!(tag_block.receiver_timestamp, Some(1671620143));
    assert_eq!(tag_block.source_station, Some("2573135".to_string()));
}

#[test]
fn parse_tag_block_numeric_overflow_clears_field() {
    // 99999999999999999999 does not fit in 64 bits, so `c` stays absent.
    let input = r"\c:99999999999999999999*59\";
    let tag_block = TagBlock::parse(input).unwrap().unwrap();
    assert!(tag_block.receiver_timestamp.is_none());
}
