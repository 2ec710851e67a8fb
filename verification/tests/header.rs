use riff_tree::error::{ErrorKind, ParsingError};
use riff_tree::format::cursor::ByteCursor;
use riff_tree::format::header::RiffHeader;

const ROOT: [u8; 4] = *b"ROOT";

fn header_of(bytes: &[u8]) -> RiffHeader {
    let mut cursor = ByteCursor::new(bytes);
    RiffHeader::parse(&mut cursor, 0, ROOT).unwrap()
}

#[test]
fn parse_reads_tag_and_little_endian_length() {
    let bytes = [0x52, 0x49, 0x46, 0x46, 0x78, 0x56, 0x34, 0x12, 0xAA];
    let mut cursor = ByteCursor::new(&bytes);
    let header = RiffHeader::parse(&mut cursor, 0, ROOT).unwrap();
    assert_eq!(header.get_name_bytes(), b"RIFF");
    assert_eq!(header.get_length(), 0x1234_5678);
    assert_eq!(cursor.position(), 8);
    assert_eq!(cursor.remaining(), 1);
}

#[test]
fn parse_length_is_not_the_bytes_read_backwards() {
    let header = header_of(&[0x64, 0x61, 0x74, 0x61, 0x01, 0x00, 0x00, 0x00]);
    assert_eq!(header.get_length(), 1);
    let header = header_of(&[0x64, 0x61, 0x74, 0x61, 0x00, 0x00, 0x00, 0x01]);
    assert_eq!(header.get_length(), 0x0100_0000);
    let header = header_of(&[0x64, 0x61, 0x74, 0x61, 0xFF, 0xFF, 0xFF, 0xFF]);
    assert_eq!(header.get_length(), u32::MAX);
}

#[test]
fn parse_starts_at_the_cursor_position() {
    let bytes = [0xEE, 0xEE, 0x66, 0x6D, 0x74, 0x20, 0x10, 0x00, 0x00, 0x00];
    let mut cursor = ByteCursor::new(&bytes);
    assert!(cursor.skip(2));
    let header = RiffHeader::parse(&mut cursor, 2, ROOT).unwrap();
    assert_eq!(header.get_name_bytes(), b"fmt ");
    assert_eq!(header.get_length(), 16);
    assert_eq!(cursor.position(), 10);
}

#[test]
fn parse_of_seven_bytes_is_truncated_and_consumes_nothing() {
    let bytes = [0x52, 0x49, 0x46, 0x46, 0x04, 0x00, 0x00];
    let mut cursor = ByteCursor::new(&bytes);
    let error = RiffHeader::parse(&mut cursor, 40, *b"LIST").unwrap_err();
    assert_eq!(error, ParsingError::new(ErrorKind::TruncatedInput, 40, *b"LIST"));
    assert_eq!(error.kind(), ErrorKind::TruncatedInput);
    assert_eq!(error.offset(), 40);
    assert_eq!(error.parent(), *b"LIST");
    assert_eq!(cursor.position(), 0);
}

#[test]
fn parse_of_every_short_prefix_is_truncated() {
    let bytes = [0x64, 0x61, 0x74, 0x61, 0x03, 0x00, 0x00, 0x00];
    for len in 0..8 {
        let mut cursor = ByteCursor::new(&bytes[..len]);
        let error = RiffHeader::parse(&mut cursor, 0, ROOT).unwrap_err();
        assert_eq!(error.kind(), ErrorKind::TruncatedInput);
        assert_eq!(cursor.position(), 0);
    }
    let mut cursor = ByteCursor::new(&bytes);
    assert!(RiffHeader::parse(&mut cursor, 0, ROOT).is_ok());
}

#[test]
fn size_is_always_eight() {
    assert_eq!(header_of(b"RIFF\x00\x00\x00\x00").size(), 8);
    assert_eq!(header_of(b"data\xFF\xFF\xFF\xFF").size(), 8);
}

#[test]
fn is_container_holds_for_riff_and_list_only() {
    assert!(header_of(b"RIFF\x04\x00\x00\x00").is_container());
    assert!(header_of(b"LIST\x04\x00\x00\x00").is_container());
    assert!(!header_of(b"data\x04\x00\x00\x00").is_container());
    assert!(!header_of(b"riff\x04\x00\x00\x00").is_container());
    assert!(!header_of(b"list\x04\x00\x00\x00").is_container());
    assert!(!header_of(b"RIFX\x04\x00\x00\x00").is_container());
    assert!(!header_of(b"LIFF\x04\x00\x00\x00").is_container());
    assert!(!header_of(b"RIST\x04\x00\x00\x00").is_container());
    assert!(!header_of(b"FFIR\x04\x00\x00\x00").is_container());
    assert!(!header_of(b"\x00\x00\x00\x00\x04\x00\x00\x00").is_container());
}

#[test]
fn get_name_gives_the_text_of_an_ascii_tag() {
    assert_eq!(header_of(b"RIFF\x00\x00\x00\x00").get_name(), Some("RIFF".to_string()));
    assert_eq!(header_of(b"fmt \x00\x00\x00\x00").get_name(), Some("fmt ".to_string()));
}

#[test]
fn get_name_decodes_multibyte_utf8() {
    // U+00E9 twice, two bytes each.
    let header = header_of(&[0xC3, 0xA9, 0xC3, 0xA9, 0, 0, 0, 0]);
    assert_eq!(header.get_name(), Some("\u{e9}\u{e9}".to_string()));
}

#[test]
fn get_name_is_none_for_bytes_that_are_not_utf8() {
    assert_eq!(header_of(&[0xFF, 0xFE, 0x41, 0x42, 0, 0, 0, 0]).get_name(), None);
    assert_eq!(header_of(&[0x41, 0x42, 0x43, 0x80, 0, 0, 0, 0]).get_name(), None);
    // A two-byte sequence cut off by the end of the tag.
    assert_eq!(header_of(&[0x41, 0x42, 0x43, 0xC3, 0, 0, 0, 0]).get_name(), None);
}

#[test]
fn get_name_bytes_keeps_bytes_that_are_not_text() {
    let header = header_of(&[0xFF, 0x00, 0x80, 0x7F, 9, 0, 0, 0]);
    assert_eq!(header.get_name_bytes(), &[0xFF, 0x00, 0x80, 0x7F]);
    assert_eq!(header.get_length(), 9);
}
