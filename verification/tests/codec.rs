use peer::protocol::{classify, encode, parse_buffer, same_text, DecodeError, Kind};
use peer::BUFFER_SIZE;

fn padded(message: &[u8]) -> Vec<u8> {
    let mut buf = vec![0u8; BUFFER_SIZE];
    buf[..message.len()].copy_from_slice(message);
    buf
}

fn decoded(kind: &str, payload: &str) -> Result<(String, String), DecodeError> {
    Ok((kind.to_string(), payload.to_string()))
}

#[test]
fn parse_buffer_strips_padding() {
    let buf = padded(b"GOSPHello!");
    assert_eq!(parse_buffer(&buf, BUFFER_SIZE), decoded("GOSP", "Hello!"));
}

#[test]
fn parse_buffer_reads_only_the_given_length() {
    let buf = padded(b"GOSPHello!");
    assert_eq!(parse_buffer(&buf, 10), decoded("GOSP", "Hello!"));
    assert_eq!(parse_buffer(&buf, 7), decoded("GOSP", "Hel"));
    assert_eq!(parse_buffer(&buf, 4), decoded("GOSP", ""));
}

#[test]
fn parse_buffer_empty_payload() {
    assert_eq!(parse_buffer(b"INIT", 4), decoded("INIT", ""));
    assert_eq!(parse_buffer(&padded(b"CONN"), BUFFER_SIZE), decoded("CONN", ""));
}

#[test]
fn parse_buffer_payload_of_padding_only() {
    assert_eq!(parse_buffer(b"INFO\0\0\0\0", 8), decoded("INFO", ""));
}

#[test]
fn parse_buffer_keeps_inner_and_leading_nulls() {
    assert_eq!(parse_buffer(b"GOSP\0a\0b\0\0", 10), decoded("GOSP", "\0a\0b"));
}

#[test]
fn parse_buffer_too_short() {
    assert_eq!(parse_buffer(b"", 0), Err(DecodeError::TooShort));
    assert_eq!(parse_buffer(b"GOS", 3), Err(DecodeError::TooShort));
    assert_eq!(parse_buffer(b"GOSPHello!", 3), Err(DecodeError::TooShort));
}

#[test]
fn parse_buffer_length_beyond_buffer() {
    assert_eq!(parse_buffer(b"GOSPHello!", 11), Err(DecodeError::TooShort));
}

#[test]
fn parse_buffer_invalid_tag() {
    assert_eq!(parse_buffer(b"\xff\xfe\xfd\xfcabc", 7), Err(DecodeError::InvalidText));
    // a two-byte character cut in half by the end of the tag
    assert_eq!(parse_buffer("GOS\u{e9}".as_bytes(), 5), Err(DecodeError::InvalidText));
}

#[test]
fn parse_buffer_invalid_payload() {
    assert_eq!(parse_buffer(b"GOSP\xc3", 5), Err(DecodeError::InvalidText));
    assert_eq!(parse_buffer(b"GOSPab\x80\0\0", 9), Err(DecodeError::InvalidText));
}

#[test]
fn parse_buffer_non_ascii_text() {
    let message = "GOSPgr\u{fc}\u{df}e \u{4e16}\u{754c} \u{1f980}";
    assert_eq!(
        parse_buffer(&padded(message.as_bytes()), BUFFER_SIZE),
        decoded("GOSP", "gr\u{fc}\u{df}e \u{4e16}\u{754c} \u{1f980}")
    );
}

#[test]
fn parse_buffer_tag_of_wide_characters() {
    assert_eq!(parse_buffer("\u{e9}\u{e8}rest".as_bytes(), 8), decoded("\u{e9}\u{e8}", "rest"));
}

#[test]
fn encode_concatenates_tag_and_payload() {
    assert_eq!(encode("INFO", "a b"), b"INFOa b".to_vec());
    assert_eq!(encode("INIT", ""), b"INIT".to_vec());
    assert_eq!(encode("GOSP", "Hello!"), b"GOSPHello!".to_vec());
    assert_eq!(encode("GOSP", "\u{e9}"), vec![b'G', b'O', b'S', b'P', 0xc3, 0xa9]);
}

#[test]
fn decode_undoes_encode() {
    let payloads = ["", "Hello!", "127.0.0.1:8000 127.0.0.1:8001", " lead and trail ", "\u{1f980}\u{e9}"];
    let kinds = ["INIT", "INFO", "CONN", "GOSP", "ABCD", "a1_?"];
    for kind in kinds {
        for payload in payloads {
            let bytes = encode(kind, payload);
            assert_eq!(parse_buffer(&bytes, bytes.len()), decoded(kind, payload));
            assert_eq!(parse_buffer(&padded(&bytes), BUFFER_SIZE), decoded(kind, payload));
        }
    }
}

#[test]
fn classify_knows_the_four_tags() {
    assert_eq!(classify("INIT"), Kind::Init);
    assert_eq!(classify("INFO"), Kind::Info);
    assert_eq!(classify("CONN"), Kind::Conn);
    assert_eq!(classify("GOSP"), Kind::Gosp);
}

#[test]
fn classify_other_tags() {
    assert_eq!(classify("PING"), Kind::Unrecognized);
    assert_eq!(classify("init"), Kind::Unrecognized);
    assert_eq!(classify("INI"), Kind::Unrecognized);
    assert_eq!(classify("INITX"), Kind::Unrecognized);
    assert_eq!(classify(""), Kind::Unrecognized);
}

#[test]
fn same_text_compares_characters() {
    assert!(same_text("", ""));
    assert!(same_text("abc", "abc"));
    assert!(same_text("\u{e9}", "\u{e9}"));
    assert!(!same_text("abc", "abd"));
    assert!(!same_text("abc", "ab"));
    assert!(!same_text("", "a"));
}
