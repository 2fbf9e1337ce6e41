use satisfactory_save_file::{read_string, ByteReader, ParseError};

fn to_encoding(b: &[u8]) -> Vec<u8> {
    let mut out: Vec<u8> = (b.len() as i32 + 1).to_le_bytes().to_vec();
    out.extend_from_slice(b);
    out.push(0);
    out
}

fn utf16_encoding(s: &str) -> Vec<u8> {
    let mut bytes: Vec<u8> = Vec::new();
    for n in s.encode_utf16() {
        bytes.extend_from_slice(&n.to_le_bytes());
    }
    let mut out: Vec<u8> = (-(bytes.len() as i32 + 2)).to_le_bytes().to_vec();
    out.extend_from_slice(&bytes);
    out.extend_from_slice(&[0, 0]);
    out
}

fn decode(data: &[u8]) -> Result<String, ParseError> {
    read_string(&mut ByteReader::new(data))
}

#[test]
fn test_read_string() {
    // Empty input
    assert!(decode(&[]).is_err());
    // Just the prefix
    assert_eq!(decode(&0_i32.to_le_bytes()).unwrap(), "");
    // Various strings
    for test_string in &["", "a", "abc"] {
        let encoded = to_encoding(test_string.as_bytes());
        assert_eq!(decode(&encoded).unwrap(), *test_string);
    }
    // UTF-16
    let encoded = utf16_encoding("abc");
    assert_eq!(decode(&encoded).unwrap(), "abc");
}

#[test]
fn empty_input_is_unexpected_end() {
    assert_eq!(decode(&[]), Err(ParseError::UnexpectedEnd));
    assert_eq!(decode(&[4, 0]), Err(ParseError::UnexpectedEnd));
}

#[test]
fn zero_prefix_is_empty_and_consumes_nothing_more() {
    let mut reader = ByteReader::new(&[0, 0, 0, 0, 7]);
    assert_eq!(read_string(&mut reader).unwrap(), "");
    assert_eq!(reader.remaining_len(), 1);
}

#[test]
fn prefix_one_with_terminator_is_empty() {
    let mut reader = ByteReader::new(&[1, 0, 0, 0, 0]);
    assert_eq!(read_string(&mut reader).unwrap(), "");
    assert_eq!(reader.remaining_len(), 0);
}

#[test]
fn prefix_longer_than_input_is_unexpected_end() {
    assert_eq!(decode(&[10, 0, 0, 0, b'a', b'b']), Err(ParseError::UnexpectedEnd));
    assert_eq!(decode(&[0xF0, 0xFF, 0xFF, 0xFF, b'a', 0]), Err(ParseError::UnexpectedEnd));
    // A huge announced length is rejected without reading further.
    assert_eq!(decode(&[0xFF, 0xFF, 0xFF, 0x7F, b'a']), Err(ParseError::UnexpectedEnd));
    assert_eq!(decode(&[0x00, 0x00, 0x00, 0x80, b'a']), Err(ParseError::UnexpectedEnd));
}

#[test]
fn missing_terminator_is_unexpected_end() {
    assert_eq!(decode(&[4, 0, 0, 0, b'a', b'b', b'c']), Err(ParseError::UnexpectedEnd));
}

#[test]
fn utf8_string_with_terminator() {
    assert_eq!(decode(&[4, 0, 0, 0, b'a', b'b', b'c', 0]).unwrap(), "abc");
}

#[test]
fn empty_string_prefix_only() {
    assert_eq!(decode(&[0, 0, 0, 0]).unwrap(), "");
}

#[test]
fn utf16_string_with_negative_prefix() {
    let data = [0xF8, 0xFF, 0xFF, 0xFF, b'a', 0, b'b', 0, b'c', 0, 0, 0];
    let mut reader = ByteReader::new(&data);
    assert_eq!(read_string(&mut reader).unwrap(), "abc");
    // The two terminating bytes are not among the announced code units.
    assert_eq!(reader.remaining_len(), 2);
}

#[test]
fn utf8_round_trip_of_multibyte_text() {
    for text in &["héllo", "日本語", "a\u{1F600}b"] {
        assert_eq!(decode(&to_encoding(text.as_bytes())).unwrap(), *text);
    }
}

#[test]
fn utf16_round_trip_of_text_with_surrogate_pairs() {
    for text in &["", "héllo", "\u{1D11E} clef", "日本語"] {
        assert_eq!(decode(&utf16_encoding(text)).unwrap(), *text);
    }
}

#[test]
fn invalid_utf8_is_replaced() {
    let decoded = decode(&to_encoding(&[b'a', 0xFF, b'b'])).unwrap();
    assert_eq!(decoded, "a\u{FFFD}b");
}

#[test]
fn unpaired_surrogate_is_replaced() {
    // 'a', a lone high surrogate, 'b'
    let data = [0xF8, 0xFF, 0xFF, 0xFF, b'a', 0, 0x00, 0xD8, b'b', 0, 0, 0];
    assert_eq!(decode(&data).unwrap(), "a\u{FFFD}b");
}

#[test]
fn consecutive_strings_are_read_in_order() {
    let mut data = to_encoding(b"first");
    data.extend(utf16_encoding("second"));
    let mut reader = ByteReader::new(&data);
    assert_eq!(read_string(&mut reader).unwrap(), "first");
    assert_eq!(read_string(&mut reader).unwrap(), "second");
}

#[test]
fn each_unpaired_surrogate_becomes_one_replacement() {
    // high surrogate followed by 'x', a lone low surrogate, then a proper pair
    let units: [u16; 5] = [0xD800, 0x0078, 0xDC00, 0xD834, 0xDD1E];
    let mut data: Vec<u8> = (-(2 * units.len() as i32 + 1)).to_le_bytes().to_vec();
    for u in units {
        data.extend_from_slice(&u.to_le_bytes());
    }
    assert_eq!(decode(&data).unwrap(), "\u{FFFD}x\u{FFFD}\u{1D11E}");
}
