use nsai_detector::codec::{decode, encode, AnalysisInput, DecodeError};

fn input(hash: &str, text: &str, source: &str, url: &str) -> AnalysisInput {
    AnalysisInput {
        content_hash: hash.to_string(),
        content_text: text.to_string(),
        source_id: source.to_string(),
        image_url: url.to_string(),
    }
}

#[test]
fn test_analysis_input_roundtrip() {
    let input = input("abc123", "Test content", "source-1", "https://example.com/img.png");
    let buf = encode(&input);
    let decoded = decode(&buf[..]).unwrap();
    assert_eq!(input, decoded);
}

#[test]
fn encoding_matches_tagged_layout() {
    let v = input("ab", "", "s", "");
    assert_eq!(encode(&v), vec![0x0a, 2, b'a', b'b', 0x1a, 1, b's']);
}

#[test]
fn encoding_matches_prost_field_encoding() {
    let long = "x".repeat(300);
    let v = input("abc123", &long, "source-1", "héllo");
    let mut expected: Vec<u8> = Vec::new();
    prost::encoding::string::encode(1, &v.content_hash, &mut expected);
    prost::encoding::string::encode(2, &v.content_text, &mut expected);
    prost::encoding::string::encode(3, &v.source_id, &mut expected);
    prost::encoding::string::encode(4, &v.image_url, &mut expected);
    assert_eq!(encode(&v), expected);
    assert_eq!(decode(&expected).unwrap(), v);
}

#[test]
fn empty_value_encodes_to_nothing() {
    let v = input("", "", "", "");
    assert_eq!(encode(&v), Vec::<u8>::new());
    assert_eq!(decode(&[]).unwrap(), v);
}

#[test]
fn multibyte_length_round_trips() {
    let v = input(&"h".repeat(200), "ü".repeat(100).as_str(), "id", "u");
    let buf = encode(&v);
    assert_eq!(buf[0], 0x0a);
    assert_eq!(buf[1], 0xc8);
    assert_eq!(buf[2], 0x01);
    assert_eq!(decode(&buf).unwrap(), v);
}

#[test]
fn unknown_fields_are_skipped() {
    let mut b = vec![0x28, 0x96, 0x01]; // field 5, varint 150
    b.extend_from_slice(&[0x31, 1, 2, 3, 4, 5, 6, 7, 8]); // field 6, 64-bit
    b.extend_from_slice(&[0x3d, 1, 2, 3, 4]); // field 7, 32-bit
    b.extend_from_slice(&[0x42, 2, b'z', b'z']); // field 8, length-delimited
    b.extend_from_slice(&[0x1a, 1, b'q']);
    assert_eq!(decode(&b).unwrap(), input("", "", "q", ""));
}

#[test]
fn repeated_field_keeps_last_value() {
    let b = vec![0x0a, 1, b'a', 0x12, 1, b't', 0x0a, 1, b'b'];
    assert_eq!(decode(&b).unwrap(), input("b", "t", "", ""));
}

#[test]
fn truncated_payload_is_rejected() {
    assert_eq!(decode(&[0x0a, 5, b'a']), Err(DecodeError));
    assert_eq!(decode(&[0x0a]), Err(DecodeError));
    assert_eq!(decode(&[0x80]), Err(DecodeError));
}

#[test]
fn overlong_varint_is_rejected() {
    let b = vec![0x80, 0x80, 0x80, 0x80, 0x80, 0x80, 0x80, 0x80, 0x80, 0x02];
    assert_eq!(decode(&b), Err(DecodeError));
}

#[test]
fn wrong_wire_type_for_known_field_is_rejected() {
    assert_eq!(decode(&[0x08, 1]), Err(DecodeError));
}

#[test]
fn tag_zero_and_bad_wire_types_are_rejected() {
    assert_eq!(decode(&[0x02, 0]), Err(DecodeError));
    assert_eq!(decode(&[0x2e, 0]), Err(DecodeError));
    assert_eq!(decode(&[0x2f, 0]), Err(DecodeError));
}

#[test]
fn unknown_groups_are_skipped() {
    // field 5 group holding a varint, a string and a nested group 6, then field 3
    let b = vec![0x2b, 0x08, 0x01, 0x12, 1, b'x', 0x33, 0x34, 0x2c, 0x1a, 1, b'q'];
    assert_eq!(decode(&b).unwrap(), input("", "", "q", ""));
}

#[test]
fn unmatched_or_unclosed_groups_are_rejected() {
    assert_eq!(decode(&[0x2b, 0x34]), Err(DecodeError));
    assert_eq!(decode(&[0x2b, 0x08, 0x01]), Err(DecodeError));
    assert_eq!(decode(&[0x2c]), Err(DecodeError));
    assert_eq!(decode(&[0x0b, 0x0c]), Err(DecodeError));
}

fn nested_groups(depth: usize) -> Vec<u8> {
    let mut b = vec![0x2b; depth];
    b.extend(std::iter::repeat(0x2c).take(depth));
    b
}

fn prost_skips(b: &[u8]) -> bool {
    let mut buf = &b[1..];
    prost::encoding::skip_field(
        prost::encoding::WireType::StartGroup,
        5,
        &mut buf,
        prost::encoding::DecodeContext::default(),
    )
    .is_ok()
}

#[test]
fn group_nesting_limit_matches_prost() {
    let ok = nested_groups(100);
    assert_eq!(decode(&ok).unwrap(), input("", "", "", ""));
    assert!(prost_skips(&ok));
    let too_deep = nested_groups(101);
    assert_eq!(decode(&too_deep), Err(DecodeError));
    assert!(!prost_skips(&too_deep));
}

#[test]
fn appended_unknown_field_changes_nothing() {
    let v = input("abc123", "Test content", "source-1", "https://example.com/img.png");
    let mut b = encode(&v);
    b.extend_from_slice(&[0x4a, 3, 1, 2, 3]);
    assert_eq!(decode(&b).unwrap(), v);
}

#[test]
fn invalid_utf8_is_rejected() {
    assert_eq!(decode(&[0x0a, 2, 0xc3, 0x28]), Err(DecodeError));
    assert_eq!(decode(&[0x0a, 1, 0xff]), Err(DecodeError));
}
