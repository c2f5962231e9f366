use thmp5::library::tag_writer::serialize::{
    encode_text_value, serialize_frame, serialize_header, serialize_header_only, serialize_tag,
    synchsafe_to_u32, u32_to_synchsafe, DEFAULT_PADDING,
};

#[test]
fn test_synchsafe_roundtrip() {
    let values = [0u32, 1, 127, 128, 16383, 16384, 2097151, 2097152, 268435455];
    for &v in &values {
        let encoded = u32_to_synchsafe(v);
        let decoded = synchsafe_to_u32(&encoded);
        assert_eq!(v, decoded, "synchsafe roundtrip failed for {v}");
    }
}

#[test]
fn test_serialize_header_v4() {
    let header = serialize_header(4, 1000);
    assert_eq!(&header[..3], b"ID3");
    assert_eq!(header[3], 4);
    assert_eq!(header[4], 0);
    assert_eq!(header[5], 0);
    // 1000 in synchsafe
    assert_eq!(header[6..10], u32_to_synchsafe(1000));
}

#[test]
fn test_serialize_header_v3() {
    let header = serialize_header(3, 1000);
    assert_eq!(&header[..3], b"ID3");
    assert_eq!(header[3], 3);
    // The v2.3 tag size is synchsafe (only frame sizes are big-endian in
    // v2.3), so a size >= 128 must not be written as plain big-endian.
    assert_eq!(header[6..10], u32_to_synchsafe(1000));
}

#[test]
fn test_serialize_frame_v4() {
    let payload = b"\x03Hello";
    let bytes = serialize_frame("TIT2", payload, 4, true);
    assert_eq!(&bytes[..4], b"TIT2");
    // v2.4: frame size is synchsafe
    assert_eq!(bytes[4..8], u32_to_synchsafe(payload.len() as u32));
    assert_eq!(bytes[8..10], [0, 0]);
    assert_eq!(&bytes[10..], payload);
}

#[test]
fn test_serialize_frame_v3() {
    let payload = b"\x03Hello";
    let bytes = serialize_frame("TIT2", payload, 3, false);
    assert_eq!(&bytes[..4], b"TIT2");
    // v2.3: frame size is big-endian
    assert_eq!(bytes[4..8], (payload.len() as u32).to_be_bytes());
    assert_eq!(bytes[8..10], [0, 0]);
    assert_eq!(&bytes[10..], payload);
}

#[test]
fn test_encode_text_value_is_utf8() {
    let value = "Café & Résumé — 中文";
    let encoded = encode_text_value(value);
    assert_eq!(encoded[0], 0x03); // UTF-8 encoding
    let decoded = std::str::from_utf8(&encoded[1..]).unwrap();
    assert_eq!(decoded, value);
}

#[test]
fn test_serialize_tag_v4() {
    let frames = vec![
        ("TIT2".to_string(), "Test Song".to_string()),
        ("TPE1".to_string(), "Test Artist".to_string()),
    ];
    let tag_bytes = serialize_tag(&frames, &[], 4).unwrap();
    // Header
    assert_eq!(&tag_bytes[..3], b"ID3");
    assert_eq!(tag_bytes[3], 4);

    // Parse back and verify frames
    let tag_size = synchsafe_to_u32(&tag_bytes[6..10]) as usize;
    assert!(tag_size > 0);
    assert!(tag_size <= tag_bytes.len() - 10);

    // First frame: TIT2
    assert_eq!(&tag_bytes[10..14], b"TIT2");
    let tit2_size = synchsafe_to_u32(&tag_bytes[14..18]) as usize;
    let tit2_frame_header = 10; // frame ID(4) + size(4) + flags(2)
    let tit2_payload_start = 10 + tit2_frame_header; // after ID3 header
    assert_eq!(
        &tag_bytes[tit2_payload_start..tit2_payload_start + tit2_size],
        b"\x03Test Song"
    );

    assert!(tag_bytes.windows(4).any(|w| w == b"TPE1"));
    assert!(tag_bytes.windows(12).any(|w| w == b"\x03Test Artist"));
}

#[test]
fn test_serialize_tag_v3() {
    let frames = vec![("TIT2".to_string(), "Song".to_string())];
    let tag_bytes = serialize_tag(&frames, &[], 3).unwrap();

    assert_eq!(tag_bytes[3], 3);

    // In v2.3, frame sizes are big-endian
    let payload = b"\x03Song";
    assert_eq!(&tag_bytes[10..14], b"TIT2");
    let size = u32::from_be_bytes([tag_bytes[14], tag_bytes[15], tag_bytes[16], tag_bytes[17]])
        as usize;
    assert_eq!(size, payload.len());
}

#[test]
fn test_serialize_tag_with_comment() {
    let frames = vec![("COMM".to_string(), "A comment".to_string())];
    let tag_bytes = serialize_tag(&frames, &[], 4).unwrap();

    // Frame ID
    assert!(tag_bytes.windows(4).any(|w| w == b"COMM"));
    // The comment payload should contain "eng\0comment"
    let payload = b"\x03eng\x00A comment";
    assert!(tag_bytes.windows(payload.len()).any(|w| w == payload));
}

#[test]
fn test_serialize_tag_with_described_comment() {
    let frames = vec![("COMM:ID3v1 Comment".to_string(), "A comment".to_string())];
    let tag_bytes = serialize_tag(&frames, &[], 4).unwrap();

    assert!(tag_bytes.windows(4).any(|w| w == b"COMM"));
    // Language, then the description, then the terminator, then the text.
    let payload = b"\x03engID3v1 Comment\x00A comment";
    assert!(tag_bytes.windows(payload.len()).any(|w| w == payload));
}

#[test]
fn test_serialize_tag_rejects_bad_version() {
    let frames = vec![];
    assert!(serialize_tag(&frames, &[], 1).is_err());
    assert!(serialize_tag(&frames, &[], 5).is_err());
}

#[test]
fn test_serialize_tag_empty() {
    // An empty tag (no frames, just padding) is valid
    let tag_bytes = serialize_tag(&[], &[], 4).unwrap();
    assert_eq!(&tag_bytes[..3], b"ID3");
    let tag_size = synchsafe_to_u32(&tag_bytes[6..10]) as usize;
    // Should be just padding (DEFAULT_PADDING bytes)
    assert_eq!(tag_size, DEFAULT_PADDING);
}

#[test]
fn test_serialize_tag_includes_padding() {
    let frames = vec![("TIT2".to_string(), "X".to_string())];
    let tag_bytes = serialize_tag(&frames, &[], 4).unwrap();
    let tag_size = synchsafe_to_u32(&tag_bytes[6..10]) as usize;

    // Frames take 10 (header) + 6 (payload) + 2048 (padding) = 2064
    // But "X" is 1 byte, payload is 2 (encoding + X), so frame size = 2
    // Frame bytes: 10 + 2 = 12 bytes for TIT2
    // Plus 2048 padding = 2060
    let expected_frame_body = 12;
    assert_eq!(tag_size, expected_frame_body + DEFAULT_PADDING);

    // Check that the padding area is all zeros
    let padding_start = 10 + expected_frame_body;
    let padding = &tag_bytes[padding_start..padding_start + DEFAULT_PADDING];
    assert!(padding.iter().all(|&b| b == 0));
}
