use peerchat::discovery::UserDiscovery;
use peerchat::protocol::{decode_message, encode_message, InternalMessage, Message, UserMessage};

fn secret() -> Vec<u8> {
    b"CHATapp-test-shared-secret".to_vec()
}

#[test]
fn protocol_serialization_user_discovery() {
    let original = UserDiscovery {
        port: 121,
        user_id: 98989,
    };

    let shared = secret();
    let data = original.to_packet(&shared).unwrap();

    let deserialized = UserDiscovery::from_packet(data, &shared).unwrap();

    assert_eq!(original.port, deserialized.port);
    assert_eq!(original.user_id, deserialized.user_id);
}

#[test]
fn serialization_message_text() {
    let original = Message::User(UserMessage::Text("Dzień dobry".to_string()));

    let bytes = encode_message(&original);
    let deserialized = decode_message(&bytes).unwrap();

    assert_eq!(original, deserialized);
}

#[test]
fn serialization_message_file_header() {
    let original = Message::User(UserMessage::FileHeader("notes.txt".to_string(), 123456, 42));

    let bytes = encode_message(&original);
    let deserialized = decode_message(&bytes).unwrap();

    assert_eq!(original, deserialized);
}

#[test]
fn serialization_message_file_request() {
    let original = Message::Internal(InternalMessage::FileRequest(24857234));

    let bytes = encode_message(&original);
    let deserialized = decode_message(&bytes).unwrap();

    assert_eq!(original, deserialized);
}

#[test]
fn serialization_message_file_content() {
    let original = Message::Internal(InternalMessage::FileContent(
        24857234,
        0b10101,
        vec![42; 0b10101],
    ));

    let bytes = encode_message(&original);
    let deserialized = decode_message(&bytes).unwrap();

    assert_eq!(original, deserialized);
}

#[test]
fn serialization_message_file_content_error() {
    let original = Message::Internal(InternalMessage::FileContentError(
        7,
        "disk on fire".to_string(),
    ));

    let bytes = encode_message(&original);
    let deserialized = decode_message(&bytes).unwrap();

    assert_eq!(original, deserialized);
}

#[test]
fn serialization_message_empty_text() {
    let original = Message::User(UserMessage::Text(String::new()));

    let bytes = encode_message(&original);
    let deserialized = decode_message(&bytes).unwrap();

    assert_eq!(original, deserialized);
}

#[test]
fn serialization_message_largest_fields() {
    let original = Message::User(UserMessage::FileHeader(
        "x".to_string(),
        u64::MAX,
        u64::MAX,
    ));

    let bytes = encode_message(&original);
    let deserialized = decode_message(&bytes).unwrap();

    assert_eq!(original, deserialized);
}

#[test]
fn decode_rejects_empty_input() {
    let empty: Vec<u8> = Vec::new();
    assert!(decode_message(&empty).is_err());
}

#[test]
fn decode_rejects_unknown_tag() {
    let bytes = vec![99u8, 0, 0, 0, 0, 0, 0, 0, 0];
    assert!(decode_message(&bytes).is_err());
}

#[test]
fn decode_rejects_truncated_message() {
    let original = Message::User(UserMessage::Text("hello".to_string()));
    let mut bytes = encode_message(&original);
    bytes.pop();
    assert!(decode_message(&bytes).is_err());
}

#[test]
fn decode_rejects_trailing_garbage() {
    let original = Message::Internal(InternalMessage::FileRequest(5));
    let mut bytes = encode_message(&original);
    bytes.push(0);
    assert!(decode_message(&bytes).is_err());
}

#[test]
fn decode_rejects_invalid_utf8_text() {
    // Tag, 8-byte length of 2, then two bytes that are not valid UTF-8.
    let mut bytes = vec![peerchat::protocol::TAG_TEXT];
    bytes.extend_from_slice(&[0, 0, 0, 0, 0, 0, 0, 2]);
    bytes.extend_from_slice(&[0xff, 0xfe]);
    assert!(decode_message(&bytes).is_err());
}

#[test]
fn encoded_text_layout_is_exact() {
    let original = Message::User(UserMessage::Text("hi".to_string()));
    let bytes = encode_message(&original);

    let mut expected = vec![peerchat::protocol::TAG_TEXT];
    expected.extend_from_slice(&2u64.to_be_bytes());
    expected.extend_from_slice(b"hi");
    assert_eq!(bytes, expected);
}
