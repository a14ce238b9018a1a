use peerchat::discovery::UserDiscovery;
use peerchat::framing::{frame_payload, read_frame};
use peerchat::protocol::{
    decode_connection_info, decode_message, encode_connection_info, encode_message,
    ConnectionInfo, Message, UserMessage,
};

fn secret() -> Vec<u8> {
    b"CHATapp-test-shared-secret".to_vec()
}

#[test]
fn serialization_serialization_user_discovery() {
    let original = UserDiscovery {
        port: 121,
        user_id: 98989,
    };

    let shared = secret();
    let data = original.to_packet(&shared).unwrap();

    let deserialized = UserDiscovery::from_packet(data, &shared).unwrap();

    assert_eq!(original, deserialized);
}

#[test]
fn framed_message_round_trip_consumes_exactly() {
    let original = Message::User(UserMessage::Text("Dzień dobry".to_string()));

    let payload = encode_message(&original);
    let framed = frame_payload(&payload);

    let (read_back, consumed) = read_frame(&framed, 0).unwrap();
    assert_eq!(read_back, payload);
    // The read consumes exactly the length prefix plus the payload: the
    // whole stream, nothing less and nothing more.
    assert_eq!(consumed, 8 + payload.len());
    assert_eq!(consumed, framed.len());

    let deserialized = decode_message(&read_back).unwrap();
    assert_eq!(original, deserialized);
}

#[test]
fn framed_read_ignores_following_traffic() {
    let payload = vec![9u8, 8, 7];
    let mut stream = frame_payload(&payload);
    let second = frame_payload(&vec![1u8, 2]);
    stream.extend_from_slice(&second);

    let (first_back, consumed) = read_frame(&stream, 0).unwrap();
    assert_eq!(first_back, payload);
    assert_eq!(consumed, 8 + payload.len());

    let (second_back, consumed2) = read_frame(&stream, consumed).unwrap();
    assert_eq!(second_back, vec![1u8, 2]);
    assert_eq!(consumed2, 8 + 2);
    assert_eq!(consumed + consumed2, stream.len());
}

#[test]
fn framed_read_fails_on_short_prefix() {
    let stream = vec![0u8, 0, 0];
    assert!(read_frame(&stream, 0).is_err());
}

#[test]
fn framed_read_fails_on_truncated_payload() {
    let payload = vec![1u8, 2, 3, 4];
    let mut framed = frame_payload(&payload);
    framed.pop();
    assert!(read_frame(&framed, 0).is_err());
}

#[test]
fn frame_layout_is_exact() {
    let payload = vec![5u8, 6];
    let framed = frame_payload(&payload);

    let mut expected = 2u64.to_be_bytes().to_vec();
    expected.extend_from_slice(&[5, 6]);
    assert_eq!(framed, expected);
}

#[test]
fn connection_info_round_trip() {
    let original = ConnectionInfo {
        user_name: "USER_A".to_string(),
    };

    let bytes = encode_connection_info(&original);
    let deserialized = decode_connection_info(&bytes).unwrap();

    assert_eq!(original, deserialized);
}

#[test]
fn connection_info_rejects_trailing_bytes() {
    let original = ConnectionInfo {
        user_name: "USER_A".to_string(),
    };

    let mut bytes = encode_connection_info(&original);
    bytes.push(0);
    assert!(decode_connection_info(&bytes).is_err());
}
