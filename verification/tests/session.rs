use peerchat::protocol::{frame_message, read_framed_message, InternalMessage, Message, UserMessage};
use peerchat::session::{
    is_active, session_liveness, ReadAction, SessionCore, SessionLiveness,
};

/// Carries one message from `sender` to `receiver` the way the two session
/// loops do: the write loop frames the encoded message onto the stream and
/// records it, the read loop reads one whole frame back, decodes it, and
/// dispatches it.
fn wire_deliver(sender: &mut SessionCore, receiver: &mut SessionCore, msg: Message) -> ReadAction {
    let stream = frame_message(&msg);
    sender.record_outgoing(msg);

    let (received, consumed) = read_framed_message(&stream, 0).unwrap();
    assert_eq!(consumed, stream.len());
    receiver.handle_incoming(received)
}

#[test]
fn mailbox_after_one_text() {
    let mut peer1 = SessionCore::new("USER_A".to_string());
    let mut peer2 = SessionCore::new("USER_B".to_string());

    let action = wire_deliver(
        &mut peer1,
        &mut peer2,
        Message::User(UserMessage::Text("hello".to_string())),
    );
    assert!(matches!(action, ReadAction::Ignored));

    let drained = peer2.drain();
    assert_eq!(drained.len(), 1);
    assert!(drained[0].was_received);
    assert_eq!(drained[0].message, UserMessage::Text("hello".to_string()));

    // Draining consumed the mailbox.
    assert_eq!(peer2.drain().len(), 0);
}

#[test]
fn mailbox_order_both_ways() {
    let mut peer1 = SessionCore::new("USER_A".to_string());
    let mut peer2 = SessionCore::new("USER_B".to_string());

    wire_deliver(
        &mut peer1,
        &mut peer2,
        Message::User(UserMessage::Text("msg1".to_string())),
    );
    wire_deliver(
        &mut peer1,
        &mut peer2,
        Message::User(UserMessage::Text("msg2".to_string())),
    );
    wire_deliver(
        &mut peer2,
        &mut peer1,
        Message::User(UserMessage::Text("reply".to_string())),
    );

    let drained = peer1.drain();
    assert_eq!(drained.len(), 3);

    assert!(!drained[0].was_received);
    assert_eq!(drained[0].message, UserMessage::Text("msg1".to_string()));
    assert!(!drained[1].was_received);
    assert_eq!(drained[1].message, UserMessage::Text("msg2".to_string()));
    assert!(drained[2].was_received);
    assert_eq!(drained[2].message, UserMessage::Text("reply".to_string()));

    let drained2 = peer2.drain();
    assert_eq!(drained2.len(), 3);
    assert!(drained2[0].was_received);
    assert_eq!(drained2[0].message, UserMessage::Text("msg1".to_string()));
    assert!(drained2[1].was_received);
    assert_eq!(drained2[1].message, UserMessage::Text("msg2".to_string()));
    assert!(!drained2[2].was_received);
    assert_eq!(drained2[2].message, UserMessage::Text("reply".to_string()));
}

#[test]
fn internal_traffic_stays_out_of_mailbox() {
    let mut peer1 = SessionCore::new("USER_A".to_string());
    let mut peer2 = SessionCore::new("USER_B".to_string());

    wire_deliver(
        &mut peer1,
        &mut peer2,
        Message::Internal(InternalMessage::FileRequest(9)),
    );

    assert_eq!(peer1.drain().len(), 0);
    assert_eq!(peer2.drain().len(), 0);
}

#[test]
fn file_request_for_owned_file_starts_upload() {
    let mut core = SessionCore::new("USER_B".to_string());
    core.register_owned(42, "/tmp/shared.bin".to_string());

    let action = core.handle_incoming(Message::Internal(InternalMessage::FileRequest(42)));
    match action {
        ReadAction::StartUpload(path, id) => {
            assert_eq!(path, "/tmp/shared.bin".to_string());
            assert_eq!(id, 42);
        }
        _ => panic!("expected an upload to start"),
    }
}

#[test]
fn file_request_for_unknown_file_is_ignored() {
    let mut core = SessionCore::new("USER_B".to_string());
    core.register_owned(42, "/tmp/shared.bin".to_string());

    let action = core.handle_incoming(Message::Internal(InternalMessage::FileRequest(43)));
    assert!(matches!(action, ReadAction::Ignored));
}

#[test]
fn file_content_is_forwarded_only_while_registered() {
    let mut core = SessionCore::new("USER_A".to_string());
    core.register_download(7);

    let action = core.handle_incoming(Message::Internal(InternalMessage::FileContent(
        7,
        0,
        vec![1, 2, 3],
    )));
    match action {
        ReadAction::Forward(m) => {
            assert_eq!(m, InternalMessage::FileContent(7, 0, vec![1, 2, 3]));
        }
        _ => panic!("expected the chunk to be forwarded"),
    }

    core.unregister_download(7);
    let late = core.handle_incoming(Message::Internal(InternalMessage::FileContent(
        7,
        3,
        vec![4],
    )));
    assert!(matches!(late, ReadAction::Ignored));
}

#[test]
fn file_content_error_is_forwarded_like_content() {
    let mut core = SessionCore::new("USER_A".to_string());
    core.register_download(8);

    let action = core.handle_incoming(Message::Internal(InternalMessage::FileContentError(
        8,
        "gone".to_string(),
    )));
    assert!(matches!(action, ReadAction::Forward(_)));

    let other = core.handle_incoming(Message::Internal(InternalMessage::FileContentError(
        9,
        "gone".to_string(),
    )));
    assert!(matches!(other, ReadAction::Ignored));
}

#[test]
fn liveness_follows_the_two_loops() {
    assert_eq!(session_liveness(false, false), SessionLiveness::Active);
    assert_eq!(session_liveness(true, false), SessionLiveness::Degraded);
    assert_eq!(session_liveness(false, true), SessionLiveness::Degraded);
    assert_eq!(session_liveness(true, true), SessionLiveness::Dead);

    assert!(is_active(false, false));
    assert!(!is_active(true, false));
    assert!(!is_active(false, true));
    assert!(!is_active(true, true));
}
