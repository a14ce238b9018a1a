use peerchat::discovery::{handle_datagram, UserDiscovery};

fn secret() -> Vec<u8> {
    b"CHATapp-test-shared-secret".to_vec()
}

#[test]
fn packet_layout_is_exact() {
    let shared = secret();
    let d = UserDiscovery {
        port: 0x1234,
        user_id: 0x0102030405060708,
    };

    let packet = d.to_packet(&shared).unwrap();

    let mut expected = shared.clone();
    expected.extend_from_slice(&10u64.to_be_bytes());
    expected.extend_from_slice(&0x1234u16.to_be_bytes());
    expected.extend_from_slice(&0x0102030405060708u64.to_be_bytes());
    assert_eq!(packet, expected);
}

#[test]
fn valid_announcement_from_another_peer_connects() {
    let shared = secret();
    let d = UserDiscovery {
        port: 4000,
        user_id: 77,
    };

    let packet = d.to_packet(&shared).unwrap();
    let decision = handle_datagram(packet, &shared, 1234);

    assert_eq!(decision, Some(d));
}

#[test]
fn wrong_secret_prefix_never_connects() {
    let shared = secret();
    let d = UserDiscovery {
        port: 4000,
        user_id: 77,
    };

    let mut packet = d.to_packet(&shared).unwrap();
    // Corrupt one byte of the shared-secret marker.
    packet[0] ^= 0xff;

    assert!(UserDiscovery::from_packet(packet.clone(), &shared).is_err());
    assert_eq!(handle_datagram(packet, &shared, 1234), None);
}

#[test]
fn own_announcement_never_connects() {
    let shared = secret();
    let local_id = 77;
    let d = UserDiscovery {
        port: 4000,
        user_id: local_id,
    };

    let packet = d.to_packet(&shared).unwrap();
    assert_eq!(handle_datagram(packet, &shared, local_id), None);
}

#[test]
fn short_datagram_is_dropped() {
    let shared = secret();
    let packet = shared[..shared.len() - 1].to_vec();
    assert_eq!(handle_datagram(packet, &shared, 1), None);
}

#[test]
fn bad_length_field_is_dropped() {
    let shared = secret();
    let d = UserDiscovery {
        port: 4000,
        user_id: 77,
    };

    let mut packet = d.to_packet(&shared).unwrap();
    // Truncating the payload makes the declared length wrong.
    packet.pop();

    assert!(UserDiscovery::from_packet(packet.clone(), &shared).is_err());
    assert_eq!(handle_datagram(packet, &shared, 1), None);
}

#[test]
fn unrelated_datagram_is_dropped() {
    let shared = secret();
    let packet = vec![0u8; 64];
    assert_eq!(handle_datagram(packet, &shared, 1), None);
}
