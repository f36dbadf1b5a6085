use bincode::config;
use netplane::codec::push_hex;
use netplane::legacy;
use netplane::message_type::{get_message_type, MessageType};
use netplane::messages::{
    HandshakeError, HandshakeRep, HandshakeReq, NoiseHandshakeInit, NoiseHandshakeResp,
    UDPHeartbeat, HANDSHAKE_REQUEST_HEADER,
};
use netplane::peer_messages::{
    P2PHandshakeInit, P2PHandshakeResp, PeerAnnounce, PeerEventType, PeerInfo, PeerList,
    RelayPacket,
};

#[test]
fn handshake_req_matches_bincode_layout() {
    let req = HandshakeReq::new_with_crypto("signed.key", "pubkey", false);
    let ours = req.serialize().unwrap();
    let theirs = bincode::encode_to_vec(
        (HANDSHAKE_REQUEST_HEADER, "signed.key".to_string(), Some("pubkey".to_string())),
        config::standard(),
    )
    .unwrap();
    assert_eq!(ours, theirs);
    assert_eq!(req.size().unwrap(), theirs.len());
}

#[test]
fn handshake_req_without_key_roundtrip() {
    let req = HandshakeReq::new("abc", true);
    let bytes = req.serialize().unwrap();
    let back = HandshakeReq::deserialize(&bytes).unwrap();
    assert_eq!(back.auth_key, "abc");
    assert!(back.client_public_key.is_none());
    assert_eq!(back.header, [0, 1, 2]);
}

#[test]
fn handshake_rep_roundtrip_and_layout() {
    let rep = HandshakeRep::new("255.255.255.0", "10.0.0.0", "10.0.0.7");
    let bytes = rep.serialize().unwrap();
    let theirs = bincode::encode_to_vec(
        (
            [3u8, 4, 5],
            "255.255.255.0".to_string(),
            "10.0.0.0".to_string(),
            "10.0.0.7".to_string(),
            None::<String>,
        ),
        config::standard(),
    )
    .unwrap();
    assert_eq!(bytes, theirs);
    let back = HandshakeRep::deserialize(&bytes).unwrap();
    assert_eq!(back.sdn_ip_addr, "10.0.0.7");
    assert_eq!(back.netmask, "255.255.255.0");
    let with_key = HandshakeRep::new_with_crypto("255.0.0.0", "10.0.0.0", "10.1.2.3", "srv");
    let back = HandshakeRep::deserialize(&with_key.serialize().unwrap()).unwrap();
    assert_eq!(back.server_public_key, Some("srv".to_string()));
}

#[test]
fn handshake_error_and_heartbeat() {
    let err = HandshakeError::new("Authorization failed: Unknown user");
    let bytes = err.serialize().unwrap();
    assert_eq!(&bytes[..3], &[9, 10, 11]);
    let back = HandshakeError::deserialize(&bytes).unwrap();
    assert_eq!(back.error_message, "Authorization failed: Unknown user");
    assert_eq!(err.size().unwrap(), bytes.len());
    let hb = UDPHeartbeat::new();
    assert_eq!(hb.serialize().unwrap(), vec![6, 7, 8]);
    assert_eq!(hb.size().unwrap(), 3);
    assert!(UDPHeartbeat::deserialize(&[6, 7]).is_err());
}

#[test]
fn truncated_message_is_refused() {
    let rep = HandshakeRep::new("255.255.255.0", "10.0.0.0", "10.0.0.7");
    let bytes = rep.serialize().unwrap();
    assert!(HandshakeRep::deserialize(&bytes[..bytes.len() - 1]).is_err());
}

#[test]
fn noise_messages_roundtrip() {
    let init = NoiseHandshakeInit::new(vec![1, 2, 3]);
    let back = NoiseHandshakeInit::deserialize(&init.serialize().unwrap()).unwrap();
    assert_eq!(back.payload, vec![1, 2, 3]);
    let resp = NoiseHandshakeResp::new(vec![]);
    let back = NoiseHandshakeResp::deserialize(&resp.serialize().unwrap()).unwrap();
    assert!(back.payload.is_empty());
}

#[test]
fn peer_list_matches_bincode_layout() {
    let list = PeerList::new(vec![PeerInfo::new("10.0.0.2", "k2"), PeerInfo::new("10.0.0.3", "k3")]);
    let ours = list.serialize().unwrap();
    let theirs = bincode::encode_to_vec(
        (
            [0x50u8, 0x4C, 0x53],
            vec![
                ("10.0.0.2".to_string(), "k2".to_string()),
                ("10.0.0.3".to_string(), "k3".to_string()),
            ],
        ),
        config::standard(),
    )
    .unwrap();
    assert_eq!(ours, theirs);
    let back = PeerList::deserialize(&ours).unwrap();
    assert_eq!(back.peers.len(), 2);
    assert_eq!(back.peers[1].public_key, "k3");
}

#[test]
fn peer_announce_roundtrip() {
    let a = PeerAnnounce::new(PeerEventType::Disconnected, PeerInfo::new("10.0.0.9", "key"));
    let bytes = a.serialize().unwrap();
    let back = PeerAnnounce::deserialize(&bytes).unwrap();
    assert_eq!(back.event_type, PeerEventType::Disconnected);
    assert_eq!(back.peer.sdn_ip, "10.0.0.9");
}

#[test]
fn relay_packet_long_payload_roundtrip() {
    let payload: Vec<u8> = (0..300u32).map(|i| (i % 256) as u8).collect();
    let r = RelayPacket::new("10.0.0.1", "10.0.0.2", payload.clone());
    let bytes = r.serialize().unwrap();
    let theirs = bincode::encode_to_vec(
        ([0x52u8, 0x4C, 0x59], "10.0.0.1".to_string(), "10.0.0.2".to_string(), payload.clone()),
        config::standard(),
    )
    .unwrap();
    assert_eq!(bytes, theirs);
    let back = RelayPacket::deserialize(&bytes).unwrap();
    assert_eq!(back.encrypted_payload, payload);
}

#[test]
fn message_dispatch_by_header() {
    let relay = RelayPacket::new("10.0.0.1", "10.0.0.2", vec![9]).serialize().unwrap();
    assert!(matches!(get_message_type(&relay), MessageType::RelayPacket(_)));
    let init = P2PHandshakeInit::new("10.0.0.1", "10.0.0.2", vec![1]).serialize().unwrap();
    assert!(matches!(get_message_type(&init), MessageType::P2PHandshakeInit(_)));
    let resp = P2PHandshakeResp::new("10.0.0.1", "10.0.0.2", vec![1]).serialize().unwrap();
    assert!(matches!(get_message_type(&resp), MessageType::P2PHandshakeResp(_)));
    assert!(matches!(get_message_type(&[6, 7, 8]), MessageType::Heartbeat(_)));
    let req = HandshakeReq::new("k", false).serialize().unwrap();
    assert!(matches!(get_message_type(&req), MessageType::HandshakeReq(_)));
    assert!(matches!(get_message_type(&[1, 2]), MessageType::Unknown));
    assert!(matches!(get_message_type(&[0x52, 0x4C, 0x59, 200]), MessageType::Unknown));
    assert!(matches!(get_message_type(&[42, 42, 42, 0]), MessageType::Unknown));
}

#[test]
fn legacy_handshake_roundtrip() {
    let key = "legacy-key".to_string();
    let req = netplane::legacy::HandshakeReq::new(&key);
    let bytes = req.serialize().unwrap();
    let theirs =
        bincode::encode_to_vec(([0u8, 1, 2], "legacy-key".to_string()), config::standard()).unwrap();
    assert_eq!(bytes, theirs);
    assert_eq!(netplane::legacy::HandshakeReq::deserialize(&bytes).unwrap().public_key, key);
    assert_eq!(req.size().unwrap(), bytes.len());
    let rep = netplane::legacy::HandshakeRep::new(
        &"255.255.0.0".to_string(),
        &"10.1.0.0".to_string(),
        &"10.1.0.5".to_string(),
    );
    let bytes = rep.serialize().unwrap();
    let back = netplane::legacy::HandshakeRep::deserialize(&bytes).unwrap();
    assert_eq!(back.destination, "10.1.0.0");
    assert_eq!(rep.size().unwrap(), bytes.len());
}

#[test]
fn hex_text_of_bytes() {
    let mut out = b"x=".to_vec();
    push_hex(&mut out, &[0x00, 0x0f, 0xa5, 0xff]);
    assert_eq!(out, b"x=000fa5ff".to_vec());
    assert_eq!(hex::decode(&out[2..]).unwrap(), vec![0x00, 0x0f, 0xa5, 0xff]);
}

#[test]
fn legacy_handshake_messages_round_trip() {
    let req = legacy::HandshakeReq::new(&"client-key".to_string());
    let bytes = req.serialize().unwrap();
    assert_eq!(bytes.len(), req.size().unwrap());
    let theirs = bincode::encode_to_vec(
        (HANDSHAKE_REQUEST_HEADER, "client-key".to_string()),
        config::standard(),
    )
    .unwrap();
    assert_eq!(bytes, theirs);
    let back = legacy::HandshakeReq::deserialize(&bytes).ok().unwrap();
    assert_eq!(back.public_key, "client-key");
    let rep = legacy::HandshakeRep::new(&"255.255.255.0".to_string(), &"10.0.0.0".to_string(), &"10.0.0.7".to_string());
    let bytes = rep.serialize().unwrap();
    assert_eq!(bytes.len(), rep.size().unwrap());
    let back = legacy::HandshakeRep::deserialize(&bytes).ok().unwrap();
    assert_eq!(back.netmask, "255.255.255.0");
    assert_eq!(back.destination, "10.0.0.0");
    assert_eq!(back.sdn_ip_addr, "10.0.0.7");
    assert!(legacy::HandshakeRep::deserialize(&bytes[..bytes.len() - 1]).is_err());
    assert_ne!(legacy::HandshakeStatus::Pending, legacy::HandshakeStatus::Initialized);
}
