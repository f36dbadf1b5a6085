use netplane::client::{
    handle_outgoing_packet, handle_relay_server_message, handshake_step, select_transport,
    ClientAction, HandshakeStep,
};
use netplane::codec::decode_base64;
use netplane::ipv4::Ipv4;
use netplane::messages::{HandshakeError, HandshakeRep, HandshakeReq, PeerState};
use netplane::noise::generate_keypair_texts;
use netplane::peer_messages::{
    PeerAnnounce, PeerEventType, PeerInfo, PeerList, RelayPacket,
};
use netplane::peers::{Endpoint, Peers};
use netplane::relay::{
    admit_udp_peer, admit_ws_peer, udp_network, udp_replay, ws_disconnect, ws_message, ws_v2_datagram,
    RelayError, ServerAction,
};
use netplane::server::{ServerStats, TransportMode};
use netplane::session::PeerSessionManager;
use netplane::legacy::{HandshakeRep as LegacyRep, HandshakeReq as LegacyReq};
use netplane::legacy_relay::{legacy_handshake_step, legacy_is_loopback, LegacyRelay, LegacyRelayError, LegacyStep};
use netplane::client::{deliver_decrypted, relay_encrypted};
use netplane::session::SessionError;

fn ip(s: &str) -> Ipv4 {
    Ipv4::parse(s).unwrap()
}

fn manager(own: &str) -> (PeerSessionManager, String) {
    let (public, private) = generate_keypair_texts().unwrap();
    let m = PeerSessionManager::new(ip(own), decode_base64(&private).unwrap(), public.clone());
    (m, public)
}

fn packet_to(dst: [u8; 4]) -> Vec<u8> {
    let mut p = vec![0u8; 28];
    p[0] = 0x45;
    p[9] = 1;
    p[12..16].copy_from_slice(&[10, 0, 0, 1]);
    p[16..20].copy_from_slice(&dst);
    p
}

#[test]
fn loopback_packet_goes_back_to_tun() {
    let (mut m, _) = manager("10.0.0.1");
    let p = packet_to([10, 0, 0, 1]);
    let acts = handle_outgoing_packet(&p, &mut m, &ip("10.0.0.1"), false, false);
    assert_eq!(acts.len(), 1);
    assert!(matches!(&acts[0], ClientAction::WriteTun(d) if *d == p));
}

#[test]
fn short_packet_is_dropped() {
    let (mut m, _) = manager("10.0.0.1");
    assert!(handle_outgoing_packet(&[0x45; 12], &mut m, &ip("10.0.0.1"), false, false).is_empty());
}

#[test]
fn plaintext_relay_without_encryption() {
    let (mut m, _) = manager("10.0.0.1");
    let p = packet_to([10, 0, 0, 9]);
    let acts = handle_outgoing_packet(&p, &mut m, &ip("10.0.0.1"), false, true);
    let expected = RelayPacket::new("10.0.0.1", "10.0.0.9", p.clone()).serialize().unwrap();
    assert_eq!(acts.len(), 1);
    assert!(matches!(&acts[0], ClientAction::SendToServer(d) if *d == expected));
}

#[test]
fn unknown_peer_packet_is_dropped() {
    let (mut m, _) = manager("10.0.0.1");
    let acts = handle_outgoing_packet(&packet_to([10, 0, 0, 9]), &mut m, &ip("10.0.0.1"), false, false);
    assert!(acts.is_empty());
}

#[test]
fn end_to_end_between_two_clients() {
    let (mut a, pub_a) = manager("10.0.0.1");
    let (mut b, pub_b) = manager("10.0.0.2");
    let list = PeerList::new(vec![PeerInfo::new("10.0.0.2", &pub_b)]).serialize().unwrap();
    assert!(handle_relay_server_message(&list, &mut a, &ip("10.0.0.1"), false).is_empty());
    let ann = PeerAnnounce::new(PeerEventType::Connected, PeerInfo::new("10.0.0.1", &pub_a))
        .serialize()
        .unwrap();
    assert!(handle_relay_server_message(&ann, &mut b, &ip("10.0.0.2"), false).is_empty());

    let p = packet_to([10, 0, 0, 2]);
    let acts = handle_outgoing_packet(&p, &mut a, &ip("10.0.0.1"), false, false);
    assert_eq!(acts.len(), 1);
    let init = match &acts[0] {
        ClientAction::SendToServer(d) => d.clone(),
        _ => panic!("expected a handshake init"),
    };
    assert!(a.handshake_in_progress(&ip("10.0.0.2")));
    // a second packet is queued without a second handshake
    assert!(handle_outgoing_packet(&p, &mut a, &ip("10.0.0.1"), false, false).is_empty());

    let acts = handle_relay_server_message(&init, &mut b, &ip("10.0.0.2"), false);
    assert_eq!(acts.len(), 1);
    let resp = match &acts[0] {
        ClientAction::SendToServer(d) => d.clone(),
        _ => panic!("expected a handshake response"),
    };

    let flushed = handle_relay_server_message(&resp, &mut a, &ip("10.0.0.1"), false);
    assert_eq!(flushed.len(), 2);
    for act in flushed {
        let relay = match act {
            ClientAction::SendToServer(d) => d,
            _ => panic!("expected relayed packets"),
        };
        let delivered = handle_relay_server_message(&relay, &mut b, &ip("10.0.0.2"), false);
        assert_eq!(delivered.len(), 1);
        assert!(matches!(&delivered[0], ClientAction::WriteTun(d) if *d == p));
    }

    let acts = handle_outgoing_packet(&p, &mut a, &ip("10.0.0.1"), false, false);
    assert_eq!(acts.len(), 1);

    let mcast = packet_to([224, 0, 0, 251]);
    let acts = handle_outgoing_packet(&mcast, &mut a, &ip("10.0.0.1"), false, false);
    assert_eq!(acts.len(), 1);

    let bye = PeerAnnounce::new(PeerEventType::Disconnected, PeerInfo::new("10.0.0.2", &pub_b))
        .serialize()
        .unwrap();
    handle_relay_server_message(&bye, &mut a, &ip("10.0.0.1"), false);
    assert!(!a.knows_peer(&ip("10.0.0.2")));
    assert!(!a.has_session(&ip("10.0.0.2")));
}

#[test]
fn heartbeat_reports_state_and_plain_relay_is_delivered() {
    let (mut m, _) = manager("10.0.0.1");
    let acts = handle_relay_server_message(&[6, 7, 8], &mut m, &ip("10.0.0.1"), false);
    assert!(matches!(acts.as_slice(), [ClientAction::ReportState]));
    let p = packet_to([10, 0, 0, 1]);
    let relay = RelayPacket::new("10.0.0.5", "10.0.0.1", p.clone()).serialize().unwrap();
    let acts = handle_relay_server_message(&relay, &mut m, &ip("10.0.0.1"), true);
    assert!(matches!(&acts[..], [ClientAction::WriteTun(d)] if *d == p));
    let short = RelayPacket::new("10.0.0.5", "10.0.0.1", vec![1, 2]).serialize().unwrap();
    assert!(handle_relay_server_message(&short, &mut m, &ip("10.0.0.1"), true).is_empty());
    assert!(handle_relay_server_message(&relay, &mut m, &ip("10.0.0.1"), false).is_empty());
}

#[test]
fn handshake_answers() {
    let rep = HandshakeRep::new("255.255.255.0", "10.0.0.0", "10.0.0.4").serialize().unwrap();
    match handshake_step(&rep) {
        HandshakeStep::Accepted(p) => {
            assert_eq!(p.netmask, "255.255.255.0");
            assert_eq!(p.destination, "10.0.0.0");
            assert_eq!(p.ip_addr, "10.0.0.4");
        }
        _ => panic!("expected acceptance"),
    }
    let err = HandshakeError::new("Unknown user").serialize().unwrap();
    assert!(matches!(handshake_step(&err), HandshakeStep::Refused(m) if m == "Authorization failed: Unknown user"));
    assert!(matches!(handshake_step(&[6, 7, 8]), HandshakeStep::Retry));
}

#[test]
fn transport_selection() {
    assert_eq!(select_transport("UDP").unwrap(), TransportMode::UDP);
    assert_eq!(select_transport("Ws").unwrap(), TransportMode::WebSocket);
    assert_eq!(select_transport("websocket").unwrap(), TransportMode::WebSocket);
    assert_eq!(
        select_transport("tcp").unwrap_err(),
        "Unsupported transport type: tcp. Use 'websocket' or 'udp'"
    );
}

fn udp(
    peers: &mut Peers<Endpoint>,
    stats: &mut ServerStats,
    src: Endpoint,
    data: &[u8],
    now: u64,
    log_traffic: bool,
) -> Result<Vec<ServerAction<Endpoint>>, RelayError> {
    let mut out = Vec::new();
    udp_network(peers, stats, src, data, now, log_traffic, &mut out).map(|_| out)
}

fn ep(port: u16) -> Endpoint {
    Endpoint { ip: 0x7f00_0001, port, v6: false }
}

#[test]
fn udp_server_flow() {
    let mut peers: Peers<Endpoint> = Peers::new();
    let mut stats = ServerStats::new(TransportMode::UDP);
    let req = HandshakeReq::new_with_crypto("signed", "pk", false).serialize().unwrap();
    let acts = udp(&mut peers, &mut stats, ep(1), &req, 0, false).unwrap();
    assert!(matches!(acts.as_slice(), [ServerAction::Authenticate(r)] if r.auth_key == "signed"));
    assert_eq!(stats.in_bytes, req.len());
    assert_eq!(peers.len(), 1);

    let acts = admit_udp_peer(&mut peers, ep(1), "10.0.0.2", "pk-a");
    let list = PeerList::new(vec![PeerInfo::new("10.0.0.2", "pk-a")]).serialize().unwrap();
    assert_eq!(acts.len(), 1);
    assert!(matches!(&acts[0], ServerAction::SendTo { to, data, counted: false } if *to == ep(1) && *data == list));

    udp(&mut peers, &mut stats, ep(2), &req, 0, false).unwrap();
    let acts = admit_udp_peer(&mut peers, ep(2), "10.0.0.3", "pk-b");
    let announce = PeerAnnounce::new(PeerEventType::Connected, PeerInfo::new("10.0.0.3", "pk-b"))
        .serialize()
        .unwrap();
    assert_eq!(acts.len(), 2);
    assert!(matches!(&acts[1], ServerAction::SendTo { to, data, .. } if *to == ep(1) && *data == announce));

    let relay = RelayPacket::new("10.0.0.2", "10.0.0.3", vec![1, 2, 3]).serialize().unwrap();
    let acts = udp(&mut peers, &mut stats, ep(1), &relay, 5, true).unwrap();
    assert_eq!(acts.len(), 2);
    assert!(matches!(&acts[0], ServerAction::LogTraffic { sdn_addr, .. } if sdn_addr == "10.0.0.3"));
    assert!(matches!(&acts[1], ServerAction::SendTo { to, counted: true, .. } if *to == ep(2)));

    let mcast = RelayPacket::new("10.0.0.2", "255.255.255.255", vec![1]).serialize().unwrap();
    let acts = udp(&mut peers, &mut stats, ep(1), &mcast, 5, false).unwrap();
    assert!(matches!(acts.as_slice(), [ServerAction::SendTo { to, .. }] if *to == ep(2)));

    let bad_source = RelayPacket::new("somewhere", "255.255.255.255", vec![1]).serialize().unwrap();
    let mut out = Vec::new();
    let outcome = udp_network(&mut peers, &mut stats, ep(1), &bad_source, 5, true, &mut out);
    assert_eq!(outcome.err().unwrap(), RelayError::InvalidAddress);
    assert_eq!(out.len(), 1);
    assert!(matches!(&out[0], ServerAction::LogTraffic { sdn_addr, .. } if sdn_addr == "255.255.255.255"));

    let bad = RelayPacket::new("10.0.0.2", "nowhere", vec![1]).serialize().unwrap();
    assert_eq!(udp(&mut peers, &mut stats, ep(1), &bad, 5, false).err().unwrap(), RelayError::InvalidAddress);

    let acts = udp(&mut peers, &mut stats, ep(2), &[6, 7, 8], 9, false).unwrap();
    assert!(matches!(acts.as_slice(), [ServerAction::SendTo { to, data, .. }] if *to == ep(2) && *data == vec![6u8, 7, 8]));

    let expired = peers.remove_expired(15_005, 15_000);
    assert_eq!(expired.len(), 1);
    assert_eq!(expired[0].key, ep(1));
    assert_eq!(peers.len(), 1);

    let acts = udp_replay(&peers, &ip("10.0.0.3"), &[4, 4]);
    assert!(matches!(acts, Some(ServerAction::SendTo { to, .. }) if to == ep(2)));
    assert!(udp_replay(&peers, &ip("10.0.0.2"), &[4]).is_none());
}

#[test]
fn same_client_reconnecting_replaces_old_connection() {
    let mut peers: Peers<Endpoint> = Peers::new();
    let mut stats = ServerStats::new(TransportMode::UDP);
    let req = HandshakeReq::new_with_crypto("signed", "pk", false).serialize().unwrap();
    udp(&mut peers, &mut stats, ep(1), &req, 0, false).unwrap();
    admit_udp_peer(&mut peers, ep(1), "10.0.0.2", "pk");
    udp(&mut peers, &mut stats, ep(7), &req, 0, false).unwrap();
    admit_udp_peer(&mut peers, ep(7), "10.0.0.2", "pk");
    assert_eq!(peers.len(), 1);
    assert_eq!(peers.find_by_sdn_ip(&ip("10.0.0.2")), Some(ep(7)));
    assert_eq!(peers.get_peer_list().len(), 1);
}

#[test]
fn websocket_server_flow() {
    let mut peers: Peers<i32> = Peers::new();
    let mut stats = ServerStats::new(TransportMode::WebSocket);
    let req = HandshakeReq::new_with_crypto("signed", "pk", false).serialize().unwrap();
    ws_message(&mut peers, &mut stats, 1, &req, 0);
    let acts = admit_ws_peer(&mut peers, 1, "10.0.0.2", "pk-a");
    assert_eq!(acts.len(), 1);
    assert!(matches!(acts.as_slice(), [ServerAction::SendTo { to: 1, .. }]));
    ws_message(&mut peers, &mut stats, 2, &req, 0);
    let acts = admit_ws_peer(&mut peers, 2, "10.0.0.3", "pk-b");
    let hello = PeerAnnounce::new(PeerEventType::Connected, PeerInfo::new("10.0.0.3", "pk-b"))
        .serialize()
        .unwrap();
    assert_eq!(acts.len(), 2);
    assert!(matches!(&acts[1], ServerAction::SendTo { to: 1, data, .. } if *data == hello));
    let relay = RelayPacket::new("10.0.0.2", "10.0.0.3", vec![7]).serialize().unwrap();
    let acts = ws_message(&mut peers, &mut stats, 1, &relay, 1);
    assert!(matches!(acts.as_slice(), [ServerAction::SendTo { to: 2, counted: true, .. }]));
    let mcast = RelayPacket::new("10.0.0.2", "224.0.0.1", vec![7]).serialize().unwrap();
    assert!(ws_message(&mut peers, &mut stats, 1, &mcast, 1).is_empty());
    let acts = ws_disconnect(&mut peers, 2);
    let bye = PeerAnnounce::new(PeerEventType::Disconnected, PeerInfo::new("10.0.0.3", "pk-b"))
        .serialize()
        .unwrap();
    assert!(matches!(acts.as_slice(), [ServerAction::SendTo { to: 1, data, .. }] if *data == bye));
    assert_eq!(peers.len(), 1);
    assert_eq!(peers.to_vec()[0].1, ip("10.0.0.2"));
    let _ = PeerState::HandshakeDone;
}

#[test]
fn first_relay_flow() {
    let a = Endpoint { ip: 1, port: 10, v6: false };
    let b = Endpoint { ip: 2, port: 20, v6: false };
    let mut relay: LegacyRelay<Endpoint> = LegacyRelay::new();
    let req = LegacyReq::new(&"pk-a".to_string()).serialize().unwrap();
    match relay.datagram(a, &req) {
        LegacyStep::Lookup(k) => assert_eq!(k, "pk-a"),
        _ => panic!("expected a lookup"),
    }
    assert!(matches!(relay.datagram(a, &[1, 2, 3]), LegacyStep::Ignore));
    assert_eq!(relay.client_found(a, "not an ip"), Err(LegacyRelayError::InvalidAddress));
    let reply = relay.client_found(a, "12.0.0.5").unwrap();
    let params = legacy_handshake_step(&reply).unwrap();
    assert_eq!(params.netmask, "255.255.255.0");
    assert_eq!(params.destination, "12.0.0.0");
    assert_eq!(params.ip_addr, "12.0.0.5");
    assert_eq!(LegacyRep::deserialize(&reply).ok().unwrap().sdn_ip_addr, "12.0.0.5");
    relay.reply_sent(a);
    let req_b = LegacyReq::new(&"pk-b".to_string()).serialize().unwrap();
    assert!(matches!(relay.datagram(b, &req_b), LegacyStep::Lookup(_)));
    relay.client_found(b, "12.0.0.6").unwrap();
    relay.reply_sent(b);
    let packet = [0x45u8; 20];
    match relay.datagram(a, &packet) {
        LegacyStep::Forward(to) => assert_eq!(to, vec![b]),
        _ => panic!("expected a forward"),
    }
    assert!(matches!(relay.datagram(a, &packet[..10]), LegacyStep::Ignore));
    assert!(legacy_handshake_step(&[3, 4]).is_none());
    let mut udp = [0u8; 28];
    udp[0] = 0x45;
    udp[9] = 17;
    udp[12..16].copy_from_slice(&[10, 0, 0, 1]);
    udp[16..20].copy_from_slice(&[10, 0, 0, 1]);
    udp[20..24].copy_from_slice(&[0, 80, 0, 80]);
    assert!(legacy_is_loopback(&udp));
    udp[23] = 81;
    assert!(!legacy_is_loopback(&udp));
    assert!(!legacy_is_loopback(&udp[..10]));
}

#[test]
fn encryption_and_decryption_outcomes_become_actions() {
    let own = Ipv4::parse("10.0.0.1").unwrap();
    let dst = Ipv4::parse("10.0.0.2").unwrap();
    let sealed = vec![9u8; 40];
    match relay_encrypted(&own, &dst, Ok(sealed.clone())) {
        Some(ClientAction::SendToServer(bytes)) => {
            let relay = RelayPacket::deserialize(&bytes).ok().unwrap();
            assert_eq!(relay.src_sdn_ip, "10.0.0.1");
            assert_eq!(relay.dst_sdn_ip, "10.0.0.2");
            assert_eq!(relay.encrypted_payload, sealed);
        }
        _ => panic!("expected a relay"),
    }
    assert!(relay_encrypted(&own, &dst, Err(SessionError::NoSession)).is_none());
    let plain = vec![0x45u8; 24];
    assert!(matches!(deliver_decrypted(Ok(plain.clone())).as_slice(), [ClientAction::WriteTun(p)] if *p == plain));
    assert!(deliver_decrypted(Ok(vec![1, 2, 3])).is_empty());
    assert!(deliver_decrypted(Err(SessionError::Noise)).is_empty());
}

#[test]
fn second_generation_websocket_routing() {
    let mut peers: Peers<i32> = Peers::new();
    let req = HandshakeReq::new("signed.key", false).serialize().unwrap();
    assert!(matches!(ws_v2_datagram(&mut peers, 1, &req).as_slice(), [ServerAction::Authenticate(r)] if r.auth_key == "signed.key"));
    assert!(ws_v2_datagram(&mut peers, 1, &[1, 2, 3]).is_empty());
    ws_v2_datagram(&mut peers, 2, &req);
    peers.set_done(&1, ip("10.0.0.2"), "pk-1");
    peers.set_done(&2, ip("10.0.0.3"), "pk-2");
    let mut packet = vec![0x45u8; 24];
    packet[16..20].copy_from_slice(&[10, 0, 0, 3]);
    assert!(matches!(ws_v2_datagram(&mut peers, 1, &packet).as_slice(),
        [ServerAction::SendTo { to: 2, data, counted: false }] if *data == packet));
    packet[19] = 9;
    assert!(ws_v2_datagram(&mut peers, 1, &packet).is_empty());
    assert!(ws_v2_datagram(&mut peers, 1, &packet[..10]).is_empty());
}

#[test]
fn key_texts_are_43_characters() {
    let (public, private) = generate_keypair_texts().unwrap();
    assert_eq!(public.len(), 43);
    assert_eq!(private.len(), 43);
}
