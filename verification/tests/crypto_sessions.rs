use netplane::auth::{sign_key, try_verify_signed_key, verify_signed_key, AuthError};
use netplane::codec::decode_base64;
use netplane::ipv4::Ipv4;
use netplane::noise::generate_keypair_texts;
use netplane::peer_messages::PeerInfo;
use netplane::session::{PeerSessionManager, SessionError};
use netplane::noise::{create_noise_initiator, create_noise_responder, perform_noise_handshake};
use netplane::messages::NOISE_HANDSHAKE_RESP_HEADER;
use netplane::noise::{process_noise_handshake_init, NoiseFailure, NoiseSession};
use netplane::client::{create_p2p_session, SessionSetupError};
use netplane::model::StartParams;

#[test]
fn test_sign_key() {
    let secret = b"secret_key";
    let auth_data = "{\"client_id\":\"1234\"}";
    let signed_key = sign_key(secret, auth_data.as_bytes());
    assert!(signed_key.len() != 0, "empty signed key");
    let payload = verify_signed_key(secret, &signed_key);
    assert!(payload.is_ok(), "verify signed key failed");
    assert_eq!(payload.unwrap(), auth_data.as_bytes());
}

#[test]
fn signed_key_is_refused_under_another_secret() {
    let signed = sign_key(b"one", b"payload");
    assert_eq!(verify_signed_key(b"two", &signed), Err(AuthError::BadSignature));
}

#[test]
fn malformed_signed_keys() {
    assert_eq!(verify_signed_key(b"s", "nodot"), Err(AuthError::Malformed));
    assert_eq!(verify_signed_key(b"s", "a.b.c"), Err(AuthError::Malformed));
    assert_eq!(verify_signed_key(b"s", "YWJj.***"), Err(AuthError::BadEncoding));
    assert!(try_verify_signed_key(b"s", "***.YWJj").is_none());
    assert_eq!(try_verify_signed_key(b"s", "nodot"), Some(Err(AuthError::Malformed)));
}

#[test]
fn signed_key_text_layout() {
    let signed = sign_key(b"k", b"abc");
    let (payload, tag) = signed.split_once('.').unwrap();
    assert_eq!(payload, "YWJj");
    assert_eq!(decode_base64(tag).unwrap().len(), 32);
    let signed = sign_key(b"k", &[0xfb, 0xff]);
    assert_eq!(signed.split_once('.').unwrap().0, "-_8");
    let signed = sign_key(b"k", &[0x00]);
    assert_eq!(signed.split_once('.').unwrap().0, "AA");
}

fn keys() -> (String, Vec<u8>) {
    let (public, private) = generate_keypair_texts().unwrap();
    (public, decode_base64(&private).unwrap())
}

fn ip(s: &str) -> Ipv4 {
    Ipv4::parse(s).unwrap()
}

#[test]
fn manager_knows_itself_only() {
    let (public, private) = keys();
    let m = PeerSessionManager::new(ip("10.0.0.1"), private, public);
    assert!(m.knows_peer(&ip("10.0.0.1")));
    assert!(!m.knows_peer(&ip("10.0.0.2")));
    assert!(!m.has_session(&ip("10.0.0.1")));
    assert!(m.get_all_session_peers().is_empty());
}

#[test]
fn add_and_remove_peer() {
    let (public, private) = keys();
    let mut m = PeerSessionManager::new(ip("10.0.0.1"), private, public);
    m.add_peer(PeerInfo::new("10.0.0.2", "abc"));
    m.add_peer(PeerInfo::new("not-an-ip", "abc"));
    assert!(m.knows_peer(&ip("10.0.0.2")));
    m.queue_packet(&ip("10.0.0.2"), vec![1]);
    m.remove_peer(&ip("10.0.0.2"));
    assert!(!m.knows_peer(&ip("10.0.0.2")));
    assert!(m.take_pending_packets(&ip("10.0.0.2")).is_empty());
}

#[test]
fn queued_packets_come_out_in_order() {
    let (public, private) = keys();
    let mut m = PeerSessionManager::new(ip("10.0.0.1"), private, public);
    m.queue_packet(&ip("10.0.0.2"), vec![1]);
    m.queue_packet(&ip("10.0.0.3"), vec![9]);
    m.queue_packet(&ip("10.0.0.2"), vec![2, 2]);
    assert_eq!(m.take_pending_packets(&ip("10.0.0.2")), vec![vec![1], vec![2, 2]]);
    assert!(m.take_pending_packets(&ip("10.0.0.2")).is_empty());
    assert_eq!(m.take_pending_packets(&ip("10.0.0.3")), vec![vec![9]]);
}

#[test]
fn handshake_errors() {
    let (public, private) = keys();
    let mut m = PeerSessionManager::new(ip("10.0.0.1"), private, public);
    assert_eq!(m.initiate_handshake(&ip("10.0.0.2")).err().unwrap(), SessionError::UnknownPeer);
    m.add_peer(PeerInfo::new("10.0.0.2", "!!!"));
    assert_eq!(m.initiate_handshake(&ip("10.0.0.2")).err().unwrap(), SessionError::BadPeerKey);
    assert!(!m.handshake_in_progress(&ip("10.0.0.2")));
    assert_eq!(m.encrypt_for(&ip("10.0.0.2"), b"x").unwrap_err(), SessionError::NoSession);
    assert_eq!(m.decrypt_from(&ip("10.0.0.2"), b"x").unwrap_err(), SessionError::NoSession);
}

#[test]
fn two_peers_establish_a_session() {
    let (pub_a, priv_a) = keys();
    let (pub_b, priv_b) = keys();
    let mut a = PeerSessionManager::new(ip("10.0.0.1"), priv_a, pub_a.clone());
    let mut b = PeerSessionManager::new(ip("10.0.0.2"), priv_b, pub_b.clone());
    a.add_peer(PeerInfo::new("10.0.0.2", &pub_b));
    b.add_peer(PeerInfo::new("10.0.0.1", &pub_a));

    let init = a.initiate_handshake(&ip("10.0.0.2")).unwrap();
    assert_eq!(init.initiator_sdn_ip, "10.0.0.1");
    assert_eq!(init.responder_sdn_ip, "10.0.0.2");
    assert!(a.handshake_in_progress(&ip("10.0.0.2")));

    let resp = b.handle_handshake_init(&init).unwrap();
    assert_eq!(resp.initiator_sdn_ip, "10.0.0.1");
    assert_eq!(resp.responder_sdn_ip, "10.0.0.2");
    assert!(b.has_session(&ip("10.0.0.1")));

    a.handle_handshake_resp(&resp).unwrap();
    assert!(a.has_session(&ip("10.0.0.2")));
    assert!(!a.handshake_in_progress(&ip("10.0.0.2")));

    let c = a.encrypt_for(&ip("10.0.0.2"), b"hello peer").unwrap();
    assert_eq!(c.len(), b"hello peer".len() + 16);
    let p = b.decrypt_from(&ip("10.0.0.1"), &c).unwrap();
    assert_eq!(p, b"hello peer");
    assert_eq!(b.decrypt_from(&ip("10.0.0.1"), &[0u8; 8]).err().unwrap(), SessionError::Noise);

    assert_eq!(a.handle_handshake_resp(&resp).err().unwrap(), SessionError::NoPendingHandshake);
}

#[test]
fn local_noise_handshake_gives_matching_sessions() {
    let (client_pub, client_priv) = keys();
    let (server_pub, server_priv) = keys();
    let client_pub = decode_base64(&client_pub).unwrap();
    let server_pub = decode_base64(&server_pub).unwrap();
    let initiator = create_noise_initiator(&client_priv, &server_pub).unwrap();
    let responder = create_noise_responder(&server_priv, &client_pub).unwrap();
    let (mut a, mut b) = perform_noise_handshake(initiator, responder).ok().unwrap();
    let sealed = a.encrypt(b"hello").unwrap();
    assert_eq!(sealed.len(), 5 + 16);
    assert_eq!(b.decrypt(&sealed).unwrap(), b"hello".to_vec());
    let back = b.encrypt(b"pong").unwrap();
    assert_eq!(a.decrypt(&back).unwrap(), b"pong".to_vec());
    assert!(a.decrypt(&[0u8; 3]).is_err());
}

#[test]
fn responder_answers_an_initiator_message() {
    let (client_pub, client_priv) = keys();
    let (server_pub, server_priv) = keys();
    let client_pub = decode_base64(&client_pub).unwrap();
    let server_pub = decode_base64(&server_pub).unwrap();
    let mut initiator = create_noise_initiator(&client_priv, &server_pub).unwrap();
    let first = initiator.write_message().unwrap();
    let responder = create_noise_responder(&server_priv, &client_pub).unwrap();
    let (resp, mut session) = process_noise_handshake_init(responder, &first).ok().unwrap();
    assert_eq!(resp.header, NOISE_HANDSHAKE_RESP_HEADER);
    initiator.read_message(&resp.payload).unwrap();
    let mut client = NoiseSession::new(initiator).ok().unwrap();
    let sealed = client.encrypt(b"ping").unwrap();
    assert_eq!(session.decrypt(&sealed).unwrap(), b"ping".to_vec());
    let responder = create_noise_responder(&server_priv, &client_pub).unwrap();
    assert_eq!(process_noise_handshake_init(responder, b"garbage").err(), Some(NoiseFailure::ResponderRead));
}

#[test]
fn test_noise() {
    let (client_pub, client_priv) = generate_keypair_texts().expect("cannot generate auth keys");
    let (server_pub, server_priv) = generate_keypair_texts().expect("cannot generate auth keys");
    let decode = |t: &str| decode_base64(t).expect("cannot load keys");
    let client = create_noise_initiator(&decode(&client_priv), &decode(&server_pub)).unwrap();
    let server = create_noise_responder(&decode(&server_priv), &decode(&client_pub)).unwrap();
    let sessions = perform_noise_handshake(client, server);
    assert!(sessions.is_ok(), "snow test failed");
    let (mut initiator, mut responder) = sessions.ok().unwrap();
    let sealed = initiator.encrypt(b"test\0").unwrap();
    assert_eq!(responder.decrypt(&sealed).unwrap(), b"test\0".to_vec());
}

#[test]
fn p2p_session_setup() {
    let params = |ip: &str| StartParams {
        netmask: "255.255.255.0".to_string(),
        destination: "10.0.0.0".to_string(),
        ip_addr: ip.to_string(),
    };
    let (public, private) = generate_keypair_texts().unwrap();
    let (own, manager) = create_p2p_session(&params("10.0.0.4"), public.clone(), &private).ok().unwrap();
    assert_eq!(own, ip("10.0.0.4"));
    assert!(manager.knows_peer(&ip("10.0.0.4")));
    assert!(manager.get_all_session_peers().is_empty());
    assert_eq!(create_p2p_session(&params("10.0.0.4"), public.clone(), "***").err(), Some(SessionSetupError::BadPrivateKey));
    assert_eq!(create_p2p_session(&params("10.0.4"), public, &private).err(), Some(SessionSetupError::BadAddress));
}

#[test]
fn many_queued_packets_come_out_in_order() {
    let (public, private) = keys();
    let mut m = PeerSessionManager::new(ip("10.0.0.1"), private, public);
    let d = ip("10.0.0.2");
    let e = ip("10.0.0.3");
    m.queue_packet(&e, vec![99]);
    let packets: Vec<Vec<u8>> = (0u8..7).map(|i| vec![i; i as usize + 1]).collect();
    for p in &packets {
        m.queue_packet(&d, p.clone());
    }
    assert_eq!(m.take_pending_packets(&d), packets);
    assert!(m.take_pending_packets(&d).is_empty());
    assert_eq!(m.take_pending_packets(&e), vec![vec![99]]);
}
