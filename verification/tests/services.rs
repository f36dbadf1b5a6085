use netplane::dns::{build_response, parse_qname, u16_from_be, DnsServer};
use netplane::http::{http_get_request, parse_http_response, parse_url, split_lines, HttpError, HttpResponse, UrlError};
use netplane::link::{auth_url, link_outcome, link_url, stored_key_accepted, LinkError};
use netplane::logfmt::{strip_debug_quotes, write_json_string, write_kv, write_raw, write_string};
use netplane::messages::HandshakeReq;
use netplane::model::{optional_port, AppError, LogFormat, ServerStatsResponse};
use netplane::routing::{
    disable_consumer, disable_exit_node, enable_consumer, enable_exit_node, ip_forward_query,
    ConsumerRoutes, ExitNodeState, Platform,
};
use netplane::server::{auth_failure, handshake_outcome, ClientRecord, HandshakeResult, ServerStats, TransportMode};
use netplane::trafficlog::{replay_step, split_whitespace, traffic_log_line, LogLineError, ReplayEntry, ReplayStep, TrafficEntry};
use netplane::model::{AuthClient, CreateClientRequest};
use netplane::web::{auth_link_url, create_client_network, login_outcome, session_cookie, LoginOutcome};
use netplane::model::User;
use netplane::routing::{after_command, consumer_result, exit_node_result, first_step, RunStep};

#[test]
fn transport_mode_names() {
    assert_eq!(TransportMode::from_string("  UDP ".to_string()), Some(TransportMode::UDP));
    assert_eq!(TransportMode::from_string("ws".to_string()), Some(TransportMode::WebSocket));
    assert_eq!(TransportMode::from_string("WebSocket\n".to_string()), Some(TransportMode::WebSocket));
    assert_eq!(TransportMode::from_string("quic".to_string()), None);
    assert_eq!(TransportMode::UDP.as_string(), "udp");
    assert_eq!(TransportMode::WebSocket.as_string(), "websocket");
}

#[test]
fn stats_counters_wrap() {
    let mut s = ServerStats::new(TransportMode::UDP);
    assert_eq!(s.add_in_bytes(10), 0);
    assert_eq!(s.add_in_bytes(5), 10);
    assert_eq!(s.in_bytes, 15);
    s.out_bytes = usize::MAX;
    assert_eq!(s.add_out_bytes(2), usize::MAX);
    assert_eq!(s.out_bytes, 1);
    let r = ServerStatsResponse::from_stats(&s);
    assert_eq!(r.transport_mode, "udp");
    assert_eq!(r.in_bytes, 15);
}

#[test]
fn handshake_outcomes() {
    let req = HandshakeReq::new_with_crypto("k", "client-pk", false);
    let rec = ClientRecord {
        netmask: "255.255.255.0".to_string(),
        network: "10.0.0.0".to_string(),
        sdn_client_ip: "10.0.0.5".to_string(),
    };
    match handshake_outcome(&req, Some(rec)) {
        HandshakeResult::Success(rep, ip, key) => {
            assert_eq!(rep.sdn_ip_addr, "10.0.0.5");
            assert_eq!(ip, "10.0.0.5");
            assert_eq!(key, "client-pk");
        }
        _ => panic!("expected success"),
    }
    match handshake_outcome(&req, None) {
        HandshakeResult::Error(e) => assert_eq!(e.error_message, "Authorization failed: Unknown user"),
        _ => panic!("expected refusal"),
    }
    let no_key = HandshakeReq::new("k", false);
    let rec = ClientRecord {
        netmask: "255.255.255.0".to_string(),
        network: "10.0.0.0".to_string(),
        sdn_client_ip: "10.0.0.5".to_string(),
    };
    match handshake_outcome(&no_key, Some(rec)) {
        HandshakeResult::Error(e) => {
            assert_eq!(e.error_message, "Client must provide public key for E2E encryption")
        }
        _ => panic!("expected refusal"),
    }
    match auth_failure("Malformed key") {
        HandshakeResult::Error(e) => assert_eq!(e.error_message, "Authorization failed: Malformed key"),
        _ => panic!("expected refusal"),
    }
}

#[test]
fn whitespace_words() {
    assert_eq!(split_whitespace("  a\tbb  c \n"), vec!["a", "bb", "c"]);
    assert!(split_whitespace(" \u{3000} ").is_empty());
}

#[test]
fn traffic_log_lines() {
    let line = traffic_log_line("2024-01-01T00:00:00Z", "10.0.0.2", &[0x00, 0xab, 0x10]);
    assert_eq!(line, "2024-01-01T00:00:00Z 10.0.0.2 00ab10\n");
    let e = ReplayEntry::parse(&line).unwrap();
    assert_eq!(e.sdn_addr, "10.0.0.2");
    assert_eq!(e.data, vec![0x00, 0xab, 0x10]);
    assert_eq!(e._timestamp, "2024-01-01T00:00:00Z");
    let without_end = ReplayEntry::parse(line.trim_end_matches('\n')).unwrap();
    assert_eq!(without_end.sdn_addr, "10.0.0.2");
    assert_eq!(without_end.data, vec![0x00, 0xab, 0x10]);
    assert_eq!(ReplayEntry::parse("t 10.0.0.2").unwrap_err(), LogLineError::InvalidFormat);
    assert_eq!(ReplayEntry::parse("t 10.0.0.2 abc").unwrap_err(), LogLineError::InvalidHex);
    assert_eq!(ReplayEntry::parse("t 10.0.0.2 ZZ").unwrap_err(), LogLineError::InvalidHex);
}

#[test]
fn replay_file_lines() {
    let e = TrafficEntry::parse("t IN 1.2.3.4:5 len=+3 data=0A0b0c").unwrap();
    assert_eq!(e.direction, "IN");
    assert_eq!(e._len, 3);
    assert_eq!(e.data, vec![10, 11, 12]);
    assert_eq!(TrafficEntry::parse("t IN a 3 data=00").unwrap_err(), LogLineError::MissingLen);
    assert_eq!(TrafficEntry::parse("t IN a len=x data=00").unwrap_err(), LogLineError::InvalidLen);
    assert_eq!(TrafficEntry::parse("t IN a len= data=00").unwrap_err(), LogLineError::InvalidLen);
    assert_eq!(
        TrafficEntry::parse("t IN a len=99999999999999999999999 data=00").unwrap_err(),
        LogLineError::InvalidLen
    );
    assert_eq!(TrafficEntry::parse("t IN a len=1 00").unwrap_err(), LogLineError::MissingData);
    assert!(matches!(replay_step("   "), ReplayStep::Skip));
    assert!(matches!(replay_step("t OUT a len=1 data=00"), ReplayStep::Skip));
    assert!(matches!(replay_step("t IN a len=1 data=07"), ReplayStep::Send(d) if d == vec![7]));
    assert!(matches!(replay_step("t IN a"), ReplayStep::Invalid(LogLineError::InvalidFormat)));
}

fn query(qtype: u8) -> Vec<u8> {
    let mut q = vec![0x12, 0x34, 0x01, 0x00, 0x00, 0x01, 0, 0, 0, 0, 0, 0];
    q.extend_from_slice(&[4, b'h', b'o', b's', b't', 3, b'v', b'p', b'n', 0]);
    q.extend_from_slice(&[0, qtype, 0, 1]);
    q
}

#[test]
fn dns_responses() {
    assert_eq!(u16_from_be(&[0x12, 0x34]), 0x1234);
    let q = query(1);
    assert_eq!(parse_qname(&q, 12), Some(("host.vpn".to_string(), 22)));
    assert_eq!(parse_qname(&[3, b'a'], 0), None);
    let r = build_response(&q, Some("10.0.0.7".to_string())).unwrap();
    let mut expected = vec![0x12, 0x34, 0x81, 0x80, 0x00, 0x01, 0x00, 0x01, 0, 0, 0, 0];
    expected.extend_from_slice(&q[12..]);
    expected.extend_from_slice(&[0xC0, 0x0C, 0, 1, 0, 1, 0, 0, 0, 0x3C, 0, 4, 10, 0, 0, 7]);
    assert_eq!(r, expected);
    let nx = build_response(&q, None).unwrap();
    assert_eq!(&nx[2..4], &[0x81, 0x83]);
    assert_eq!(&nx[6..8], &[0, 0]);
    assert_eq!(nx.len(), q.len());
    let aaaa = build_response(&query(28), Some("10.0.0.7".to_string())).unwrap();
    assert_eq!(&aaaa[2..4], &[0x81, 0x83]);
    assert_eq!(build_response(&q, Some("bad".to_string())), None);
    assert_eq!(build_response(&q[..10], None), None);
    let server = DnsServer::new(5u8);
    assert_eq!(server.db, 5);
}

#[test]
fn url_parts() {
    assert_eq!(
        parse_url("http://localhost:8000/auth/abc".to_string()).unwrap(),
        ("localhost:8000".to_string(), "/auth/abc".to_string())
    );
    assert_eq!(
        parse_url("https://host/".to_string()).unwrap(),
        ("host".to_string(), "/".to_string())
    );
    assert_eq!(parse_url("ftp://host/x".to_string()).unwrap_err(), UrlError::ProtoNotFound);
    assert_eq!(parse_url("http://host".to_string()).unwrap_err(), UrlError::NoPath);
}

#[test]
fn log_fields() {
    assert_eq!(strip_debug_quotes("\"quoted\""), "quoted");
    assert_eq!(strip_debug_quotes("\""), "\"");
    assert_eq!(strip_debug_quotes("plain"), "plain");
    assert_eq!(write_kv("message", "hello"), " msg=hello");
    assert_eq!(write_kv("peer", "a b"), " peer=\"a b\"");
    assert_eq!(write_kv("k", ""), " k=\"\"");
    assert_eq!(write_kv("k", "x=\"y\"\n"), " k=\"x=\\\"y\\\"\\n\"");
    assert_eq!(write_json_string("a\"b\\c\u{1}"), "\"a\\\"b\\\\c\\u0001\"");
    assert_eq!(write_raw("n", "5"), ",\"n\":5");
    assert_eq!(write_string("k", "v\t"), ",\"k\":\"v\\t\"");
}

#[test]
fn routing_commands() {
    let c = enable_consumer(Platform::Linux, "tun0");
    assert_eq!(c.len(), 2);
    assert_eq!(c[0].program, "ip");
    assert_eq!(c[0].args, vec!["route", "add", "0.0.0.0/1", "dev", "tun0"]);
    assert!(c[1].must_succeed);
    let c = enable_consumer(Platform::MacOs, "utun3");
    assert_eq!(c[1].args, vec!["-n", "add", "-net", "128.0.0.0/1", "-interface", "utun3"]);
    assert!(enable_consumer(Platform::Other, "x").is_empty());
    let routes = ConsumerRoutes { tun_dev: "tun0".to_string() };
    let d = disable_consumer(Platform::Linux, &routes);
    assert_eq!(d[0].args[1], "del");
    assert!(!d[0].must_succeed);
    let e = enable_exit_node(Platform::Linux, "10.0.0.0/24", "tun0").unwrap();
    assert_eq!(e.len(), 5);
    assert_eq!(e[4].args[5], "ip saddr 10.0.0.0/24 oifname != \"tun0\" masquerade");
    assert_eq!(
        enable_exit_node(Platform::MacOs, "x", "y").unwrap_err(),
        "Exit-node server mode is only supported on Linux in this release"
    );
    assert_eq!(ip_forward_query().args, vec!["-n", "net.ipv4.ip_forward"]);
    let state = ExitNodeState {
        sdn_cidr: "10.0.0.0/24".to_string(),
        tun_dev: "tun0".to_string(),
        previous_ip_forward: Some("0".to_string()),
    };
    let d = disable_exit_node(Platform::Linux, &state);
    assert_eq!(d.len(), 2);
    assert_eq!(d[1].args, vec!["-w", "net.ipv4.ip_forward=0"]);
    assert!(disable_exit_node(Platform::Other, &state).is_empty());
}

#[test]
fn model_values() {
    assert_eq!(LogFormat::from_index(1), LogFormat::Json);
    assert_eq!(LogFormat::from_index(2), LogFormat::Logfmt);
    assert_eq!(LogFormat::from_index(7), LogFormat::Pretty);
    assert_eq!(LogFormat::default(), LogFormat::Pretty);
    assert_eq!(AppError::NoServer.message(), "noServer");
    assert_eq!(AppError::GenericError.message(), "genericError");
    assert_eq!(optional_port(0), None);
    assert_eq!(optional_port(8000), Some(8000));
}

#[test]
fn transport_mode_name_selects_the_mode_again() {
    for m in [TransportMode::UDP, TransportMode::WebSocket] {
        assert_eq!(TransportMode::from_string(m.as_string()), Some(m));
    }
    assert_eq!(TransportMode::UDP.as_string(), "udp");
    assert_eq!(TransportMode::WebSocket.as_string(), "websocket");
    assert_eq!(TransportMode::from_string("tcp".to_string()), None);
}

#[test]
fn web_decisions() {
    let req = |ip: &str, mask: &str| CreateClientRequest { sdn_client_ip: ip.to_string(), netmask: mask.to_string() };
    assert_eq!(create_client_network(&req("10.1.2.3", "255.255.0.0")), Ok("10.1.0.0".to_string()));
    assert_eq!(
        create_client_network(&req("10.1.2", "255.255.0.0")),
        Err("Invalid netmask or IP: Invalid IP address format".to_string())
    );
    assert_eq!(
        create_client_network(&req("10.1.2.3", "255.255.0.x")),
        Err("Invalid netmask or IP: Invalid netmask format".to_string())
    );
    let link = |id: Option<&str>, used: Option<bool>| AuthClient { client_id: id.map(|s| s.to_string()), used };
    assert_eq!(link(Some("c1"), Some(false)).link_client_id(), Ok("c1".to_string()));
    assert_eq!(link(Some("c1"), Some(true)).link_client_id(), Err("Link key already used".to_string()));
    assert_eq!(link(None, Some(false)).link_client_id(), Err("No user".to_string()));
    assert_eq!(link(Some("c1"), None).link_client_id(), Err("Unexpected error on auth".to_string()));
    let mut row = link(Some("c1"), Some(false));
    assert_eq!(row.redeem(), Ok("c1".to_string()));
    assert_eq!(row.used, Some(true));
    assert_eq!(row.redeem(), Err("Link key already used".to_string()));
    let mut nobody = link(None, Some(false));
    assert_eq!(nobody.redeem(), Err("No user".to_string()));
    assert_eq!(nobody.used, Some(false));
    assert_eq!(auth_link_url("https://s", "abc"), "https://s/auth/abc");
    assert_eq!(
        session_cookie("t0k"),
        "auth_token=t0k; HttpOnly; SameSite=Strict; Path=/; Max-Age=86400"
    );
}

#[test]
fn lines_of_text() {
    assert_eq!(split_lines("a\r\nb\n\nc"), vec!["a", "b", "", "c"]);
    assert_eq!(split_lines("x\n"), vec!["x"]);
    assert_eq!(split_lines("x\r"), vec!["x\r"]);
    assert!(split_lines("").is_empty());
    assert_eq!(split_lines("\n"), vec![""]);
    let text = "one\r\ntwo\n\nfour\r";
    let ours = split_lines(text);
    let std: Vec<&str> = text.lines().collect();
    assert_eq!(ours, std);
}

#[test]
fn server_replies() {
    let r = parse_http_response("HTTP/1.1 200 OK\r\nContent-Length: 5\r\n\r\nkey.sig\r\n").unwrap();
    assert_eq!(r, HttpResponse { status_code: 200, payload: "key.sig".to_string() });
    let r = parse_http_response("HTTP/1.1 404 Not Found\r\nX: y\r\n").unwrap();
    assert_eq!(r, HttpResponse { status_code: 404, payload: String::new() });
    let r = parse_http_response("HTTP/1.1 500\r\n\r\n").unwrap();
    assert_eq!(r, HttpResponse { status_code: 500, payload: String::new() });
    assert_eq!(parse_http_response(""), Err(HttpError::MissingStatus));
    assert_eq!(parse_http_response("HTTP/1.1\r\n"), Err(HttpError::MissingStatus));
    assert_eq!(parse_http_response("HTTP/1.1 099 x\r\n"), Err(HttpError::InvalidStatus));
    assert_eq!(parse_http_response("HTTP/1.1 20 x\r\n"), Err(HttpError::InvalidStatus));
    assert_eq!(parse_http_response("HTTP/1.1 2x0 x\r\n"), Err(HttpError::InvalidStatus));
}

#[test]
fn get_request_text() {
    assert_eq!(
        http_get_request("/auth", "10.0.0.1:8000", "k.s"),
        "GET /auth HTTP/1.1\r\nHost: 10.0.0.1:8000\r\nAuthorization: Bearer k.s\r\nConnection: close\r\n\r\n"
    );
}

#[test]
fn link_addresses_and_outcomes() {
    assert_eq!(auth_url("example.org", None), "http://example.org:8000/auth");
    assert_eq!(auth_url("example.org", Some(9)), "http://example.org:9/auth");
    assert_eq!(link_url("h", Some(8080), "abc"), "http://h:8080/auth/abc");
    assert!(stored_key_accepted(&HttpResponse { status_code: 200, payload: String::new() }));
    assert!(!stored_key_accepted(&HttpResponse { status_code: 401, payload: String::new() }));
    assert_eq!(link_outcome(HttpResponse { status_code: 200, payload: "k".to_string() }), Ok("k".to_string()));
    assert_eq!(
        link_outcome(HttpResponse { status_code: 500, payload: "bad link".to_string() }),
        Err(LinkError::Refused { status: 500, reason: "bad link".to_string() })
    );
}

#[test]
fn login_decisions() {
    let hash = bcrypt::hash("s3cret", 4).unwrap();
    let user = User { email: "a@b.c".to_string(), password_hash: hash, role: "admin".to_string() };
    assert_eq!(login_outcome(Some(&user), "s3cret"), LoginOutcome::Accepted);
    assert_eq!(login_outcome(Some(&user), "wrong"), LoginOutcome::InvalidCredentials);
    assert_eq!(login_outcome(None, "s3cret"), LoginOutcome::InvalidCredentials);
    let broken = User { email: "a@b.c".to_string(), password_hash: "plain".to_string(), role: "admin".to_string() };
    assert_eq!(login_outcome(Some(&broken), "plain"), LoginOutcome::InvalidCredentials);
}

#[test]
fn command_runs_stop_at_a_required_failure() {
    let cmds = enable_consumer(Platform::Linux, "tun0");
    assert_eq!(first_step(&cmds), RunStep::Run(0));
    assert_eq!(after_command(&cmds, 0, Ok(())), RunStep::Run(1));
    assert_eq!(after_command(&cmds, 1, Ok(())), RunStep::Done);
    assert_eq!(after_command(&cmds, 0, Err("ip failed".to_string())), RunStep::Failed("ip failed".to_string()));
    let undo = disable_consumer(Platform::Linux, &consumer_result("tun0", Ok(())).unwrap());
    assert_eq!(after_command(&undo, 0, Err("gone".to_string())), RunStep::Run(1));
    assert_eq!(after_command(&undo, 1, Err("gone".to_string())), RunStep::Done);
    assert_eq!(first_step(&enable_consumer(Platform::Other, "tun0")), RunStep::Done);
    assert_eq!(consumer_result("tun0", Ok(())).unwrap().tun_dev, "tun0");
    assert_eq!(consumer_result("tun0", Err("e".to_string())).err(), Some("e".to_string()));
    let st = exit_node_result("10.0.0.0/24", "tun0", Some("0".to_string()), Ok(())).unwrap();
    assert_eq!((st.sdn_cidr.as_str(), st.tun_dev.as_str(), st.previous_ip_forward), ("10.0.0.0/24", "tun0", Some("0".to_string())));
    assert_eq!(exit_node_result("c", "t", None, Err("x".to_string())).err(), Some("x".to_string()));
}
