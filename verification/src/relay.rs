//! The relay server's decisions. For each datagram from a connection, the
//! server updates its table of peers and its counters and answers with
//! actions: bytes to send to connections, traffic to log, a handshake to
//! authenticate. Once a handshake reply went out, admitting the peer tells
//! it the other peers and announces it to them.
use vstd::prelude::*;

use crate::client::is_group_address;
use crate::ipv4::{ipv4_of_text, Ipv4};
use crate::message_type::{
    announce_header, classify, get_message_type, heartbeat_header, lemma_header_constants,
    list_header, MessageType, MessageView,
};
use crate::messages::{HandshakeReq, PeerState, UDPHeartbeat};
use crate::peer_messages::{
    peer_announce_bytes, peer_list_bytes, peer_views, PeerAnnounce, PeerAnnounceView,
    PeerEventType, PeerInfo, PeerInfoView, PeerList, PeerListView, PeerMessageView, RelayPacket,
    P2PHandshakeInit, P2PHandshakeResp,
};
use crate::peers::{
    done_infos, done_keys, done_keys_except, done_keys_other_than, entry_info, first_done_with, is_done, key_index,
    without_key, without_text, Endpoint, PeerEntry, PeerKey, Peers,
};
use crate::server::{wrapping_sum, ServerStats};
use crate::wire::copy_range;

verus! {

/// What the server does after a decision.
pub enum ServerAction<K> {
    /// Send `data` to the connection `to`; when `counted`, a successful send
    /// adds to the counter of bytes sent.
    SendTo { to: K, data: Vec<u8>, counted: bool },
    /// Append `data` to the traffic log, under the overlay address `sdn_addr`.
    LogTraffic { sdn_addr: String, data: Vec<u8> },
    /// Authenticate the client of the connection with its handshake request;
    /// the reply goes back to that connection.
    Authenticate(HandshakeReq),
}

/// The contents of an action.
pub enum ServerActionView<K> {
    SendTo { to: K, data: Seq<u8>, counted: bool },
    LogTraffic { sdn_addr: Seq<char>, data: Seq<u8> },
    Authenticate(crate::messages::HandshakeReqView),
}

impl<K> View for ServerAction<K> {
    type V = ServerActionView<K>;

    open spec fn view(&self) -> ServerActionView<K> {
        match self {
            ServerAction::SendTo { to, data, counted } => ServerActionView::SendTo {
                to: *to,
                data: data@,
                counted: *counted,
            },
            ServerAction::LogTraffic { sdn_addr, data } => ServerActionView::LogTraffic {
                sdn_addr: sdn_addr@,
                data: data@,
            },
            ServerAction::Authenticate(req) => ServerActionView::Authenticate(req@),
        }
    }
}

/// The contents of a sequence of actions.
pub open spec fn server_actions<K>(a: Seq<ServerAction<K>>) -> Seq<ServerActionView<K>> {
    a.map_values(|x: ServerAction<K>| x@)
}

/// Sends of `data` to each of `keys`, in order.
pub open spec fn sends_to<K>(keys: Seq<K>, data: Seq<u8>, counted: bool) -> Seq<ServerActionView<K>> {
    keys.map_values(|k: K| ServerActionView::SendTo { to: k, data, counted })
}

/// A processing failure that stops the UDP server: an address in a
/// message that is no IPv4 address.
#[derive(Debug, Clone, Copy, PartialEq, Eq, Structural)]
pub enum RelayError {
    InvalidAddress,
}

/// The table after the connection `key` was heard of: filed as a pending
/// connection when it was not.
pub open spec fn with_connection<K>(s: Seq<PeerEntry<K>>, key: K, now: u64) -> Seq<PeerEntry<K>> {
    if key_index(s, key) >= 0 {
        s
    } else {
        s.push(
            PeerEntry {
                key,
                sdn_addr: Ipv4 { bits: 0 },
                state: PeerState::HandshakePending,
                client_public_key: None,
                last_heartbeat: now,
            },
        )
    }
}

/// The handshake state of the connection `key` once it was heard of.
pub open spec fn connection_state<K>(s: Seq<PeerEntry<K>>, key: K) -> PeerState {
    if key_index(s, key) >= 0 {
        s[key_index(s, key)].state
    } else {
        PeerState::HandshakePending
    }
}

/// The table after the connection `key` was heard of at `now`.
pub open spec fn touched<K>(s: Seq<PeerEntry<K>>, key: K, now: u64) -> Seq<PeerEntry<K>> {
    if key_index(s, key) >= 0 {
        s.update(key_index(s, key), PeerEntry { last_heartbeat: now, ..s[key_index(s, key)] })
    } else {
        s
    }
}

/// Where a packet relayed to `dst` goes from a UDP server with table `s`:
/// for a multicast or broadcast address, every other peer whose handshake
/// is done; else the peer with that address.
pub open spec fn udp_relay_targets(s: Seq<PeerEntry<Endpoint>>, src: Ipv4, dst: Ipv4) -> Seq<Endpoint> {
    if is_group_address(dst) {
        done_keys_except(s, src)
    } else {
        match first_done_with(s, dst) {
            Some(k) => seq![k],
            None => Seq::empty(),
        }
    }
}

/// The forward of `data` to the peer with address `ip`, when one is
/// connected.
pub open spec fn forward_to<K>(s: Seq<PeerEntry<K>>, ip: Ipv4, data: Seq<u8>) -> Seq<ServerActionView<K>> {
    match first_done_with(s, ip) {
        Some(k) => seq![ServerActionView::SendTo { to: k, data, counted: false }],
        None => Seq::empty(),
    }
}

/// How routing the relayed packet `v` ends: an error when its destination,
/// or for a group destination its source, is no IPv4 address.
pub open spec fn relay_outcome(v: PeerMessageView) -> Result<(), RelayError> {
    match ipv4_of_text(v.second_ip) {
        None => Err(RelayError::InvalidAddress),
        Some(dst) => if is_group_address(dst) && ipv4_of_text(v.first_ip) is None {
            Err(RelayError::InvalidAddress)
        } else {
            Ok(())
        },
    }
}

/// What routing the relayed packet `v`, received as `data`, does with table
/// `s0`, up to where it stops: the log of the packet when traffic is logged
/// and its destination is an address, then a copy to every connected peer
/// but the sender for a group destination, or to the peer with the
/// destination address.
pub open spec fn relay_actions(
    s0: Seq<PeerEntry<Endpoint>>,
    v: PeerMessageView,
    data: Seq<u8>,
    log_traffic: bool,
) -> Seq<ServerActionView<Endpoint>> {
    match ipv4_of_text(v.second_ip) {
        None => Seq::empty(),
        Some(dst) => {
            let log = if log_traffic {
                seq![ServerActionView::LogTraffic { sdn_addr: v.second_ip, data }]
            } else {
                Seq::empty()
            };
            if is_group_address(dst) {
                match ipv4_of_text(v.first_ip) {
                    None => log,
                    Some(from) => log + sends_to(done_keys_except(s0, from), data, true),
                }
            } else {
                log + sends_to(
                    match first_done_with(s0, dst) {
                        Some(k) => seq![k],
                        None => Seq::empty(),
                    },
                    data,
                    true,
                )
            }
        },
    }
}

/// The table of a UDP server after datagram `data` from connection `src`
/// at `now`, `s` being its table before: the connection filed, and touched
/// by a connected peer's heartbeat.
pub open spec fn udp_table(s: Seq<PeerEntry<Endpoint>>, src: Endpoint, data: Seq<u8>, now: u64) -> Seq<PeerEntry<Endpoint>> {
    let s0 = with_connection(s, src, now);
    match connection_state(s, src) {
        PeerState::HandshakeDone => match classify(data) {
            MessageView::Heartbeat(_) => touched(s0, src, now),
            _ => s0,
        },
        PeerState::HandshakePending => s0,
    }
}

/// How the processing of datagram `data` from connection `src` ends, `s`
/// being the table before it: a connected peer's routed message that names
/// no IPv4 address where one is read is an error.
pub open spec fn udp_outcome(s: Seq<PeerEntry<Endpoint>>, src: Endpoint, data: Seq<u8>) -> Result<(), RelayError> {
    let bad = Err::<(), RelayError>(RelayError::InvalidAddress);
    match connection_state(s, src) {
        PeerState::HandshakeDone => match classify(data) {
            MessageView::RelayPacket(v) => relay_outcome(v),
            MessageView::P2PHandshakeInit(v) => if ipv4_of_text(v.second_ip) is None {
                bad
            } else {
                Ok(())
            },
            MessageView::P2PHandshakeResp(v) => if ipv4_of_text(v.first_ip) is None {
                bad
            } else {
                Ok(())
            },
            _ => Ok(()),
        },
        PeerState::HandshakePending => Ok(()),
    }
}

/// What a UDP server does with datagram `data` from connection `src` at
/// `now`, `s` being its table before, up to where it stops: a pending
/// connection's handshake request goes to authentication; a connected
/// peer's relayed packet is logged (when traffic is logged and its
/// destination is an address) and then sent to every other connected peer
/// for a group destination, to the peer with the destination address
/// otherwise; a peer handshake message goes to the peer it names; a
/// heartbeat is answered.
pub open spec fn udp_actions(
    s: Seq<PeerEntry<Endpoint>>,
    src: Endpoint,
    data: Seq<u8>,
    now: u64,
    log_traffic: bool,
) -> Seq<ServerActionView<Endpoint>> {
    let s0 = with_connection(s, src, now);
    match connection_state(s, src) {
        PeerState::HandshakePending => match classify(data) {
            MessageView::HandshakeReq(v) => seq![ServerActionView::Authenticate(v)],
            _ => Seq::empty(),
        },
        PeerState::HandshakeDone => match classify(data) {
            MessageView::RelayPacket(v) => relay_actions(s0, v, data, log_traffic),
            MessageView::P2PHandshakeInit(v) => match ipv4_of_text(v.second_ip) {
                None => Seq::empty(),
                Some(ip) => forward_to(s0, ip, data),
            },
            MessageView::P2PHandshakeResp(v) => match ipv4_of_text(v.first_ip) {
                None => Seq::empty(),
                Some(ip) => forward_to(s0, ip, data),
            },
            MessageView::Heartbeat(_) => seq![ServerActionView::SendTo { to: src, data: heartbeat_header(), counted: false }],
            _ => Seq::empty(),
        },
    }
}

/// Sends of a copy of `data` to each key.
fn send_all<K: PeerKey>(keys: &Vec<K>, data: &[u8], counted: bool, out: &mut Vec<ServerAction<K>>)
    ensures
        server_actions(final(out)@) == server_actions(old(out)@) + sends_to(keys@, data@, counted),
{
    let mut i: usize = 0;
    while i < keys.len()
        invariant
            i <= keys.len(),
            server_actions(out@) == server_actions(old(out)@) + sends_to(keys@.take(i as int), data@, counted),
        decreases keys.len() - i,
    {
        let ghost before = out@;
        out.push(ServerAction::SendTo { to: keys[i], data: copy_range(data, 0, data.len()), counted });
        proof {
            assert(data@.subrange(0, data@.len() as int) =~= data@);
            assert(keys@.take(i + 1) =~= keys@.take(i as int).push(keys@[i as int]));
            assert(server_actions(out@) =~= server_actions(before).push(
                ServerActionView::SendTo { to: keys@[i as int], data: data@, counted },
            ));
            assert(sends_to(keys@.take(i + 1), data@, counted) =~= sends_to(keys@.take(i as int), data@, counted).push(
                ServerActionView::SendTo { to: keys@[i as int], data: data@, counted },
            ));
        }
        i = i + 1;
    }
    assert(keys@.take(keys@.len() as int) =~= keys@);
}

/// The forward of a peer handshake message to the peer with the address
/// named by `ip_text`, appended to `out`.
fn forward_handshake<K: PeerKey>(peers: &Peers<K>, ip_text: &str, data: &[u8], out: &mut Vec<ServerAction<K>>) -> (r: Result<(), RelayError>)
    ensures
        match ipv4_of_text(ip_text@) {
            None => r == Err::<(), RelayError>(RelayError::InvalidAddress) && final(out)@ == old(out)@,
            Some(ip) => r == Ok::<(), RelayError>(()) && server_actions(final(out)@) == server_actions(old(out)@) + forward_to(peers@, ip, data@),
        },
{
    let ip = match Ipv4::parse(ip_text) {
        Some(ip) => ip,
        None => return Err(RelayError::InvalidAddress),
    };
    let ghost before = out@;
    match peers.find_by_sdn_ip(&ip) {
        Some(k) => {
            out.push(ServerAction::SendTo { to: k, data: copy_range(data, 0, data.len()), counted: false });
            assert(data@.subrange(0, data@.len() as int) =~= data@);
            assert(server_actions(out@) =~= server_actions(before) + forward_to(peers@, ip, data@));
        },
        None => {
            assert(server_actions(out@) =~= server_actions(before) + forward_to(peers@, ip, data@));
        },
    }
    Ok(())
}

/// Routes the relayed packet `relay`, received as `data`, with the peer
/// table `peers`, appending the actions to `out`.
fn route_relay(
    peers: &Peers<Endpoint>,
    relay: &RelayPacket,
    data: &[u8],
    log_traffic: bool,
    out: &mut Vec<ServerAction<Endpoint>>,
) -> (r: Result<(), RelayError>)
    ensures
        r == relay_outcome(relay@),
        server_actions(final(out)@) == server_actions(old(out)@) + relay_actions(peers@, relay@, data@, log_traffic),
{
    let ghost before = out@;
    let dst = match Ipv4::parse(relay.dst_sdn_ip.as_str()) {
        Some(ip) => ip,
        None => {
            assert(server_actions(out@) =~= server_actions(before) + Seq::<ServerActionView<Endpoint>>::empty());
            return Err(RelayError::InvalidAddress);
        },
    };
    if log_traffic {
        out.push(ServerAction::LogTraffic {
            sdn_addr: relay.dst_sdn_ip.clone(),
            data: copy_range(data, 0, data.len()),
        });
        assert(data@.subrange(0, data@.len() as int) =~= data@);
        assert(server_actions(out@) =~= server_actions(before) + seq![ServerActionView::LogTraffic { sdn_addr: relay@.second_ip, data: data@ }]);
    } else {
        assert(server_actions(out@) =~= server_actions(before) + Seq::<ServerActionView<Endpoint>>::empty());
    }
    let ghost logged = out@;
    if dst.is_multicast_or_broadcast() {
        let from = match Ipv4::parse(relay.src_sdn_ip.as_str()) {
            Some(ip) => ip,
            None => return Err(RelayError::InvalidAddress),
        };
        let keys = peers.find_all_addrs_except(&from);
        send_all(&keys, data, true, out);
        assert(server_actions(out@) =~= server_actions(before) + relay_actions(peers@, relay@, data@, log_traffic));
    } else {
        let keys: Vec<Endpoint> = match peers.find_by_sdn_ip(&dst) {
            Some(k) => {
                let mut v: Vec<Endpoint> = Vec::new();
                v.push(k);
                v
            },
            None => Vec::new(),
        };
        assert(keys@ =~= match first_done_with(peers@, dst) {
            Some(k) => seq![k],
            None => Seq::<Endpoint>::empty(),
        });
        send_all(&keys, data, true, out);
        assert(server_actions(out@) =~= server_actions(before) + relay_actions(peers@, relay@, data@, log_traffic));
    }
    Ok(())
}

/// Handles a datagram `data` from the UDP connection `src` at `now`: counts
/// it, files a new connection as pending, and then either asks to
/// authenticate a pending connection's handshake request, or routes a
/// connected peer's relayed packets and peer handshakes and answers its
/// heartbeats. The actions to take are appended to `out`, in order; an
/// address that is no IPv4 address in a routed message stops the
/// processing with an error, after the actions that came before it.
#[verifier::spinoff_prover]
pub fn udp_network(
    peers: &mut Peers<Endpoint>,
    stats: &mut ServerStats,
    src: Endpoint,
    data: &[u8],
    now: u64,
    log_traffic: bool,
    out: &mut Vec<ServerAction<Endpoint>>,
) -> (r: Result<(), RelayError>)
    ensures
        final(peers)@ == udp_table(old(peers)@, src, data@, now),
        r == udp_outcome(old(peers)@, src, data@),
        server_actions(final(out)@) == server_actions(old(out)@) + udp_actions(old(peers)@, src, data@, now, log_traffic),
        final(stats).in_bytes == wrapping_sum(old(stats).in_bytes, data@.len() as usize),
        final(stats).out_bytes == old(stats).out_bytes,
        final(stats).transport_mode == old(stats).transport_mode,
{
    stats.add_in_bytes(data.len());
    let state = peers.state_or_insert(src, now);
    let ghost before = out@;
    match state {
        PeerState::HandshakePending => {
            match get_message_type(data) {
                MessageType::HandshakeReq(req) => {
                    let ghost v = req@;
                    out.push(ServerAction::Authenticate(req));
                    assert(server_actions(out@) =~= server_actions(before) + seq![ServerActionView::Authenticate(v)]);
                },
                _ => {
                    assert(server_actions(out@) =~= server_actions(before) + Seq::<ServerActionView<Endpoint>>::empty());
                },
            }
            Ok(())
        },
        PeerState::HandshakeDone => {
            match get_message_type(data) {
                MessageType::RelayPacket(relay) => route_relay(peers, &relay, data, log_traffic, out),
                MessageType::P2PHandshakeInit(init) => {
                    let r = forward_handshake(peers, init.responder_sdn_ip.as_str(), data, out);
                    assert(server_actions(out@) =~= server_actions(before) + udp_actions(old(peers)@, src, data@, now, log_traffic));
                    r
                },
                MessageType::P2PHandshakeResp(resp) => {
                    let r = forward_handshake(peers, resp.initiator_sdn_ip.as_str(), data, out);
                    assert(server_actions(out@) =~= server_actions(before) + udp_actions(old(peers)@, src, data@, now, log_traffic));
                    r
                },
                MessageType::Heartbeat(_) => {
                    peers.touch(&src, now);
                    let reply = UDPHeartbeat::new();
                    proof {
                        lemma_header_constants();
                    }
                    match reply.serialize() {
                        Ok(bytes) => {
                            out.push(ServerAction::SendTo { to: src, data: bytes, counted: false });
                        },
                        Err(_) => {},
                    }
                    assert(server_actions(out@) =~= server_actions(before) + seq![ServerActionView::SendTo { to: src, data: heartbeat_header(), counted: false }]);
                    Ok(())
                },
                _ => {
                    assert(server_actions(out@) =~= server_actions(before) + Seq::<ServerActionView<Endpoint>>::empty());
                    Ok(())
                },
            }
        },
    }
}


/// True for peer entries whose address is not `0.0.0.0`.
pub open spec fn not_unspecified() -> spec_fn(PeerInfoView) -> bool {
    |p: PeerInfoView| ipv4_of_text(p.sdn_ip) != Some(Ipv4 { bits: 0 })
}

/// True for peer entries whose address text is not `t`.
pub open spec fn other_address(t: Seq<char>) -> spec_fn(PeerInfoView) -> bool {
    |p: PeerInfoView| p.sdn_ip != t
}

/// The bytes of a peer list message.
pub open spec fn list_message(peers: Seq<PeerInfoView>) -> Seq<u8> {
    peer_list_bytes(PeerListView { header: list_header(), peers })
}

/// The bytes of an announcement of `event` for the peer `peer`.
pub open spec fn announce_message(event: PeerEventType, peer: PeerInfoView) -> Seq<u8> {
    peer_announce_bytes(PeerAnnounceView { header: announce_header(), event_type: event, peer })
}

/// Keeps the peer entries that `keep` accepts: those whose address is not
/// `0.0.0.0` (`exclude` is `None`) or whose address text is not `exclude`.
fn filter_peers(list: Vec<PeerInfo>, exclude: Option<&str>) -> (r: Vec<PeerInfo>)
    ensures
        peer_views(r@) == match exclude {
            None => peer_views(list@).filter(not_unspecified()),
            Some(t) => peer_views(list@).filter(other_address(t@)),
        },
{
    let ghost src = peer_views(list@);
    let ghost pred = match exclude {
        None => not_unspecified(),
        Some(t) => other_address(t@),
    };
    let n = list.len();
    let mut rest = list;
    let mut kept: Vec<PeerInfo> = Vec::new();
    let mut i: usize = 0;
    while i < n
        invariant
            n == src.len(),
            i <= n,
            peer_views(rest@) == src.skip(i as int),
            rest@.len() == n - i,
            peer_views(kept@) == src.take(i as int).filter(pred),
            pred == match exclude {
                None => not_unspecified(),
                Some(t) => other_address(t@),
            },
        decreases n - i,
    {
        let ghost before_rest = rest@;
        let p = rest.remove(0);
        proof {
            assert(before_rest[0] == p);
            assert(peer_views(before_rest)[0] == p@);
            assert(p@ == src[i as int]);
            assert(peer_views(rest@) =~= src.skip(i + 1)) by {
                assert forall|j: int| 0 <= j < rest@.len() implies peer_views(rest@)[j] == src.skip(i + 1)[j] by {
                    assert(rest@[j] == before_rest[j + 1]);
                    assert(peer_views(before_rest)[j + 1] == src.skip(i as int)[j + 1]);
                }
            }
            lemma_filter_step_views(src, pred, i as int);
        }
        let keep = match exclude {
            None => match Ipv4::parse(p.sdn_ip.as_str()) {
                Some(ip) => ip.bits != 0,
                None => true,
            },
            Some(t) => !crate::text::bytes_eq(
                crate::text::str_bytes(p.sdn_ip.as_str()).as_slice(),
                crate::text::str_bytes(t).as_slice(),
            ),
        };
        proof {
            if let Some(t) = exclude {
                vstd::utf8::encode_utf8_decode_utf8(p.sdn_ip@);
                vstd::utf8::encode_utf8_decode_utf8(t@);
            }
            assert(keep == pred(src[i as int]));
        }
        let ghost before = kept@;
        if keep {
            kept.push(p);
            assert(peer_views(kept@) =~= peer_views(before).push(src[i as int]));
        }
        i = i + 1;
    }
    assert(src.take(n as int) =~= src);
    kept
}

proof fn lemma_filter_step_views(s: Seq<PeerInfoView>, pred: spec_fn(PeerInfoView) -> bool, i: int)
    requires
        0 <= i < s.len(),
    ensures
        s.take(i + 1).filter(pred) == if pred(s[i]) {
            s.take(i).filter(pred).push(s[i])
        } else {
            s.take(i).filter(pred)
        },
{
    reveal(Seq::filter);
    assert(s.take(i + 1).drop_last() =~= s.take(i));
    assert(s.take(i + 1).last() == s[i]);
}

/// The peer list message holding `peers`.
fn list_bytes(peers: Vec<PeerInfo>) -> (r: Vec<u8>)
    ensures
        r@ == list_message(peer_views(peers@)),
{
    proof {
        lemma_header_constants();
    }
    let msg = PeerList::new(peers);
    match msg.serialize() {
        Ok(b) => b,
        Err(_) => {
            assert(false);
            Vec::new()
        },
    }
}

/// The announcement message of `event` for the peer `sdn_ip`, `pk`.
fn announce_bytes(event: PeerEventType, info: PeerInfo) -> (r: Vec<u8>)
    ensures
        r@ == announce_message(event, info@),
{
    proof {
        lemma_header_constants();
    }
    let msg = PeerAnnounce::new(event, info);
    match msg.serialize() {
        Ok(b) => b,
        Err(_) => {
            assert(false);
            Vec::new()
        },
    }
}

/// Admits a UDP peer whose handshake reply went out: files its address
/// and key (forgetting older connections of the same address), sends it
/// the list of connected peers, and announces it to every other connected
/// peer.
pub fn admit_udp_peer(peers: &mut Peers<Endpoint>, src: Endpoint, sdn_client_ip: &str, client_pub_key: &str) -> (r: Vec<ServerAction<Endpoint>>)
    requires
        ipv4_of_text(sdn_client_ip@) is Some,
    ensures
        crate::peers::recorded(
            without_text(old(peers)@, sdn_client_ip@),
            src,
            ipv4_of_text(sdn_client_ip@)->Some_0,
            client_pub_key@,
            PeerState::HandshakeDone,
            final(peers)@,
        ),
        server_actions(r@) == seq![
            ServerActionView::SendTo {
                to: src,
                data: list_message(done_infos(final(peers)@).filter(not_unspecified())),
                counted: false,
            },
        ] + sends_to(
            done_keys_other_than(final(peers)@, src),
            announce_message(
                PeerEventType::Connected,
                PeerInfoView { sdn_ip: sdn_client_ip@, public_key: client_pub_key@ },
            ),
            false,
        ),
{
    peers.update(src, sdn_client_ip, client_pub_key, PeerState::HandshakeDone);
    let listed = filter_peers(peers.get_peer_list(), None);
    let mut out: Vec<ServerAction<Endpoint>> = Vec::new();
    out.push(ServerAction::SendTo { to: src, data: list_bytes(listed), counted: false });
    let announce = announce_bytes(PeerEventType::Connected, PeerInfo::new(sdn_client_ip, client_pub_key));
    let targets = peers.done_keys_other_than(&src);
    let ghost before = out@;
    send_all(&targets, announce.as_slice(), false, &mut out);
    out
}

/// What a WebSocket server does with datagram `data` from connection `id`
/// at `now`, `s` being its table before and `s1` after.
pub open spec fn ws_effect(
    s: Seq<PeerEntry<i32>>,
    s1: Seq<PeerEntry<i32>>,
    acts: Seq<ServerActionView<i32>>,
    id: i32,
    data: Seq<u8>,
    now: u64,
) -> bool {
    let s0 = with_connection(s, id, now);
    &&& s1 == s0
    &&& acts == match connection_state(s, id) {
        PeerState::HandshakePending => match classify(data) {
            MessageView::HandshakeReq(v) => seq![ServerActionView::Authenticate(v)],
            _ => Seq::empty(),
        },
        PeerState::HandshakeDone => match classify(data) {
            MessageView::RelayPacket(v) => match ipv4_of_text(v.second_ip) {
                None => Seq::empty(),
                Some(dst) => sends_to(
                    match first_done_with(s0, dst) {
                        Some(k) => seq![k],
                        None => Seq::empty(),
                    },
                    data,
                    true,
                ),
            },
            MessageView::P2PHandshakeInit(v) => match ipv4_of_text(v.second_ip) {
                None => Seq::empty(),
                Some(ip) => forward_to(s0, ip, data),
            },
            MessageView::P2PHandshakeResp(v) => match ipv4_of_text(v.first_ip) {
                None => Seq::empty(),
                Some(ip) => forward_to(s0, ip, data),
            },
            _ => Seq::empty(),
        },
    }
}

/// Handles a datagram `data` from the WebSocket connection `peer_id` at
/// `now`: counts it, files a new connection as pending, and then either asks
/// to authenticate a pending connection's handshake request, or routes a
/// connected peer's relayed packets and peer handshakes. Messages naming an
/// address that is no IPv4 address are dropped.
pub fn ws_message(
    peers: &mut Peers<i32>,
    stats: &mut ServerStats,
    peer_id: i32,
    data: &[u8],
    now: u64,
) -> (r: Vec<ServerAction<i32>>)
    ensures
        ws_effect(old(peers)@, final(peers)@, server_actions(r@), peer_id, data@, now),
        final(stats).in_bytes == wrapping_sum(old(stats).in_bytes, data@.len() as usize),
        final(stats).out_bytes == old(stats).out_bytes,
        final(stats).transport_mode == old(stats).transport_mode,
{
    stats.add_in_bytes(data.len());
    let state = peers.state_or_insert(peer_id, now);
    let mut out: Vec<ServerAction<i32>> = Vec::new();
    assert(server_actions(out@) =~= Seq::<ServerActionView<i32>>::empty());
    match state {
        PeerState::HandshakePending => {
            match get_message_type(data) {
                MessageType::HandshakeReq(req) => {
                    out.push(ServerAction::Authenticate(req));
                    assert(server_actions(out@) =~= seq![ServerActionView::Authenticate(out@[0]->Authenticate_0@)]);
                },
                _ => {},
            }
            out
        },
        PeerState::HandshakeDone => {
            match get_message_type(data) {
                MessageType::RelayPacket(relay) => {
                    if let Some(dst) = Ipv4::parse(relay.dst_sdn_ip.as_str()) {
                        let keys: Vec<i32> = match peers.find_by_sdn_ip(&dst) {
                            Some(k) => {
                                let mut v: Vec<i32> = Vec::new();
                                v.push(k);
                                v
                            },
                            None => Vec::new(),
                        };
                        assert(keys@ =~= match first_done_with(peers@, dst) {
                            Some(k) => seq![k],
                            None => Seq::<i32>::empty(),
                        });
                        send_all(&keys, data, true, &mut out);
                    }
                    out
                },
                MessageType::P2PHandshakeInit(init) => {
                    let _ = forward_handshake(peers, init.responder_sdn_ip.as_str(), data, &mut out);
                    out
                },
                MessageType::P2PHandshakeResp(resp) => {
                    let _ = forward_handshake(peers, resp.initiator_sdn_ip.as_str(), data, &mut out);
                    out
                },
                _ => out,
            }
        },
    }
}

/// Admits a WebSocket peer whose handshake reply went out: records its
/// address and key, sends it the list of the other connected peers, and
/// announces it to every other connected peer.
pub fn admit_ws_peer(peers: &mut Peers<i32>, peer_id: i32, sdn_client_ip: &str, client_pub_key: &str) -> (r: Vec<ServerAction<i32>>)
    requires
        ipv4_of_text(sdn_client_ip@) is Some,
    ensures
        crate::peers::recorded(
            old(peers)@,
            peer_id,
            ipv4_of_text(sdn_client_ip@)->Some_0,
            client_pub_key@,
            PeerState::HandshakeDone,
            final(peers)@,
        ),
        server_actions(r@) == seq![
            ServerActionView::SendTo {
                to: peer_id,
                data: list_message(done_infos(final(peers)@).filter(other_address(sdn_client_ip@))),
                counted: false,
            },
        ] + sends_to(
            done_keys_other_than(final(peers)@, peer_id),
            announce_message(
                PeerEventType::Connected,
                PeerInfoView { sdn_ip: sdn_client_ip@, public_key: client_pub_key@ },
            ),
            false,
        ),
{
    let ip = match Ipv4::parse(sdn_client_ip) {
        Some(ip) => ip,
        None => {
            assert(false);
            return Vec::new();
        },
    };
    peers.set_done(&peer_id, ip, client_pub_key);
    let listed = filter_peers(peers.get_peer_list(), Some(sdn_client_ip));
    let mut out: Vec<ServerAction<i32>> = Vec::new();
    out.push(ServerAction::SendTo { to: peer_id, data: list_bytes(listed), counted: false });
    let announce = announce_bytes(PeerEventType::Connected, PeerInfo::new(sdn_client_ip, client_pub_key));
    let targets = peers.done_keys_other_than(&peer_id);
    send_all(&targets, announce.as_slice(), false, &mut out);
    out
}

/// Forgets a WebSocket connection that closed and, when its handshake was
/// done, announces its departure to every remaining connected peer.
pub fn ws_disconnect(peers: &mut Peers<i32>, peer_id: i32) -> (r: Vec<ServerAction<i32>>)
    ensures
        final(peers)@ == without_key(old(peers)@, peer_id),
        server_actions(r@) == if key_index(old(peers)@, peer_id) >= 0 && is_done(
            old(peers)@[key_index(old(peers)@, peer_id)],
        ) {
            sends_to(
                done_keys(final(peers)@),
                announce_message(
                    PeerEventType::Disconnected,
                    entry_info(old(peers)@[key_index(old(peers)@, peer_id)]),
                ),
                false,
            )
        } else {
            Seq::empty()
        },
{
    let info = peers.done_peer_info(&peer_id);
    peers.remove(&peer_id);
    let mut out: Vec<ServerAction<i32>> = Vec::new();
    match info {
        Some(info) => {
            let announce = announce_bytes(PeerEventType::Disconnected, info);
            let targets = peers.get_all_tx();
            send_all(&targets, announce.as_slice(), false, &mut out);
            assert(Seq::<ServerActionView<i32>>::empty() + sends_to(targets@, announce@, false) =~= sends_to(targets@, announce@, false));
        },
        None => {
            assert(server_actions(out@) =~= Seq::<ServerActionView<i32>>::empty());
        },
    }
    out
}


/// The first connection, whatever its state, whose address is `ip`.
pub open spec fn first_with_addr<K>(s: Seq<PeerEntry<K>>, ip: Ipv4) -> Option<K>
    decreases s.len(),
{
    if s.len() == 0 {
        None
    } else {
        match first_with_addr(s.drop_last(), ip) {
            Some(k) => Some(k),
            None => if s.last().sdn_addr == ip {
                Some(s.last().key)
            } else {
                None
            },
        }
    }
}

/// Replays a logged datagram of the peer `src`: sends it to the first
/// connection whose address is `src`.
pub fn udp_replay(peers: &Peers<Endpoint>, src: &Ipv4, data: &[u8]) -> (r: Option<ServerAction<Endpoint>>)
    ensures
        match first_with_addr(peers@, *src) {
            Some(k) => r matches Some(a) && a@ == ServerActionView::SendTo { to: k, data: data@, counted: false },
            None => r is None,
        },
{
    let all = peers.to_vec();
    let mut i: usize = 0;
    while i < all.len()
        invariant
            i <= all@.len(),
            all@.len() == peers@.len(),
            forall|j: int| 0 <= j < all@.len() ==> #[trigger] all@[j] == (peers@[j].key, peers@[j].sdn_addr),
            first_with_addr(peers@.take(i as int), *src) is None,
        decreases all@.len() - i,
    {
        proof {
            assert(peers@.take(i + 1).drop_last() =~= peers@.take(i as int));
            assert(all@[i as int] == (peers@[i as int].key, peers@[i as int].sdn_addr));
        }
        let (key, addr) = all[i];
        if addr == *src {
            proof {
                lemma_first_with_addr_prefix(peers@, *src, i as int + 1);
            }
            let a = ServerAction::SendTo { to: key, data: copy_range(data, 0, data.len()), counted: false };
            assert(data@.subrange(0, data@.len() as int) =~= data@);
            return Some(a);
        }
        i = i + 1;
    }
    assert(peers@.take(i as int) =~= peers@);
    None
}

proof fn lemma_first_with_addr_prefix<K>(s: Seq<PeerEntry<K>>, ip: Ipv4, m: int)
    requires
        0 < m <= s.len(),
        first_with_addr(s.take(m), ip) is Some,
    ensures
        first_with_addr(s, ip) == first_with_addr(s.take(m), ip),
    decreases s.len() - m,
{
    if m < s.len() {
        assert(s.drop_last().take(m) =~= s.take(m));
        lemma_first_with_addr_prefix(s.drop_last(), ip, m);
    } else {
        assert(s.take(m) =~= s);
    }
}


proof fn lemma_first_done_none<K>(s: Seq<PeerEntry<K>>, ip: Ipv4)
    requires
        forall|j: int| 0 <= j < s.len() ==> !(is_done(#[trigger] s[j]) && s[j].sdn_addr == ip),
    ensures
        first_done_with(s, ip) is None,
    decreases s.len(),
{
    if s.len() > 0 {
        let s0 = s.drop_last();
        assert forall|j: int| 0 <= j < s0.len() implies !(is_done(#[trigger] s0[j]) && s0[j].sdn_addr == ip) by {
            assert(s0[j] == s[j]);
        }
        lemma_first_done_none(s0, ip);
        assert(!(is_done(s[s.len() - 1]) && s[s.len() - 1].sdn_addr == ip));
    }
}

proof fn lemma_first_done_at<K>(s: Seq<PeerEntry<K>>, ip: Ipv4, i: int)
    requires
        0 <= i < s.len(),
        is_done(s[i]) && s[i].sdn_addr == ip,
        forall|j: int| 0 <= j < i ==> !(is_done(#[trigger] s[j]) && s[j].sdn_addr == ip),
    ensures
        first_done_with(s, ip) == Some(s[i].key),
    decreases s.len(),
{
    let s0 = s.drop_last();
    if i < s.len() - 1 {
        assert(s0[i] == s[i]);
        assert forall|j: int| 0 <= j < i implies !(is_done(#[trigger] s0[j]) && s0[j].sdn_addr == ip) by {
            assert(s0[j] == s[j]);
        }
        lemma_first_done_at(s0, ip, i);
    } else {
        assert forall|j: int| 0 <= j < s0.len() implies !(is_done(#[trigger] s0[j]) && s0[j].sdn_addr == ip) by {
            assert(s0[j] == s[j]);
        }
        lemma_first_done_none(s0, ip);
    }
}

/// Once a connection is admitted with an address (its entry survived the
/// forgetting of older connections of that address), packets to that
/// address are routed to it.
pub proof fn lemma_admitted_peer_is_routed<K>(
    old: Seq<PeerEntry<K>>,
    new: Seq<PeerEntry<K>>,
    key: K,
    sdn_text: Seq<char>,
    ip: Ipv4,
    pk: Seq<char>,
)
    requires
        ipv4_of_text(sdn_text) == Some(ip),
        key_index(without_text(old, sdn_text), key) >= 0,
        crate::peers::recorded(without_text(old, sdn_text), key, ip, pk, PeerState::HandshakeDone, new),
    ensures
        first_done_with(new, ip) == Some(key),
{
    let kept = without_text(old, sdn_text);
    let i = key_index(kept, key);
    crate::ipv4::lemma_ipv4_text_of_parsed(sdn_text);
    assert(ip.text() == sdn_text);
    crate::peers::lemma_key_index_in_range(kept, key);
    assert forall|j: int| 0 <= j < i implies !(is_done(#[trigger] new[j]) && new[j].sdn_addr == ip) by {
        assert(new[j] == kept[j]);
        crate::peers::lemma_without_text_member(old, sdn_text, j);
    }
    lemma_first_done_at(new, ip, i);
}

/// What the second-generation WebSocket server does with datagram `data`
/// from connection `id`, `s` being its table before and `s1` after. A new
/// connection is filed as pending (this generation keeps no heartbeat times:
/// 0). A pending connection's datagram that decodes as a handshake request
/// is handed on for authentication; an initialized connection's datagram of
/// at least the 20 bytes of an IPv4 header goes unchanged, and uncounted, to
/// the first connection that finished its handshake with the packet's
/// destination address; anything else is dropped.
pub open spec fn ws_v2_effect(
    s: Seq<PeerEntry<i32>>,
    s1: Seq<PeerEntry<i32>>,
    id: i32,
    data: Seq<u8>,
    acts: Seq<ServerActionView<i32>>,
) -> bool {
    let k = key_index(s, id);
    &&& k >= 0 ==> s1 == s
    &&& k < 0 ==> s1 == s.push(
        PeerEntry {
            key: id,
            sdn_addr: Ipv4 { bits: 0 },
            state: PeerState::HandshakePending,
            client_public_key: None,
            last_heartbeat: 0,
        },
    )
    &&& if k >= 0 && s[k].state == PeerState::HandshakeDone {
        if data.len() >= 20 {
            acts == match first_done_with(s, crate::client::packet_dst(data)) {
                Some(t) => seq![ServerActionView::SendTo { to: t, data, counted: false }],
                None => Seq::<ServerActionView<i32>>::empty(),
            }
        } else {
            acts == Seq::<ServerActionView<i32>>::empty()
        }
    } else {
        acts == match crate::messages::read_handshake_req(data) {
            Some((v, _)) => seq![ServerActionView::Authenticate(v)],
            None => Seq::<ServerActionView<i32>>::empty(),
        }
    }
}

/// Decides what the second-generation WebSocket server does with a
/// datagram from connection `peer_id`.
pub fn ws_v2_datagram(peers: &mut Peers<i32>, peer_id: i32, data: &[u8]) -> (r: Vec<ServerAction<i32>>)
    ensures
        ws_v2_effect(old(peers)@, final(peers)@, peer_id, data@, server_actions(r@)),
{
    let ghost s = peers@;
    let state = peers.state_or_insert(peer_id, 0);
    let mut out: Vec<ServerAction<i32>> = Vec::new();
    proof {
        crate::peers::lemma_key_index_in_range(s, peer_id);
    }
    match state {
        PeerState::HandshakeDone => {
            if crate::packet::parse_ipv4_header(data).is_some() {
                let dst = Ipv4::from_octets(data[16], data[17], data[18], data[19]);
                assert(dst == crate::client::packet_dst(data@));
                match peers.find_by_sdn_ip(&dst) {
                    Some(t) => {
                        out.push(ServerAction::SendTo { to: t, data: copy_range(data, 0, data.len()), counted: false });
                        assert(data@.subrange(0, data@.len() as int) =~= data@);
                        assert(server_actions(out@) =~= seq![ServerActionView::SendTo { to: t, data: data@, counted: false }]);
                    },
                    None => {
                        assert(server_actions(out@) =~= Seq::<ServerActionView<i32>>::empty());
                    },
                }
            } else {
                assert(server_actions(out@) =~= Seq::<ServerActionView<i32>>::empty());
            }
        },
        PeerState::HandshakePending => {
            match HandshakeReq::deserialize(data) {
                Ok(req) => {
                    let ghost v = req@;
                    out.push(ServerAction::Authenticate(req));
                    assert(server_actions(out@) =~= seq![ServerActionView::Authenticate(v)]);
                },
                Err(_) => {
                    assert(server_actions(out@) =~= Seq::<ServerActionView<i32>>::empty());
                },
            }
        },
    }
    out
}

/// The copy of `data` that goes, uncounted, to the first connected peer
/// with address `ip`, if there is one.
pub open spec fn to_peer_of<K>(s: Seq<PeerEntry<K>>, ip: Ipv4, data: Seq<u8>, counted: bool) -> Seq<ServerActionView<K>> {
    match first_done_with(s, ip) {
        Some(k) => seq![ServerActionView::SendTo { to: k, data, counted }],
        None => Seq::empty(),
    }
}

/// The UDP server hands a connected peer's handshake response, unchanged
/// and uncounted, to the connected peer whose address is the response's
/// initiator address, and nothing else; a response whose initiator
/// address is no IPv4 address is an error with nothing sent.
pub proof fn lemma_udp_response_reaches_initiator(
    s: Seq<PeerEntry<Endpoint>>,
    src: Endpoint,
    data: Seq<u8>,
    now: u64,
    log_traffic: bool,
    resp: P2PHandshakeResp,
)
    requires
        connection_state(s, src) == PeerState::HandshakeDone,
        classify(data) == MessageView::P2PHandshakeResp(resp@),
    ensures
        match ipv4_of_text(resp.initiator_sdn_ip@) {
            Some(ip) => udp_outcome(s, src, data) == Ok::<(), RelayError>(())
                && udp_actions(s, src, data, now, log_traffic) == to_peer_of(s, ip, data, false),
            None => udp_outcome(s, src, data) == Err::<(), RelayError>(RelayError::InvalidAddress)
                && udp_actions(s, src, data, now, log_traffic) == Seq::<ServerActionView<Endpoint>>::empty(),
        },
{
}

/// The UDP server hands a connected peer's handshake initiation, unchanged
/// and uncounted, to the connected peer whose address is its responder
/// address, and nothing else; an initiation whose responder address is no
/// IPv4 address is an error with nothing sent.
pub proof fn lemma_udp_init_reaches_responder(
    s: Seq<PeerEntry<Endpoint>>,
    src: Endpoint,
    data: Seq<u8>,
    now: u64,
    log_traffic: bool,
    init: P2PHandshakeInit,
)
    requires
        connection_state(s, src) == PeerState::HandshakeDone,
        classify(data) == MessageView::P2PHandshakeInit(init@),
    ensures
        match ipv4_of_text(init.responder_sdn_ip@) {
            Some(ip) => udp_outcome(s, src, data) == Ok::<(), RelayError>(())
                && udp_actions(s, src, data, now, log_traffic) == to_peer_of(s, ip, data, false),
            None => udp_outcome(s, src, data) == Err::<(), RelayError>(RelayError::InvalidAddress)
                && udp_actions(s, src, data, now, log_traffic) == Seq::<ServerActionView<Endpoint>>::empty(),
        },
{
}

/// The UDP server sends a connected peer's relayed packet for a single
/// destination, unchanged and counted, to the connected peer with that
/// address only, after its log entry when traffic is logged.
pub proof fn lemma_udp_relay_reaches_destination(
    s: Seq<PeerEntry<Endpoint>>,
    src: Endpoint,
    data: Seq<u8>,
    now: u64,
    log_traffic: bool,
    relay: RelayPacket,
    dst: Ipv4,
)
    requires
        connection_state(s, src) == PeerState::HandshakeDone,
        classify(data) == MessageView::RelayPacket(relay@),
        ipv4_of_text(relay.dst_sdn_ip@) == Some(dst),
        !is_group_address(dst),
    ensures
        udp_outcome(s, src, data) == Ok::<(), RelayError>(()),
        udp_actions(s, src, data, now, log_traffic) == (if log_traffic {
            seq![ServerActionView::LogTraffic { sdn_addr: relay.dst_sdn_ip@, data }]
        } else {
            Seq::<ServerActionView<Endpoint>>::empty()
        }) + to_peer_of(s, dst, data, true),
{
    assert(sends_to(
        match first_done_with(s, dst) {
            Some(k) => seq![k],
            None => Seq::<Endpoint>::empty(),
        },
        data,
        true,
    ) =~= to_peer_of(s, dst, data, true));
}

/// The WebSocket server routes peer handshakes as the UDP server does: a
/// response to the peer of its initiator address, an initiation to the
/// peer of its responder address, each unchanged and uncounted, and
/// nothing else.
pub proof fn lemma_ws_handshakes_reach_their_peer(
    s: Seq<PeerEntry<i32>>,
    s1: Seq<PeerEntry<i32>>,
    acts: Seq<ServerActionView<i32>>,
    id: i32,
    data: Seq<u8>,
    now: u64,
    init: P2PHandshakeInit,
    resp: P2PHandshakeResp,
)
    requires
        ws_effect(s, s1, acts, id, data, now),
        connection_state(s, id) == PeerState::HandshakeDone,
    ensures
        classify(data) == MessageView::P2PHandshakeResp(resp@) ==> acts == match ipv4_of_text(resp.initiator_sdn_ip@) {
            Some(ip) => to_peer_of(s, ip, data, false),
            None => Seq::<ServerActionView<i32>>::empty(),
        },
        classify(data) == MessageView::P2PHandshakeInit(init@) ==> acts == match ipv4_of_text(init.responder_sdn_ip@) {
            Some(ip) => to_peer_of(s, ip, data, false),
            None => Seq::<ServerActionView<i32>>::empty(),
        },
{
}

/// What a client relays for a single destination reaches exactly that
/// destination: the UDP server reads the relay of `payload` from the
/// client's address `own` to `dst` as a packet between those addresses and
/// sends it, unchanged and counted, to the connected peer with address
/// `dst` alone (after its log entry when traffic is logged).
pub proof fn lemma_client_relay_reaches_peer(
    s: Seq<PeerEntry<Endpoint>>,
    conn: Endpoint,
    now: u64,
    log_traffic: bool,
    own: Ipv4,
    dst: Ipv4,
    payload: Seq<u8>,
)
    requires
        connection_state(s, conn) == PeerState::HandshakeDone,
        !is_group_address(dst),
        crate::messages::str_fits(own.text()),
        crate::messages::str_fits(dst.text()),
        crate::wire::fits_u64(payload.len()),
    ensures
        classify(crate::client::relay_bytes(own.text(), dst.text(), payload)) == MessageView::RelayPacket(
            PeerMessageView { header: crate::message_type::relay_header(), first_ip: own.text(), second_ip: dst.text(), payload },
        ),
        udp_actions(s, conn, crate::client::relay_bytes(own.text(), dst.text(), payload), now, log_traffic) == (if log_traffic {
            seq![ServerActionView::LogTraffic { sdn_addr: dst.text(), data: crate::client::relay_bytes(own.text(), dst.text(), payload) }]
        } else {
            Seq::<ServerActionView<Endpoint>>::empty()
        }) + to_peer_of(s, dst, crate::client::relay_bytes(own.text(), dst.text(), payload), true),
{
    let v = PeerMessageView { header: crate::message_type::relay_header(), first_ip: own.text(), second_ip: dst.text(), payload };
    crate::message_type::lemma_message_dispatch(MessageView::RelayPacket(v));
    crate::ipv4::lemma_ipv4_of_own_text(dst);
    let data = crate::client::relay_bytes(own.text(), dst.text(), payload);
    assert(sends_to(
        match first_done_with(s, dst) {
            Some(k) => seq![k],
            None => Seq::<Endpoint>::empty(),
        },
        data,
        true,
    ) =~= to_peer_of(s, dst, data, true));
}

} // verus!
