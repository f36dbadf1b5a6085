//! The client's decisions. For each datagram from the relay server and each
//! packet from the TUN device, the client updates its peer sessions and
//! answers with actions: bytes to send to the server, packets to write to
//! the TUN device, a report of its state. Performing the actions is left to
//! the caller.
use vstd::prelude::*;

use crate::ipv4::{bits_of, ipv4_of_text, Ipv4};
use crate::message_type::{
    classify, get_message_type, lemma_header_constants, p2p_init_header, p2p_resp_header,
    relay_header, MessageType, MessageView,
};
use crate::packet::parse_ipv4_header;
use crate::peer_messages::{
    peer_message_bytes, PeerEventType, PeerInfo, PeerInfoView, PeerMessageView, RelayPacket,
};
use crate::session::{packet_views, PeerSessionManager};
use crate::wire::copy_range;
use crate::codec::{base64_url_decode, decode_base64};
use crate::model::StartParams;

verus! {

/// What the client does after a decision.
pub enum ClientAction {
    /// Send these bytes to the relay server.
    SendToServer(Vec<u8>),
    /// Write this IPv4 packet to the TUN device.
    WriteTun(Vec<u8>),
    /// Report the client's state to whoever watches it.
    ReportState,
}

/// The contents of an action.
pub enum ActionView {
    SendToServer(Seq<u8>),
    WriteTun(Seq<u8>),
    ReportState,
}

impl View for ClientAction {
    type V = ActionView;

    open spec fn view(&self) -> ActionView {
        match self {
            ClientAction::SendToServer(b) => ActionView::SendToServer(b@),
            ClientAction::WriteTun(b) => ActionView::WriteTun(b@),
            ClientAction::ReportState => ActionView::ReportState,
        }
    }
}

/// The contents of a sequence of actions.
pub open spec fn actions_view(a: Seq<ClientAction>) -> Seq<ActionView> {
    a.map_values(|x: ClientAction| x@)
}

/// The bytes of a relayed packet from `src` to `dst`.
pub open spec fn relay_bytes(src: Seq<char>, dst: Seq<char>, payload: Seq<u8>) -> Seq<u8> {
    peer_message_bytes(
        PeerMessageView { header: relay_header(), first_ip: src, second_ip: dst, payload },
    )
}

/// The destination address of an IPv4 packet (bytes 16 to 19).
pub open spec fn packet_dst(p: Seq<u8>) -> Ipv4 {
    Ipv4 { bits: bits_of(p[16], p[17], p[18], p[19]) }
}

/// Multicast (224.0.0.0/4) and limited broadcast addresses.
pub open spec fn is_group_address(ip: Ipv4) -> bool {
    224 <= ip.octets()[0] <= 239 || ip.bits == 0xffff_ffffu32
}

/// Encrypting `p` for `dst` appended the pair of `p` and its ciphertext `c`
/// to the log of what was encrypted for `dst` (taking it from `m0` to `m1`),
/// and `x` relays exactly `c` from `own` to `dst`.
pub open spec fn sent_once(m0: PeerSessionManager, m1: PeerSessionManager, own: Ipv4, dst: Ipv4, p: Seq<u8>, x: ActionView) -> bool {
    let c = m1.sent_log(dst.bits).last().1;
    &&& m1.sent_log(dst.bits) == m0.sent_log(dst.bits).push((p, c))
    &&& c.len() == p.len() + 16
    &&& x == ActionView::SendToServer(relay_bytes(own.text(), dst.text(), c))
}

/// True when one of `qs` has the address value `q`.
pub open spec fn among(qs: Seq<Ipv4>, q: u32) -> bool {
    exists|i: int| 0 <= i < qs.len() && #[trigger] qs[i].bits == q
}

/// `p` was handed once to the session of every peer with a session in `m0`,
/// and `acts` relay the encrypted copies: copy `i` goes to `qs[i]`, each
/// peer at most once, and is exactly the ciphertext that was logged with `p`
/// for that peer; a peer gets no copy only when its encryption failed (its
/// log of what was encrypted stays as it was). Nothing else was tried,
/// encrypted or decrypted.
pub open spec fn relays_to(
    m0: PeerSessionManager,
    m1: PeerSessionManager,
    acts: Seq<ActionView>,
    src: Ipv4,
    qs: Seq<Ipv4>,
    p: Seq<u8>,
) -> bool {
    &&& relayed_copies(m0, m1, acts, src, qs, p)
    &&& forall|q: u32| m0.session_peers().contains(q) ==> m1.encrypt_attempts(q) == m0.encrypt_attempts(q).push(p)
    &&& forall|q: u32| !m0.session_peers().contains(q) ==> m1.encrypt_attempts(q) == m0.encrypt_attempts(q)
    &&& forall|q: u32| m1.decrypt_attempts(q) == m0.decrypt_attempts(q)
}

/// `acts` relay encrypted copies of `p` from `src`: copy `i` goes to
/// `qs[i]`, a peer with a session in `m0`, each peer at most once, and is
/// exactly the ciphertext logged with `p` for that peer; no other peer's log
/// of what was encrypted changed, and nothing was decrypted.
pub open spec fn relayed_copies(
    m0: PeerSessionManager,
    m1: PeerSessionManager,
    acts: Seq<ActionView>,
    src: Ipv4,
    qs: Seq<Ipv4>,
    p: Seq<u8>,
) -> bool {
    &&& qs.len() == acts.len()
    &&& qs.no_duplicates()
    &&& forall|i: int|
        #![trigger qs[i]]
        0 <= i < qs.len() ==> m0.session_peers().contains(qs[i].bits) && sent_once(m0, m1, src, qs[i], p, acts[i])
    &&& forall|q: u32| !among(qs, q) ==> m1.sent_log(q) == m0.sent_log(q)
    &&& forall|q: u32| m1.received_log(q) == m0.received_log(q)
}

/// `acts` relay encrypted copies of `p` from `src`, at most one to each peer
/// with a session in `m0`, each exactly the ciphertext logged with `p` for
/// its peer.
pub open spec fn relays_to_peers(m0: PeerSessionManager, m1: PeerSessionManager, acts: Seq<ActionView>, src: Ipv4, p: Seq<u8>) -> bool {
    exists|qs: Seq<Ipv4>| #[trigger] relays_to(m0, m1, acts, src, qs, p)
}

/// `a` sends the server a peer handshake message of kind `header` between
/// the two addresses.
pub open spec fn handshake_message(a: ActionView, header: Seq<u8>, first: Seq<char>, second: Seq<char>) -> bool {
    exists|pl: Seq<u8>|
        pl.len() <= 1024 && a == ActionView::SendToServer(
            #[trigger] peer_message_bytes(
                PeerMessageView { header, first_ip: first, second_ip: second, payload: pl },
            ),
        )
}

/// `m1` holds what `m0` holds, but for the known peers.
pub open spec fn same_except_known(m1: PeerSessionManager, m0: PeerSessionManager) -> bool {
    &&& m1.same_sessions(&m0)
    &&& m1.own_ip() == m0.own_ip()
    &&& m1.private_key_bytes() == m0.private_key_bytes()
    &&& m1.public_key_text() == m0.public_key_text()
    &&& forall|q: u32| m1.queued(q) == m0.queued(q)
    &&& m1.same_logs(&m0)
}

/// `m1` holds what `m0` holds.
pub open spec fn unchanged(m1: PeerSessionManager, m0: PeerSessionManager) -> bool {
    m1.same_sessions(&m0) && m1.same_peers(&m0)
}

/// What the client does with a packet read from the TUN device, `m0` and
/// `m1` being its sessions before and after.
pub open spec fn outgoing_effect(
    m0: PeerSessionManager,
    m1: PeerSessionManager,
    acts: Seq<ActionView>,
    p: Seq<u8>,
    own: Ipv4,
    loopback_relay: bool,
    no_encryption: bool,
) -> bool {
    if p.len() < 20 {
        acts.len() == 0 && unchanged(m1, m0) && m1.same_logs(&m0)
    } else {
        let dst = packet_dst(p);
        if dst == own && !loopback_relay {
            acts == seq![ActionView::WriteTun(p)] && unchanged(m1, m0) && m1.same_logs(&m0)
        } else if is_group_address(dst) {
            &&& unchanged(m1, m0)
            &&& if no_encryption {
                acts == seq![ActionView::SendToServer(relay_bytes(own.text(), dst.text(), p))]
                    && m1.same_logs(&m0)
            } else {
                &&& relays_to_peers(m0, m1, acts, own, p)
                &&& p.len() + 16 > 65535 ==> acts.len() == 0
            }
        } else if no_encryption {
            acts == seq![ActionView::SendToServer(relay_bytes(own.text(), dst.text(), p))]
                && unchanged(m1, m0) && m1.same_logs(&m0)
        } else {
            unicast_effect(m0, m1, acts, p, own, dst)
        }
    }
}

/// A packet read from the TUN device comes back to the TUN device exactly
/// when it is addressed to our own overlay address and loopback relay is
/// off, and then it is written back unchanged and alone; every other packet
/// only ever leads to messages for the server. With loopback relay on, a
/// packet to our own address takes the relay path like any other: without
/// encryption, exactly one relay of it from our address to our address.
pub proof fn lemma_outgoing_loopback(
    m0: PeerSessionManager,
    m1: PeerSessionManager,
    acts: Seq<ActionView>,
    p: Seq<u8>,
    own: Ipv4,
    loopback_relay: bool,
    no_encryption: bool,
)
    requires
        outgoing_effect(m0, m1, acts, p, own, loopback_relay, no_encryption),
    ensures
        p.len() >= 20 && packet_dst(p) == own && !loopback_relay ==> acts == seq![ActionView::WriteTun(p)],
        !(p.len() >= 20 && packet_dst(p) == own && !loopback_relay) ==> forall|i: int|
            0 <= i < acts.len() ==> #[trigger] acts[i] is SendToServer,
        p.len() >= 20 && packet_dst(p) == own && loopback_relay && no_encryption ==> acts == seq![
            ActionView::SendToServer(relay_bytes(own.text(), own.text(), p)),
        ],
{
    if p.len() >= 20 && !(packet_dst(p) == own && !loopback_relay) && !no_encryption {
        let dst = packet_dst(p);
        if is_group_address(dst) {
            let qs = choose|qs: Seq<Ipv4>| #[trigger] relays_to(m0, m1, acts, own, qs, p);
            assert forall|i: int| 0 <= i < acts.len() implies #[trigger] acts[i] is SendToServer by {
                assert(0 <= i < qs.len());
                assert(sent_once(m0, m1, own, qs[i], p, acts[i]));
            }
        } else if m0.can_send_to(dst) {
            if acts.len() == 1 {
                assert(first_action(acts) == Some(acts[0]));
            }
        } else if m0.known().contains_key(dst.bits) {
            if acts.len() == 1 {
                let pl = choose|pl: Seq<u8>| pl.len() <= 1024 && acts[0] == ActionView::SendToServer(
                    #[trigger] peer_message_bytes(
                        PeerMessageView { header: p2p_init_header(), first_ip: m0.own_ip().text(), second_ip: dst.text(), payload: pl },
                    ),
                );
            }
        }
    }
}

/// Encrypting `p` for `dst` took `m0` to `m1` and gave the action `a`: `p`
/// was handed to the session for `dst` (appended to its attempts), and
/// either the encryption failed, the log of what was encrypted for `dst`
/// stays as it was and nothing is sent, or the pair of `p` and its
/// ciphertext `c` was appended to that log and `a` relays exactly `c` from
/// `own` to `dst`. Nothing else was tried, encrypted or decrypted.
pub open spec fn encryption_relayed(
    m0: PeerSessionManager,
    m1: PeerSessionManager,
    own: Ipv4,
    dst: Ipv4,
    p: Seq<u8>,
    a: Option<ActionView>,
) -> bool {
    &&& m1.encrypt_attempts(dst.bits) == m0.encrypt_attempts(dst.bits).push(p)
    &&& forall|q: u32| q != dst.bits ==> m1.encrypt_attempts(q) == m0.encrypt_attempts(q)
    &&& forall|q: u32| m1.decrypt_attempts(q) == m0.decrypt_attempts(q)
    &&& forall|q: u32| q != dst.bits ==> m1.sent_log(q) == m0.sent_log(q)
    &&& forall|q: u32| m1.received_log(q) == m0.received_log(q)
    &&& match a {
        None => m1.sent_log(dst.bits) == m0.sent_log(dst.bits),
        Some(x) => sent_once(m0, m1, own, dst, p, x),
    }
}

/// The first action of `acts`, if any.
pub open spec fn first_action(acts: Seq<ActionView>) -> Option<ActionView> {
    if acts.len() > 0 {
        Some(acts[0])
    } else {
        None
    }
}

/// What the client does with an encrypted packet to a single peer `dst`,
/// `m0` and `m1` being its sessions before and after.
pub open spec fn unicast_effect(
    m0: PeerSessionManager,
    m1: PeerSessionManager,
    acts: Seq<ActionView>,
    p: Seq<u8>,
    own: Ipv4,
    dst: Ipv4,
) -> bool {
    if m0.can_send_to(dst) {
        &&& unchanged(m1, m0)
        &&& acts.len() <= 1
        &&& encryption_relayed(m0, m1, own, dst, p, first_action(acts))
        &&& p.len() + 16 > 65535 ==> acts.len() == 0
    } else if m0.known().contains_key(dst.bits) {
        queue_effect(m0, m1, acts, p, dst) && m1.same_logs(&m0)
    } else {
        acts.len() == 0 && unchanged(m1, m0) && m1.same_logs(&m0)
    }
}

/// The action that follows an encryption for `dst`: the relay of the
/// ciphertext from `own` to `dst` when the encryption succeeded, nothing
/// when it failed.
pub fn relay_encrypted(own: &Ipv4, dst: &Ipv4, encrypted: Result<Vec<u8>, crate::session::SessionError>) -> (r: Option<ClientAction>)
    ensures
        match encrypted {
            Ok(c) => r matches Some(a) && a@ == ActionView::SendToServer(relay_bytes(own.text(), dst.text(), c@)),
            Err(_) => r is None,
        },
{
    match encrypted {
        Ok(c) => Some(relay_action(own, dst, c)),
        Err(_) => None,
    }
}

/// The action that sends the server a relayed packet.
fn relay_action(src: &Ipv4, dst: &Ipv4, payload: Vec<u8>) -> (r: ClientAction)
    ensures
        r@ == ActionView::SendToServer(relay_bytes(src.text(), dst.text(), payload@)),
{
    proof {
        lemma_header_constants();
    }
    let src_text = src.to_string();
    let dst_text = dst.to_string();
    let relay = RelayPacket::new(src_text.as_str(), dst_text.as_str(), payload);
    match relay.serialize() {
        Ok(data) => ClientAction::SendToServer(data),
        Err(_) => {
            assert(false);
            ClientAction::ReportState
        },
    }
}

/// Encrypts a packet for `dst` and, when that succeeds, the action that
/// relays it.
fn encrypted_relay_action(
    manager: &mut PeerSessionManager,
    own: &Ipv4,
    dst: &Ipv4,
    packet: &[u8],
) -> (r: Option<ClientAction>)
    ensures
        unchanged(*final(manager), *old(manager)),
        encryption_relayed(*old(manager), *final(manager), *own, *dst, packet@, match r {
            Some(a) => Some(a@),
            None => None,
        }),
        r is Some ==> old(manager).can_send_to(*dst),
        packet@.len() + 16 > 65535 ==> r is None,
{
    let ghost m0 = *manager;
    let e = manager.encrypt_for(dst, packet);
    let ghost ev = match &e {
        Ok(c) => Some(c@),
        Err(_) => None,
    };
    let r = relay_encrypted(own, dst, e);
    proof {
        match ev {
            Some(c) => {
                assert(manager.sent_log(dst.bits).last().1 == c);
            },
            None => {},
        }
    }
    r
}

/// Encrypts a multicast or broadcast packet for every peer with a session
/// and relays each copy to that peer.
fn group_actions(manager: &mut PeerSessionManager, own_sdn_ip: &Ipv4, packet: &[u8]) -> (out: Vec<ClientAction>)
    ensures
        unchanged(*final(manager), *old(manager)),
        relays_to_peers(*old(manager), *final(manager), actions_view(out@), *own_sdn_ip, packet@),
        packet@.len() + 16 > 65535 ==> out@.len() == 0,
{
    let ghost m0 = *manager;
    let ghost p = packet@;
    let mut out: Vec<ClientAction> = Vec::new();
    let peers = manager.get_all_session_peers();
    let ghost mut qs: Seq<Ipv4> = Seq::empty();
    let mut i: usize = 0;
    while i < peers.len()
        invariant
            i <= peers.len(),
            unchanged(*manager, m0),
            forall|ip: Ipv4| peers@.contains(ip) <==> m0.session_peers().contains(ip.bits),
            peers@.no_duplicates(),
            relayed_copies(m0, *manager, actions_view(out@), *own_sdn_ip, qs, p),
            forall|x: u32| among(peers@.take(i as int), x) ==> manager.encrypt_attempts(x) == m0.encrypt_attempts(x).push(p),
            forall|x: u32| !among(peers@.take(i as int), x) ==> manager.encrypt_attempts(x) == m0.encrypt_attempts(x),
            forall|x: u32| manager.decrypt_attempts(x) == m0.decrypt_attempts(x),
            forall|k: int| 0 <= k < qs.len() ==> peers@.subrange(0, i as int).contains(#[trigger] qs[k]),
            p.len() + 16 > 65535 ==> out@.len() == 0,
            p == packet@,
        decreases peers.len() - i,
    {
        let q = peers[i];
        assert(peers@.contains(q));
        let ghost before = out@;
        let ghost qs0 = qs;
        let ghost mb = *manager;
        assert(!qs0.contains(q)) by {
            if qs0.contains(q) {
                let k = choose|k: int| 0 <= k < qs0.len() && qs0[k] == q;
                assert(peers@.subrange(0, i as int).contains(qs0[k]));
                let j = choose|j: int| 0 <= j < i && peers@.subrange(0, i as int)[j] == q;
                assert(peers@[j] == peers@[i as int]);
            }
        }
        assert(!among(qs0, q.bits)) by {
            if among(qs0, q.bits) {
                let k = choose|k: int| 0 <= k < qs0.len() && #[trigger] qs0[k].bits == q.bits;
                assert(qs0[k] == q);
            }
        }
        let r = encrypted_relay_action(manager, own_sdn_ip, &q, packet);
        match r {
            Some(a) => {
                out.push(a);
                proof {
                    qs = qs0.push(q);
                    assert(qs.no_duplicates()) by {
                        assert forall|x: int, y: int| 0 <= x < qs.len() && 0 <= y < qs.len() && x != y
                            implies qs[x] != qs[y] by {
                            if x < qs0.len() && y < qs0.len() {
                                assert(qs[x] == qs0[x] && qs[y] == qs0[y]);
                            } else if x < qs0.len() {
                                assert(qs[x] == qs0[x]);
                                assert(qs0.contains(qs0[x]));
                            } else if y < qs0.len() {
                                assert(qs[y] == qs0[y]);
                                assert(qs0.contains(qs0[y]));
                            }
                        }
                    }
                    assert(mb.sent_log(q.bits) == m0.sent_log(q.bits));
                    assert forall|j: int| #![trigger qs[j]] 0 <= j < qs.len() implies m0.session_peers().contains(
                        qs[j].bits,
                    ) && sent_once(m0, *manager, *own_sdn_ip, qs[j], p, actions_view(out@)[j]) by {
                        if j < before.len() {
                            assert(actions_view(out@)[j] == actions_view(before)[j]);
                            assert(qs[j] == qs0[j]);
                            assert(qs0.contains(qs0[j]));
                            assert(qs0[j].bits != q.bits);
                            assert(sent_once(m0, mb, *own_sdn_ip, qs0[j], p, actions_view(before)[j]));
                        } else {
                            assert(actions_view(out@)[j] == a@);
                            assert(qs[j] == q);
                            assert(m0.session_peers().contains(q.bits));
                        }
                    }
                    assert forall|x: u32| !among(qs, x) implies manager.sent_log(x) == m0.sent_log(x) by {
                        if among(qs0, x) {
                            let k = choose|k: int| 0 <= k < qs0.len() && #[trigger] qs0[k].bits == x;
                            assert(qs[k].bits == x);
                        }
                        if x == q.bits {
                            assert(qs[qs0.len() as int].bits == x);
                        }
                    }
                    assert(actions_view(out@).len() == out@.len());
                    assert(actions_view(before).len() == before.len());
                    assert(relayed_copies(m0, *manager, actions_view(out@), *own_sdn_ip, qs, p));
                }
            },
            None => {
                proof {
                    assert forall|j: int| #![trigger qs[j]] 0 <= j < qs.len() implies m0.session_peers().contains(
                        qs[j].bits,
                    ) && sent_once(m0, *manager, *own_sdn_ip, qs[j], p, actions_view(out@)[j]) by {
                        assert(sent_once(m0, mb, *own_sdn_ip, qs[j], p, actions_view(out@)[j]));
                    }
                    assert(relayed_copies(m0, *manager, actions_view(out@), *own_sdn_ip, qs, p));
                }
            },
        }
        proof {
            assert(!among(peers@.take(i as int), q.bits)) by {
                if among(peers@.take(i as int), q.bits) {
                    let j = choose|j: int| 0 <= j < peers@.take(i as int).len() && #[trigger] peers@.take(i as int)[j].bits == q.bits;
                    assert(peers@[j] == peers@[i as int]);
                }
            }
            assert forall|x: u32| #[trigger] among(peers@.take(i + 1), x) == (among(peers@.take(i as int), x) || x == q.bits) by {
                if among(peers@.take(i + 1), x) {
                    let j = choose|j: int| 0 <= j < peers@.take(i + 1).len() && #[trigger] peers@.take(i + 1)[j].bits == x;
                    if j < i {
                        assert(peers@.take(i as int)[j].bits == x);
                    }
                }
                if among(peers@.take(i as int), x) {
                    let j = choose|j: int| 0 <= j < peers@.take(i as int).len() && #[trigger] peers@.take(i as int)[j].bits == x;
                    assert(peers@.take(i + 1)[j].bits == x);
                }
                if x == q.bits {
                    assert(peers@.take(i + 1)[i as int].bits == x);
                }
            }
            assert(manager.encrypt_attempts(q.bits) == mb.encrypt_attempts(q.bits).push(p));
        }
        proof {
            assert forall|k: int| 0 <= k < qs.len() implies peers@.subrange(0, i + 1).contains(
                #[trigger] qs[k],
            ) by {
                if k < qs0.len() {
                    assert(qs[k] == qs0[k]);
                    assert(peers@.subrange(0, i as int).contains(qs0[k]));
                    let j = choose|j: int| 0 <= j < i && peers@.subrange(0, i as int)[j] == qs0[k];
                    assert(peers@.subrange(0, i + 1)[j] == qs0[k]);
                } else {
                    assert(peers@.subrange(0, i + 1)[i as int] == q);
                }
            }
        }
        i = i + 1;
    }
    proof {
        assert(peers@.take(i as int) =~= peers@);
        assert forall|x: u32| #[trigger] among(peers@, x) == m0.session_peers().contains(x) by {
            if among(peers@, x) {
                let j = choose|j: int| 0 <= j < peers@.len() && #[trigger] peers@[j].bits == x;
                assert(peers@.contains(peers@[j]));
            }
            if m0.session_peers().contains(x) {
                let ip = Ipv4 { bits: x };
                assert(peers@.contains(ip));
                let j = choose|j: int| 0 <= j < peers@.len() && peers@[j] == ip;
                assert(peers@[j].bits == x);
            }
        }
        assert(relays_to(m0, *manager, actions_view(out@), *own_sdn_ip, qs, p));
    }
    out
}

/// The outcome for a known peer without a session: the packet is queued and
/// a handshake starts unless one is pending.
pub open spec fn queue_effect(
    m0: PeerSessionManager,
    m1: PeerSessionManager,
    acts: Seq<ActionView>,
    p: Seq<u8>,
    dst: Ipv4,
) -> bool {
    &&& m1.queued(dst.bits) == m0.queued(dst.bits).push(p)
    &&& forall|q: u32| q != dst.bits ==> m1.queued(q) == m0.queued(q)
    &&& m1.known() == m0.known()
    &&& m1.own_ip() == m0.own_ip()
    &&& m1.private_key_bytes() == m0.private_key_bytes()
    &&& m1.public_key_text() == m0.public_key_text()
    &&& m1.session_peers() == m0.session_peers()
    &&& m1.has_loopback() == m0.has_loopback()
    &&& if m0.pending().contains(dst.bits) || m0.key_problem(dst.bits) is Some {
        acts.len() == 0 && m1.pending() == m0.pending()
    } else {
        ||| acts.len() == 0 && m1.pending() == m0.pending()
        ||| acts.len() == 1 && m1.pending() == m0.pending().insert(dst.bits) && handshake_message(
            acts[0],
            p2p_init_header(),
            m0.own_ip().text(),
            dst.text(),
        )
    }
}

/// Queues a packet for a known peer and starts a handshake with it unless
/// one is pending.
fn queue_and_start_handshake(manager: &mut PeerSessionManager, dst: &Ipv4, packet: &[u8]) -> (out: Vec<ClientAction>)
    requires
        old(manager).known().contains_key(dst.bits),
    ensures
        queue_effect(*old(manager), *final(manager), actions_view(out@), packet@, *dst),
        final(manager).same_logs(&*old(manager)),
{
    let ghost m0 = *manager;
    let dst = *dst;
    let mut out: Vec<ClientAction> = Vec::new();
    manager.queue_packet(&dst, copy_range(packet, 0, packet.len()));
    assert(packet@.subrange(0, packet@.len() as int) =~= packet@);
    if !manager.handshake_in_progress(&dst) {
        let ghost m1 = *manager;
        match manager.initiate_handshake(&dst) {
            Ok(init) => {
                proof {
                    lemma_header_constants();
                }
                match init.serialize() {
                    Ok(data) => {
                        out.push(ClientAction::SendToServer(data));
                        assert(actions_view(out@)[0] == ActionView::SendToServer(
                            peer_message_bytes(init@),
                        ));
                        assert(handshake_message(actions_view(out@)[0], p2p_init_header(), m0.own_ip().text(), dst.text())) by {
                            assert(init@ == PeerMessageView {
                                header: p2p_init_header(),
                                first_ip: m0.own_ip().text(),
                                second_ip: dst.text(),
                                payload: init.noise_payload@,
                            });
                        }
                    },
                    Err(_) => {
                        assert(false);
                    },
                }
            },
            Err(_) => {},
        }
    }
    assert(actions_view(out@).len() == out@.len());
    out
}

/// Relays a packet to a single peer: encrypted with its session, or queued
/// while a handshake with the known peer is started.
fn unicast_actions(manager: &mut PeerSessionManager, own_sdn_ip: &Ipv4, dst: &Ipv4, packet: &[u8]) -> (out: Vec<ClientAction>)
    ensures
        unicast_effect(*old(manager), *final(manager), actions_view(out@), packet@, *own_sdn_ip, *dst),
{
    let ghost m0 = *manager;
    let ghost p = packet@;
    let dst = *dst;
    let mut out: Vec<ClientAction> = Vec::new();
    if manager.has_session(&dst) {
        if let Some(a) = encrypted_relay_action(manager, own_sdn_ip, &dst, packet) {
            out.push(a);
            assert(actions_view(out@)[0] == a@);
        }
        return out;
    }
    if manager.knows_peer(&dst) {
        return queue_and_start_handshake(manager, &dst, packet);
    }
    assert(actions_view(out@) =~= Seq::<ActionView>::empty());
    out
}

/// Handles a packet read from the TUN device: delivers it back for our own
/// address, relays it through the server (encrypted per peer unless
/// encryption is off), or queues it and starts a handshake with a known peer
/// that has no session yet. Packets to unknown peers are dropped.
pub fn handle_outgoing_packet(
    packet: &[u8],
    manager: &mut PeerSessionManager,
    own_sdn_ip: &Ipv4,
    loopback_relay: bool,
    no_encryption: bool,
) -> (r: Vec<ClientAction>)
    ensures
        outgoing_effect(
            *old(manager),
            *final(manager),
            actions_view(r@),
            packet@,
            *own_sdn_ip,
            loopback_relay,
            no_encryption,
        ),
{
    let ghost m0 = *manager;
    let ghost p = packet@;
    let mut out: Vec<ClientAction> = Vec::new();
    if parse_ipv4_header(packet).is_none() {
        assert(actions_view(out@) =~= Seq::<ActionView>::empty());
        return out;
    }
    let dst = Ipv4::from_octets(packet[16], packet[17], packet[18], packet[19]);
    assert(dst == packet_dst(p));
    if dst == *own_sdn_ip && !loopback_relay {
        out.push(ClientAction::WriteTun(copy_range(packet, 0, packet.len())));
        assert(packet@.subrange(0, packet@.len() as int) =~= packet@);
        assert(actions_view(out@) =~= seq![ActionView::WriteTun(p)]);
        return out;
    }
    if dst.is_multicast_or_broadcast() {
        if no_encryption {
            out.push(relay_action(own_sdn_ip, &dst, copy_range(packet, 0, packet.len())));
            assert(packet@.subrange(0, packet@.len() as int) =~= packet@);
            assert(actions_view(out@) =~= seq![ActionView::SendToServer(relay_bytes(own_sdn_ip.text(), dst.text(), p))]);
            return out;
        }
        return group_actions(manager, own_sdn_ip, packet);
    }
    if no_encryption {
        out.push(relay_action(own_sdn_ip, &dst, copy_range(packet, 0, packet.len())));
        assert(packet@.subrange(0, packet@.len() as int) =~= packet@);
        assert(actions_view(out@) =~= seq![ActionView::SendToServer(relay_bytes(own_sdn_ip.text(), dst.text(), p))]);
        return out;
    }
    unicast_actions(manager, own_sdn_ip, &dst, packet)
}


/// The known peers after learning of `pv`: added under its address when
/// that is an IPv4 address.
pub open spec fn add_known(k: Map<u32, PeerInfoView>, pv: PeerInfoView) -> Map<u32, PeerInfoView> {
    match ipv4_of_text(pv.sdn_ip) {
        Some(ip) => k.insert(ip.bits, pv),
        None => k,
    }
}

/// The known peers after learning of each of `ps` in turn.
pub open spec fn add_all_known(k: Map<u32, PeerInfoView>, ps: Seq<PeerInfoView>) -> Map<u32, PeerInfoView>
    decreases ps.len(),
{
    if ps.len() == 0 {
        k
    } else {
        add_known(add_all_known(k, ps.drop_last()), ps.last())
    }
}

/// True when the peer entry `ps[i]` has the address with value `q`.
pub open spec fn names(ps: Seq<PeerInfoView>, i: int, q: u32) -> bool {
    ipv4_of_text(ps[i].sdn_ip) == Some(Ipv4 { bits: q })
}

/// Learning a list of peers: afterwards a peer is known exactly when it
/// was known before or the list has an entry with its address; a listed
/// address holds the last entry with it; any other known peer keeps its
/// entry.
pub proof fn lemma_learned_peers(k: Map<u32, PeerInfoView>, ps: Seq<PeerInfoView>)
    ensures
        forall|q: u32| #[trigger] add_all_known(k, ps).contains_key(q) <==> (k.contains_key(q) || exists|i: int|
            0 <= i < ps.len() && #[trigger] names(ps, i, q)),
        forall|i: int, q: u32|
            0 <= i < ps.len() && #[trigger] names(ps, i, q) && (forall|j: int| i < j < ps.len() ==> !#[trigger] names(ps, j, q))
                ==> add_all_known(k, ps)[q] == ps[i],
        forall|q: u32| k.contains_key(q) && (forall|i: int| 0 <= i < ps.len() ==> !#[trigger] names(ps, i, q))
            ==> #[trigger] add_all_known(k, ps)[q] == k[q],
    decreases ps.len(),
{
    if ps.len() > 0 {
        let ps1 = ps.drop_last();
        let n = ps.len() - 1;
        lemma_learned_peers(k, ps1);
        assert forall|i: int, q: u32| 0 <= i < n implies names(ps1, i, q) == names(ps, i, q) by {
            assert(ps1[i] == ps[i]);
        }
        let m = add_all_known(k, ps1);
        assert(add_all_known(k, ps) == add_known(m, ps[n]));
        assert forall|q: u32| #[trigger] add_all_known(k, ps).contains_key(q) <==> (k.contains_key(q) || exists|i: int|
            0 <= i < ps.len() && #[trigger] names(ps, i, q)) by {
            if names(ps, n, q) {
            } else {
                if exists|i: int| 0 <= i < ps.len() && #[trigger] names(ps, i, q) {
                    let i = choose|i: int| 0 <= i < ps.len() && #[trigger] names(ps, i, q);
                    assert(names(ps1, i, q));
                }
                if exists|i: int| 0 <= i < ps1.len() && #[trigger] names(ps1, i, q) {
                    let i = choose|i: int| 0 <= i < ps1.len() && #[trigger] names(ps1, i, q);
                    assert(names(ps, i, q));
                }
            }
        }
        assert forall|i: int, q: u32|
            0 <= i < ps.len() && #[trigger] names(ps, i, q) && (forall|j: int| i < j < ps.len() ==> !#[trigger] names(ps, j, q))
                implies add_all_known(k, ps)[q] == ps[i] by {
            if i < n {
                assert(!names(ps, n, q));
                assert(names(ps1, i, q));
                assert forall|j: int| i < j < ps1.len() implies !#[trigger] names(ps1, j, q) by {
                    assert(!names(ps, j, q));
                }
            }
        }
        assert forall|q: u32| k.contains_key(q) && (forall|i: int| 0 <= i < ps.len() ==> !#[trigger] names(ps, i, q))
            implies #[trigger] add_all_known(k, ps)[q] == k[q] by {
            assert(!names(ps, n, q));
            assert forall|i: int| 0 <= i < ps1.len() implies !#[trigger] names(ps1, i, q) by {
                assert(!names(ps, i, q));
            }
        }
    }
}

/// A peer list from the server is learned whole and answered with nothing:
/// every listed peer with an address is known afterwards, with the last
/// entry listed for its address, every peer known before stays known (with
/// its entry unless the list names it), and nobody else becomes known. A
/// connection announcement makes the announced peer known with its entry;
/// a disconnection forgets it.
pub proof fn lemma_peers_learned(
    m0: PeerSessionManager,
    m1: PeerSessionManager,
    acts: Seq<ActionView>,
    data: Seq<u8>,
    own: Ipv4,
    no_encryption: bool,
)
    requires
        incoming_effect(m0, m1, acts, data, own, no_encryption),
    ensures
        classify(data) matches MessageView::PeerList(v) ==> {
            &&& acts.len() == 0
            &&& forall|q: u32| #[trigger] m1.known_view().contains_key(q) <==> (m0.known_view().contains_key(q)
                || exists|i: int| 0 <= i < v.peers.len() && #[trigger] names(v.peers, i, q))
            &&& forall|i: int, q: u32|
                0 <= i < v.peers.len() && #[trigger] names(v.peers, i, q) && (forall|j: int|
                    i < j < v.peers.len() ==> !#[trigger] names(v.peers, j, q)) ==> m1.known_view()[q] == v.peers[i]
            &&& forall|q: u32| m0.known_view().contains_key(q) && (forall|i: int|
                0 <= i < v.peers.len() ==> !#[trigger] names(v.peers, i, q)) ==> #[trigger] m1.known_view()[q]
                == m0.known_view()[q]
        },
        classify(data) matches MessageView::PeerAnnounce(v) ==> {
            &&& acts.len() == 0
            &&& v.event_type == PeerEventType::Connected ==> (ipv4_of_text(v.peer.sdn_ip) matches Some(ip)
                ==> m1.known_view().contains_key(ip.bits) && m1.known_view()[ip.bits] == v.peer
                && forall|q: u32| q != ip.bits ==> (#[trigger] m1.known_view().contains_key(q) <==> m0.known_view().contains_key(q)))
            &&& v.event_type == PeerEventType::Disconnected ==> (ipv4_of_text(v.peer.sdn_ip) matches Some(ip)
                ==> !m1.known_view().contains_key(ip.bits) && !m1.session_peers().contains(ip.bits))
        },
{
    if let MessageView::PeerList(v) = classify(data) {
        lemma_learned_peers(m0.known_view(), v.peers);
    }
}

/// `m1` is `m0` with the peer `ip` forgotten: its entry, session, pending
/// handshake and queue.
pub open spec fn removed_peer(m0: PeerSessionManager, m1: PeerSessionManager, ip: u32) -> bool {
    &&& m1.known_view() == m0.known_view().remove(ip)
    &&& m1.session_peers() == m0.session_peers().remove(ip)
    &&& m1.pending() == m0.pending().remove(ip)
    &&& m1.queued(ip) == Seq::<Seq<u8>>::empty()
    &&& forall|q: u32| q != ip ==> m1.queued(q) == m0.queued(q)
    &&& m1.has_loopback() == m0.has_loopback()
    &&& m1.own_ip() == m0.own_ip()
    &&& m1.private_key_bytes() == m0.private_key_bytes()
    &&& m1.public_key_text() == m0.public_key_text()
    &&& m1.same_logs(&m0)
}

/// The outcome of a peer's handshake initiation `v`.
pub open spec fn init_effect(m0: PeerSessionManager, m1: PeerSessionManager, acts: Seq<ActionView>, v: PeerMessageView) -> bool {
    &&& m1.pending() == m0.pending()
    &&& m1.has_loopback() == m0.has_loopback()
    &&& m1.same_peers(&m0)
    &&& m1.same_logs(&m0)
    &&& match ipv4_of_text(v.first_ip) {
        None => acts.len() == 0 && m1.session_peers() == m0.session_peers(),
        Some(ip) => if !m0.known().contains_key(ip.bits) || m0.key_problem(ip.bits) is Some {
            acts.len() == 0 && m1.session_peers() == m0.session_peers()
        } else {
            ||| acts.len() == 0 && m1.session_peers() == m0.session_peers()
            ||| acts.len() == 1 && m1.session_peers() == m0.session_peers().insert(ip.bits)
                && handshake_message(acts[0], p2p_resp_header(), v.first_ip, m0.own_ip().text())
        },
    }
}

/// The session for sending to `ip` is established in `m1`.
pub open spec fn established(m0: PeerSessionManager, m1: PeerSessionManager, ip: Ipv4) -> bool {
    if ip == m0.own_ip() {
        m1.has_loopback() && m1.session_peers() == m0.session_peers()
    } else {
        m1.session_peers() == m0.session_peers().insert(ip.bits) && m1.has_loopback()
            == m0.has_loopback()
    }
}

/// The (plaintext, ciphertext) pairs that relaying the packets `q[ks[j]]`
/// as the ciphertexts `cs[j]` adds to the log of what was encrypted for the
/// destination with address value `d`, in order.
pub open spec fn appended(q: Seq<Seq<u8>>, ks: Seq<int>, cs: Seq<Seq<u8>>, d: u32) -> Seq<(Seq<u8>, Seq<u8>)>
    decreases ks.len(),
{
    if ks.len() == 0 || cs.len() != ks.len() {
        Seq::empty()
    } else {
        let prev = appended(q, ks.drop_last(), cs.drop_last(), d);
        if packet_dst(q[ks.last()]).bits == d {
            prev.push((q[ks.last()], cs.last()))
        } else {
            prev
        }
    }
}

/// The packets of `q` that hold an IPv4 header and go to the destination
/// with address value `d`, in order.
pub open spec fn tried(q: Seq<Seq<u8>>, d: u32) -> Seq<Seq<u8>>
    decreases q.len(),
{
    if q.len() == 0 {
        Seq::empty()
    } else {
        let prev = tried(q.drop_last(), d);
        if q.last().len() >= 20 && packet_dst(q.last()).bits == d {
            prev.push(q.last())
        } else {
            prev
        }
    }
}

/// Action `j` relays to its destination the ciphertext `cs[j]` of the
/// queued packet `q[ks[j]]`, which holds an IPv4 header; `ks` rises. Taking
/// `m0` to `m1`, every queued packet that holds an IPv4 header was handed, in
/// order, to the session of its destination (appended to its attempts),
/// each pair of packet and ciphertext was appended, in order, to the log of
/// what was encrypted for the packet's destination, so that a packet goes
/// unrelayed only when its encryption failed, and nothing else was tried,
/// encrypted or decrypted.
pub open spec fn flushed_in_order(
    m0: PeerSessionManager,
    m1: PeerSessionManager,
    acts: Seq<ActionView>,
    q: Seq<Seq<u8>>,
    own: Ipv4,
    ks: Seq<int>,
    cs: Seq<Seq<u8>>,
) -> bool {
    &&& flushed_copies(m0, m1, acts, q, own, ks, cs)
    &&& forall|d: u32| #[trigger] m1.encrypt_attempts(d) == m0.encrypt_attempts(d) + tried(q, d)
    &&& forall|d: u32| m1.decrypt_attempts(d) == m0.decrypt_attempts(d)
}

/// Action `j` relays to its destination the ciphertext `cs[j]` of the
/// queued packet `q[ks[j]]`, which holds an IPv4 header; `ks` rises; each
/// pair of packet and ciphertext was appended, in order, to the log of what
/// was encrypted for the packet's destination, and nothing was decrypted.
pub open spec fn flushed_copies(
    m0: PeerSessionManager,
    m1: PeerSessionManager,
    acts: Seq<ActionView>,
    q: Seq<Seq<u8>>,
    own: Ipv4,
    ks: Seq<int>,
    cs: Seq<Seq<u8>>,
) -> bool {
    &&& ks.len() == acts.len()
    &&& cs.len() == acts.len()
    &&& forall|i: int, j: int| 0 <= i < j < ks.len() ==> ks[i] < ks[j]
    &&& forall|j: int|
        #![trigger ks[j]]
        0 <= j < ks.len() ==> {
            &&& 0 <= ks[j] < q.len()
            &&& q[ks[j]].len() >= 20
            &&& cs[j].len() == q[ks[j]].len() + 16
            &&& acts[j] == ActionView::SendToServer(
                relay_bytes(own.text(), packet_dst(q[ks[j]]).text(), cs[j]),
            )
        }
    &&& forall|d: u32| #[trigger] m1.sent_log(d) == m0.sent_log(d) + appended(q, ks, cs, d)
    &&& forall|d: u32| m1.received_log(d) == m0.received_log(d)
}

/// The actions relay, encrypted, queued packets of `q` that hold an IPv4
/// header, each at most once and in the order of the queue, each as the
/// ciphertext logged with it.
pub open spec fn flushed(m0: PeerSessionManager, m1: PeerSessionManager, acts: Seq<ActionView>, q: Seq<Seq<u8>>, own: Ipv4) -> bool {
    exists|ks: Seq<int>, cs: Seq<Seq<u8>>| #[trigger] flushed_in_order(m0, m1, acts, q, own, ks, cs)
}

/// The outcome of the response `v` to a handshake we started.
pub open spec fn resp_effect(
    m0: PeerSessionManager,
    m1: PeerSessionManager,
    acts: Seq<ActionView>,
    v: PeerMessageView,
    own: Ipv4,
) -> bool {
    match ipv4_of_text(v.second_ip) {
        None => acts.len() == 0 && unchanged(m1, m0) && m1.same_logs(&m0),
        Some(ip) => {
            &&& m1.pending() == m0.pending().remove(ip.bits)
            &&& m1.known() == m0.known()
            &&& m1.own_ip() == m0.own_ip()
            &&& m1.private_key_bytes() == m0.private_key_bytes()
            &&& m1.public_key_text() == m0.public_key_text()
            &&& if !m0.pending().contains(ip.bits) {
                acts.len() == 0 && m1.session_peers() == m0.session_peers() && m1.has_loopback()
                    == m0.has_loopback() && (forall|q: u32| m1.queued(q) == m0.queued(q))
                    && m1.same_logs(&m0)
            } else {
                ||| acts.len() == 0 && m1.session_peers() == m0.session_peers()
                    && m1.has_loopback() == m0.has_loopback() && (forall|q: u32|
                    m1.queued(q) == m0.queued(q)) && m1.same_logs(&m0)
                ||| established(m0, m1, ip) && m1.queued(ip.bits) == Seq::<Seq<u8>>::empty()
                    && (forall|q: u32| q != ip.bits ==> m1.queued(q) == m0.queued(q))
                    && flushed(m0, m1, acts, m0.queued(ip.bits), own)
            }
        },
    }
}

/// What the client writes to the TUN device of a decrypted packet `d`: the
/// packet itself when it holds an IPv4 header, nothing otherwise.
pub open spec fn delivery(d: Seq<u8>) -> Seq<ActionView> {
    if d.len() >= 20 {
        seq![ActionView::WriteTun(d)]
    } else {
        Seq::<ActionView>::empty()
    }
}

/// The actions that follow a decryption: the delivery of the plaintext when
/// it succeeded, nothing when it failed.
pub fn deliver_decrypted(decrypted: Result<Vec<u8>, crate::session::SessionError>) -> (r: Vec<ClientAction>)
    ensures
        actions_view(r@) == match decrypted {
            Ok(d) => delivery(d@),
            Err(_) => Seq::<ActionView>::empty(),
        },
{
    let mut out: Vec<ClientAction> = Vec::new();
    match decrypted {
        Ok(plain) => {
            if crate::packet::validate_packet(plain.as_slice()) {
                let ghost d = plain@;
                out.push(ClientAction::WriteTun(plain));
                assert(actions_view(out@) =~= seq![ActionView::WriteTun(d)]);
            } else {
                assert(actions_view(out@) =~= Seq::<ActionView>::empty());
            }
        },
        Err(_) => {
            assert(actions_view(out@) =~= Seq::<ActionView>::empty());
        },
    }
    out
}

/// The outcome of a relayed packet `v` from another peer, `m0` and `m1`
/// being the client's sessions before and after. Encrypted, its payload is
/// handed for decryption as coming from its sender (appended to the
/// decryption attempts): when the session with the sender decrypts it, the
/// pair of the payload and its plaintext is appended to the log of what was
/// decrypted from the sender and the plaintext is delivered; otherwise
/// nothing else is logged or written.
pub open spec fn relay_in_effect(
    m0: PeerSessionManager,
    m1: PeerSessionManager,
    acts: Seq<ActionView>,
    v: PeerMessageView,
    no_encryption: bool,
) -> bool {
    if no_encryption {
        acts == delivery(v.payload) && m1.same_logs(&m0)
    } else {
        match ipv4_of_text(v.first_ip) {
            None => acts.len() == 0 && m1.same_logs(&m0),
            Some(src) => {
                &&& m1.decrypt_attempts(src.bits) == m0.decrypt_attempts(src.bits).push(v.payload)
                &&& forall|q: u32| q != src.bits ==> m1.decrypt_attempts(q) == m0.decrypt_attempts(q)
                &&& forall|q: u32| m1.encrypt_attempts(q) == m0.encrypt_attempts(q)
                &&& forall|q: u32| m1.sent_log(q) == m0.sent_log(q)
                &&& forall|q: u32| q != src.bits ==> m1.received_log(q) == m0.received_log(q)
                &&& if !m0.session_peers().contains(src.bits) {
                    acts.len() == 0 && m1.received_log(src.bits) == m0.received_log(src.bits)
                } else if m1.received_log(src.bits) == m0.received_log(src.bits) {
                    acts.len() == 0
                } else {
                    let d = m1.received_log(src.bits).last().1;
                    &&& m1.received_log(src.bits) == m0.received_log(src.bits).push((v.payload, d))
                    &&& d.len() + 16 == v.payload.len()
                    &&& acts == delivery(d)
                }
            },
        }
    }
}

/// A packet relayed by another peer reaches the TUN device and nothing
/// else: without encryption its payload is written when it holds an IPv4
/// header; with encryption at most the one plaintext that the session with
/// the sender just decrypted from the payload is written, and only when it
/// holds an IPv4 header. A heartbeat from the server is answered with a
/// state report alone.
pub proof fn lemma_relayed_packets_delivered(
    m0: PeerSessionManager,
    m1: PeerSessionManager,
    acts: Seq<ActionView>,
    data: Seq<u8>,
    own: Ipv4,
    no_encryption: bool,
)
    requires
        incoming_effect(m0, m1, acts, data, own, no_encryption),
    ensures
        classify(data) matches MessageView::RelayPacket(v) ==> {
            &&& no_encryption ==> acts == (if v.payload.len() >= 20 {
                seq![ActionView::WriteTun(v.payload)]
            } else {
                Seq::<ActionView>::empty()
            })
            &&& !no_encryption ==> acts.len() <= 1
            &&& !no_encryption && acts.len() == 1 ==> (ipv4_of_text(v.first_ip) matches Some(src) && acts[0]
                matches ActionView::WriteTun(d) && d.len() >= 20 && m1.received_log(src.bits)
                == m0.received_log(src.bits).push((v.payload, d)))
        },
        classify(data) matches MessageView::Heartbeat(_) ==> acts == seq![ActionView::ReportState],
{
}

/// What the client does with a datagram `data` from the relay server, `m0`
/// and `m1` being its sessions before and after.
pub open spec fn incoming_effect(
    m0: PeerSessionManager,
    m1: PeerSessionManager,
    acts: Seq<ActionView>,
    data: Seq<u8>,
    own: Ipv4,
    no_encryption: bool,
) -> bool {
    match classify(data) {
        MessageView::PeerList(v) => acts.len() == 0 && same_except_known(m1, m0)
            && m1.known_view() == add_all_known(m0.known_view(), v.peers),
        MessageView::PeerAnnounce(v) => acts.len() == 0 && match v.event_type {
            PeerEventType::Connected => same_except_known(m1, m0) && m1.known_view()
                == add_known(m0.known_view(), v.peer),
            PeerEventType::Disconnected => match ipv4_of_text(v.peer.sdn_ip) {
                Some(ip) => removed_peer(m0, m1, ip.bits),
                None => unchanged(m1, m0) && m1.same_logs(&m0),
            },
        },
        MessageView::P2PHandshakeInit(v) => init_effect(m0, m1, acts, v),
        MessageView::P2PHandshakeResp(v) => resp_effect(m0, m1, acts, v, own),
        MessageView::RelayPacket(v) => unchanged(m1, m0) && relay_in_effect(m0, m1, acts, v, no_encryption),
        MessageView::Heartbeat(_) => acts == seq![ActionView::ReportState] && unchanged(m1, m0)
            && m1.same_logs(&m0),
        _ => acts.len() == 0 && unchanged(m1, m0) && m1.same_logs(&m0),
    }
}

/// Learns of each peer of a list in turn.
fn learn_peers(manager: &mut PeerSessionManager, peers: &Vec<PeerInfo>)
    ensures
        same_except_known(*final(manager), *old(manager)),
        final(manager).known_view() == add_all_known(old(manager).known_view(), crate::peer_messages::peer_views(peers@)),
{
    let ghost m0 = *manager;
    let ghost vs = crate::peer_messages::peer_views(peers@);
    let mut i: usize = 0;
    while i < peers.len()
        invariant
            i <= peers.len(),
            vs == crate::peer_messages::peer_views(peers@),
            same_except_known(*manager, m0),
            manager.known_view() == add_all_known(m0.known_view(), vs.take(i as int)),
        decreases peers.len() - i,
    {
        let peer = peers[i].clone_info();
        manager.add_peer(peer);
        proof {
            assert(vs.take(i + 1).drop_last() =~= vs.take(i as int));
            assert(vs.take(i + 1).last() == vs[i as int]);
        }
        i = i + 1;
    }
    assert(vs.take(peers.len() as int) =~= vs);
}

/// Answers a peer's handshake initiation.
fn answer_handshake(manager: &mut PeerSessionManager, init: &crate::peer_messages::P2PHandshakeInit) -> (out: Vec<ClientAction>)
    ensures
        init_effect(*old(manager), *final(manager), actions_view(out@), init@),
{
    let ghost m0 = *manager;
    let mut out: Vec<ClientAction> = Vec::new();
    match manager.handle_handshake_init(init) {
        Ok(resp) => {
            proof {
                lemma_header_constants();
            }
            match resp.serialize() {
                Ok(data) => {
                    out.push(ClientAction::SendToServer(data));
                    assert(actions_view(out@)[0] == ActionView::SendToServer(peer_message_bytes(resp@)));
                    assert(resp@ == PeerMessageView {
                        header: p2p_resp_header(),
                        first_ip: init@.first_ip,
                        second_ip: m0.own_ip().text(),
                        payload: resp.noise_payload@,
                    });
                },
                Err(_) => {
                    assert(false);
                },
            }
        },
        Err(_) => {},
    }
    assert(actions_view(out@).len() == out@.len());
    out
}

/// Relays, encrypted, each queued packet that holds an IPv4 header.
fn flush_queue(manager: &mut PeerSessionManager, own_sdn_ip: &Ipv4, packets: Vec<Vec<u8>>) -> (out: Vec<ClientAction>)
    ensures
        unchanged(*final(manager), *old(manager)),
        flushed(*old(manager), *final(manager), actions_view(out@), packet_views(packets@), *own_sdn_ip),
{
    let ghost m0 = *manager;
    let ghost q = packet_views(packets@);
    let ghost mut ks: Seq<int> = Seq::empty();
    let ghost mut cs: Seq<Seq<u8>> = Seq::empty();
    let mut out: Vec<ClientAction> = Vec::new();
    let mut i: usize = 0;
    proof {
        assert forall|d: u32| #[trigger] manager.sent_log(d) == m0.sent_log(d) + appended(q, ks, cs, d) by {
            assert(m0.sent_log(d) + Seq::<(Seq<u8>, Seq<u8>)>::empty() =~= m0.sent_log(d));
        }
    }
    proof {
        assert forall|d: u32| #[trigger] manager.encrypt_attempts(d) == m0.encrypt_attempts(d) + tried(q.take(0), d) by {
            assert(q.take(0) =~= Seq::<Seq<u8>>::empty());
            assert(m0.encrypt_attempts(d) + Seq::<Seq<u8>>::empty() =~= m0.encrypt_attempts(d));
        }
    }
    while i < packets.len()
        invariant
            i <= packets.len(),
            q == packet_views(packets@),
            unchanged(*manager, m0),
            flushed_copies(m0, *manager, actions_view(out@), q, *own_sdn_ip, ks, cs),
            forall|d: u32| #[trigger] manager.encrypt_attempts(d) == m0.encrypt_attempts(d) + tried(q.take(i as int), d),
            forall|d: u32| manager.decrypt_attempts(d) == m0.decrypt_attempts(d),
            forall|j: int| #![trigger ks[j]] 0 <= j < ks.len() ==> ks[j] < i,
        decreases packets.len() - i,
    {
        let pk = &packets[i];
        let ghost ma = *manager;
        proof {
            assert(q.take(i + 1).drop_last() =~= q.take(i as int));
            assert(q.take(i + 1).last() == q[i as int]);
        }
        if parse_ipv4_header(pk.as_slice()).is_some() {
            let dst = Ipv4::from_octets(pk[16], pk[17], pk[18], pk[19]);
            assert(q[i as int] == pk@);
            assert(dst == packet_dst(q[i as int]));
            let ghost before = out@;
            let ghost ks0 = ks;
            let ghost cs0 = cs;
            let ghost mb = *manager;
            let r = encrypted_relay_action(manager, own_sdn_ip, &dst, pk.as_slice());
            match r {
                Some(a) => {
                    out.push(a);
                    proof {
                        let c = manager.sent_log(dst.bits).last().1;
                        ks = ks0.push(i as int);
                        cs = cs0.push(c);
                        assert(ks.drop_last() =~= ks0);
                        assert(cs.drop_last() =~= cs0);
                        assert(actions_view(out@).len() == out@.len());
                        assert(actions_view(before).len() == before.len());
                        assert forall|x: int, y: int| 0 <= x < y < ks.len() implies ks[x] < ks[y] by {
                            if y < ks0.len() {
                                assert(ks[x] == ks0[x] && ks[y] == ks0[y]);
                            } else {
                                assert(ks[x] == ks0[x]);
                                assert(ks0[x] < i);
                            }
                        }
                        assert forall|j: int| #![trigger ks[j]] 0 <= j < ks.len() implies {
                            &&& 0 <= ks[j] < q.len()
                            &&& q[ks[j]].len() >= 20
                            &&& cs[j].len() == q[ks[j]].len() + 16
                            &&& actions_view(out@)[j] == ActionView::SendToServer(
                                relay_bytes(own_sdn_ip.text(), packet_dst(q[ks[j]]).text(), cs[j]),
                            )
                        } by {
                            if j < before.len() {
                                assert(actions_view(out@)[j] == actions_view(before)[j]);
                                assert(ks[j] == ks0[j]);
                                assert(cs[j] == cs0[j]);
                            } else {
                                assert(actions_view(out@)[j] == a@);
                                assert(ks[j] == i);
                                assert(cs[j] == c);
                            }
                        }
                        assert forall|d: u32| #[trigger] manager.sent_log(d) == m0.sent_log(d) + appended(q, ks, cs, d) by {
                            assert(mb.sent_log(d) == m0.sent_log(d) + appended(q, ks0, cs0, d));
                            if d == dst.bits {
                                assert(appended(q, ks, cs, d) == appended(q, ks0, cs0, d).push((q[i as int], c)));
                                assert(m0.sent_log(d) + appended(q, ks0, cs0, d).push((q[i as int], c)) =~= (
                                m0.sent_log(d) + appended(q, ks0, cs0, d)).push((q[i as int], c)));
                            } else {
                                assert(appended(q, ks, cs, d) == appended(q, ks0, cs0, d));
                            }
                        }
                        assert(flushed_copies(m0, *manager, actions_view(out@), q, *own_sdn_ip, ks, cs));
                    }
                },
                None => {
                    proof {
                        assert forall|d: u32| #[trigger] manager.sent_log(d) == m0.sent_log(d) + appended(q, ks, cs, d) by {
                            assert(mb.sent_log(d) == m0.sent_log(d) + appended(q, ks, cs, d));
                        }
                    }
                },
            }
        }
        proof {
            assert forall|j: int| #![trigger ks[j]] 0 <= j < ks.len() implies ks[j] < i + 1 by {
            }
            assert forall|d: u32| #[trigger] manager.encrypt_attempts(d) == m0.encrypt_attempts(d) + tried(q.take(i + 1), d) by {
                assert(ma.encrypt_attempts(d) == m0.encrypt_attempts(d) + tried(q.take(i as int), d));
                if q[i as int].len() >= 20 && packet_dst(q[i as int]).bits == d {
                    assert(manager.encrypt_attempts(d) == ma.encrypt_attempts(d).push(q[i as int]));
                    assert(m0.encrypt_attempts(d) + tried(q.take(i as int), d).push(q[i as int]) =~= (
                    m0.encrypt_attempts(d) + tried(q.take(i as int), d)).push(q[i as int]));
                } else {
                    assert(manager.encrypt_attempts(d) == ma.encrypt_attempts(d));
                }
            }
        }
        i = i + 1;
    }
    proof {
        assert(q.take(i as int) =~= q);
        assert(flushed_in_order(m0, *manager, actions_view(out@), q, *own_sdn_ip, ks, cs));
    }
    out
}

/// Takes in the response to a handshake we started and, once the session
/// is established, relays the packets queued for the peer.
fn complete_handshake(
    manager: &mut PeerSessionManager,
    own_sdn_ip: &Ipv4,
    resp: &crate::peer_messages::P2PHandshakeResp,
) -> (out: Vec<ClientAction>)
    ensures
        resp_effect(*old(manager), *final(manager), actions_view(out@), resp@, *own_sdn_ip),
{
    let ghost m0 = *manager;
    let mut out: Vec<ClientAction> = Vec::new();
    match manager.handle_handshake_resp(resp) {
        Ok(()) => {
            let responder_ip = match Ipv4::parse(resp.responder_sdn_ip.as_str()) {
                Some(ip) => ip,
                None => {
                    assert(false);
                    return out;
                },
            };
            let ghost m1 = *manager;
            let pending = manager.take_pending_packets(&responder_ip);
            let ghost m2 = *manager;
            let ghost pv = packet_views(pending@);
            let flushed_out = flush_queue(manager, own_sdn_ip, pending);
            proof {
                assert(m1.queued(responder_ip.bits) == m0.queued(responder_ip.bits));
                let (ks, cs) = choose|ks: Seq<int>, cs: Seq<Seq<u8>>| #[trigger] flushed_in_order(
                    m2,
                    *manager,
                    actions_view(flushed_out@),
                    pv,
                    *own_sdn_ip,
                    ks,
                    cs,
                );
                assert forall|d: u32| #[trigger] manager.sent_log(d) == m0.sent_log(d) + appended(pv, ks, cs, d) by {
                    assert(manager.sent_log(d) == m2.sent_log(d) + appended(pv, ks, cs, d));
                    assert(m2.sent_log(d) == m0.sent_log(d));
                }
                assert(flushed_in_order(m0, *manager, actions_view(flushed_out@), pv, *own_sdn_ip, ks, cs));
            }
            flushed_out
        },
        Err(_) => {
            assert(actions_view(out@).len() == 0);
            out
        },
    }
}

/// Decrypts a relayed packet from a peer and delivers it when it holds an
/// IPv4 header (as it is when encryption is off).
fn receive_relay(manager: &mut PeerSessionManager, relay: &RelayPacket, no_encryption: bool) -> (out: Vec<ClientAction>)
    ensures
        unchanged(*final(manager), *old(manager)),
        relay_in_effect(*old(manager), *final(manager), actions_view(out@), relay@, no_encryption),
{
    let mut out: Vec<ClientAction> = Vec::new();
    if no_encryption {
        if crate::packet::validate_packet(relay.encrypted_payload.as_slice()) {
            out.push(ClientAction::WriteTun(copy_range(relay.encrypted_payload.as_slice(), 0, relay.encrypted_payload.len())));
            assert(relay.encrypted_payload@.subrange(0, relay.encrypted_payload@.len() as int) =~= relay.encrypted_payload@);
            assert(actions_view(out@) =~= seq![ActionView::WriteTun(relay@.payload)]);
        } else {
            assert(actions_view(out@) =~= Seq::<ActionView>::empty());
        }
        return out;
    }
    match Ipv4::parse(relay.src_sdn_ip.as_str()) {
        Some(src) => {
            let ghost m0 = *manager;
            let decrypted = manager.decrypt_from(&src, relay.encrypted_payload.as_slice());
            let ghost dv = match &decrypted {
                Ok(d) => Some(d@),
                Err(_) => None,
            };
            let acts = deliver_decrypted(decrypted);
            proof {
                match dv {
                    Some(d) => {
                        assert(manager.received_log(src.bits).last().1 == d);
                        assert(manager.received_log(src.bits) != m0.received_log(src.bits)) by {
                            assert(manager.received_log(src.bits).len() == m0.received_log(src.bits).len() + 1);
                        }
                    },
                    None => {},
                }
            }
            acts
        },
        None => {
            assert(actions_view(out@) =~= Seq::<ActionView>::empty());
            out
        },
    }
}

/// Handles a datagram from the relay server: learns and forgets peers,
/// answers and completes peer handshakes, delivers relayed packets to the
/// TUN device, and reports the state on a heartbeat.
pub fn handle_relay_server_message(
    data: &[u8],
    manager: &mut PeerSessionManager,
    own_sdn_ip: &Ipv4,
    no_encryption: bool,
) -> (r: Vec<ClientAction>)
    ensures
        incoming_effect(*old(manager), *final(manager), actions_view(r@), data@, *own_sdn_ip, no_encryption),
{
    let mut out: Vec<ClientAction> = Vec::new();
    assert(actions_view(out@) =~= Seq::<ActionView>::empty());
    match get_message_type(data) {
        MessageType::PeerList(list) => {
            learn_peers(manager, &list.peers);
            out
        },
        MessageType::PeerAnnounce(announce) => {
            match announce.event_type {
                PeerEventType::Connected => {
                    manager.add_peer(announce.peer);
                },
                PeerEventType::Disconnected => {
                    if let Some(ip) = Ipv4::parse(announce.peer.sdn_ip.as_str()) {
                        manager.remove_peer(&ip);
                    }
                },
            }
            out
        },
        MessageType::P2PHandshakeInit(init) => answer_handshake(manager, &init),
        MessageType::P2PHandshakeResp(resp) => complete_handshake(manager, own_sdn_ip, &resp),
        MessageType::RelayPacket(relay) => receive_relay(manager, &relay, no_encryption),
        MessageType::Heartbeat(_) => {
            out.push(ClientAction::ReportState);
            assert(actions_view(out@) =~= seq![ActionView::ReportState]);
            out
        },
        _ => out,
    }
}


/// What the client does with the relay server's answer to its handshake
/// request.
pub enum HandshakeStep {
    /// Accepted: the parameters of the overlay.
    Accepted(crate::model::StartParams),
    /// Refused, with the message to report.
    Refused(String),
    /// Neither a reply nor a refusal: wait for the next datagram.
    Retry,
}

/// Reads the relay server's answer to the handshake request: a reply gives
/// the netmask, the network and the client's address; a refusal gives its
/// reason.
pub fn handshake_step(data: &[u8]) -> (r: HandshakeStep)
    ensures
        match crate::messages::read_handshake_rep(data@) {
            Some((v, _)) => r matches HandshakeStep::Accepted(p) && p.netmask@ == v.netmask
                && p.destination@ == v.network && p.ip_addr@ == v.sdn_ip_addr,
            None => match crate::messages::read_handshake_error(data@) {
                Some((e, _)) => r matches HandshakeStep::Refused(m) && m@ == "Authorization failed: "@
                    + e.error_message,
                None => r is Retry,
            },
        },
{
    match crate::messages::HandshakeRep::deserialize(data) {
        Ok(rep) => HandshakeStep::Accepted(
            crate::model::StartParams {
                netmask: rep.netmask,
                destination: rep.network,
                ip_addr: rep.sdn_ip_addr,
            },
        ),
        Err(_) => match crate::messages::HandshakeError::deserialize(data) {
            Ok(e) => HandshakeStep::Refused(
                crate::text::concat_strs("Authorization failed: ", e.error_message.as_str()),
            ),
            Err(_) => HandshakeStep::Retry,
        },
    }
}

/// The transport a client selects by name (in any case): "websocket" or
/// "ws", or "udp".
pub fn select_transport(transport_type: &str) -> (r: Result<crate::server::TransportMode, String>)
    ensures
        crate::server::lowercase(transport_type@) == "udp"@ ==> r == Ok::<crate::server::TransportMode, String>(crate::server::TransportMode::UDP),
        crate::server::lowercase(transport_type@) == "ws"@ || crate::server::lowercase(transport_type@) == "websocket"@
            ==> r == Ok::<crate::server::TransportMode, String>(crate::server::TransportMode::WebSocket),
        crate::server::mode_of_name(crate::server::lowercase(transport_type@)) is None ==> (r matches Err(e)
            && e@ == "Unsupported transport type: "@ + transport_type@ + ". Use 'websocket' or 'udp'"@),
{
    let lower = crate::server::to_lowercase(transport_type);
    let b = crate::text::str_bytes(lower.as_str());
    proof {
        reveal_strlit("udp");
        reveal_strlit("ws");
        reveal_strlit("websocket");
        vstd::utf8::encode_utf8_decode_utf8(lower@);
        vstd::utf8::encode_utf8_decode_utf8("udp"@);
        vstd::utf8::encode_utf8_decode_utf8("ws"@);
        vstd::utf8::encode_utf8_decode_utf8("websocket"@);
    }
    let udp = crate::text::str_bytes("udp");
    let ws = crate::text::str_bytes("ws");
    let websocket = crate::text::str_bytes("websocket");
    if crate::text::bytes_eq(b.as_slice(), websocket.as_slice()) || crate::text::bytes_eq(
        b.as_slice(),
        ws.as_slice(),
    ) {
        Ok(crate::server::TransportMode::WebSocket)
    } else if crate::text::bytes_eq(b.as_slice(), udp.as_slice()) {
        Ok(crate::server::TransportMode::UDP)
    } else {
        let a = crate::text::concat_strs("Unsupported transport type: ", transport_type);
        Err(crate::text::concat_strs(a.as_str(), ". Use 'websocket' or 'udp'"))
    }
}

/// Why the client's peer sessions could not be set up.
#[derive(Debug, Clone, Copy, PartialEq, Eq, Structural)]
pub enum SessionSetupError {
    /// The private key is no URL-safe base64 text.
    BadPrivateKey,
    /// The address the server assigned is no IPv4 address.
    BadAddress,
}

/// Sets up the client's peer sessions once the server assigned its
/// address: the session manager for that address, with the client's key
/// pair (the private key decoded from its URL-safe base64 text).
pub fn create_p2p_session(start_params: &StartParams, client_pub: String, client_priv: &str) -> (r:
    Result<(Ipv4, PeerSessionManager), SessionSetupError>)
    ensures
        match (base64_url_decode(client_priv@), ipv4_of_text(start_params.ip_addr@)) {
            (None, _) => r == Err::<(Ipv4, PeerSessionManager), SessionSetupError>(
                SessionSetupError::BadPrivateKey,
            ),
            (Some(_), None) => r == Err::<(Ipv4, PeerSessionManager), SessionSetupError>(
                SessionSetupError::BadAddress,
            ),
            (Some(k), Some(ip)) => r matches Ok((own, m)) && own == ip && m.own_ip() == ip
                && m.private_key_bytes() == k && m.public_key_text() == client_pub@
                && m.known().dom() == set![ip.bits] && m.session_peers().is_empty()
                && !m.has_loopback() && m.pending().is_empty(),
        },
{
    let private_bytes = match decode_base64(client_priv) {
        Some(b) => b,
        None => return Err(SessionSetupError::BadPrivateKey),
    };
    let own = match Ipv4::parse(start_params.ip_addr.as_str()) {
        Some(ip) => ip,
        None => return Err(SessionSetupError::BadAddress),
    };
    let manager = PeerSessionManager::new(own, private_bytes, client_pub);
    Ok((own, manager))
}

} // verus!
