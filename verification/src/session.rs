//! End-to-end encryption between peers: the Noise sessions a client holds
//! with the other clients of the overlay, the handshakes it has started, and
//! the packets waiting for a handshake to finish.
use vstd::prelude::*;

use std::collections::HashMap;
use vstd::std_specs::iter::IteratorSpec;

use crate::codec::{base64_decode, base64_url_decode};
use crate::ipv4::{ipv4_of_text, Ipv4};
use crate::noise::{
    create_noise_initiator, create_noise_responder, NoiseHandshake, NoiseSession,
    MAX_PRIVATE_KEY_LEN, MAX_PUBLIC_KEY_LEN, TAG_LEN,
};
use crate::peer_messages::{P2PHandshakeInit, P2PHandshakeResp, PeerInfo, PeerInfoView};
use crate::messages::{P2P_HANDSHAKE_INIT_HEADER, P2P_HANDSHAKE_RESP_HEADER};

verus! {

broadcast use vstd::std_specs::hash::group_hash_axioms;

/// Why a session operation failed.
#[derive(Debug, Clone, Copy, PartialEq, Eq, Structural)]
pub enum SessionError {
    /// An address in a message is no IPv4 address.
    InvalidAddress,
    /// The peer is not known.
    UnknownPeer,
    /// The peer's public key is no URL-safe base64 of at most 56 bytes.
    BadPeerKey,
    /// Our own private key is longer than an X25519 key.
    BadLocalKey,
    /// No handshake with the peer is waiting for its response.
    NoPendingHandshake,
    /// No session with the peer is established.
    NoSession,
    /// The Noise implementation refused the step.
    Noise,
}

/// The P2P sessions of a client with the other peers of the overlay.
pub struct PeerSessionManager {
    own_sdn_ip: Ipv4,
    private_key: Vec<u8>,
    public_key: String,
    known_peers: HashMap<u32, PeerInfo>,
    sessions: HashMap<u32, NoiseSession>,
    loopback_session: Option<NoiseSession>,
    pending_initiator: HashMap<u32, NoiseHandshake>,
    pending_packets: HashMap<u32, Vec<Vec<u8>>>,
    /// For each destination, the (plaintext, ciphertext) pairs that the
    /// sessions for sending to it, since replaced or dropped, encrypted.
    retired_sent: Ghost<Map<u32, Seq<(Seq<u8>, Seq<u8>)>>>,
    /// For each source, the (ciphertext, plaintext) pairs that the sessions
    /// with it, since replaced or dropped, decrypted.
    retired_received: Ghost<Map<u32, Seq<(Seq<u8>, Seq<u8>)>>>,
    /// For each destination, every plaintext handed to its session for
    /// encryption, whatever came of it, oldest first.
    encrypt_tried: Ghost<Map<u32, Seq<Seq<u8>>>>,
    /// For each source, every ciphertext handed to its session for
    /// decryption, whatever came of it, oldest first.
    decrypt_tried: Ghost<Map<u32, Seq<Seq<u8>>>>,
}

/// The entry of `ip` in a map of logs, empty when there is none.
pub open spec fn logged<T>(m: Map<u32, Seq<T>>, ip: u32) -> Seq<T> {
    if m.contains_key(ip) {
        m[ip]
    } else {
        Seq::empty()
    }
}

/// `s` is the fresh session of the handshake `h` after `m` went through it:
/// `h`'s keys and side, its transcript followed by `m`, nothing handed to it.
pub open spec fn fresh_after(s: NoiseSession, h: NoiseHandshake, m: Seq<u8>) -> bool {
    &&& s.local_key() == h.local_key()
    &&& s.remote_key() == h.remote_key()
    &&& s.is_initiator() == h.is_initiator()
    &&& s.transcript() == h.transcript().push(m)
    &&& s.sent_log() == Seq::<(Seq<u8>, Seq<u8>)>::empty()
    &&& s.received_log() == Seq::<(Seq<u8>, Seq<u8>)>::empty()
    &&& s.encrypt_attempts() == Seq::<Seq<u8>>::empty()
    &&& s.decrypt_attempts() == Seq::<Seq<u8>>::empty()
}

/// The contents of a queue of packets.
pub open spec fn packet_views(q: Seq<Vec<u8>>) -> Seq<Seq<u8>> {
    q.map_values(|p: Vec<u8>| p@)
}

impl PeerSessionManager {
    /// Our own overlay address.
    pub closed spec fn own_ip(&self) -> Ipv4 {
        self.own_sdn_ip
    }

    /// Our static private key.
    pub closed spec fn private_key_bytes(&self) -> Seq<u8> {
        self.private_key@
    }

    /// Our public key, in URL-safe base64.
    pub closed spec fn public_key_text(&self) -> Seq<char> {
        self.public_key@
    }

    /// The known peers, by address value.
    pub closed spec fn known(&self) -> Map<u32, PeerInfo> {
        self.known_peers@
    }

    /// The contents of the known peers, by address value.
    pub open spec fn known_view(&self) -> Map<u32, PeerInfoView> {
        self.known().map_values(|p: PeerInfo| p@)
    }

    /// The peers with an established session, by address value (the
    /// sessions used to decrypt what a peer sends).
    pub closed spec fn session_peers(&self) -> Set<u32> {
        self.sessions@.dom()
    }

    /// True when the session for sending to ourselves is established.
    pub closed spec fn has_loopback(&self) -> bool {
        self.loopback_session is Some
    }

    /// The peers with a handshake that we started and that waits for its
    /// response.
    pub closed spec fn pending(&self) -> Set<u32> {
        self.pending_initiator@.dom()
    }

    /// The packets queued for the peer with address value `ip`, oldest
    /// first.
    pub closed spec fn queued(&self, ip: u32) -> Seq<Seq<u8>> {
        if self.pending_packets@.contains_key(ip) {
            packet_views(self.pending_packets@[ip]@)
        } else {
            Seq::empty()
        }
    }

    /// The session that encrypts what goes to the peer with address value
    /// `ip`: the loopback session for our own address, the peer's session
    /// otherwise.
    pub closed spec fn sending_session(&self, ip: u32) -> Option<NoiseSession> {
        if ip == self.own_sdn_ip.bits {
            self.loopback_session
        } else if self.sessions@.contains_key(ip) {
            Some(self.sessions@[ip])
        } else {
            None
        }
    }

    /// The session that decrypts what comes from the peer with address
    /// value `ip`.
    pub closed spec fn receiving_session(&self, ip: u32) -> Option<NoiseSession> {
        if self.sessions@.contains_key(ip) {
            Some(self.sessions@[ip])
        } else {
            None
        }
    }

    /// The handshake we started with the peer with address value `ip`.
    pub closed spec fn pending_handshake(&self, ip: u32) -> NoiseHandshake {
        self.pending_initiator@[ip]
    }

    /// The (plaintext, ciphertext) pairs encrypted so far for the peer with
    /// address value `ip`, oldest first: those of the sessions for sending
    /// to it that were replaced or dropped, then those of the current one.
    pub closed spec fn sent_log(&self, ip: u32) -> Seq<(Seq<u8>, Seq<u8>)> {
        logged(self.retired_sent@, ip) + match self.sending_session(ip) {
            Some(t) => t.sent_log(),
            None => Seq::empty(),
        }
    }

    /// The (ciphertext, plaintext) pairs decrypted so far from the peer with
    /// address value `ip`, oldest first: those of the sessions with it that
    /// were replaced or dropped, then those of the current one.
    pub closed spec fn received_log(&self, ip: u32) -> Seq<(Seq<u8>, Seq<u8>)> {
        logged(self.retired_received@, ip) + match self.receiving_session(ip) {
            Some(t) => t.received_log(),
            None => Seq::empty(),
        }
    }

    /// Every plaintext handed so far to the session for sending to the peer
    /// with address value `ip`, whether or not it was encrypted, oldest
    /// first.
    pub closed spec fn encrypt_attempts(&self, ip: u32) -> Seq<Seq<u8>> {
        if self.encrypt_tried@.contains_key(ip) {
            self.encrypt_tried@[ip]
        } else {
            Seq::empty()
        }
    }

    /// Every ciphertext handed so far for decryption as coming from the peer
    /// with address value `ip`, whether or not it was decrypted, oldest
    /// first.
    pub closed spec fn decrypt_attempts(&self, ip: u32) -> Seq<Seq<u8>> {
        if self.decrypt_tried@.contains_key(ip) {
            self.decrypt_tried@[ip]
        } else {
            Seq::empty()
        }
    }

    /// True when `self` and `o` have tried, encrypted and decrypted the
    /// same.
    pub open spec fn same_logs(&self, o: &Self) -> bool {
        &&& forall|q: u32| self.sent_log(q) == o.sent_log(q)
        &&& forall|q: u32| self.received_log(q) == o.received_log(q)
        &&& forall|q: u32| self.encrypt_attempts(q) == o.encrypt_attempts(q)
        &&& forall|q: u32| self.decrypt_attempts(q) == o.decrypt_attempts(q)
    }

    /// True when a session for sending to `ip` is established: the loopback
    /// session for our own address, the peer's session otherwise.
    pub open spec fn can_send_to(&self, ip: Ipv4) -> bool {
        if ip == self.own_ip() {
            self.has_loopback()
        } else {
            self.session_peers().contains(ip.bits)
        }
    }

    /// True when `self` and `o` agree on our identity, the known peers and
    /// the queued packets.
    pub open spec fn same_peers(&self, o: &Self) -> bool {
        &&& self.own_ip() == o.own_ip()
        &&& self.private_key_bytes() == o.private_key_bytes()
        &&& self.public_key_text() == o.public_key_text()
        &&& self.known() == o.known()
        &&& forall|q: u32| self.queued(q) == o.queued(q)
    }

    /// True when `self` and `o` hold the same sessions, in the same
    /// states.
    pub open spec fn same_session_states(&self, o: &Self) -> bool {
        &&& forall|q: u32| self.sending_session(q) == o.sending_session(q)
        &&& forall|q: u32| self.receiving_session(q) == o.receiving_session(q)
    }

    /// True when `self` and `o` hold the same handshakes waiting for their
    /// responses.
    pub open spec fn same_pending(&self, o: &Self) -> bool {
        &&& self.pending() == o.pending()
        &&& forall|q: u32| self.pending().contains(q) ==> self.pending_handshake(q) == o.pending_handshake(q)
    }

    /// True when `self` and `o` hold the same sessions and handshakes.
    pub open spec fn same_sessions(&self, o: &Self) -> bool {
        &&& self.session_peers() == o.session_peers()
        &&& self.has_loopback() == o.has_loopback()
        &&& self.pending() == o.pending()
    }

    /// The public key of the known peer `ip`, decoded from base64.
    pub open spec fn peer_key(&self, ip: u32) -> Option<Seq<u8>> {
        base64_url_decode(self.known()[ip].public_key@)
    }

    /// What keeps a handshake with the known peer `ip` from being built: a
    /// peer key that does not decode or is too long, or our own private key
    /// being too long.
    pub open spec fn key_problem(&self, ip: u32) -> Option<SessionError> {
        match self.peer_key(ip) {
            None => Some(SessionError::BadPeerKey),
            Some(k) => if k.len() > MAX_PUBLIC_KEY_LEN {
                Some(SessionError::BadPeerKey)
            } else if self.private_key_bytes().len() > MAX_PRIVATE_KEY_LEN {
                Some(SessionError::BadLocalKey)
            } else {
                None
            },
        }
    }

    /// A manager that knows only ourselves.
    pub fn new(own_sdn_ip: Ipv4, private_key: Vec<u8>, public_key: String) -> (r: Self)
        ensures
            r.own_ip() == own_sdn_ip,
            r.private_key_bytes() == private_key@,
            r.public_key_text() == public_key@,
            r.known().dom() == set![own_sdn_ip.bits],
            r.known()[own_sdn_ip.bits].sdn_ip@ == own_sdn_ip.text(),
            r.known()[own_sdn_ip.bits].public_key@ == public_key@,
            r.session_peers().is_empty(),
            !r.has_loopback(),
            r.pending().is_empty(),
            forall|ip: u32| r.queued(ip) == Seq::<Seq<u8>>::empty(),
            forall|ip: u32| r.sent_log(ip) == Seq::<(Seq<u8>, Seq<u8>)>::empty(),
            forall|ip: u32| r.received_log(ip) == Seq::<(Seq<u8>, Seq<u8>)>::empty(),
            forall|ip: u32| r.encrypt_attempts(ip) == Seq::<Seq<u8>>::empty(),
            forall|ip: u32| r.decrypt_attempts(ip) == Seq::<Seq<u8>>::empty(),
    {
        let own_text = own_sdn_ip.to_string();
        let mut known_peers: HashMap<u32, PeerInfo> = HashMap::new();
        known_peers.insert(own_sdn_ip.bits, PeerInfo::new(own_text.as_str(), public_key.as_str()));
        let r = PeerSessionManager {
            own_sdn_ip,
            private_key,
            public_key,
            known_peers,
            sessions: HashMap::new(),
            loopback_session: None,
            pending_initiator: HashMap::new(),
            pending_packets: HashMap::new(),
            retired_sent: Ghost(Map::empty()),
            retired_received: Ghost(Map::empty()),
            encrypt_tried: Ghost(Map::empty()),
            decrypt_tried: Ghost(Map::empty()),
        };
        assert(r.known().dom() =~= set![own_sdn_ip.bits]);
        assert forall|ip: u32| r.sent_log(ip) =~= Seq::<(Seq<u8>, Seq<u8>)>::empty() by {}
        assert forall|ip: u32| r.received_log(ip) =~= Seq::<(Seq<u8>, Seq<u8>)>::empty() by {}
        assert(r.session_peers() =~= Set::<u32>::empty());
        assert(r.pending() =~= Set::<u32>::empty());
        r
    }

    /// The addresses of all peers with an established session, each once.
    pub fn get_all_session_peers(&self) -> (r: Vec<Ipv4>)
        ensures
            forall|ip: Ipv4| r@.contains(ip) <==> self.session_peers().contains(ip.bits),
            r@.no_duplicates(),
    {
        let mut out: Vec<Ipv4> = Vec::new();
        let ghost ks = vstd::std_specs::hash::spec_keys_iter(&self.sessions).remaining();
        proof {
            vstd::std_specs::hash::axiom_spec_keys_iter(&self.sessions);
        }
        for k in it: self.sessions.keys()
            invariant
                it.seq() == ks,
                out@.len() == it.index(),
                forall|j: int| 0 <= j < it.index() ==> out@[j].bits == *ks[j],
        {
            out.push(Ipv4 { bits: *k });
        }
        proof {
            assert(out@.len() == ks.len());
            assert(ks.unref().to_set() == self.sessions@.dom());
            assert forall|ip: Ipv4| out@.contains(ip) <==> self.session_peers().contains(ip.bits) by {
                if out@.contains(ip) {
                    let j = choose|j: int| 0 <= j < out@.len() && out@[j] == ip;
                    assert(ks.unref()[j] == ip.bits);
                    assert(ks.unref().to_set().contains(ip.bits));
                }
                if self.session_peers().contains(ip.bits) {
                    assert(ks.unref().to_set().contains(ip.bits));
                    let j = choose|j: int| 0 <= j < ks.unref().len() && ks.unref()[j] == ip.bits;
                    assert(out@[j] == ip);
                }
            }
            assert forall|a: int, b: int| 0 <= a < out@.len() && 0 <= b < out@.len() && a != b implies out@[a] != out@[b] by {
                assert(ks.unref()[a] == out@[a].bits);
                assert(ks.unref()[b] == out@[b].bits);
                assert(ks.no_duplicates());
            }
        }
        out
    }

    /// Adds or replaces a known peer, when its address is an IPv4 address.
    pub fn add_peer(&mut self, peer: PeerInfo)
        ensures
            final(self).same_logs(&*old(self)),
            match ipv4_of_text(peer.sdn_ip@) {
                Some(ip) => final(self).known() == old(self).known().insert(ip.bits, peer)
                    && final(self).known_view() == old(self).known_view().insert(ip.bits, peer@),
                None => final(self).known() == old(self).known(),
            },
            final(self).own_ip() == old(self).own_ip(),
            final(self).private_key_bytes() == old(self).private_key_bytes(),
            final(self).public_key_text() == old(self).public_key_text(),
            final(self).session_peers() == old(self).session_peers(),
            final(self).has_loopback() == old(self).has_loopback(),
            final(self).pending() == old(self).pending(),
            forall|q: u32| final(self).queued(q) == old(self).queued(q),
    {
        if let Some(ip) = Ipv4::parse(peer.sdn_ip.as_str()) {
            let ghost pv = peer@;
            self.known_peers.insert(ip.bits, peer);
            assert(self.known_view() =~= old(self).known_view().insert(ip.bits, pv));
        }
    }

    /// Forgets a peer: its entry, its session, its pending handshake and the
    /// packets queued for it.
    pub fn remove_peer(&mut self, sdn_ip: &Ipv4)
        ensures
            final(self).same_logs(&*old(self)),
            final(self).known() == old(self).known().remove(sdn_ip.bits),
            final(self).known_view() == old(self).known_view().remove(sdn_ip.bits),
            final(self).session_peers() == old(self).session_peers().remove(sdn_ip.bits),
            forall|q: u32| q != sdn_ip.bits ==> final(self).receiving_session(q) == old(self).receiving_session(q)
                && final(self).sending_session(q) == old(self).sending_session(q),
            final(self).pending() == old(self).pending().remove(sdn_ip.bits),
            forall|q: u32| final(self).pending().contains(q) ==> final(self).pending_handshake(q) == old(self).pending_handshake(q),
            final(self).queued(sdn_ip.bits) == Seq::<Seq<u8>>::empty(),
            forall|q: u32| q != sdn_ip.bits ==> final(self).queued(q) == old(self).queued(q),
            final(self).has_loopback() == old(self).has_loopback(),
            final(self).own_ip() == old(self).own_ip(),
            final(self).private_key_bytes() == old(self).private_key_bytes(),
            final(self).public_key_text() == old(self).public_key_text(),
    {
        let ghost ip = sdn_ip.bits;
        self.known_peers.remove(&sdn_ip.bits);
        let dropped = self.sessions.remove(&sdn_ip.bits);
        if let Some(t) = &dropped {
            self.retired_received = Ghost(self.retired_received@.insert(ip, logged(self.retired_received@, ip) + t.received_log()));
            if sdn_ip.bits != self.own_sdn_ip.bits {
                self.retired_sent = Ghost(self.retired_sent@.insert(ip, logged(self.retired_sent@, ip) + t.sent_log()));
            }
        }
        self.pending_initiator.remove(&sdn_ip.bits);
        self.pending_packets.remove(&sdn_ip.bits);
        assert forall|q: u32| #[trigger] self.sent_log(q) == old(self).sent_log(q) by {
            if q == ip && q != self.own_sdn_ip.bits && dropped is Some {
                assert(self.sent_log(q) =~= old(self).sent_log(q));
            }
        }
        assert forall|q: u32| #[trigger] self.received_log(q) == old(self).received_log(q) by {
            if q == ip && dropped is Some {
                assert(self.received_log(q) =~= old(self).received_log(q));
            }
        }
        assert(self.known_view() =~= old(self).known_view().remove(sdn_ip.bits));
        assert(self.session_peers() =~= old(self).session_peers().remove(sdn_ip.bits));
        assert(self.pending() =~= old(self).pending().remove(sdn_ip.bits));
    }

    /// True when the peer is known.
    pub fn knows_peer(&self, sdn_ip: &Ipv4) -> (r: bool)
        ensures
            r == self.known().contains_key(sdn_ip.bits),
    {
        self.known_peers.contains_key(&sdn_ip.bits)
    }

    /// True when a session for sending to the peer is established (for our
    /// own address, the loopback session).
    pub fn has_session(&self, sdn_ip: &Ipv4) -> (r: bool)
        ensures
            r == self.can_send_to(*sdn_ip),
    {
        if *sdn_ip == self.own_sdn_ip {
            self.loopback_session.is_some()
        } else {
            self.sessions.contains_key(&sdn_ip.bits)
        }
    }

    /// True when a handshake we started with the peer waits for its response.
    pub fn handshake_in_progress(&self, sdn_ip: &Ipv4) -> (r: bool)
        ensures
            r == self.pending().contains(sdn_ip.bits),
    {
        self.pending_initiator.contains_key(&sdn_ip.bits)
    }

    /// Queues a packet for a peer until the handshake with it finishes.
    pub fn queue_packet(&mut self, dst: &Ipv4, packet: Vec<u8>)
        ensures
            final(self).same_logs(&*old(self)),
            final(self).queued(dst.bits) == old(self).queued(dst.bits).push(packet@),
            forall|q: u32| q != dst.bits ==> final(self).queued(q) == old(self).queued(q),
            final(self).known() == old(self).known(),
            final(self).session_peers() == old(self).session_peers(),
            final(self).has_loopback() == old(self).has_loopback(),
            final(self).pending() == old(self).pending(),
            final(self).own_ip() == old(self).own_ip(),
            final(self).private_key_bytes() == old(self).private_key_bytes(),
            final(self).public_key_text() == old(self).public_key_text(),
    {
        let ghost before = old(self).queued(dst.bits);
        let mut q = match self.pending_packets.remove(&dst.bits) {
            Some(v) => v,
            None => Vec::new(),
        };
        assert(packet_views(q@) =~= before);
        let ghost pv = packet@;
        q.push(packet);
        self.pending_packets.insert(dst.bits, q);
        assert(packet_views(q@) =~= before.push(pv));
    }

    /// Takes the packets queued for a peer, oldest first, and empties its
    /// queue.
    pub fn take_pending_packets(&mut self, dst: &Ipv4) -> (r: Vec<Vec<u8>>)
        ensures
            final(self).same_logs(&*old(self)),
            packet_views(r@) == old(self).queued(dst.bits),
            final(self).queued(dst.bits) == Seq::<Seq<u8>>::empty(),
            forall|q: u32| q != dst.bits ==> final(self).queued(q) == old(self).queued(q),
            final(self).known() == old(self).known(),
            final(self).session_peers() == old(self).session_peers(),
            final(self).has_loopback() == old(self).has_loopback(),
            final(self).pending() == old(self).pending(),
            final(self).own_ip() == old(self).own_ip(),
            final(self).private_key_bytes() == old(self).private_key_bytes(),
            final(self).public_key_text() == old(self).public_key_text(),
    {
        match self.pending_packets.remove(&dst.bits) {
            Some(v) => v,
            None => {
                let v: Vec<Vec<u8>> = Vec::new();
                assert(packet_views(v@) =~= Seq::<Seq<u8>>::empty());
                v
            },
        }
    }

    /// Decodes the public key of a known peer and checks both keys' lengths.
    fn usable_peer_key(&self, ip: u32) -> (r: Result<Vec<u8>, SessionError>)
        requires
            self.known().contains_key(ip),
        ensures
            match self.key_problem(ip) {
                Some(e) => r == Err::<Vec<u8>, SessionError>(e),
                None => r matches Ok(k) && Some(k@) == self.peer_key(ip) && k@.len()
                    <= MAX_PUBLIC_KEY_LEN && self.private_key_bytes().len() <= MAX_PRIVATE_KEY_LEN,
            },
    {
        let peer = match self.known_peers.get(&ip) {
            Some(p) => p,
            None => {
                assert(false);
                return Err(SessionError::UnknownPeer);
            },
        };
        let key = match base64_decode(peer.public_key.as_str()) {
            Ok(k) => k,
            Err(_) => return Err(SessionError::BadPeerKey),
        };
        if key.len() > MAX_PUBLIC_KEY_LEN {
            return Err(SessionError::BadPeerKey);
        }
        if self.private_key.len() > MAX_PRIVATE_KEY_LEN {
            return Err(SessionError::BadLocalKey);
        }
        Ok(key)
    }

    /// Starts a handshake with a known peer (we are the initiator): builds
    /// the first Noise message and records the handshake as pending.
    pub fn initiate_handshake(&mut self, dst_sdn_ip: &Ipv4) -> (r: Result<P2PHandshakeInit, SessionError>)
        ensures
            final(self).same_logs(&*old(self)),
            !old(self).known().contains_key(dst_sdn_ip.bits) ==> r == Err::<P2PHandshakeInit, SessionError>(SessionError::UnknownPeer),
            old(self).known().contains_key(dst_sdn_ip.bits) ==> match old(self).key_problem(dst_sdn_ip.bits) {
                Some(e) => r == Err::<P2PHandshakeInit, SessionError>(e),
                None => r is Ok || r == Err::<P2PHandshakeInit, SessionError>(SessionError::Noise),
            },
            r matches Ok(init) ==> {
                &&& init.header@ == P2P_HANDSHAKE_INIT_HEADER@
                &&& init.initiator_sdn_ip@ == old(self).own_ip().text()
                &&& init.responder_sdn_ip@ == dst_sdn_ip.text()
                &&& init.noise_payload@.len() <= 1024
                &&& final(self).pending() == old(self).pending().insert(dst_sdn_ip.bits)
                &&& final(self).pending_handshake(dst_sdn_ip.bits).local_key() == old(self).private_key_bytes()
                &&& Some(final(self).pending_handshake(dst_sdn_ip.bits).remote_key()) == old(self).peer_key(dst_sdn_ip.bits)
                &&& final(self).pending_handshake(dst_sdn_ip.bits).is_initiator()
                &&& final(self).pending_handshake(dst_sdn_ip.bits).transcript() == seq![init.noise_payload@]
                &&& forall|q: u32| q != dst_sdn_ip.bits && old(self).pending().contains(q)
                    ==> final(self).pending_handshake(q) == old(self).pending_handshake(q)
            },
            r is Err ==> final(self).same_pending(&*old(self)),
            final(self).same_session_states(&*old(self)),
            final(self).session_peers() == old(self).session_peers(),
            final(self).has_loopback() == old(self).has_loopback(),
            final(self).same_peers(&*old(self)),
    {
        if !self.known_peers.contains_key(&dst_sdn_ip.bits) {
            return Err(SessionError::UnknownPeer);
        }
        let peer_key = self.usable_peer_key(dst_sdn_ip.bits)?;
        let mut initiator = match create_noise_initiator(self.private_key.as_slice(), peer_key.as_slice()) {
            Ok(h) => h,
            Err(_) => return Err(SessionError::Noise),
        };
        let message = match initiator.write_message() {
            Ok(m) => m,
            Err(_) => return Err(SessionError::Noise),
        };
        assert(initiator.transcript() =~= seq![message@]);
        self.pending_initiator.insert(dst_sdn_ip.bits, initiator);
        let own_text = self.own_sdn_ip.to_string();
        let dst_text = dst_sdn_ip.to_string();
        Ok(P2PHandshakeInit::new(own_text.as_str(), dst_text.as_str(), message))
    }

    /// Answers a peer's handshake initiation (we are the responder): takes in
    /// its message, builds the response and establishes the session used to
    /// decrypt what that peer sends.
    pub fn handle_handshake_init(&mut self, init: &P2PHandshakeInit) -> (r: Result<P2PHandshakeResp, SessionError>)
        ensures
            final(self).same_logs(&*old(self)),
            match ipv4_of_text(init.initiator_sdn_ip@) {
                None => r == Err::<P2PHandshakeResp, SessionError>(SessionError::InvalidAddress),
                Some(ip) => {
                    &&& !old(self).known().contains_key(ip.bits) ==> r == Err::<P2PHandshakeResp, SessionError>(SessionError::UnknownPeer)
                    &&& old(self).known().contains_key(ip.bits) ==> match old(self).key_problem(ip.bits) {
                        Some(e) => r == Err::<P2PHandshakeResp, SessionError>(e),
                        None => r is Ok || r == Err::<P2PHandshakeResp, SessionError>(SessionError::Noise),
                    }
                    &&& r matches Ok(resp) ==> {
                        &&& resp.header@ == P2P_HANDSHAKE_RESP_HEADER@
                        &&& resp.initiator_sdn_ip@ == init.initiator_sdn_ip@
                        &&& resp.responder_sdn_ip@ == old(self).own_ip().text()
                        &&& resp.noise_payload@.len() <= 1024
                        &&& final(self).session_peers() == old(self).session_peers().insert(ip.bits)
                        &&& final(self).receiving_session(ip.bits) matches Some(t) && t.local_key()
                            == old(self).private_key_bytes() && Some(t.remote_key()) == old(self).peer_key(ip.bits)
                            && !t.is_initiator() && t.transcript() == seq![init.noise_payload@, resp.noise_payload@]
                            && t.sent_log() == Seq::<(Seq<u8>, Seq<u8>)>::empty()
                            && t.received_log() == Seq::<(Seq<u8>, Seq<u8>)>::empty()
                            && t.encrypt_attempts() == Seq::<Seq<u8>>::empty()
                            && t.decrypt_attempts() == Seq::<Seq<u8>>::empty()
                        &&& ip != old(self).own_ip() ==> final(self).sending_session(ip.bits) == final(self).receiving_session(ip.bits)
                        &&& forall|q: u32| q != ip.bits ==> final(self).receiving_session(q) == old(self).receiving_session(q)
                        &&& forall|q: u32| q != ip.bits || ip == old(self).own_ip() ==> final(self).sending_session(q)
                            == old(self).sending_session(q)
                    }
                },
            },
            r is Err ==> final(self).session_peers() == old(self).session_peers()
                && final(self).same_session_states(&*old(self)),
            final(self).same_pending(&*old(self)),
            final(self).has_loopback() == old(self).has_loopback(),
            final(self).same_peers(&*old(self)),
    {
        let initiator_ip = match Ipv4::parse(init.initiator_sdn_ip.as_str()) {
            Some(ip) => ip,
            None => return Err(SessionError::InvalidAddress),
        };
        if !self.known_peers.contains_key(&initiator_ip.bits) {
            return Err(SessionError::UnknownPeer);
        }
        let peer_key = self.usable_peer_key(initiator_ip.bits)?;
        let mut responder = match create_noise_responder(self.private_key.as_slice(), peer_key.as_slice()) {
            Ok(h) => h,
            Err(_) => return Err(SessionError::Noise),
        };
        if responder.read_message(init.noise_payload.as_slice()).is_err() {
            return Err(SessionError::Noise);
        }
        let message = match responder.write_message() {
            Ok(m) => m,
            Err(_) => return Err(SessionError::Noise),
        };
        assert(responder.transcript() =~= seq![init.noise_payload@, message@]);
        let session = match NoiseSession::new(responder) {
            Ok(t) => t,
            Err(_) => return Err(SessionError::Noise),
        };
        let ghost ip = initiator_ip.bits;
        let replaced = self.sessions.insert(initiator_ip.bits, session);
        if let Some(t) = &replaced {
            self.retired_received = Ghost(self.retired_received@.insert(ip, logged(self.retired_received@, ip) + t.received_log()));
            if initiator_ip.bits != self.own_sdn_ip.bits {
                self.retired_sent = Ghost(self.retired_sent@.insert(ip, logged(self.retired_sent@, ip) + t.sent_log()));
            }
        }
        assert forall|q: u32| #[trigger] self.sent_log(q) == old(self).sent_log(q) by {
            if q == ip {
                assert(self.sent_log(q) =~= old(self).sent_log(q));
            }
        }
        assert forall|q: u32| #[trigger] self.received_log(q) == old(self).received_log(q) by {
            if q == ip {
                assert(self.received_log(q) =~= old(self).received_log(q));
            }
        }
        let own_text = self.own_sdn_ip.to_string();
        Ok(P2PHandshakeResp::new(init.initiator_sdn_ip.as_str(), own_text.as_str(), message))
    }

    /// Takes in the response to a handshake we started: the pending
    /// handshake is consumed whatever the outcome; on success the session is
    /// established (for our own address, the loopback session).
    pub fn handle_handshake_resp(&mut self, resp: &P2PHandshakeResp) -> (r: Result<(), SessionError>)
        ensures
            final(self).same_logs(&*old(self)),
            match ipv4_of_text(resp.responder_sdn_ip@) {
                None => r == Err::<(), SessionError>(SessionError::InvalidAddress)
                    && final(self).pending() == old(self).pending(),
                Some(ip) => {
                    &&& final(self).pending() == old(self).pending().remove(ip.bits)
                    &&& !old(self).pending().contains(ip.bits) ==> r == Err::<(), SessionError>(SessionError::NoPendingHandshake)
                    &&& old(self).pending().contains(ip.bits) ==> r is Ok || r == Err::<(), SessionError>(SessionError::Noise)
                    &&& r is Ok ==> if ip == old(self).own_ip() {
                        final(self).has_loopback() && final(self).session_peers() == old(self).session_peers()
                    } else {
                        final(self).session_peers() == old(self).session_peers().insert(ip.bits)
                            && final(self).has_loopback() == old(self).has_loopback()
                    }
                    &&& r is Ok ==> (final(self).sending_session(ip.bits) matches Some(t) && fresh_after(
                        t,
                        old(self).pending_handshake(ip.bits),
                        resp.noise_payload@,
                    ))
                    &&& r is Ok && ip != old(self).own_ip() ==> final(self).receiving_session(ip.bits)
                        == final(self).sending_session(ip.bits)
                    &&& r is Ok && ip == old(self).own_ip() ==> final(self).receiving_session(ip.bits)
                        == old(self).receiving_session(ip.bits)
                    &&& forall|q: u32| q != ip.bits ==> final(self).receiving_session(q) == old(self).receiving_session(q)
                        && final(self).sending_session(q) == old(self).sending_session(q)
                },
            },
            r is Err ==> final(self).session_peers() == old(self).session_peers()
                && final(self).has_loopback() == old(self).has_loopback()
                && final(self).same_session_states(&*old(self)),
            forall|q: u32| final(self).pending().contains(q) ==> final(self).pending_handshake(q) == old(self).pending_handshake(q),
            final(self).same_peers(&*old(self)),
    {
        let responder_ip = match Ipv4::parse(resp.responder_sdn_ip.as_str()) {
            Some(ip) => ip,
            None => return Err(SessionError::InvalidAddress),
        };
        let mut initiator = match self.pending_initiator.remove(&responder_ip.bits) {
            Some(h) => h,
            None => {
                assert(self.pending() =~= old(self).pending().remove(responder_ip.bits));
                return Err(SessionError::NoPendingHandshake);
            },
        };
        assert(self.pending() =~= old(self).pending().remove(responder_ip.bits));
        let ghost h = initiator;
        if initiator.read_message(resp.noise_payload.as_slice()).is_err() {
            return Err(SessionError::Noise);
        }
        let session = match NoiseSession::new(initiator) {
            Ok(t) => t,
            Err(_) => return Err(SessionError::Noise),
        };
        assert(fresh_after(session, h, resp.noise_payload@));
        let ghost ip = responder_ip.bits;
        if responder_ip.bits == self.own_sdn_ip.bits {
            let replaced = self.loopback_session.take();
            self.loopback_session = Some(session);
            if let Some(t) = &replaced {
                self.retired_sent = Ghost(self.retired_sent@.insert(ip, logged(self.retired_sent@, ip) + t.sent_log()));
            }
        } else {
            let replaced = self.sessions.insert(responder_ip.bits, session);
            if let Some(t) = &replaced {
                self.retired_received = Ghost(self.retired_received@.insert(ip, logged(self.retired_received@, ip) + t.received_log()));
                self.retired_sent = Ghost(self.retired_sent@.insert(ip, logged(self.retired_sent@, ip) + t.sent_log()));
            }
        }
        assert forall|q: u32| #[trigger] self.sent_log(q) == old(self).sent_log(q) by {
            if q == ip {
                assert(self.sent_log(q) =~= old(self).sent_log(q));
            }
        }
        assert forall|q: u32| #[trigger] self.received_log(q) == old(self).received_log(q) by {
            if q == ip {
                assert(self.received_log(q) =~= old(self).received_log(q));
            }
        }
        Ok(())
    }

    /// Encrypts a packet for a peer with the session for sending to it: the
    /// loopback session for our own address, the peer's session otherwise;
    /// every other session stays as it was.
    pub fn encrypt_for(&mut self, dst: &Ipv4, data: &[u8]) -> (r: Result<Vec<u8>, SessionError>)
        ensures
            !old(self).can_send_to(*dst) ==> r == Err::<Vec<u8>, SessionError>(SessionError::NoSession),
            old(self).can_send_to(*dst) ==> r is Ok || r == Err::<Vec<u8>, SessionError>(SessionError::Noise),
            old(self).can_send_to(*dst) && data@.len() + TAG_LEN > 65535 ==> r == Err::<Vec<u8>, SessionError>(SessionError::Noise),
            r matches Ok(c) ==> c@.len() == data@.len() + TAG_LEN,
            r matches Ok(c) ==> final(self).sent_log(dst.bits) == old(self).sent_log(dst.bits).push((data@, c@)),
            r is Err ==> final(self).sent_log(dst.bits) == old(self).sent_log(dst.bits),
            forall|q: u32| q != dst.bits ==> final(self).sent_log(q) == old(self).sent_log(q),
            forall|q: u32| final(self).received_log(q) == old(self).received_log(q),
            final(self).encrypt_attempts(dst.bits) == old(self).encrypt_attempts(dst.bits).push(data@),
            forall|q: u32| q != dst.bits ==> final(self).encrypt_attempts(q) == old(self).encrypt_attempts(q),
            forall|q: u32| final(self).decrypt_attempts(q) == old(self).decrypt_attempts(q),
            old(self).sending_session(dst.bits) matches Some(s0) ==> (final(self).sending_session(dst.bits) matches Some(s1)
                && s1.same_origin(&s0) && s1.encrypt_attempts() == s0.encrypt_attempts().push(data@)
                && s1.decrypt_attempts() == s0.decrypt_attempts() && s1.received_log() == s0.received_log()
                && (r matches Ok(c) ==> s1.sent_log() == s0.sent_log().push((data@, c@)))
                && (r is Err ==> s1.sent_log() == s0.sent_log())),
            dst.bits != old(self).own_ip().bits ==> final(self).receiving_session(dst.bits) == final(self).sending_session(dst.bits),
            forall|q: u32| q != dst.bits ==> final(self).sending_session(q) == old(self).sending_session(q),
            forall|q: u32| q != dst.bits || dst.bits == old(self).own_ip().bits ==> final(self).receiving_session(q)
                == old(self).receiving_session(q),
            final(self).same_sessions(&*old(self)),
            final(self).same_pending(&*old(self)),
            final(self).same_peers(&*old(self)),
    {
        let ghost ip = dst.bits;
        let r = if dst.bits == self.own_sdn_ip.bits {
            match self.loopback_session.take() {
                Some(mut t) => {
                    let r = t.encrypt(data);
                    self.loopback_session = Some(t);
                    match r {
                        Ok(c) => Ok(c),
                        Err(_) => Err(SessionError::Noise),
                    }
                },
                None => Err(SessionError::NoSession),
            }
        } else {
            match self.sessions.remove(&dst.bits) {
                Some(mut t) => {
                    let r = t.encrypt(data);
                    self.sessions.insert(dst.bits, t);
                    match r {
                        Ok(c) => Ok(c),
                        Err(_) => Err(SessionError::Noise),
                    }
                },
                None => {
                    assert(self.sessions@ =~= old(self).sessions@);
                    Err(SessionError::NoSession)
                },
            }
        };
        assert(self.session_peers() =~= old(self).session_peers());
        let ghost tried = self.encrypt_attempts(ip);
        self.encrypt_tried = Ghost(self.encrypt_tried@.insert(ip, tried.push(data@)));
        proof {
            if let Ok(c) = &r {
                assert(self.sent_log(ip) =~= old(self).sent_log(ip).push((data@, c@)));
            } else {
                assert(self.sent_log(ip) =~= old(self).sent_log(ip));
            }
            assert forall|q: u32| #[trigger] self.received_log(q) == old(self).received_log(q) by {
                assert(self.received_log(q) =~= old(self).received_log(q));
            }
        }
        r
    }

    /// Decrypts a packet from a peer with the session established with it;
    /// every other session stays as it was.
    pub fn decrypt_from(&mut self, src: &Ipv4, data: &[u8]) -> (r: Result<Vec<u8>, SessionError>)
        ensures
            !old(self).session_peers().contains(src.bits) ==> r == Err::<Vec<u8>, SessionError>(SessionError::NoSession),
            old(self).session_peers().contains(src.bits) ==> r is Ok || r == Err::<Vec<u8>, SessionError>(SessionError::Noise),
            old(self).session_peers().contains(src.bits) && (data@.len() < TAG_LEN || data@.len() > 65535)
                ==> r == Err::<Vec<u8>, SessionError>(SessionError::Noise),
            r matches Ok(p) ==> p@.len() + TAG_LEN == data@.len(),
            r matches Ok(p) ==> final(self).received_log(src.bits) == old(self).received_log(src.bits).push((data@, p@)),
            r is Err ==> final(self).received_log(src.bits) == old(self).received_log(src.bits),
            forall|q: u32| q != src.bits ==> final(self).received_log(q) == old(self).received_log(q),
            forall|q: u32| final(self).sent_log(q) == old(self).sent_log(q),
            final(self).decrypt_attempts(src.bits) == old(self).decrypt_attempts(src.bits).push(data@),
            forall|q: u32| q != src.bits ==> final(self).decrypt_attempts(q) == old(self).decrypt_attempts(q),
            forall|q: u32| final(self).encrypt_attempts(q) == old(self).encrypt_attempts(q),
            old(self).receiving_session(src.bits) matches Some(s0) ==> (final(self).receiving_session(src.bits) matches Some(s1)
                && s1.same_origin(&s0) && s1.decrypt_attempts() == s0.decrypt_attempts().push(data@)
                && s1.encrypt_attempts() == s0.encrypt_attempts() && s1.sent_log() == s0.sent_log()
                && (r matches Ok(p) ==> s1.received_log() == s0.received_log().push((data@, p@)))
                && (r is Err ==> s1.received_log() == s0.received_log())),
            src.bits != old(self).own_ip().bits ==> final(self).sending_session(src.bits) == final(self).receiving_session(src.bits),
            forall|q: u32| q != src.bits ==> final(self).receiving_session(q) == old(self).receiving_session(q),
            forall|q: u32| q != src.bits || src.bits == old(self).own_ip().bits ==> final(self).sending_session(q)
                == old(self).sending_session(q),
            final(self).same_sessions(&*old(self)),
            final(self).same_pending(&*old(self)),
            final(self).same_peers(&*old(self)),
    {
        let ghost ip = src.bits;
        let r = match self.sessions.remove(&src.bits) {
            Some(mut t) => {
                let r = t.decrypt(data);
                self.sessions.insert(src.bits, t);
                match r {
                    Ok(p) => Ok(p),
                    Err(_) => Err(SessionError::Noise),
                }
            },
            None => {
                assert(self.sessions@ =~= old(self).sessions@);
                Err(SessionError::NoSession)
            },
        };
        assert(self.session_peers() =~= old(self).session_peers());
        let ghost tried = self.decrypt_attempts(ip);
        self.decrypt_tried = Ghost(self.decrypt_tried@.insert(ip, tried.push(data@)));
        proof {
            if let Ok(p) = &r {
                assert(self.received_log(ip) =~= old(self).received_log(ip).push((data@, p@)));
            } else {
                assert(self.received_log(ip) =~= old(self).received_log(ip));
            }
            assert forall|q: u32| #[trigger] self.sent_log(q) == old(self).sent_log(q) by {
                assert(self.sent_log(q) =~= old(self).sent_log(q));
            }
        }
        r
    }
}

/// Which session encrypts for an address: for every address but our own,
/// the session that also decrypts what that peer sends; for our own, the
/// loopback session; there is one exactly when the manager can send there.
pub proof fn lemma_sending_session(m: PeerSessionManager, ip: u32)
    ensures
        m.sending_session(ip) is Some <==> m.can_send_to(Ipv4 { bits: ip }),
        ip != m.own_ip().bits ==> m.sending_session(ip) == m.receiving_session(ip),
        ip == m.own_ip().bits ==> (m.sending_session(ip) is Some <==> m.has_loopback()),
{
}

/// One call of `queue_packet` for the destination with address value `d`
/// and the packet `p` took `m0` to `m1`, as that call's contract states of
/// the queues.
pub open spec fn queued_one(m0: PeerSessionManager, m1: PeerSessionManager, d: u32, p: Seq<u8>) -> bool {
    &&& m1.queued(d) == m0.queued(d).push(p)
    &&& forall|q: u32| q != d ==> m1.queued(q) == m0.queued(q)
}

/// Packets queued for a destination whose queue was empty come out in the
/// order they were queued: after `ps.len()` calls of `queue_packet` for `d`
/// with the packets `ps`, taking `ms[0]` through `ms` to its last state,
/// the queue of `d` is exactly `ps` (which `take_pending_packets` then
/// returns and empties), and the queues of other destinations are as they
/// were.
pub proof fn lemma_queue_order(ms: Seq<PeerSessionManager>, d: u32, ps: Seq<Seq<u8>>)
    requires
        ms.len() == ps.len() + 1,
        ms[0].queued(d) == Seq::<Seq<u8>>::empty(),
        forall|i: int| 0 <= i < ps.len() ==> #[trigger] queued_one(ms[i], ms[i + 1], d, ps[i]),
    ensures
        ms.last().queued(d) == ps,
        forall|q: u32| q != d ==> ms.last().queued(q) == ms[0].queued(q),
    decreases ps.len(),
{
    if ps.len() == 0 {
        assert(ps =~= Seq::<Seq<u8>>::empty());
    } else {
        let n = ps.len() - 1;
        let ms1 = ms.drop_last();
        let ps1 = ps.drop_last();
        assert forall|i: int| 0 <= i < ps1.len() implies #[trigger] queued_one(ms1[i], ms1[i + 1], d, ps1[i]) by {
            assert(queued_one(ms[i], ms[i + 1], d, ps[i]));
        }
        lemma_queue_order(ms1, d, ps1);
        assert(queued_one(ms[n], ms[n + 1], d, ps[n]));
        assert(ms1.last() == ms[n]);
        assert(ps1.push(ps[n]) =~= ps);
    }
}

} // verus!
