//! The first version of the relay and of its client. The relay keeps a
//! handshake status per sender and the set of clients whose handshake
//! succeeded; once a sender is initialized, every IPv4 packet it sends is
//! relayed to all other clients. The client answers its own packets to
//! itself locally and sends everything else to the relay.
use vstd::prelude::*;

use crate::ipv4::{ipv4_of_text, Ipv4};
use crate::legacy::{
    legacy_rep_bytes, read_legacy_rep, read_legacy_req, HandshakeRep, HandshakeRepView,
    HandshakeReq, HandshakeStatus,
};
use crate::messages::HANDSHAKE_REPLY_HEADER;
use crate::model::StartParams;
use crate::packet::parse_ipv4_header;
use crate::packet::{be16, has_ports, header_len};
use crate::peers::{lemma_filter_step, PeerKey};

verus! {

/// The netmask that the first relay hands every client.
pub const LEGACY_NETMASK: &'static str = "255.255.255.0";

/// The network that the first relay hands every client.
pub const LEGACY_NETWORK: &'static str = "12.0.0.0";

/// A client whose handshake succeeded: where it sends from and its overlay
/// address.
#[derive(Clone, Copy, PartialEq, Eq, Debug, Structural)]
pub struct LegacyClient<K> {
    pub src: K,
    pub sdn_ip: Ipv4,
}

/// True when no two entries of `s` have the same sender.
pub open spec fn senders_unique<K>(s: Seq<(K, HandshakeStatus)>) -> bool {
    forall|i: int, j: int| 0 <= i < j < s.len() ==> s[i].0 != s[j].0
}

/// True when `s` has an entry for `k`.
pub open spec fn has_sender<K>(s: Seq<(K, HandshakeStatus)>, k: K) -> bool {
    exists|i: int| 0 <= i < s.len() && #[trigger] s[i].0 == k
}

/// The handshake status of each sender of `s`.
pub open spec fn status_map<K>(s: Seq<(K, HandshakeStatus)>) -> Map<K, HandshakeStatus> {
    Map::new(
        |k: K| has_sender(s, k),
        |k: K| s[choose|i: int| 0 <= i < s.len() && #[trigger] s[i].0 == k].1,
    )
}

/// The senders that an initialized sender `src`'s packets go to: every
/// client sending from elsewhere, in table order (a sender that shows up as
/// several clients gets one copy for each).
pub open spec fn legacy_targets<K>(clients: Seq<LegacyClient<K>>, src: K) -> Seq<K> {
    clients.filter(|c: LegacyClient<K>| c.src != src).map_values(|c: LegacyClient<K>| c.src)
}

/// What the relay does with a datagram.
pub enum LegacyStep<K> {
    /// Relays the datagram unchanged to each of these senders.
    Forward(Vec<K>),
    /// Looks up the overlay address of the client with this public key.
    Lookup(String),
    /// Drops the datagram.
    Ignore,
}

/// Why a client's address could not be used.
#[derive(Debug, Clone, Copy, PartialEq, Eq, Structural)]
pub enum LegacyRelayError {
    /// The stored overlay address is no IPv4 address.
    InvalidAddress,
}

/// The reply that assigns `sdn_ip` in the first relay's network.
pub open spec fn legacy_reply(sdn_ip: Seq<char>) -> HandshakeRepView {
    HandshakeRepView {
        header: HANDSHAKE_REPLY_HEADER@,
        netmask: LEGACY_NETMASK@,
        destination: LEGACY_NETWORK@,
        sdn_ip_addr: sdn_ip,
    }
}

/// The first relay's tables.
pub struct LegacyRelay<K> {
    statuses: Vec<(K, HandshakeStatus)>,
    clients: Vec<LegacyClient<K>>,
}

impl<K: PeerKey> LegacyRelay<K> {
    /// The status table, one entry per sender.
    pub closed spec fn status_table(&self) -> Seq<(K, HandshakeStatus)> {
        self.statuses@
    }

    /// The handshake status of each sender.
    pub open spec fn statuses(&self) -> Map<K, HandshakeStatus> {
        status_map(self.status_table())
    }

    /// The clients whose handshake succeeded, in the order they came.
    pub closed spec fn clients(&self) -> Seq<LegacyClient<K>> {
        self.clients@
    }

    /// The tables hold each sender once and each client once.
    pub open spec fn wf(&self) -> bool {
        senders_unique(self.status_table()) && self.clients().no_duplicates()
    }

    /// Empty tables.
    pub fn new() -> (r: Self)
        ensures
            r.wf(),
            r.statuses() == Map::<K, HandshakeStatus>::empty(),
            r.clients() == Seq::<LegacyClient<K>>::empty(),
    {
        let r = LegacyRelay { statuses: Vec::new(), clients: Vec::new() };
        assert(r.statuses() =~= Map::<K, HandshakeStatus>::empty());
        r
    }

    /// The index of the entry for `k`, if any.
    fn status_index(&self, k: &K) -> (r: Option<usize>)
        requires
            self.wf(),
        ensures
            match r {
                Some(i) => i < self.status_table().len() && self.status_table()[i as int].0 == *k,
                None => !has_sender(self.status_table(), *k),
            },
    {
        let mut i: usize = 0;
        while i < self.statuses.len()
            invariant
                i <= self.statuses@.len(),
                forall|j: int| 0 <= j < i ==> self.statuses@[j].0 != *k,
            decreases self.statuses@.len() - i,
        {
            if self.statuses[i].0.same(k) {
                return Some(i);
            }
            i = i + 1;
        }
        None
    }

    /// Sets the status of `k`, filing it when new.
    fn set_status(&mut self, k: K, st: HandshakeStatus)
        requires
            old(self).wf(),
        ensures
            final(self).wf(),
            final(self).statuses() == old(self).statuses().insert(k, st),
            final(self).clients() == old(self).clients(),
    {
        let ghost s0 = self.statuses@;
        match self.status_index(&k) {
            Some(i) => {
                self.statuses.set(i, (k, st));
                proof {
                    let s1 = self.statuses@;
                    assert forall|a: int, b: int| 0 <= a < b < s1.len() implies s1[a].0 != s1[b].0 by {
                        assert(s0[a].0 == s1[a].0 && s0[b].0 == s1[b].0);
                    }
                    assert forall|x: K| #[trigger] has_sender(s1, x) == has_sender(s0, x) by {
                        if has_sender(s1, x) {
                            let j = choose|j: int| 0 <= j < s1.len() && #[trigger] s1[j].0 == x;
                            assert(s0[j].0 == x);
                        }
                        if has_sender(s0, x) {
                            let j = choose|j: int| 0 <= j < s0.len() && #[trigger] s0[j].0 == x;
                            assert(s1[j].0 == x);
                        }
                    }
                    assert forall|x: K| has_sender(s1, x) implies #[trigger] status_map(s1)[x]
                        == status_map(s0).insert(k, st)[x] by {
                        let j = choose|j: int| 0 <= j < s1.len() && #[trigger] s1[j].0 == x;
                        let j0 = choose|j: int| 0 <= j < s0.len() && #[trigger] s0[j].0 == x;
                        assert(s0[j].0 == x);
                        if j != j0 {
                            if j < j0 {
                                assert(s0[j].0 != s0[j0].0);
                            } else {
                                assert(s0[j0].0 != s0[j].0);
                            }
                        }
                        if x == k {
                            if j != i as int {
                                if j < i {
                                    assert(s0[j].0 != s0[i as int].0);
                                } else {
                                    assert(s0[i as int].0 != s0[j].0);
                                }
                            }
                        }
                    }
                    assert(has_sender(s0, k));
                    assert(status_map(s1) =~= status_map(s0).insert(k, st));
                }
            },
            None => {
                self.statuses.push((k, st));
                proof {
                    let s1 = self.statuses@;
                    assert(s1 == s0.push((k, st)));
                    assert forall|a: int, b: int| 0 <= a < b < s1.len() implies s1[a].0 != s1[b].0 by {
                        if b == s0.len() {
                            assert(s0[a].0 == s1[a].0);
                            if s0[a].0 == k {
                                assert(has_sender(s0, k));
                            }
                        } else {
                            assert(s0[a].0 == s1[a].0 && s0[b].0 == s1[b].0);
                        }
                    }
                    assert forall|x: K| #[trigger] has_sender(s1, x) == (has_sender(s0, x) || x == k) by {
                        if has_sender(s1, x) {
                            let j = choose|j: int| 0 <= j < s1.len() && #[trigger] s1[j].0 == x;
                            if j < s0.len() {
                                assert(s0[j].0 == x);
                            }
                        }
                        if has_sender(s0, x) {
                            let j = choose|j: int| 0 <= j < s0.len() && #[trigger] s0[j].0 == x;
                            assert(s1[j].0 == x);
                        }
                        if x == k {
                            assert(s1[s0.len() as int].0 == x);
                        }
                    }
                    assert forall|x: K| has_sender(s1, x) implies #[trigger] status_map(s1)[x]
                        == status_map(s0).insert(k, st)[x] by {
                        let j = choose|j: int| 0 <= j < s1.len() && #[trigger] s1[j].0 == x;
                        if x == k {
                            if j < s0.len() {
                                assert(s0[j].0 == k);
                                assert(has_sender(s0, k));
                            }
                        } else {
                            assert(j < s0.len());
                            assert(s0[j].0 == x);
                            let j0 = choose|j: int| 0 <= j < s0.len() && #[trigger] s0[j].0 == x;
                            if j != j0 {
                                if j < j0 {
                                    assert(s0[j].0 != s0[j0].0);
                                } else {
                                    assert(s0[j0].0 != s0[j].0);
                                }
                            }
                        }
                    }
                    assert(status_map(s1) =~= status_map(s0).insert(k, st));
                }
            },
        }
    }

    /// Decides what to do with a datagram from `src`. A new sender is filed
    /// as pending. An initialized sender's IPv4 packets (at least the 20
    /// bytes of a header) are relayed to every other client; its other
    /// datagrams are dropped. A pending sender's datagram is read as a
    /// handshake request, whose public key is then looked up.
    pub fn datagram(&mut self, src: K, data: &[u8]) -> (r: LegacyStep<K>)
        requires
            old(self).wf(),
        ensures
            final(self).wf(),
            final(self).clients() == old(self).clients(),
            old(self).statuses().contains_key(src) ==> final(self).statuses() == old(self).statuses(),
            !old(self).statuses().contains_key(src) ==> final(self).statuses() == old(
                self,
            ).statuses().insert(src, HandshakeStatus::Pending),
            if old(self).statuses().contains_key(src) && old(self).statuses()[src]
                == HandshakeStatus::Initialized {
                if data@.len() >= 20 {
                    r matches LegacyStep::Forward(to) && to@ == legacy_targets(old(self).clients(), src)
                } else {
                    r is Ignore
                }
            } else {
                match read_legacy_req(data@) {
                    Some((req, _)) => r matches LegacyStep::Lookup(k) && k@ == req.public_key,
                    None => r is Ignore,
                }
            },
    {
        let status = match self.status_index(&src) {
            Some(i) => {
                proof {
                    let s = self.status_table();
                    assert(has_sender(s, src));
                    let j = choose|j: int| 0 <= j < s.len() && #[trigger] s[j].0 == src;
                    if j != i as int {
                        if j < i {
                            assert(s[j].0 != s[i as int].0);
                        } else {
                            assert(s[i as int].0 != s[j].0);
                        }
                    }
                }
                self.statuses[i].1
            },
            None => {
                self.set_status(src, HandshakeStatus::Pending);
                HandshakeStatus::Pending
            },
        };
        match status {
            HandshakeStatus::Initialized => {
                if parse_ipv4_header(data).is_some() {
                    LegacyStep::Forward(self.targets(&src))
                } else {
                    LegacyStep::Ignore
                }
            },
            HandshakeStatus::Pending => match HandshakeReq::deserialize(data) {
                Ok(req) => LegacyStep::Lookup(req.public_key),
                Err(_) => LegacyStep::Ignore,
            },
        }
    }

    /// The senders of all clients but `src`, in table order.
    fn targets(&self, src: &K) -> (r: Vec<K>)
        ensures
            r@ == legacy_targets(self.clients(), *src),
    {
        let ghost cs = self.clients@;
        let ghost pred = |c: LegacyClient<K>| c.src != *src;
        let ghost f = |c: LegacyClient<K>| c.src;
        let mut out: Vec<K> = Vec::new();
        let mut i: usize = 0;
        while i < self.clients.len()
            invariant
                i <= cs.len(),
                cs == self.clients@,
                pred == (|c: LegacyClient<K>| c.src != *src),
                f == (|c: LegacyClient<K>| c.src),
                out@ == cs.take(i as int).filter(pred).map_values(f),
            decreases cs.len() - i,
        {
            let c = self.clients[i];
            proof {
                lemma_filter_step(cs, pred, i as int);
            }
            if !c.src.same(src) {
                let ghost before = out@;
                out.push(c.src);
                proof {
                    assert(cs.take(i as int).filter(pred).push(c).map_values(f) =~= before.push(c.src));
                }
            }
            i = i + 1;
        }
        proof {
            assert(cs.take(cs.len() as int) =~= cs);
        }
        out
    }

    /// Files the client that `src` turned out to be, with the overlay
    /// address the lookup found, and gives the reply that assigns it. An
    /// address that is no IPv4 address stops the relay.
    pub fn client_found(&mut self, src: K, sdn_ip: &str) -> (r: Result<Vec<u8>, LegacyRelayError>)
        requires
            old(self).wf(),
        ensures
            final(self).wf(),
            final(self).statuses() == old(self).statuses(),
            match ipv4_of_text(sdn_ip@) {
                None => r == Err::<Vec<u8>, LegacyRelayError>(LegacyRelayError::InvalidAddress)
                    && final(self).clients() == old(self).clients(),
                Some(ip) => {
                    &&& r matches Ok(bytes) && bytes@ == legacy_rep_bytes(legacy_reply(sdn_ip@))
                    &&& if old(self).clients().contains(LegacyClient { src, sdn_ip: ip }) {
                        final(self).clients() == old(self).clients()
                    } else {
                        final(self).clients() == old(self).clients().push(
                            LegacyClient { src, sdn_ip: ip },
                        )
                    }
                },
            },
    {
        let ip = match Ipv4::parse(sdn_ip) {
            Some(ip) => ip,
            None => return Err(LegacyRelayError::InvalidAddress),
        };
        let c = LegacyClient { src, sdn_ip: ip };
        let mut found = false;
        let mut i: usize = 0;
        while i < self.clients.len()
            invariant
                i <= self.clients@.len(),
                !found ==> forall|j: int| 0 <= j < i ==> self.clients@[j] != c,
                found ==> self.clients@.contains(c),
            decreases self.clients@.len() - i,
        {
            let d = self.clients[i];
            if d.src.same(&c.src) && d.sdn_ip.bits == c.sdn_ip.bits {
                found = true;
                assert(self.clients@[i as int] == c);
            }
            i = i + 1;
        }
        if !found {
            let ghost before = self.clients@;
            self.clients.push(c);
            proof {
                assert forall|a: int, b: int| 0 <= a < b < self.clients@.len() implies self.clients@[a]
                    != self.clients@[b] by {
                    if b == before.len() {
                        assert(self.clients@[a] == before[a]);
                    } else {
                        assert(before[a] == self.clients@[a] && before[b] == self.clients@[b]);
                    }
                }
            }
        }
        let reply = HandshakeRep::new(
            &LEGACY_NETMASK.to_owned(),
            &LEGACY_NETWORK.to_owned(),
            &sdn_ip.to_owned(),
        );
        match reply.serialize() {
            Ok(bytes) => Ok(bytes),
            Err(_) => {
                assert(false);
                Err(LegacyRelayError::InvalidAddress)
            },
        }
    }

    /// Marks `src` initialized once its reply went out.
    pub fn reply_sent(&mut self, src: K)
        requires
            old(self).wf(),
        ensures
            final(self).wf(),
            final(self).statuses() == old(self).statuses().insert(src, HandshakeStatus::Initialized),
            final(self).clients() == old(self).clients(),
    {
        self.set_status(src, HandshakeStatus::Initialized);
    }
}

/// The start parameters that a reply of the first relay carries, or `None`
/// while the client must keep waiting.
pub fn legacy_handshake_step(data: &[u8]) -> (r: Option<StartParams>)
    ensures
        match read_legacy_rep(data@) {
            Some((v, _)) => r matches Some(p) && p.netmask@ == v.netmask && p.destination@
                == v.destination && p.ip_addr@ == v.sdn_ip_addr,
            None => r is None,
        },
{
    match HandshakeRep::deserialize(data) {
        Ok(rep) => Some(
            StartParams { netmask: rep.netmask, destination: rep.destination, ip_addr: rep.sdn_ip_addr },
        ),
        Err(_) => None,
    }
}

/// True when a packet read from the TUN device goes from an address and
/// port to the same address and port: an IPv4 packet (at least 20 bytes)
/// whose source and destination addresses (bytes 12 to 15 and 16 to 19)
/// are equal and whose ports are equal (both read as 0 where the packet
/// carries none).
pub open spec fn legacy_loopback(p: Seq<u8>) -> bool {
    &&& p.len() >= 20
    &&& p.subrange(12, 16) == p.subrange(16, 20)
    &&& has_ports(p) ==> be16(p[header_len(p)], p[header_len(p) + 1]) == be16(
        p[header_len(p) + 2],
        p[header_len(p) + 3],
    )
}

/// True when the first client writes a packet from its TUN device back to
/// the device instead of sending it to the relay.
pub fn legacy_is_loopback(packet: &[u8]) -> (r: bool)
    ensures
        r == legacy_loopback(packet@),
{
    match parse_ipv4_header(packet) {
        None => false,
        Some(h) => {
            let same_ip = packet[12] == packet[16] && packet[13] == packet[17] && packet[14] == packet[18]
                && packet[15] == packet[19];
            proof {
                if same_ip {
                    assert(packet@.subrange(12, 16) =~= packet@.subrange(16, 20));
                } else {
                    assert(packet@.subrange(12, 16)[0] == packet@[12]);
                    assert(packet@.subrange(12, 16)[1] == packet@[13]);
                    assert(packet@.subrange(12, 16)[2] == packet@[14]);
                    assert(packet@.subrange(12, 16)[3] == packet@[15]);
                }
            }
            same_ip && h.src_port == h.dst_port
        },
    }
}

} // verus!
