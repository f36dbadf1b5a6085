//! Messages between peers, routed by the relay server: the peer directory
//! (list and announcements), the peer-to-peer Noise handshake, and relayed
//! end-to-end encrypted packets.
use vstd::prelude::*;
use vstd::utf8::*;

use crate::messages::{
    str_fits, WireError, P2P_HANDSHAKE_INIT_HEADER, P2P_HANDSHAKE_RESP_HEADER, PEER_ANNOUNCE_HEADER,
    PEER_LIST_HEADER, RELAY_PACKET_HEADER,
};
use crate::wire::{
    bytes_field, fits_u64, lemma_bytes_field_roundtrip, lemma_header_roundtrip,
    lemma_str_field_roundtrip, lemma_varint_roundtrip, read_bytes_field, read_bytes_field_at,
    read_header, read_header_at, read_str_field, read_str_field_at, read_varint, read_varint32,
    read_varint32_at, read_varint_at, str_field, varint_bytes, write_bytes_field, write_header,
    write_str_field, write_varint,
};

verus! {

fn to_owned_string(s: &str) -> (r: String)
    ensures
        r@ == s@,
{
    s.to_owned()
}

// ---------------------------------------------------------------------------
// PeerEventType

/// Whether an announced peer joined or left.
#[derive(Clone, Copy, PartialEq, Eq, Debug, Structural)]
pub enum PeerEventType {
    Connected,
    Disconnected,
}

/// The variant index of an event kind.
pub open spec fn event_index(e: PeerEventType) -> nat {
    match e {
        PeerEventType::Connected => 0,
        PeerEventType::Disconnected => 1,
    }
}

/// Reads an event kind: its variant index, 0 or 1, in compact form.
pub open spec fn read_event(b: Seq<u8>) -> Option<(PeerEventType, Seq<u8>)> {
    match read_varint32(b) {
        None => None,
        Some((i, r)) => if i == 0 {
            Some((PeerEventType::Connected, r))
        } else if i == 1 {
            Some((PeerEventType::Disconnected, r))
        } else {
            None
        },
    }
}

// ---------------------------------------------------------------------------
// PeerInfo

/// A connected peer: its overlay address and its public key.
pub struct PeerInfo {
    pub sdn_ip: String,
    pub public_key: String,
}

/// The contents of a peer entry.
pub struct PeerInfoView {
    pub sdn_ip: Seq<char>,
    pub public_key: Seq<char>,
}

impl View for PeerInfo {
    type V = PeerInfoView;

    open spec fn view(&self) -> PeerInfoView {
        PeerInfoView { sdn_ip: self.sdn_ip@, public_key: self.public_key@ }
    }
}

/// The bytes of a peer entry.
pub open spec fn peer_info_bytes(v: PeerInfoView) -> Seq<u8> {
    str_field(v.sdn_ip) + str_field(v.public_key)
}

/// Reads a peer entry.
pub open spec fn read_peer_info(b: Seq<u8>) -> Option<(PeerInfoView, Seq<u8>)> {
    match read_str_field(b) {
        None => None,
        Some((ip, r1)) => match read_str_field(r1) {
            None => None,
            Some((k, r2)) => Some((PeerInfoView { sdn_ip: ip, public_key: k }, r2)),
        },
    }
}

/// A peer entry whose fields can be encoded.
pub open spec fn peer_info_wf(v: PeerInfoView) -> bool {
    str_fits(v.sdn_ip) && str_fits(v.public_key)
}

/// Decoding the bytes of a peer entry gives it back.
pub proof fn lemma_peer_info_roundtrip(v: PeerInfoView, rest: Seq<u8>)
    requires
        peer_info_wf(v),
    ensures
        read_peer_info(peer_info_bytes(v) + rest) == Some((v, rest)),
{
    let a = str_field(v.sdn_ip);
    let b = str_field(v.public_key);
    assert(peer_info_bytes(v) + rest =~= a + (b + rest));
    lemma_str_field_roundtrip(v.sdn_ip, b + rest);
    lemma_str_field_roundtrip(v.public_key, rest);
}

impl PeerInfo {
    /// A peer entry.
    pub fn new(sdn_ip: &str, public_key: &str) -> (r: Self)
        ensures
            r.sdn_ip@ == sdn_ip@,
            r.public_key@ == public_key@,
    {
        PeerInfo { sdn_ip: to_owned_string(sdn_ip), public_key: to_owned_string(public_key) }
    }

    /// A copy of the entry.
    pub fn clone_info(&self) -> (r: Self)
        ensures
            r@ == self@,
    {
        PeerInfo {
            sdn_ip: to_owned_string(self.sdn_ip.as_str()),
            public_key: to_owned_string(self.public_key.as_str()),
        }
    }

    fn write(&self, out: &mut Vec<u8>)
        ensures
            final(out)@ == old(out)@ + peer_info_bytes(self@),
            peer_info_wf(self@),
    {
        write_str_field(out, self.sdn_ip.as_str());
        write_str_field(out, self.public_key.as_str());
        assert(final(out)@ =~= old(out)@ + peer_info_bytes(self@));
    }

    fn read_at(buf: &[u8], pos: usize) -> (r: Option<(Self, usize)>)
        requires
            pos <= buf.len(),
        ensures
            match read_peer_info(buf@.skip(pos as int)) {
                None => r is None,
                Some((v, rest)) => r matches Some((m, p)) && m@ == v && pos < p <= buf.len() && rest
                    == buf@.skip(p as int),
            },
    {
        let (sdn_ip, p) = match read_str_field_at(buf, pos) {
            Some(x) => x,
            None => return None,
        };
        let (public_key, p) = match read_str_field_at(buf, p) {
            Some(x) => x,
            None => return None,
        };
        Some((PeerInfo { sdn_ip, public_key }, p))
    }
}

// ---------------------------------------------------------------------------
// PeerList

/// The contents of a sequence of peer entries.
pub open spec fn peer_views(ps: Seq<PeerInfo>) -> Seq<PeerInfoView> {
    ps.map_values(|p: PeerInfo| p@)
}

/// The bytes of the entries of a peer list, one after another.
pub open spec fn peer_seq_bytes(ps: Seq<PeerInfoView>) -> Seq<u8>
    decreases ps.len(),
{
    if ps.len() == 0 {
        seq![]
    } else {
        peer_info_bytes(ps[0]) + peer_seq_bytes(ps.drop_first())
    }
}

/// Reads `n` peer entries one after another.
pub open spec fn read_peer_seq(b: Seq<u8>, n: nat) -> Option<(Seq<PeerInfoView>, Seq<u8>)>
    decreases n,
{
    if n == 0 {
        Some((seq![], b))
    } else {
        match read_peer_info(b) {
            None => None,
            Some((p, r)) => match read_peer_seq(r, (n - 1) as nat) {
                None => None,
                Some((ps, r2)) => Some((seq![p] + ps, r2)),
            },
        }
    }
}

/// The contents of a peer list.
pub struct PeerListView {
    pub header: Seq<u8>,
    pub peers: Seq<PeerInfoView>,
}

/// The bytes of a peer list: header, entry count, entries.
pub open spec fn peer_list_bytes(v: PeerListView) -> Seq<u8> {
    v.header + varint_bytes(v.peers.len()) + peer_seq_bytes(v.peers)
}

/// Reads a peer list.
pub open spec fn read_peer_list(b: Seq<u8>) -> Option<(PeerListView, Seq<u8>)> {
    match read_header(b) {
        None => None,
        Some((h, r1)) => match read_varint(r1) {
            None => None,
            Some((n, r2)) => match read_peer_seq(r2, n) {
                None => None,
                Some((ps, r3)) => Some((PeerListView { header: h, peers: ps }, r3)),
            },
        },
    }
}

/// A peer list whose fields can be encoded.
pub open spec fn peer_list_wf(v: PeerListView) -> bool {
    &&& v.header.len() == 3
    &&& fits_u64(v.peers.len())
    &&& forall|i: int| 0 <= i < v.peers.len() ==> peer_info_wf(#[trigger] v.peers[i])
}

#[verifier::spinoff_prover]
proof fn lemma_peer_seq_roundtrip(ps: Seq<PeerInfoView>, rest: Seq<u8>)
    requires
        forall|i: int| 0 <= i < ps.len() ==> peer_info_wf(#[trigger] ps[i]),
    ensures
        read_peer_seq(peer_seq_bytes(ps) + rest, ps.len()) == Some((ps, rest)),
    decreases ps.len(),
{
    if ps.len() > 0 {
        let tail = ps.drop_first();
        assert(forall|i: int| 0 <= i < tail.len() ==> peer_info_wf(#[trigger] tail[i])) by {
            assert forall|i: int| 0 <= i < tail.len() implies peer_info_wf(#[trigger] tail[i]) by {
                assert(tail[i] == ps[i + 1]);
            }
        }
        assert(peer_info_wf(ps[0]));
        lemma_peer_seq_roundtrip(tail, rest);
        assert(peer_seq_bytes(ps) + rest =~= peer_info_bytes(ps[0]) + (peer_seq_bytes(tail)
            + rest));
        lemma_peer_info_roundtrip(ps[0], peer_seq_bytes(tail) + rest);
        assert(seq![ps[0]] + tail =~= ps);
    } else {
        assert(peer_seq_bytes(ps) + rest =~= rest);
        assert(ps =~= Seq::<PeerInfoView>::empty());
    }
}

/// Decoding the bytes of a peer list gives it back.
pub proof fn lemma_peer_list_roundtrip(v: PeerListView, rest: Seq<u8>)
    requires
        peer_list_wf(v),
    ensures
        read_peer_list(peer_list_bytes(v) + rest) == Some((v, rest)),
{
    let a = varint_bytes(v.peers.len());
    let b = peer_seq_bytes(v.peers);
    assert(peer_list_bytes(v) + rest =~= v.header + (a + (b + rest)));
    lemma_header_roundtrip(v.header, a + (b + rest));
    lemma_varint_roundtrip(v.peers.len(), b + rest);
    lemma_peer_seq_roundtrip(v.peers, rest);
}

/// The list of peers connected to the server, sent to a newly joined client.
pub struct PeerList {
    pub header: [u8; 3],
    pub peers: Vec<PeerInfo>,
}

impl View for PeerList {
    type V = PeerListView;

    open spec fn view(&self) -> PeerListView {
        PeerListView { header: self.header@, peers: peer_views(self.peers@) }
    }
}

impl PeerList {
    /// A list of the given peers.
    pub fn new(peers: Vec<PeerInfo>) -> (r: Self)
        ensures
            r.header@ == PEER_LIST_HEADER@,
            r.peers@ == peers@,
    {
        PeerList { header: PEER_LIST_HEADER, peers }
    }

    /// The encoded message.
    #[verifier::spinoff_prover]
    pub fn serialize(&self) -> (r: Result<Vec<u8>, WireError>)
        ensures
            r matches Ok(v) && v@ == peer_list_bytes(self@),
            read_peer_list(peer_list_bytes(self@)) == Some((self@, Seq::<u8>::empty())),
            self.header@ == PEER_LIST_HEADER@ ==> crate::message_type::classify(peer_list_bytes(self@)) == crate::message_type::MessageView::PeerList(self@),
    {
        let mut out: Vec<u8> = Vec::new();
        write_header(&mut out, &self.header);
        let n = self.peers.len();
        write_varint(&mut out, n as u64);
        let ghost start = out@;
        let mut i: usize = 0;
        while i < n
            invariant
                n == self.peers.len(),
                i <= n,
                out@ == start + peer_seq_bytes(peer_views(self.peers@).take(i as int)),
                forall|j: int| 0 <= j < i ==> peer_info_wf(#[trigger] peer_views(self.peers@)[j]),
            decreases n - i,
        {
            self.peers[i].write(&mut out);
            proof {
                let vs = peer_views(self.peers@);
                lemma_peer_seq_bytes_push(vs.take(i as int), vs[i as int]);
                assert(vs.take(i + 1) =~= vs.take(i as int).push(vs[i as int]));
            }
            i = i + 1;
        }
        proof {
            let vs = peer_views(self.peers@);
            assert(vs.take(n as int) =~= vs);
            assert(out@ =~= peer_list_bytes(self@));
            lemma_peer_list_roundtrip(self@, Seq::<u8>::empty());
            assert(peer_list_bytes(self@) + Seq::<u8>::empty() =~= peer_list_bytes(self@));
        }
        proof {
            crate::message_type::lemma_header_constants();
            if self.header@ == PEER_LIST_HEADER@ {
                crate::message_type::lemma_message_dispatch(crate::message_type::MessageView::PeerList(self@));
            }
        }
        Ok(out)
    }

    /// Decodes a peer list from the start of `buf`.
    pub fn deserialize(buf: &[u8]) -> (r: Result<Self, WireError>)
        ensures
            match read_peer_list(buf@) {
                Some((v, _)) => r matches Ok(m) && m@ == v,
                None => r is Err,
            },
    {
        assert(buf@.skip(0) =~= buf@);
        let (header, p) = match read_header_at(buf, 0) {
            Some(x) => x,
            None => return Err(WireError::Malformed),
        };
        let (n, p) = match read_varint_at(buf, p) {
            Some(x) => x,
            None => return Err(WireError::Malformed),
        };
        let ghost p0 = p;
        let mut peers: Vec<PeerInfo> = Vec::new();
        proof {
            assert(peer_views(peers@) =~= Seq::<PeerInfoView>::empty());
            match read_peer_seq(buf@.skip(p0 as int), n as nat) {
                Some((ps, r)) => {
                    assert(Seq::<PeerInfoView>::empty() + ps =~= ps);
                },
                None => {},
            }
        }
        let mut pos = p;
        let mut i: u64 = 0;
        while i < n
            invariant
                p0 <= pos <= buf.len(),
                i <= n,
                read_peer_list(buf@) == match read_peer_seq(buf@.skip(p0 as int), n as nat) {
                    None => None,
                    Some((ps, r)) => Some((PeerListView { header: header@, peers: ps }, r)),
                },
                peers@.len() == i,
                read_peer_seq(buf@.skip(p0 as int), n as nat) == match read_peer_seq(
                    buf@.skip(pos as int),
                    (n - i) as nat,
                ) {
                    None => None,
                    Some((ps, r)) => Some((peer_views(peers@) + ps, r)),
                },
            decreases n - i,
        {
            let ghost before = peer_views(peers@);
            match PeerInfo::read_at(buf, pos) {
                Some((peer, p2)) => {
                    peers.push(peer);
                    proof {
                        assert(peer_views(peers@) =~= before.push(peer@));
                        let tail = read_peer_seq(buf@.skip(p2 as int), (n - i - 1) as nat);
                        match tail {
                            None => {},
                            Some((ps, r)) => {
                                assert(before + (seq![peer@] + ps) =~= peer_views(peers@) + ps);
                            },
                        }
                    }
                    pos = p2;
                },
                None => {
                    assert(read_peer_seq(buf@.skip(pos as int), (n - i) as nat) is None);
                    return Err(WireError::Malformed);
                },
            }
            i = i + 1;
        }
        proof {
            assert(peer_views(peers@) + Seq::<PeerInfoView>::empty() =~= peer_views(peers@));
        }
        Ok(PeerList { header, peers })
    }
}

proof fn lemma_peer_seq_bytes_push(ps: Seq<PeerInfoView>, p: PeerInfoView)
    ensures
        peer_seq_bytes(ps.push(p)) == peer_seq_bytes(ps) + peer_info_bytes(p),
    decreases ps.len(),
{
    if ps.len() == 0 {
        assert(ps.push(p).drop_first() =~= Seq::<PeerInfoView>::empty());
        assert(peer_seq_bytes(ps.push(p).drop_first()) =~= Seq::<u8>::empty());
        assert(peer_seq_bytes(ps) =~= Seq::<u8>::empty());
        assert(peer_seq_bytes(ps.push(p)) =~= peer_info_bytes(p));
        assert(peer_seq_bytes(ps) + peer_info_bytes(p) =~= peer_info_bytes(p));
    } else {
        lemma_peer_seq_bytes_push(ps.drop_first(), p);
        assert(ps.push(p).drop_first() =~= ps.drop_first().push(p));
        assert(peer_seq_bytes(ps.push(p)) =~= peer_seq_bytes(ps) + peer_info_bytes(p));
    }
}

// ---------------------------------------------------------------------------
// PeerAnnounce

/// The contents of a peer announcement.
pub struct PeerAnnounceView {
    pub header: Seq<u8>,
    pub event_type: PeerEventType,
    pub peer: PeerInfoView,
}

/// The bytes of a peer announcement.
pub open spec fn peer_announce_bytes(v: PeerAnnounceView) -> Seq<u8> {
    v.header + varint_bytes(event_index(v.event_type)) + peer_info_bytes(v.peer)
}

/// Reads a peer announcement.
pub open spec fn read_peer_announce(b: Seq<u8>) -> Option<(PeerAnnounceView, Seq<u8>)> {
    match read_header(b) {
        None => None,
        Some((h, r1)) => match read_event(r1) {
            None => None,
            Some((e, r2)) => match read_peer_info(r2) {
                None => None,
                Some((p, r3)) => Some((PeerAnnounceView { header: h, event_type: e, peer: p }, r3)),
            },
        },
    }
}

/// Decoding the bytes of a peer announcement gives it back.
pub proof fn lemma_peer_announce_roundtrip(v: PeerAnnounceView, rest: Seq<u8>)
    requires
        v.header.len() == 3,
        peer_info_wf(v.peer),
    ensures
        read_peer_announce(peer_announce_bytes(v) + rest) == Some((v, rest)),
{
    let a = varint_bytes(event_index(v.event_type));
    let b = peer_info_bytes(v.peer);
    assert(peer_announce_bytes(v) + rest =~= v.header + (a + (b + rest)));
    lemma_header_roundtrip(v.header, a + (b + rest));
    lemma_varint_roundtrip(event_index(v.event_type), b + rest);
    lemma_peer_info_roundtrip(v.peer, rest);
}

/// The announcement that a peer connected or disconnected.
pub struct PeerAnnounce {
    pub header: [u8; 3],
    pub event_type: PeerEventType,
    pub peer: PeerInfo,
}

impl View for PeerAnnounce {
    type V = PeerAnnounceView;

    open spec fn view(&self) -> PeerAnnounceView {
        PeerAnnounceView { header: self.header@, event_type: self.event_type, peer: self.peer@ }
    }
}

impl PeerAnnounce {
    /// An announcement of the given event for the given peer.
    pub fn new(event_type: PeerEventType, peer: PeerInfo) -> (r: Self)
        ensures
            r.header@ == PEER_ANNOUNCE_HEADER@,
            r.event_type == event_type,
            r.peer@ == peer@,
    {
        PeerAnnounce { header: PEER_ANNOUNCE_HEADER, event_type, peer }
    }

    /// The encoded message.
    #[verifier::spinoff_prover]
    pub fn serialize(&self) -> (r: Result<Vec<u8>, WireError>)
        ensures
            r matches Ok(v) && v@ == peer_announce_bytes(self@),
            read_peer_announce(peer_announce_bytes(self@)) == Some((self@, Seq::<u8>::empty())),
            self.header@ == PEER_ANNOUNCE_HEADER@ ==> crate::message_type::classify(peer_announce_bytes(self@)) == crate::message_type::MessageView::PeerAnnounce(self@),
    {
        let mut out: Vec<u8> = Vec::new();
        write_header(&mut out, &self.header);
        match self.event_type {
            PeerEventType::Connected => write_varint(&mut out, 0),
            PeerEventType::Disconnected => write_varint(&mut out, 1),
        }
        self.peer.write(&mut out);
        proof {
            assert(out@ =~= peer_announce_bytes(self@));
            lemma_peer_announce_roundtrip(self@, Seq::<u8>::empty());
            assert(peer_announce_bytes(self@) + Seq::<u8>::empty() =~= peer_announce_bytes(self@));
        }
        proof {
            crate::message_type::lemma_header_constants();
            if self.header@ == PEER_ANNOUNCE_HEADER@ {
                crate::message_type::lemma_message_dispatch(crate::message_type::MessageView::PeerAnnounce(self@));
            }
        }
        Ok(out)
    }

    /// Decodes an announcement from the start of `buf`.
    pub fn deserialize(buf: &[u8]) -> (r: Result<Self, WireError>)
        ensures
            match read_peer_announce(buf@) {
                Some((v, _)) => r matches Ok(m) && m@ == v,
                None => r is Err,
            },
    {
        assert(buf@.skip(0) =~= buf@);
        let (header, p) = match read_header_at(buf, 0) {
            Some(x) => x,
            None => return Err(WireError::Malformed),
        };
        let (idx, p) = match read_varint32_at(buf, p) {
            Some(x) => x,
            None => return Err(WireError::Malformed),
        };
        let event_type = if idx == 0 {
            PeerEventType::Connected
        } else if idx == 1 {
            PeerEventType::Disconnected
        } else {
            return Err(WireError::Malformed);
        };
        let (peer, _p) = match PeerInfo::read_at(buf, p) {
            Some(x) => x,
            None => return Err(WireError::Malformed),
        };
        Ok(PeerAnnounce { header, event_type, peer })
    }
}

// ---------------------------------------------------------------------------
// Peer-to-peer handshake and relayed packets

/// The contents of a message between two peers: header, two overlay
/// addresses and a payload (initiator and responder for handshakes, source
/// and destination for relayed packets).
pub struct PeerMessageView {
    pub header: Seq<u8>,
    pub first_ip: Seq<char>,
    pub second_ip: Seq<char>,
    pub payload: Seq<u8>,
}

/// The bytes of a message between two peers.
pub open spec fn peer_message_bytes(v: PeerMessageView) -> Seq<u8> {
    v.header + str_field(v.first_ip) + str_field(v.second_ip) + bytes_field(v.payload)
}

/// Reads a message between two peers.
pub open spec fn read_peer_message(b: Seq<u8>) -> Option<(PeerMessageView, Seq<u8>)> {
    match read_header(b) {
        None => None,
        Some((h, r1)) => match read_str_field(r1) {
            None => None,
            Some((a, r2)) => match read_str_field(r2) {
                None => None,
                Some((c, r3)) => match read_bytes_field(r3) {
                    None => None,
                    Some((p, r4)) => Some(
                        (PeerMessageView { header: h, first_ip: a, second_ip: c, payload: p }, r4),
                    ),
                },
            },
        },
    }
}

/// A message between two peers whose fields can be encoded.
pub open spec fn peer_message_wf(v: PeerMessageView) -> bool {
    v.header.len() == 3 && str_fits(v.first_ip) && str_fits(v.second_ip) && fits_u64(
        v.payload.len(),
    )
}

/// Decoding the bytes of a message between two peers gives it back.
pub proof fn lemma_peer_message_roundtrip(v: PeerMessageView, rest: Seq<u8>)
    requires
        peer_message_wf(v),
    ensures
        read_peer_message(peer_message_bytes(v) + rest) == Some((v, rest)),
{
    let a = str_field(v.first_ip);
    let b = str_field(v.second_ip);
    let c = bytes_field(v.payload);
    assert(peer_message_bytes(v) + rest =~= v.header + (a + (b + (c + rest))));
    lemma_header_roundtrip(v.header, a + (b + (c + rest)));
    lemma_str_field_roundtrip(v.first_ip, b + (c + rest));
    lemma_str_field_roundtrip(v.second_ip, c + rest);
    lemma_bytes_field_roundtrip(v.payload, rest);
}

fn write_peer_message(header: &[u8; 3], first: &str, second: &str, payload: &[u8]) -> (r: Vec<u8>)
    ensures
        r@ == peer_message_bytes(
            PeerMessageView { header: header@, first_ip: first@, second_ip: second@, payload: payload@ },
        ),
        peer_message_wf(
            PeerMessageView { header: header@, first_ip: first@, second_ip: second@, payload: payload@ },
        ),
{
    let mut out: Vec<u8> = Vec::new();
    write_header(&mut out, header);
    write_str_field(&mut out, first);
    write_str_field(&mut out, second);
    write_bytes_field(&mut out, payload);
    assert(out@ =~= peer_message_bytes(
        PeerMessageView { header: header@, first_ip: first@, second_ip: second@, payload: payload@ },
    ));
    out
}

fn read_peer_message_at(buf: &[u8]) -> (r: Option<([u8; 3], String, String, Vec<u8>)>)
    ensures
        match read_peer_message(buf@) {
            None => r is None,
            Some((v, _)) => r matches Some((h, a, c, p)) && h@ == v.header && a@ == v.first_ip && c@
                == v.second_ip && p@ == v.payload,
        },
{
    assert(buf@.skip(0) =~= buf@);
    let (header, p) = match read_header_at(buf, 0) {
        Some(x) => x,
        None => return None,
    };
    let (first, p) = match read_str_field_at(buf, p) {
        Some(x) => x,
        None => return None,
    };
    let (second, p) = match read_str_field_at(buf, p) {
        Some(x) => x,
        None => return None,
    };
    let (payload, _p) = match read_bytes_field_at(buf, p) {
        Some(x) => x,
        None => return None,
    };
    Some((header, first, second, payload))
}

/// The first message of the Noise handshake between two peers, routed by the
/// server to the responder.
pub struct P2PHandshakeInit {
    pub header: [u8; 3],
    pub initiator_sdn_ip: String,
    pub responder_sdn_ip: String,
    pub noise_payload: Vec<u8>,
}

impl View for P2PHandshakeInit {
    type V = PeerMessageView;

    open spec fn view(&self) -> PeerMessageView {
        PeerMessageView {
            header: self.header@,
            first_ip: self.initiator_sdn_ip@,
            second_ip: self.responder_sdn_ip@,
            payload: self.noise_payload@,
        }
    }
}

impl P2PHandshakeInit {
    /// A handshake initiation from `initiator_sdn_ip` to `responder_sdn_ip`.
    pub fn new(initiator_sdn_ip: &str, responder_sdn_ip: &str, noise_payload: Vec<u8>) -> (r: Self)
        ensures
            r.header@ == P2P_HANDSHAKE_INIT_HEADER@,
            r.initiator_sdn_ip@ == initiator_sdn_ip@,
            r.responder_sdn_ip@ == responder_sdn_ip@,
            r.noise_payload@ == noise_payload@,
    {
        P2PHandshakeInit {
            header: P2P_HANDSHAKE_INIT_HEADER,
            initiator_sdn_ip: to_owned_string(initiator_sdn_ip),
            responder_sdn_ip: to_owned_string(responder_sdn_ip),
            noise_payload,
        }
    }

    /// The encoded message.
    #[verifier::spinoff_prover]
    pub fn serialize(&self) -> (r: Result<Vec<u8>, WireError>)
        ensures
            r matches Ok(v) && v@ == peer_message_bytes(self@),
            read_peer_message(peer_message_bytes(self@)) == Some((self@, Seq::<u8>::empty())),
            self.header@ == P2P_HANDSHAKE_INIT_HEADER@ ==> crate::message_type::classify(peer_message_bytes(self@)) == crate::message_type::MessageView::P2PHandshakeInit(self@),
    {
        let out = write_peer_message(
            &self.header,
            self.initiator_sdn_ip.as_str(),
            self.responder_sdn_ip.as_str(),
            self.noise_payload.as_slice(),
        );
        proof {
            lemma_peer_message_roundtrip(self@, Seq::<u8>::empty());
            assert(peer_message_bytes(self@) + Seq::<u8>::empty() =~= peer_message_bytes(self@));
        }
        proof {
            crate::message_type::lemma_header_constants();
            if self.header@ == P2P_HANDSHAKE_INIT_HEADER@ {
                crate::message_type::lemma_message_dispatch(crate::message_type::MessageView::P2PHandshakeInit(self@));
            }
        }
        Ok(out)
    }

    /// Decodes a handshake initiation from the start of `buf`.
    pub fn deserialize(buf: &[u8]) -> (r: Result<Self, WireError>)
        ensures
            match read_peer_message(buf@) {
                Some((v, _)) => r matches Ok(m) && m@ == v,
                None => r is Err,
            },
    {
        match read_peer_message_at(buf) {
            Some((header, initiator_sdn_ip, responder_sdn_ip, noise_payload)) => Ok(
                P2PHandshakeInit { header, initiator_sdn_ip, responder_sdn_ip, noise_payload },
            ),
            None => Err(WireError::Malformed),
        }
    }
}

/// The second message of the Noise handshake between two peers, routed by
/// the server back to the initiator.
pub struct P2PHandshakeResp {
    pub header: [u8; 3],
    pub initiator_sdn_ip: String,
    pub responder_sdn_ip: String,
    pub noise_payload: Vec<u8>,
}

impl View for P2PHandshakeResp {
    type V = PeerMessageView;

    open spec fn view(&self) -> PeerMessageView {
        PeerMessageView {
            header: self.header@,
            first_ip: self.initiator_sdn_ip@,
            second_ip: self.responder_sdn_ip@,
            payload: self.noise_payload@,
        }
    }
}

impl P2PHandshakeResp {
    /// A handshake response from `responder_sdn_ip` to `initiator_sdn_ip`.
    pub fn new(initiator_sdn_ip: &str, responder_sdn_ip: &str, noise_payload: Vec<u8>) -> (r: Self)
        ensures
            r.header@ == P2P_HANDSHAKE_RESP_HEADER@,
            r.initiator_sdn_ip@ == initiator_sdn_ip@,
            r.responder_sdn_ip@ == responder_sdn_ip@,
            r.noise_payload@ == noise_payload@,
    {
        P2PHandshakeResp {
            header: P2P_HANDSHAKE_RESP_HEADER,
            initiator_sdn_ip: to_owned_string(initiator_sdn_ip),
            responder_sdn_ip: to_owned_string(responder_sdn_ip),
            noise_payload,
        }
    }

    /// The encoded message.
    #[verifier::spinoff_prover]
    pub fn serialize(&self) -> (r: Result<Vec<u8>, WireError>)
        ensures
            r matches Ok(v) && v@ == peer_message_bytes(self@),
            read_peer_message(peer_message_bytes(self@)) == Some((self@, Seq::<u8>::empty())),
            self.header@ == P2P_HANDSHAKE_RESP_HEADER@ ==> crate::message_type::classify(peer_message_bytes(self@)) == crate::message_type::MessageView::P2PHandshakeResp(self@),
    {
        let out = write_peer_message(
            &self.header,
            self.initiator_sdn_ip.as_str(),
            self.responder_sdn_ip.as_str(),
            self.noise_payload.as_slice(),
        );
        proof {
            lemma_peer_message_roundtrip(self@, Seq::<u8>::empty());
            assert(peer_message_bytes(self@) + Seq::<u8>::empty() =~= peer_message_bytes(self@));
        }
        proof {
            crate::message_type::lemma_header_constants();
            if self.header@ == P2P_HANDSHAKE_RESP_HEADER@ {
                crate::message_type::lemma_message_dispatch(crate::message_type::MessageView::P2PHandshakeResp(self@));
            }
        }
        Ok(out)
    }

    /// Decodes a handshake response from the start of `buf`.
    pub fn deserialize(buf: &[u8]) -> (r: Result<Self, WireError>)
        ensures
            match read_peer_message(buf@) {
                Some((v, _)) => r matches Ok(m) && m@ == v,
                None => r is Err,
            },
    {
        match read_peer_message_at(buf) {
            Some((header, initiator_sdn_ip, responder_sdn_ip, noise_payload)) => Ok(
                P2PHandshakeResp { header, initiator_sdn_ip, responder_sdn_ip, noise_payload },
            ),
            None => Err(WireError::Malformed),
        }
    }
}

/// A packet relayed by the server from one peer to another; the payload is
/// end-to-end encrypted (or plain IPv4 when encryption is turned off).
pub struct RelayPacket {
    pub header: [u8; 3],
    pub src_sdn_ip: String,
    pub dst_sdn_ip: String,
    pub encrypted_payload: Vec<u8>,
}

impl View for RelayPacket {
    type V = PeerMessageView;

    open spec fn view(&self) -> PeerMessageView {
        PeerMessageView {
            header: self.header@,
            first_ip: self.src_sdn_ip@,
            second_ip: self.dst_sdn_ip@,
            payload: self.encrypted_payload@,
        }
    }
}

impl RelayPacket {
    /// A relayed packet from `src_sdn_ip` to `dst_sdn_ip`.
    pub fn new(src_sdn_ip: &str, dst_sdn_ip: &str, encrypted_payload: Vec<u8>) -> (r: Self)
        ensures
            r.header@ == RELAY_PACKET_HEADER@,
            r.src_sdn_ip@ == src_sdn_ip@,
            r.dst_sdn_ip@ == dst_sdn_ip@,
            r.encrypted_payload@ == encrypted_payload@,
    {
        RelayPacket {
            header: RELAY_PACKET_HEADER,
            src_sdn_ip: to_owned_string(src_sdn_ip),
            dst_sdn_ip: to_owned_string(dst_sdn_ip),
            encrypted_payload,
        }
    }

    /// The encoded message.
    #[verifier::spinoff_prover]
    pub fn serialize(&self) -> (r: Result<Vec<u8>, WireError>)
        ensures
            r matches Ok(v) && v@ == peer_message_bytes(self@),
            read_peer_message(peer_message_bytes(self@)) == Some((self@, Seq::<u8>::empty())),
            self.header@ == RELAY_PACKET_HEADER@ ==> crate::message_type::classify(peer_message_bytes(self@)) == crate::message_type::MessageView::RelayPacket(self@),
    {
        let out = write_peer_message(
            &self.header,
            self.src_sdn_ip.as_str(),
            self.dst_sdn_ip.as_str(),
            self.encrypted_payload.as_slice(),
        );
        proof {
            lemma_peer_message_roundtrip(self@, Seq::<u8>::empty());
            assert(peer_message_bytes(self@) + Seq::<u8>::empty() =~= peer_message_bytes(self@));
        }
        proof {
            crate::message_type::lemma_header_constants();
            if self.header@ == RELAY_PACKET_HEADER@ {
                crate::message_type::lemma_message_dispatch(crate::message_type::MessageView::RelayPacket(self@));
            }
        }
        Ok(out)
    }

    /// Decodes a relayed packet from the start of `buf`.
    pub fn deserialize(buf: &[u8]) -> (r: Result<Self, WireError>)
        ensures
            match read_peer_message(buf@) {
                Some((v, _)) => r matches Ok(m) && m@ == v,
                None => r is Err,
            },
    {
        match read_peer_message_at(buf) {
            Some((header, src_sdn_ip, dst_sdn_ip, encrypted_payload)) => Ok(
                RelayPacket { header, src_sdn_ip, dst_sdn_ip, encrypted_payload },
            ),
            None => Err(WireError::Malformed),
        }
    }
}

} // verus!
