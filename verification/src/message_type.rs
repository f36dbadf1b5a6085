//! Recognition of received datagrams: the header picks the message kind and
//! the rest must decode as that kind.
use vstd::prelude::*;

use crate::messages::{
    handshake_error_bytes, handshake_error_wf, handshake_rep_bytes, handshake_rep_wf,
    handshake_req_bytes, handshake_req_wf, lemma_handshake_error_roundtrip,
    lemma_handshake_rep_roundtrip, lemma_handshake_req_roundtrip, read_handshake_error,
    read_handshake_rep, read_handshake_req, read_heartbeat, HandshakeError, HandshakeErrorView,
    HandshakeRep, HandshakeRepView, HandshakeReq, HandshakeReqView, UDPHeartbeat,
    HANDSHAKE_ERROR_HEADER, HANDSHAKE_REPLY_HEADER, HANDSHAKE_REQUEST_HEADER, HEARTBEAT_HEADER,
    P2P_HANDSHAKE_INIT_HEADER, P2P_HANDSHAKE_RESP_HEADER, PEER_ANNOUNCE_HEADER, PEER_LIST_HEADER,
    RELAY_PACKET_HEADER,
};
use crate::peer_messages::{
    lemma_peer_announce_roundtrip, lemma_peer_list_roundtrip, lemma_peer_message_roundtrip,
    peer_announce_bytes, peer_info_wf, peer_list_bytes, peer_list_wf, peer_message_bytes,
    peer_message_wf, read_peer_announce, read_peer_list, read_peer_message, P2PHandshakeInit,
    P2PHandshakeResp, PeerAnnounce, PeerAnnounceView, PeerList, PeerListView, PeerMessageView,
    RelayPacket,
};
use crate::wire::lemma_header_roundtrip;

verus! {

/// A received datagram, recognized by its header.
pub enum MessageType {
    HandshakeReq(HandshakeReq),
    HandshakeRep(HandshakeRep),
    HandshakeError(HandshakeError),
    Heartbeat(UDPHeartbeat),
    PeerList(PeerList),
    PeerAnnounce(PeerAnnounce),
    P2PHandshakeInit(P2PHandshakeInit),
    P2PHandshakeResp(P2PHandshakeResp),
    RelayPacket(RelayPacket),
    Unknown,
}

/// The contents of a recognized datagram.
pub enum MessageView {
    HandshakeReq(HandshakeReqView),
    HandshakeRep(HandshakeRepView),
    HandshakeError(HandshakeErrorView),
    Heartbeat(Seq<u8>),
    PeerList(PeerListView),
    PeerAnnounce(PeerAnnounceView),
    P2PHandshakeInit(PeerMessageView),
    P2PHandshakeResp(PeerMessageView),
    RelayPacket(PeerMessageView),
    Unknown,
}

impl View for MessageType {
    type V = MessageView;

    open spec fn view(&self) -> MessageView {
        match self {
            MessageType::HandshakeReq(m) => MessageView::HandshakeReq(m@),
            MessageType::HandshakeRep(m) => MessageView::HandshakeRep(m@),
            MessageType::HandshakeError(m) => MessageView::HandshakeError(m@),
            MessageType::Heartbeat(m) => MessageView::Heartbeat(m.header@),
            MessageType::PeerList(m) => MessageView::PeerList(m@),
            MessageType::PeerAnnounce(m) => MessageView::PeerAnnounce(m@),
            MessageType::P2PHandshakeInit(m) => MessageView::P2PHandshakeInit(m@),
            MessageType::P2PHandshakeResp(m) => MessageView::P2PHandshakeResp(m@),
            MessageType::RelayPacket(m) => MessageView::RelayPacket(m@),
            MessageType::Unknown => MessageView::Unknown,
        }
    }
}

/// The headers of the message kinds, as byte sequences.
pub open spec fn req_header() -> Seq<u8> {
    seq![0u8, 1u8, 2u8]
}

pub open spec fn rep_header() -> Seq<u8> {
    seq![3u8, 4u8, 5u8]
}

pub open spec fn err_header() -> Seq<u8> {
    seq![9u8, 10u8, 11u8]
}

pub open spec fn heartbeat_header() -> Seq<u8> {
    seq![6u8, 7u8, 8u8]
}

pub open spec fn list_header() -> Seq<u8> {
    seq![0x50u8, 0x4Cu8, 0x53u8]
}

pub open spec fn announce_header() -> Seq<u8> {
    seq![0x50u8, 0x41u8, 0x4Eu8]
}

pub open spec fn p2p_init_header() -> Seq<u8> {
    seq![0x50u8, 0x48u8, 0x49u8]
}

pub open spec fn p2p_resp_header() -> Seq<u8> {
    seq![0x50u8, 0x48u8, 0x52u8]
}

pub open spec fn relay_header() -> Seq<u8> {
    seq![0x52u8, 0x4Cu8, 0x59u8]
}

/// The header constants hold the header byte sequences.
pub proof fn lemma_header_constants()
    ensures
        HANDSHAKE_REQUEST_HEADER@ == req_header(),
        HANDSHAKE_REPLY_HEADER@ == rep_header(),
        HANDSHAKE_ERROR_HEADER@ == err_header(),
        HEARTBEAT_HEADER@ == heartbeat_header(),
        PEER_LIST_HEADER@ == list_header(),
        PEER_ANNOUNCE_HEADER@ == announce_header(),
        P2P_HANDSHAKE_INIT_HEADER@ == p2p_init_header(),
        P2P_HANDSHAKE_RESP_HEADER@ == p2p_resp_header(),
        RELAY_PACKET_HEADER@ == relay_header(),
{
    assert(HANDSHAKE_REQUEST_HEADER@ =~= req_header());
    assert(HANDSHAKE_REPLY_HEADER@ =~= rep_header());
    assert(HANDSHAKE_ERROR_HEADER@ =~= err_header());
    assert(HEARTBEAT_HEADER@ =~= heartbeat_header());
    assert(PEER_LIST_HEADER@ =~= list_header());
    assert(PEER_ANNOUNCE_HEADER@ =~= announce_header());
    assert(P2P_HANDSHAKE_INIT_HEADER@ =~= p2p_init_header());
    assert(P2P_HANDSHAKE_RESP_HEADER@ =~= p2p_resp_header());
    assert(RELAY_PACKET_HEADER@ =~= relay_header());
}

/// What a received datagram is: the kind its first three bytes name, decoded
/// from the whole datagram, or `Unknown` when the header names no kind or the
/// bytes do not decode as that kind.
pub open spec fn classify(b: Seq<u8>) -> MessageView {
    if b.len() < 3 {
        MessageView::Unknown
    } else {
        let h = b.take(3);
        if h == req_header() {
            match read_handshake_req(b) {
                Some((v, _)) => MessageView::HandshakeReq(v),
                None => MessageView::Unknown,
            }
        } else if h == rep_header() {
            match read_handshake_rep(b) {
                Some((v, _)) => MessageView::HandshakeRep(v),
                None => MessageView::Unknown,
            }
        } else if h == err_header() {
            match read_handshake_error(b) {
                Some((v, _)) => MessageView::HandshakeError(v),
                None => MessageView::Unknown,
            }
        } else if h == heartbeat_header() {
            match read_heartbeat(b) {
                Some((v, _)) => MessageView::Heartbeat(v),
                None => MessageView::Unknown,
            }
        } else if h == list_header() {
            match read_peer_list(b) {
                Some((v, _)) => MessageView::PeerList(v),
                None => MessageView::Unknown,
            }
        } else if h == announce_header() {
            match read_peer_announce(b) {
                Some((v, _)) => MessageView::PeerAnnounce(v),
                None => MessageView::Unknown,
            }
        } else if h == p2p_init_header() {
            match read_peer_message(b) {
                Some((v, _)) => MessageView::P2PHandshakeInit(v),
                None => MessageView::Unknown,
            }
        } else if h == p2p_resp_header() {
            match read_peer_message(b) {
                Some((v, _)) => MessageView::P2PHandshakeResp(v),
                None => MessageView::Unknown,
            }
        } else if h == relay_header() {
            match read_peer_message(b) {
                Some((v, _)) => MessageView::RelayPacket(v),
                None => MessageView::Unknown,
            }
        } else {
            MessageView::Unknown
        }
    }
}

fn header_is(buf: &[u8], a: u8, b: u8, c: u8) -> (r: bool)
    requires
        buf.len() >= 3,
    ensures
        r == (buf@.take(3) == seq![a, b, c]),
{
    let r = buf[0] == a && buf[1] == b && buf[2] == c;
    proof {
        if buf@.take(3) == seq![a, b, c] {
            assert(buf@.take(3)[0] == a);
            assert(buf@.take(3)[1] == b);
            assert(buf@.take(3)[2] == c);
        }
        if r {
            assert(buf@.take(3) =~= seq![a, b, c]);
        }
    }
    r
}

/// Recognizes a received datagram by its header and decodes it.
pub fn get_message_type(buf: &[u8]) -> (r: MessageType)
    ensures
        r@ == classify(buf@),
{
    if buf.len() < 3 {
        return MessageType::Unknown;
    }
    if header_is(buf, 0, 1, 2) {
        match HandshakeReq::deserialize(buf) {
            Ok(m) => MessageType::HandshakeReq(m),
            Err(_) => MessageType::Unknown,
        }
    } else if header_is(buf, 3, 4, 5) {
        match HandshakeRep::deserialize(buf) {
            Ok(m) => MessageType::HandshakeRep(m),
            Err(_) => MessageType::Unknown,
        }
    } else if header_is(buf, 9, 10, 11) {
        match HandshakeError::deserialize(buf) {
            Ok(m) => MessageType::HandshakeError(m),
            Err(_) => MessageType::Unknown,
        }
    } else if header_is(buf, 6, 7, 8) {
        match UDPHeartbeat::deserialize(buf) {
            Ok(m) => MessageType::Heartbeat(m),
            Err(_) => MessageType::Unknown,
        }
    } else if header_is(buf, 0x50, 0x4C, 0x53) {
        match PeerList::deserialize(buf) {
            Ok(m) => MessageType::PeerList(m),
            Err(_) => MessageType::Unknown,
        }
    } else if header_is(buf, 0x50, 0x41, 0x4E) {
        match PeerAnnounce::deserialize(buf) {
            Ok(m) => MessageType::PeerAnnounce(m),
            Err(_) => MessageType::Unknown,
        }
    } else if header_is(buf, 0x50, 0x48, 0x49) {
        match P2PHandshakeInit::deserialize(buf) {
            Ok(m) => MessageType::P2PHandshakeInit(m),
            Err(_) => MessageType::Unknown,
        }
    } else if header_is(buf, 0x50, 0x48, 0x52) {
        match P2PHandshakeResp::deserialize(buf) {
            Ok(m) => MessageType::P2PHandshakeResp(m),
            Err(_) => MessageType::Unknown,
        }
    } else if header_is(buf, 0x52, 0x4C, 0x59) {
        match RelayPacket::deserialize(buf) {
            Ok(m) => MessageType::RelayPacket(m),
            Err(_) => MessageType::Unknown,
        }
    } else {
        MessageType::Unknown
    }
}

/// The bytes of a message.
pub open spec fn message_bytes(m: MessageView) -> Seq<u8> {
    match m {
        MessageView::HandshakeReq(v) => handshake_req_bytes(v),
        MessageView::HandshakeRep(v) => handshake_rep_bytes(v),
        MessageView::HandshakeError(v) => handshake_error_bytes(v),
        MessageView::Heartbeat(h) => h,
        MessageView::PeerList(v) => peer_list_bytes(v),
        MessageView::PeerAnnounce(v) => peer_announce_bytes(v),
        MessageView::P2PHandshakeInit(v) => peer_message_bytes(v),
        MessageView::P2PHandshakeResp(v) => peer_message_bytes(v),
        MessageView::RelayPacket(v) => peer_message_bytes(v),
        MessageView::Unknown => Seq::empty(),
    }
}

/// A message that carries the header of its kind and whose fields can be
/// encoded: what the constructors of this library build.
pub open spec fn message_wf(m: MessageView) -> bool {
    match m {
        MessageView::HandshakeReq(v) => v.header == req_header() && handshake_req_wf(v),
        MessageView::HandshakeRep(v) => v.header == rep_header() && handshake_rep_wf(v),
        MessageView::HandshakeError(v) => v.header == err_header() && handshake_error_wf(v),
        MessageView::Heartbeat(h) => h == heartbeat_header(),
        MessageView::PeerList(v) => v.header == list_header() && peer_list_wf(v),
        MessageView::PeerAnnounce(v) => v.header == announce_header() && peer_info_wf(v.peer),
        MessageView::P2PHandshakeInit(v) => v.header == p2p_init_header() && peer_message_wf(v),
        MessageView::P2PHandshakeResp(v) => v.header == p2p_resp_header() && peer_message_wf(v),
        MessageView::RelayPacket(v) => v.header == relay_header() && peer_message_wf(v),
        MessageView::Unknown => false,
    }
}

proof fn lemma_headers_distinct()
    ensures
        req_header() != rep_header(),
        req_header() != err_header(),
        req_header() != heartbeat_header(),
        req_header() != list_header(),
        req_header() != announce_header(),
        req_header() != p2p_init_header(),
        req_header() != p2p_resp_header(),
        req_header() != relay_header(),
        rep_header() != err_header(),
        rep_header() != heartbeat_header(),
        rep_header() != list_header(),
        rep_header() != announce_header(),
        rep_header() != p2p_init_header(),
        rep_header() != p2p_resp_header(),
        rep_header() != relay_header(),
        err_header() != heartbeat_header(),
        err_header() != list_header(),
        err_header() != announce_header(),
        err_header() != p2p_init_header(),
        err_header() != p2p_resp_header(),
        err_header() != relay_header(),
        heartbeat_header() != list_header(),
        heartbeat_header() != announce_header(),
        heartbeat_header() != p2p_init_header(),
        heartbeat_header() != p2p_resp_header(),
        heartbeat_header() != relay_header(),
        list_header() != announce_header(),
        list_header() != p2p_init_header(),
        list_header() != p2p_resp_header(),
        list_header() != relay_header(),
        announce_header() != p2p_init_header(),
        announce_header() != p2p_resp_header(),
        announce_header() != relay_header(),
        p2p_init_header() != p2p_resp_header(),
        p2p_init_header() != relay_header(),
        p2p_resp_header() != relay_header(),
{
    assert(req_header()[0] == 0 && rep_header()[0] == 3 && err_header()[0] == 9
        && heartbeat_header()[0] == 6 && list_header()[0] == 0x50 && announce_header()[0] == 0x50
        && p2p_init_header()[0] == 0x50 && p2p_resp_header()[0] == 0x50 && relay_header()[0]
        == 0x52);
    assert(list_header()[1] == 0x4C && announce_header()[1] == 0x41 && p2p_init_header()[1]
        == 0x48 && p2p_resp_header()[1] == 0x48);
    assert(p2p_init_header()[2] == 0x49 && p2p_resp_header()[2] == 0x52);
}

/// What a datagram carries is what was sent: the bytes of a well-formed
/// message are recognized as that message, with every field equal.
pub proof fn lemma_message_dispatch(m: MessageView)
    requires
        message_wf(m),
    ensures
        classify(message_bytes(m)) == m,
{
    lemma_headers_distinct();
    let e = Seq::<u8>::empty();
    let b = message_bytes(m);
    match m {
        MessageView::HandshakeReq(v) => {
            lemma_handshake_req_roundtrip(v, e);
            assert(b + e =~= b);
            assert(b.take(3) =~= v.header);
        },
        MessageView::HandshakeRep(v) => {
            lemma_handshake_rep_roundtrip(v, e);
            assert(b + e =~= b);
            assert(b.take(3) =~= v.header);
        },
        MessageView::HandshakeError(v) => {
            lemma_handshake_error_roundtrip(v, e);
            assert(b + e =~= b);
            assert(b.take(3) =~= v.header);
        },
        MessageView::Heartbeat(h) => {
            lemma_header_roundtrip(h, e);
            assert(b + e =~= b);
            assert(b.take(3) =~= h);
        },
        MessageView::PeerList(v) => {
            lemma_peer_list_roundtrip(v, e);
            assert(b + e =~= b);
            assert(b.take(3) =~= v.header);
        },
        MessageView::PeerAnnounce(v) => {
            lemma_peer_announce_roundtrip(v, e);
            assert(b + e =~= b);
            assert(b.take(3) =~= v.header);
        },
        MessageView::P2PHandshakeInit(v) => {
            lemma_peer_message_roundtrip(v, e);
            assert(b + e =~= b);
            assert(b.take(3) =~= v.header);
        },
        MessageView::P2PHandshakeResp(v) => {
            lemma_peer_message_roundtrip(v, e);
            assert(b + e =~= b);
            assert(b.take(3) =~= v.header);
        },
        MessageView::RelayPacket(v) => {
            lemma_peer_message_roundtrip(v, e);
            assert(b + e =~= b);
            assert(b.take(3) =~= v.header);
        },
        MessageView::Unknown => {},
    }
}

} // verus!
