//! Control-protocol messages exchanged between clients and the relay server,
//! their byte encoding and the dispatch of received datagrams by header.
//!
//! Every message starts with a three-byte header naming its kind; the fields
//! follow in declaration order, each in the field encodings of `wire`.
use vstd::prelude::*;
use vstd::utf8::*;

use crate::wire::{
    bytes_field, fits_u64, lemma_bytes_field_roundtrip, lemma_header_roundtrip,
    lemma_opt_str_field_roundtrip, lemma_str_field_roundtrip, lemma_varint_roundtrip,
    opt_str_field, opt_view, read_bytes_field, read_bytes_field_at, read_header, read_header_at,
    read_opt_str_field, read_opt_str_field_at, read_str_field, read_str_field_at, read_varint,
    read_varint32, read_varint32_at, read_varint_at, str_field, varint_bytes, write_bytes_field,
    write_header, write_opt_str_field, write_str_field, write_varint,
};

verus! {

/// Header of a client's handshake request.
pub const HANDSHAKE_REQUEST_HEADER: [u8; 3] = [0, 1, 2];

/// Header of the server's handshake reply.
pub const HANDSHAKE_REPLY_HEADER: [u8; 3] = [3, 4, 5];

/// Header of the server's handshake refusal.
pub const HANDSHAKE_ERROR_HEADER: [u8; 3] = [9, 10, 11];

/// Header of a keep-alive heartbeat.
pub const HEARTBEAT_HEADER: [u8; 3] = [6, 7, 8];

/// Header of a client-to-server Noise handshake initiation ("NHI").
pub const NOISE_HANDSHAKE_INIT_HEADER: [u8; 3] = [0x4E, 0x48, 0x49];

/// Header of a server-to-client Noise handshake response ("NHR").
pub const NOISE_HANDSHAKE_RESP_HEADER: [u8; 3] = [0x4E, 0x48, 0x52];

/// Header of the list of connected peers ("PLS").
pub const PEER_LIST_HEADER: [u8; 3] = [0x50, 0x4C, 0x53];

/// Header of a peer (dis)connection announcement ("PAN").
pub const PEER_ANNOUNCE_HEADER: [u8; 3] = [0x50, 0x41, 0x4E];

/// Header of a peer-to-peer handshake initiation ("PHI").
pub const P2P_HANDSHAKE_INIT_HEADER: [u8; 3] = [0x50, 0x48, 0x49];

/// Header of a peer-to-peer handshake response ("PHR").
pub const P2P_HANDSHAKE_RESP_HEADER: [u8; 3] = [0x50, 0x48, 0x52];

/// Header of a relayed, end-to-end encrypted packet ("RLY").
pub const RELAY_PACKET_HEADER: [u8; 3] = [0x52, 0x4C, 0x59];

/// Error of a message that cannot be decoded from the given bytes.
#[derive(Debug, Clone, Copy, PartialEq, Eq, Structural)]
pub enum WireError {
    Malformed,
}

/// The body a client posts to obtain its auth key from a link code.
pub struct AuthClientRequest {
    pub public_key: String,
    pub dynamic_link: bool,
}

/// Whether a peer has completed its handshake with the server.
#[derive(PartialEq, Eq, Clone, Copy, Debug, Structural)]
pub enum PeerState {
    HandshakePending,
    HandshakeDone,
}

/// The UTF-8 bytes of a string fit the length field of the wire format.
pub open spec fn str_fits(c: Seq<char>) -> bool {
    fits_u64(encode_utf8(c).len())
}

/// The UTF-8 bytes of an optional string fit the length field.
pub open spec fn opt_str_fits(o: Option<Seq<char>>) -> bool {
    o matches Some(c) ==> str_fits(c)
}

fn to_owned_string(s: &str) -> (r: String)
    ensures
        r@ == s@,
{
    s.to_owned()
}

fn copy_bytes(v: &Vec<u8>) -> (r: Vec<u8>)
    ensures
        r@ == v@,
{
    let mut r: Vec<u8> = Vec::new();
    r.extend_from_slice(v.as_slice());
    assert(r@ =~= v@);
    r
}

// ---------------------------------------------------------------------------
// HandshakeReq

/// A client's request to join the network, carrying its signed auth key and
/// its public key for end-to-end encryption with other clients.
pub struct HandshakeReq {
    pub header: [u8; 3],
    pub auth_key: String,
    pub client_public_key: Option<String>,
}

/// The contents of a handshake request.
pub struct HandshakeReqView {
    pub header: Seq<u8>,
    pub auth_key: Seq<char>,
    pub client_public_key: Option<Seq<char>>,
}

impl View for HandshakeReq {
    type V = HandshakeReqView;

    open spec fn view(&self) -> HandshakeReqView {
        HandshakeReqView {
            header: self.header@,
            auth_key: self.auth_key@,
            client_public_key: opt_view(&self.client_public_key),
        }
    }
}

/// The bytes of a handshake request.
pub open spec fn handshake_req_bytes(v: HandshakeReqView) -> Seq<u8> {
    v.header + str_field(v.auth_key) + opt_str_field(v.client_public_key)
}

/// Reads a handshake request; yields it and the bytes that follow.
pub open spec fn read_handshake_req(b: Seq<u8>) -> Option<(HandshakeReqView, Seq<u8>)> {
    match read_header(b) {
        None => None,
        Some((h, r1)) => match read_str_field(r1) {
            None => None,
            Some((k, r2)) => match read_opt_str_field(r2) {
                None => None,
                Some((p, r3)) => Some(
                    (HandshakeReqView { header: h, auth_key: k, client_public_key: p }, r3),
                ),
            },
        },
    }
}

/// A handshake request whose fields can be encoded.
pub open spec fn handshake_req_wf(v: HandshakeReqView) -> bool {
    v.header.len() == 3 && str_fits(v.auth_key) && opt_str_fits(v.client_public_key)
}

/// Decoding the bytes of a handshake request gives it back.
pub proof fn lemma_handshake_req_roundtrip(v: HandshakeReqView, rest: Seq<u8>)
    requires
        handshake_req_wf(v),
    ensures
        read_handshake_req(handshake_req_bytes(v) + rest) == Some((v, rest)),
{
    let a = str_field(v.auth_key);
    let b = opt_str_field(v.client_public_key);
    assert(handshake_req_bytes(v) + rest =~= v.header + (a + (b + rest)));
    lemma_header_roundtrip(v.header, a + (b + rest));
    lemma_str_field_roundtrip(v.auth_key, b + rest);
    lemma_opt_str_field_roundtrip(v.client_public_key, rest);
}

impl HandshakeReq {
    /// A request without a public key.
    pub fn new(auth_key: &str, _is_dynamic: bool) -> (r: Self)
        ensures
            r.header@ == HANDSHAKE_REQUEST_HEADER@,
            r.auth_key@ == auth_key@,
            r.client_public_key is None,
    {
        HandshakeReq {
            header: HANDSHAKE_REQUEST_HEADER,
            auth_key: to_owned_string(auth_key),
            client_public_key: None,
        }
    }

    /// A request carrying the client's public key.
    pub fn new_with_crypto(auth_key: &str, client_public_key: &str, _is_dynamic: bool) -> (r: Self)
        ensures
            r.header@ == HANDSHAKE_REQUEST_HEADER@,
            r.auth_key@ == auth_key@,
            r.client_public_key matches Some(k) && k@ == client_public_key@,
    {
        HandshakeReq {
            header: HANDSHAKE_REQUEST_HEADER,
            auth_key: to_owned_string(auth_key),
            client_public_key: Some(to_owned_string(client_public_key)),
        }
    }

    /// The encoded message.
    pub fn serialize(&self) -> (r: Result<Vec<u8>, WireError>)
        ensures
            r matches Ok(v) && v@ == handshake_req_bytes(self@),
            read_handshake_req(handshake_req_bytes(self@)) == Some((self@, Seq::<u8>::empty())),
            self.header@ == HANDSHAKE_REQUEST_HEADER@ ==> crate::message_type::classify(handshake_req_bytes(self@)) == crate::message_type::MessageView::HandshakeReq(self@),
    {
        let mut out: Vec<u8> = Vec::new();
        write_header(&mut out, &self.header);
        write_str_field(&mut out, self.auth_key.as_str());
        write_opt_str_field(&mut out, &self.client_public_key);
        proof {
            assert(out@ =~= handshake_req_bytes(self@));
            lemma_handshake_req_roundtrip(self@, Seq::<u8>::empty());
            assert(handshake_req_bytes(self@) + Seq::<u8>::empty() =~= handshake_req_bytes(self@));
        }
        proof {
            crate::message_type::lemma_header_constants();
            if self.header@ == HANDSHAKE_REQUEST_HEADER@ {
                crate::message_type::lemma_message_dispatch(crate::message_type::MessageView::HandshakeReq(self@));
            }
        }
        Ok(out)
    }

    /// Decodes a request from the start of `buf`; trailing bytes are ignored.
    pub fn deserialize(buf: &[u8]) -> (r: Result<Self, WireError>)
        ensures
            match read_handshake_req(buf@) {
                Some((v, _)) => r matches Ok(m) && m@ == v,
                None => r is Err,
            },
    {
        assert(buf@.skip(0) =~= buf@);
        let (header, p) = match read_header_at(buf, 0) {
            Some(x) => x,
            None => return Err(WireError::Malformed),
        };
        let (auth_key, p) = match read_str_field_at(buf, p) {
            Some(x) => x,
            None => return Err(WireError::Malformed),
        };
        let (client_public_key, _p) = match read_opt_str_field_at(buf, p) {
            Some(x) => x,
            None => return Err(WireError::Malformed),
        };
        Ok(HandshakeReq { header, auth_key, client_public_key })
    }

    /// The length of the encoded message.
    pub fn size(&self) -> (r: Result<usize, WireError>)
        ensures
            r matches Ok(n) && n == handshake_req_bytes(self@).len(),
    {
        let v = self.serialize()?;
        Ok(v.len())
    }
}

// ---------------------------------------------------------------------------
// HandshakeRep

/// The server's acceptance of a handshake: the overlay network and the
/// address assigned to the client.
pub struct HandshakeRep {
    pub header: [u8; 3],
    pub netmask: String,
    pub network: String,
    pub sdn_ip_addr: String,
    pub server_public_key: Option<String>,
}

/// The contents of a handshake reply.
pub struct HandshakeRepView {
    pub header: Seq<u8>,
    pub netmask: Seq<char>,
    pub network: Seq<char>,
    pub sdn_ip_addr: Seq<char>,
    pub server_public_key: Option<Seq<char>>,
}

impl View for HandshakeRep {
    type V = HandshakeRepView;

    open spec fn view(&self) -> HandshakeRepView {
        HandshakeRepView {
            header: self.header@,
            netmask: self.netmask@,
            network: self.network@,
            sdn_ip_addr: self.sdn_ip_addr@,
            server_public_key: opt_view(&self.server_public_key),
        }
    }
}

/// The bytes of a handshake reply.
pub open spec fn handshake_rep_bytes(v: HandshakeRepView) -> Seq<u8> {
    v.header + str_field(v.netmask) + str_field(v.network) + str_field(v.sdn_ip_addr)
        + opt_str_field(v.server_public_key)
}

/// Reads a handshake reply.
pub open spec fn read_handshake_rep(b: Seq<u8>) -> Option<(HandshakeRepView, Seq<u8>)> {
    match read_header(b) {
        None => None,
        Some((h, r1)) => match read_str_field(r1) {
            None => None,
            Some((m, r2)) => match read_str_field(r2) {
                None => None,
                Some((n, r3)) => match read_str_field(r3) {
                    None => None,
                    Some((ip, r4)) => match read_opt_str_field(r4) {
                        None => None,
                        Some((k, r5)) => Some(
                            (
                                HandshakeRepView {
                                    header: h,
                                    netmask: m,
                                    network: n,
                                    sdn_ip_addr: ip,
                                    server_public_key: k,
                                },
                                r5,
                            ),
                        ),
                    },
                },
            },
        },
    }
}

/// A handshake reply whose fields can be encoded.
pub open spec fn handshake_rep_wf(v: HandshakeRepView) -> bool {
    v.header.len() == 3 && str_fits(v.netmask) && str_fits(v.network) && str_fits(v.sdn_ip_addr)
        && opt_str_fits(v.server_public_key)
}

/// Decoding the bytes of a handshake reply gives it back.
pub proof fn lemma_handshake_rep_roundtrip(v: HandshakeRepView, rest: Seq<u8>)
    requires
        handshake_rep_wf(v),
    ensures
        read_handshake_rep(handshake_rep_bytes(v) + rest) == Some((v, rest)),
{
    let a = str_field(v.netmask);
    let b = str_field(v.network);
    let c = str_field(v.sdn_ip_addr);
    let d = opt_str_field(v.server_public_key);
    assert(handshake_rep_bytes(v) + rest =~= v.header + (a + (b + (c + (d + rest)))));
    lemma_header_roundtrip(v.header, a + (b + (c + (d + rest))));
    lemma_str_field_roundtrip(v.netmask, b + (c + (d + rest)));
    lemma_str_field_roundtrip(v.network, c + (d + rest));
    lemma_str_field_roundtrip(v.sdn_ip_addr, d + rest);
    lemma_opt_str_field_roundtrip(v.server_public_key, rest);
}

impl HandshakeRep {
    /// A reply without a server key.
    pub fn new(netmask: &str, network: &str, sdn_ip_addr: &str) -> (r: Self)
        ensures
            r.header@ == HANDSHAKE_REPLY_HEADER@,
            r.netmask@ == netmask@,
            r.network@ == network@,
            r.sdn_ip_addr@ == sdn_ip_addr@,
            r.server_public_key is None,
    {
        HandshakeRep {
            header: HANDSHAKE_REPLY_HEADER,
            netmask: to_owned_string(netmask),
            network: to_owned_string(network),
            sdn_ip_addr: to_owned_string(sdn_ip_addr),
            server_public_key: None,
        }
    }

    /// A reply carrying the server's public key.
    pub fn new_with_crypto(
        netmask: &str,
        network: &str,
        sdn_ip_addr: &str,
        server_public_key: &str,
    ) -> (r: Self)
        ensures
            r.header@ == HANDSHAKE_REPLY_HEADER@,
            r.netmask@ == netmask@,
            r.network@ == network@,
            r.sdn_ip_addr@ == sdn_ip_addr@,
            r.server_public_key matches Some(k) && k@ == server_public_key@,
    {
        HandshakeRep {
            header: HANDSHAKE_REPLY_HEADER,
            netmask: to_owned_string(netmask),
            network: to_owned_string(network),
            sdn_ip_addr: to_owned_string(sdn_ip_addr),
            server_public_key: Some(to_owned_string(server_public_key)),
        }
    }

    /// The encoded message.
    pub fn serialize(&self) -> (r: Result<Vec<u8>, WireError>)
        ensures
            r matches Ok(v) && v@ == handshake_rep_bytes(self@),
            read_handshake_rep(handshake_rep_bytes(self@)) == Some((self@, Seq::<u8>::empty())),
            self.header@ == HANDSHAKE_REPLY_HEADER@ ==> crate::message_type::classify(handshake_rep_bytes(self@)) == crate::message_type::MessageView::HandshakeRep(self@),
    {
        let mut out: Vec<u8> = Vec::new();
        write_header(&mut out, &self.header);
        write_str_field(&mut out, self.netmask.as_str());
        write_str_field(&mut out, self.network.as_str());
        write_str_field(&mut out, self.sdn_ip_addr.as_str());
        write_opt_str_field(&mut out, &self.server_public_key);
        proof {
            assert(out@ =~= handshake_rep_bytes(self@));
            lemma_handshake_rep_roundtrip(self@, Seq::<u8>::empty());
            assert(handshake_rep_bytes(self@) + Seq::<u8>::empty() =~= handshake_rep_bytes(self@));
        }
        proof {
            crate::message_type::lemma_header_constants();
            if self.header@ == HANDSHAKE_REPLY_HEADER@ {
                crate::message_type::lemma_message_dispatch(crate::message_type::MessageView::HandshakeRep(self@));
            }
        }
        Ok(out)
    }

    /// Decodes a reply from the start of `buf`; trailing bytes are ignored.
    pub fn deserialize(buf: &[u8]) -> (r: Result<Self, WireError>)
        ensures
            match read_handshake_rep(buf@) {
                Some((v, _)) => r matches Ok(m) && m@ == v,
                None => r is Err,
            },
    {
        assert(buf@.skip(0) =~= buf@);
        let (header, p) = match read_header_at(buf, 0) {
            Some(x) => x,
            None => return Err(WireError::Malformed),
        };
        let (netmask, p) = match read_str_field_at(buf, p) {
            Some(x) => x,
            None => return Err(WireError::Malformed),
        };
        let (network, p) = match read_str_field_at(buf, p) {
            Some(x) => x,
            None => return Err(WireError::Malformed),
        };
        let (sdn_ip_addr, p) = match read_str_field_at(buf, p) {
            Some(x) => x,
            None => return Err(WireError::Malformed),
        };
        let (server_public_key, _p) = match read_opt_str_field_at(buf, p) {
            Some(x) => x,
            None => return Err(WireError::Malformed),
        };
        Ok(HandshakeRep { header, netmask, network, sdn_ip_addr, server_public_key })
    }

    /// The length of the encoded message.
    pub fn size(&self) -> (r: Result<usize, WireError>)
        ensures
            r matches Ok(n) && n == handshake_rep_bytes(self@).len(),
    {
        let v = self.serialize()?;
        Ok(v.len())
    }
}

// ---------------------------------------------------------------------------
// HandshakeError

/// The server's refusal of a handshake, with the reason.
pub struct HandshakeError {
    pub header: [u8; 3],
    pub error_message: String,
}

/// The contents of a handshake refusal.
pub struct HandshakeErrorView {
    pub header: Seq<u8>,
    pub error_message: Seq<char>,
}

impl View for HandshakeError {
    type V = HandshakeErrorView;

    open spec fn view(&self) -> HandshakeErrorView {
        HandshakeErrorView { header: self.header@, error_message: self.error_message@ }
    }
}

/// The bytes of a handshake refusal.
pub open spec fn handshake_error_bytes(v: HandshakeErrorView) -> Seq<u8> {
    v.header + str_field(v.error_message)
}

/// Reads a handshake refusal.
pub open spec fn read_handshake_error(b: Seq<u8>) -> Option<(HandshakeErrorView, Seq<u8>)> {
    match read_header(b) {
        None => None,
        Some((h, r1)) => match read_str_field(r1) {
            None => None,
            Some((m, r2)) => Some((HandshakeErrorView { header: h, error_message: m }, r2)),
        },
    }
}

/// A handshake refusal whose fields can be encoded.
pub open spec fn handshake_error_wf(v: HandshakeErrorView) -> bool {
    v.header.len() == 3 && str_fits(v.error_message)
}

/// Decoding the bytes of a handshake refusal gives it back.
pub proof fn lemma_handshake_error_roundtrip(v: HandshakeErrorView, rest: Seq<u8>)
    requires
        handshake_error_wf(v),
    ensures
        read_handshake_error(handshake_error_bytes(v) + rest) == Some((v, rest)),
{
    let a = str_field(v.error_message);
    assert(handshake_error_bytes(v) + rest =~= v.header + (a + rest));
    lemma_header_roundtrip(v.header, a + rest);
    lemma_str_field_roundtrip(v.error_message, rest);
}

impl HandshakeError {
    /// A refusal with the given reason.
    pub fn new(error_message: &str) -> (r: Self)
        ensures
            r.header@ == HANDSHAKE_ERROR_HEADER@,
            r.error_message@ == error_message@,
    {
        HandshakeError { header: HANDSHAKE_ERROR_HEADER, error_message: to_owned_string(error_message) }
    }

    /// The encoded message.
    pub fn serialize(&self) -> (r: Result<Vec<u8>, WireError>)
        ensures
            r matches Ok(v) && v@ == handshake_error_bytes(self@),
            read_handshake_error(handshake_error_bytes(self@)) == Some((self@, Seq::<u8>::empty())),
            self.header@ == HANDSHAKE_ERROR_HEADER@ ==> crate::message_type::classify(handshake_error_bytes(self@)) == crate::message_type::MessageView::HandshakeError(self@),
    {
        let mut out: Vec<u8> = Vec::new();
        write_header(&mut out, &self.header);
        write_str_field(&mut out, self.error_message.as_str());
        proof {
            assert(out@ =~= handshake_error_bytes(self@));
            lemma_handshake_error_roundtrip(self@, Seq::<u8>::empty());
            assert(handshake_error_bytes(self@) + Seq::<u8>::empty() =~= handshake_error_bytes(
                self@,
            ));
        }
        proof {
            crate::message_type::lemma_header_constants();
            if self.header@ == HANDSHAKE_ERROR_HEADER@ {
                crate::message_type::lemma_message_dispatch(crate::message_type::MessageView::HandshakeError(self@));
            }
        }
        Ok(out)
    }

    /// Decodes a refusal from the start of `buf`; trailing bytes are ignored.
    pub fn deserialize(buf: &[u8]) -> (r: Result<Self, WireError>)
        ensures
            match read_handshake_error(buf@) {
                Some((v, _)) => r matches Ok(m) && m@ == v,
                None => r is Err,
            },
    {
        assert(buf@.skip(0) =~= buf@);
        let (header, p) = match read_header_at(buf, 0) {
            Some(x) => x,
            None => return Err(WireError::Malformed),
        };
        let (error_message, _p) = match read_str_field_at(buf, p) {
            Some(x) => x,
            None => return Err(WireError::Malformed),
        };
        Ok(HandshakeError { header, error_message })
    }

    /// The length of the encoded message.
    pub fn size(&self) -> (r: Result<usize, WireError>)
        ensures
            r matches Ok(n) && n == handshake_error_bytes(self@).len(),
    {
        let v = self.serialize()?;
        Ok(v.len())
    }
}

// ---------------------------------------------------------------------------
// UDPHeartbeat

/// A keep-alive message; the server answers each with one of its own.
pub struct UDPHeartbeat {
    pub header: [u8; 3],
}

/// Reads a heartbeat: just its header.
pub open spec fn read_heartbeat(b: Seq<u8>) -> Option<(Seq<u8>, Seq<u8>)> {
    read_header(b)
}

impl Default for UDPHeartbeat {
    fn default() -> (r: Self)
        ensures
            r.header@ == HEARTBEAT_HEADER@,
    {
        Self::new()
    }
}

impl UDPHeartbeat {
    /// A heartbeat.
    pub fn new() -> (r: Self)
        ensures
            r.header@ == HEARTBEAT_HEADER@,
    {
        UDPHeartbeat { header: HEARTBEAT_HEADER }
    }

    /// The encoded message: its header.
    pub fn serialize(&self) -> (r: Result<Vec<u8>, WireError>)
        ensures
            r matches Ok(v) && v@ == self.header@,
            self.header@ == HEARTBEAT_HEADER@ ==> crate::message_type::classify(self.header@) == crate::message_type::MessageView::Heartbeat(self.header@),
    {
        let mut out: Vec<u8> = Vec::new();
        write_header(&mut out, &self.header);
        assert(out@ =~= self.header@);
        proof {
            crate::message_type::lemma_header_constants();
            if self.header@ == HEARTBEAT_HEADER@ {
                crate::message_type::lemma_message_dispatch(crate::message_type::MessageView::Heartbeat(self.header@));
            }
        }
        Ok(out)
    }

    /// Decodes a heartbeat from the start of `buf`.
    pub fn deserialize(buf: &[u8]) -> (r: Result<Self, WireError>)
        ensures
            match read_heartbeat(buf@) {
                Some((h, _)) => r matches Ok(m) && m.header@ == h,
                None => r is Err,
            },
    {
        assert(buf@.skip(0) =~= buf@);
        match read_header_at(buf, 0) {
            Some((header, _)) => Ok(UDPHeartbeat { header }),
            None => Err(WireError::Malformed),
        }
    }

    /// The length of the encoded message.
    pub fn size(&self) -> (r: Result<usize, WireError>)
        ensures
            r matches Ok(n) && n == 3,
    {
        let v = self.serialize()?;
        Ok(v.len())
    }
}

// ---------------------------------------------------------------------------
// Noise handshake with the server

/// The contents of a Noise handshake message: header and payload bytes.
pub struct NoiseMessageView {
    pub header: Seq<u8>,
    pub payload: Seq<u8>,
}

/// The bytes of a Noise handshake message.
pub open spec fn noise_message_bytes(v: NoiseMessageView) -> Seq<u8> {
    v.header + bytes_field(v.payload)
}

/// Reads a Noise handshake message.
pub open spec fn read_noise_message(b: Seq<u8>) -> Option<(NoiseMessageView, Seq<u8>)> {
    match read_header(b) {
        None => None,
        Some((h, r1)) => match read_bytes_field(r1) {
            None => None,
            Some((p, r2)) => Some((NoiseMessageView { header: h, payload: p }, r2)),
        },
    }
}

/// Decoding the bytes of a Noise handshake message gives it back.
pub proof fn lemma_noise_message_roundtrip(v: NoiseMessageView, rest: Seq<u8>)
    requires
        v.header.len() == 3,
        fits_u64(v.payload.len()),
    ensures
        read_noise_message(noise_message_bytes(v) + rest) == Some((v, rest)),
{
    let a = bytes_field(v.payload);
    assert(noise_message_bytes(v) + rest =~= v.header + (a + rest));
    lemma_header_roundtrip(v.header, a + rest);
    lemma_bytes_field_roundtrip(v.payload, rest);
}

/// The first Noise handshake message, sent by the client.
pub struct NoiseHandshakeInit {
    pub header: [u8; 3],
    pub payload: Vec<u8>,
}

impl View for NoiseHandshakeInit {
    type V = NoiseMessageView;

    open spec fn view(&self) -> NoiseMessageView {
        NoiseMessageView { header: self.header@, payload: self.payload@ }
    }
}

impl NoiseHandshakeInit {
    /// An initiation carrying the given Noise payload.
    pub fn new(payload: Vec<u8>) -> (r: Self)
        ensures
            r.header@ == NOISE_HANDSHAKE_INIT_HEADER@,
            r.payload@ == payload@,
    {
        NoiseHandshakeInit { header: NOISE_HANDSHAKE_INIT_HEADER, payload }
    }

    /// The encoded message.
    pub fn serialize(&self) -> (r: Result<Vec<u8>, WireError>)
        ensures
            r matches Ok(v) && v@ == noise_message_bytes(self@),
            read_noise_message(noise_message_bytes(self@)) == Some((self@, Seq::<u8>::empty())),
    {
        let mut out: Vec<u8> = Vec::new();
        write_header(&mut out, &self.header);
        write_bytes_field(&mut out, self.payload.as_slice());
        proof {
            assert(out@ =~= noise_message_bytes(self@));
            lemma_noise_message_roundtrip(self@, Seq::<u8>::empty());
            assert(noise_message_bytes(self@) + Seq::<u8>::empty() =~= noise_message_bytes(self@));
        }
        Ok(out)
    }

    /// Decodes an initiation from the start of `buf`.
    pub fn deserialize(buf: &[u8]) -> (r: Result<Self, WireError>)
        ensures
            match read_noise_message(buf@) {
                Some((v, _)) => r matches Ok(m) && m@ == v,
                None => r is Err,
            },
    {
        assert(buf@.skip(0) =~= buf@);
        let (header, p) = match read_header_at(buf, 0) {
            Some(x) => x,
            None => return Err(WireError::Malformed),
        };
        let (payload, _p) = match read_bytes_field_at(buf, p) {
            Some(x) => x,
            None => return Err(WireError::Malformed),
        };
        Ok(NoiseHandshakeInit { header, payload })
    }
}

/// The second Noise handshake message, sent back by the server.
pub struct NoiseHandshakeResp {
    pub header: [u8; 3],
    pub payload: Vec<u8>,
}

impl View for NoiseHandshakeResp {
    type V = NoiseMessageView;

    open spec fn view(&self) -> NoiseMessageView {
        NoiseMessageView { header: self.header@, payload: self.payload@ }
    }
}

impl NoiseHandshakeResp {
    /// A response carrying the given Noise payload.
    pub fn new(payload: Vec<u8>) -> (r: Self)
        ensures
            r.header@ == NOISE_HANDSHAKE_RESP_HEADER@,
            r.payload@ == payload@,
    {
        NoiseHandshakeResp { header: NOISE_HANDSHAKE_RESP_HEADER, payload }
    }

    /// The encoded message.
    pub fn serialize(&self) -> (r: Result<Vec<u8>, WireError>)
        ensures
            r matches Ok(v) && v@ == noise_message_bytes(self@),
            read_noise_message(noise_message_bytes(self@)) == Some((self@, Seq::<u8>::empty())),
    {
        let mut out: Vec<u8> = Vec::new();
        write_header(&mut out, &self.header);
        write_bytes_field(&mut out, self.payload.as_slice());
        proof {
            assert(out@ =~= noise_message_bytes(self@));
            lemma_noise_message_roundtrip(self@, Seq::<u8>::empty());
            assert(noise_message_bytes(self@) + Seq::<u8>::empty() =~= noise_message_bytes(self@));
        }
        Ok(out)
    }

    /// Decodes a response from the start of `buf`.
    pub fn deserialize(buf: &[u8]) -> (r: Result<Self, WireError>)
        ensures
            match read_noise_message(buf@) {
                Some((v, _)) => r matches Ok(m) && m@ == v,
                None => r is Err,
            },
    {
        assert(buf@.skip(0) =~= buf@);
        let (header, p) = match read_header_at(buf, 0) {
            Some(x) => x,
            None => return Err(WireError::Malformed),
        };
        let (payload, _p) = match read_bytes_field_at(buf, p) {
            Some(x) => x,
            None => return Err(WireError::Malformed),
        };
        Ok(NoiseHandshakeResp { header, payload })
    }
}

} // verus!
