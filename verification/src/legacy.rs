//! The first version of the handshake: the client sends its public key and
//! the server answers with the network it assigns. Encoded as the current
//! messages are: a three-byte header, then string fields.
use vstd::prelude::*;

use crate::messages::{
    str_fits, WireError, HANDSHAKE_REPLY_HEADER, HANDSHAKE_REQUEST_HEADER,
};
use crate::wire::{
    lemma_header_roundtrip, lemma_str_field_roundtrip, read_header, read_header_at,
    read_str_field, read_str_field_at, str_field, write_header, write_str_field,
};

verus! {

/// Where a client stands in the first version's handshake.
#[derive(PartialEq, Eq, Clone, Copy, Debug, Structural)]
pub enum HandshakeStatus {
    Pending,
    Initialized,
}

/// A first-version handshake request: the client's public key.
pub struct HandshakeReq {
    pub header: [u8; 3],
    pub public_key: String,
}

/// The contents of a first-version request.
pub struct HandshakeReqView {
    pub header: Seq<u8>,
    pub public_key: Seq<char>,
}

impl View for HandshakeReq {
    type V = HandshakeReqView;

    open spec fn view(&self) -> HandshakeReqView {
        HandshakeReqView { header: self.header@, public_key: self.public_key@ }
    }
}

/// The bytes of a first-version request.
pub open spec fn legacy_req_bytes(v: HandshakeReqView) -> Seq<u8> {
    v.header + str_field(v.public_key)
}

/// Reads a first-version request.
pub open spec fn read_legacy_req(b: Seq<u8>) -> Option<(HandshakeReqView, Seq<u8>)> {
    match read_header(b) {
        None => None,
        Some((h, r1)) => match read_str_field(r1) {
            None => None,
            Some((k, r2)) => Some((HandshakeReqView { header: h, public_key: k }, r2)),
        },
    }
}

/// Decoding the bytes of a first-version request gives it back.
pub proof fn lemma_legacy_req_roundtrip(v: HandshakeReqView, rest: Seq<u8>)
    requires
        v.header.len() == 3,
        str_fits(v.public_key),
    ensures
        read_legacy_req(legacy_req_bytes(v) + rest) == Some((v, rest)),
{
    let a = str_field(v.public_key);
    assert(legacy_req_bytes(v) + rest =~= v.header + (a + rest));
    lemma_header_roundtrip(v.header, a + rest);
    lemma_str_field_roundtrip(v.public_key, rest);
}

impl HandshakeReq {
    /// A request carrying `public_key`.
    pub fn new(public_key: &String) -> (r: Self)
        ensures
            r.header@ == HANDSHAKE_REQUEST_HEADER@,
            r.public_key@ == public_key@,
    {
        HandshakeReq { header: HANDSHAKE_REQUEST_HEADER, public_key: public_key.clone() }
    }

    /// The encoded message.
    pub fn serialize(&self) -> (r: Result<Vec<u8>, WireError>)
        ensures
            r matches Ok(v) && v@ == legacy_req_bytes(self@),
            read_legacy_req(legacy_req_bytes(self@)) == Some((self@, Seq::<u8>::empty())),
    {
        let mut out: Vec<u8> = Vec::new();
        write_header(&mut out, &self.header);
        write_str_field(&mut out, self.public_key.as_str());
        proof {
            assert(out@ =~= legacy_req_bytes(self@));
            lemma_legacy_req_roundtrip(self@, Seq::<u8>::empty());
            assert(legacy_req_bytes(self@) + Seq::<u8>::empty() =~= legacy_req_bytes(self@));
        }
        Ok(out)
    }

    /// Decodes a request from the start of `buf`.
    pub fn deserialize(buf: &[u8]) -> (r: Result<Self, WireError>)
        ensures
            match read_legacy_req(buf@) {
                Some((v, _)) => r matches Ok(m) && m@ == v,
                None => r is Err,
            },
    {
        assert(buf@.skip(0) =~= buf@);
        let (header, p) = match read_header_at(buf, 0) {
            Some(x) => x,
            None => return Err(WireError::Malformed),
        };
        let (public_key, _p) = match read_str_field_at(buf, p) {
            Some(x) => x,
            None => return Err(WireError::Malformed),
        };
        Ok(HandshakeReq { header, public_key })
    }

    /// The length of the encoded message.
    pub fn size(&self) -> (r: Result<usize, WireError>)
        ensures
            r matches Ok(n) && n == legacy_req_bytes(self@).len(),
    {
        let v = self.serialize()?;
        Ok(v.len())
    }
}

/// A first-version handshake reply: the netmask, the network and the
/// client's overlay address.
pub struct HandshakeRep {
    pub header: [u8; 3],
    pub netmask: String,
    pub destination: String,
    pub sdn_ip_addr: String,
}

/// The contents of a first-version reply.
pub struct HandshakeRepView {
    pub header: Seq<u8>,
    pub netmask: Seq<char>,
    pub destination: Seq<char>,
    pub sdn_ip_addr: Seq<char>,
}

impl View for HandshakeRep {
    type V = HandshakeRepView;

    open spec fn view(&self) -> HandshakeRepView {
        HandshakeRepView {
            header: self.header@,
            netmask: self.netmask@,
            destination: self.destination@,
            sdn_ip_addr: self.sdn_ip_addr@,
        }
    }
}

/// The bytes of a first-version reply.
pub open spec fn legacy_rep_bytes(v: HandshakeRepView) -> Seq<u8> {
    v.header + str_field(v.netmask) + str_field(v.destination) + str_field(v.sdn_ip_addr)
}

/// Reads a first-version reply.
pub open spec fn read_legacy_rep(b: Seq<u8>) -> Option<(HandshakeRepView, Seq<u8>)> {
    match read_header(b) {
        None => None,
        Some((h, r1)) => match read_str_field(r1) {
            None => None,
            Some((m, r2)) => match read_str_field(r2) {
                None => None,
                Some((d, r3)) => match read_str_field(r3) {
                    None => None,
                    Some((ip, r4)) => Some(
                        (HandshakeRepView { header: h, netmask: m, destination: d, sdn_ip_addr: ip }, r4),
                    ),
                },
            },
        },
    }
}

/// Decoding the bytes of a first-version reply gives it back.
pub proof fn lemma_legacy_rep_roundtrip(v: HandshakeRepView, rest: Seq<u8>)
    requires
        v.header.len() == 3,
        str_fits(v.netmask),
        str_fits(v.destination),
        str_fits(v.sdn_ip_addr),
    ensures
        read_legacy_rep(legacy_rep_bytes(v) + rest) == Some((v, rest)),
{
    let a = str_field(v.netmask);
    let b = str_field(v.destination);
    let c = str_field(v.sdn_ip_addr);
    assert(legacy_rep_bytes(v) + rest =~= v.header + (a + (b + (c + rest))));
    lemma_header_roundtrip(v.header, a + (b + (c + rest)));
    lemma_str_field_roundtrip(v.netmask, b + (c + rest));
    lemma_str_field_roundtrip(v.destination, c + rest);
    lemma_str_field_roundtrip(v.sdn_ip_addr, rest);
}

impl HandshakeRep {
    /// A reply assigning `sdn_ip_addr` in the network `destination`.
    pub fn new(netmask: &String, destination: &String, sdn_ip_addr: &String) -> (r: Self)
        ensures
            r.header@ == HANDSHAKE_REPLY_HEADER@,
            r.netmask@ == netmask@,
            r.destination@ == destination@,
            r.sdn_ip_addr@ == sdn_ip_addr@,
    {
        HandshakeRep {
            header: HANDSHAKE_REPLY_HEADER,
            netmask: netmask.clone(),
            destination: destination.clone(),
            sdn_ip_addr: sdn_ip_addr.clone(),
        }
    }

    /// The encoded message.
    pub fn serialize(&self) -> (r: Result<Vec<u8>, WireError>)
        ensures
            r matches Ok(v) && v@ == legacy_rep_bytes(self@),
            read_legacy_rep(legacy_rep_bytes(self@)) == Some((self@, Seq::<u8>::empty())),
    {
        let mut out: Vec<u8> = Vec::new();
        write_header(&mut out, &self.header);
        write_str_field(&mut out, self.netmask.as_str());
        write_str_field(&mut out, self.destination.as_str());
        write_str_field(&mut out, self.sdn_ip_addr.as_str());
        proof {
            assert(out@ =~= legacy_rep_bytes(self@));
            lemma_legacy_rep_roundtrip(self@, Seq::<u8>::empty());
            assert(legacy_rep_bytes(self@) + Seq::<u8>::empty() =~= legacy_rep_bytes(self@));
        }
        Ok(out)
    }

    /// Decodes a reply from the start of `buf`.
    pub fn deserialize(buf: &[u8]) -> (r: Result<Self, WireError>)
        ensures
            match read_legacy_rep(buf@) {
                Some((v, _)) => r matches Ok(m) && m@ == v,
                None => r is Err,
            },
    {
        assert(buf@.skip(0) =~= buf@);
        let (header, p) = match read_header_at(buf, 0) {
            Some(x) => x,
            None => return Err(WireError::Malformed),
        };
        let (netmask, p) = match read_str_field_at(buf, p) {
            Some(x) => x,
            None => return Err(WireError::Malformed),
        };
        let (destination, p) = match read_str_field_at(buf, p) {
            Some(x) => x,
            None => return Err(WireError::Malformed),
        };
        let (sdn_ip_addr, _p) = match read_str_field_at(buf, p) {
            Some(x) => x,
            None => return Err(WireError::Malformed),
        };
        Ok(HandshakeRep { header, netmask, destination, sdn_ip_addr })
    }

    /// The length of the encoded message.
    pub fn size(&self) -> (r: Result<usize, WireError>)
        ensures
            r matches Ok(n) && n == legacy_rep_bytes(self@).len(),
    {
        let v = self.serialize()?;
        Ok(v.len())
    }
}

} // verus!
