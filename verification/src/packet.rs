//! The fields of an IPv4 header that the overlay looks at.
use vstd::prelude::*;

use crate::ipv4::{ipv4_text, Ipv4};

verus! {

/// The header fields of an IPv4 packet, with the transport ports where the
/// packet carries TCP or UDP.
pub struct IpHeader {
    pub version_ihl: u8,
    pub version: u8,
    pub ihl: u8,
    pub total_length: u16,
    pub protocol: u8,
    pub src_ip: String,
    pub src_port: u16,
    pub dst_ip: String,
    pub dst_port: u16,
}

/// A big-endian 16-bit value from two bytes.
pub open spec fn be16(hi: u8, lo: u8) -> u16 {
    (hi as int * 256 + lo as int) as u16
}

/// Header length in bytes, from the low nibble of the first byte.
pub open spec fn header_len(p: Seq<u8>) -> int {
    (p[0] % 16) as int * 4
}

/// True when the packet is TCP or UDP and long enough to hold both ports
/// right after the header.
pub open spec fn has_ports(p: Seq<u8>) -> bool {
    (p[9] == 6 || p[9] == 17) && p.len() >= header_len(p) + 4
}

/// What the header of a packet of at least 20 bytes says.
pub open spec fn header_of(p: Seq<u8>, h: IpHeader) -> bool {
    &&& h.version_ihl == p[0]
    &&& h.version == p[0] / 16
    &&& h.ihl == header_len(p)
    &&& h.total_length == be16(p[2], p[3])
    &&& h.protocol == p[9]
    &&& h.src_ip@ == ipv4_text(p.subrange(12, 16))
    &&& h.dst_ip@ == ipv4_text(p.subrange(16, 20))
    &&& h.src_port == if has_ports(p) { be16(p[header_len(p)], p[header_len(p) + 1]) } else { 0 }
    &&& h.dst_port == if has_ports(p) {
        be16(p[header_len(p) + 2], p[header_len(p) + 3])
    } else {
        0
    }
}

/// Reads the IPv4 header of `packet`; `None` when the packet is shorter
/// than the 20 bytes of a minimal header.
pub fn parse_ipv4_header(packet: &[u8]) -> (r: Option<IpHeader>)
    ensures
        r is None <==> packet@.len() < 20,
        r matches Some(h) ==> header_of(packet@, h),
{
    if packet.len() < 20 {
        return None;
    }
    let version_ihl = packet[0];
    let low: u8 = version_ihl & 0x0Fu8;
    proof {
        assert(version_ihl & 0x0Fu8 == version_ihl % 16) by (bit_vector);
    }
    let ihl: u8 = low * 4;
    let protocol = packet[9];
    let mut src_port: u16 = 0;
    let mut dst_port: u16 = 0;
    let start = ihl as usize;
    if (protocol == 6 || protocol == 17) && packet.len() >= start + 4 {
        src_port = packet[start] as u16 * 256 + packet[start + 1] as u16;
        dst_port = packet[start + 2] as u16 * 256 + packet[start + 3] as u16;
    }
    let total_length = packet[2] as u16 * 256 + packet[3] as u16;
    let src = Ipv4::from_octets(packet[12], packet[13], packet[14], packet[15]);
    let dst = Ipv4::from_octets(packet[16], packet[17], packet[18], packet[19]);
    proof {
        assert(src.octets() =~= packet@.subrange(12, 16));
        assert(dst.octets() =~= packet@.subrange(16, 20));
        assert(version_ihl >> 4u8 == version_ihl / 16) by (bit_vector);
    }
    Some(
        IpHeader {
            version_ihl,
            version: version_ihl >> 4u8,
            ihl,
            total_length,
            protocol,
            src_ip: src.to_string(),
            src_port,
            dst_ip: dst.to_string(),
            dst_port,
        },
    )
}

/// True when `buf` holds at least a minimal IPv4 header.
pub fn validate_packet(buf: &[u8]) -> (r: bool)
    ensures
        r == (buf@.len() >= 20),
{
    match parse_ipv4_header(buf) {
        Some(_) => true,
        None => false,
    }
}

} // verus!
