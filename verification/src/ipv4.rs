//! IPv4 addresses of the overlay network and their dotted-quad text form.
use vstd::prelude::*;
use vstd::utf8::*;

use crate::text::{
    all_ascii, ascii_chars, ascii_to_string, bytes_eq, decimal_bytes, digits_value, is_digit_byte,
    lemma_ascii_chars_injective, lemma_ascii_utf8, lemma_decimal_bytes, lemma_decimal_injective,
    push_decimal, str_bytes,
};

verus! {

/// The dotted-quad text of four octets, as ASCII bytes ("10.0.0.1").
pub open spec fn ipv4_text_bytes(o: Seq<u8>) -> Seq<u8> {
    decimal_bytes(o[0] as nat) + seq![46u8] + decimal_bytes(o[1] as nat) + seq![46u8]
        + decimal_bytes(o[2] as nat) + seq![46u8] + decimal_bytes(o[3] as nat)
}

/// The dotted-quad text of four octets.
pub open spec fn ipv4_text(o: Seq<u8>) -> Seq<char> {
    ascii_chars(ipv4_text_bytes(o))
}

/// Byte offset just past the `i`-th octet's numeral in `ipv4_text_bytes(o)`.
pub open spec fn octet_end(o: Seq<u8>, i: int) -> int
    decreases i,
{
    if i <= 0 {
        decimal_bytes(o[0] as nat).len() as int
    } else {
        octet_end(o, i - 1) + 1 + decimal_bytes(o[i] as nat).len()
    }
}

/// Byte offset where the `i`-th octet's numeral starts in `ipv4_text_bytes(o)`.
pub open spec fn octet_start(o: Seq<u8>, i: int) -> int {
    if i <= 0 {
        0
    } else {
        octet_end(o, i - 1) + 1
    }
}

/// An IPv4 address, held as its 32-bit big-endian value.
#[derive(Clone, Copy, PartialEq, Eq, Debug, Structural)]
pub struct Ipv4 {
    pub bits: u32,
}

/// The four octets of a 32-bit address value, most significant first.
pub open spec fn octets_of(bits: u32) -> Seq<u8> {
    seq![(bits >> 24u32) as u8, (bits >> 16u32) as u8, (bits >> 8u32) as u8, bits as u8]
}

/// The 32-bit value with the given four octets, most significant first.
pub open spec fn bits_of(a: u8, b: u8, c: u8, d: u8) -> u32 {
    ((a as u32) << 24u32) | ((b as u32) << 16u32) | ((c as u32) << 8u32) | (d as u32)
}

proof fn lemma_shifts(a: u32, b: u32, c: u32, d: u32, x: u32)
    by (bit_vector)
    requires
        a < 256,
        b < 256,
        c < 256,
        d < 256,
        x == (a << 24u32) | (b << 16u32) | (c << 8u32) | d,
    ensures
        (x >> 24u32) as u8 == a as u8,
        (x >> 16u32) as u8 == b as u8,
        (x >> 8u32) as u8 == c as u8,
        x as u8 == d as u8,
{
}

proof fn lemma_octets_bits(a: u8, b: u8, c: u8, d: u8)
    ensures
        (bits_of(a, b, c, d) >> 24u32) as u8 == a,
        (bits_of(a, b, c, d) >> 16u32) as u8 == b,
        (bits_of(a, b, c, d) >> 8u32) as u8 == c,
        bits_of(a, b, c, d) as u8 == d,
{
    lemma_shifts(a as u32, b as u32, c as u32, d as u32, bits_of(a, b, c, d));
}

proof fn lemma_octets_determine(x: u32, y: u32)
    by (bit_vector)
    requires
        (x >> 24u32) as u8 == (y >> 24u32) as u8,
        (x >> 16u32) as u8 == (y >> 16u32) as u8,
        (x >> 8u32) as u8 == (y >> 8u32) as u8,
        x as u8 == y as u8,
    ensures
        x == y,
{
}

/// An address value is determined by its four octets.
pub proof fn lemma_octets_injective(x: u32, y: u32)
    ensures
        octets_of(x) == octets_of(y) ==> x == y,
{
    if octets_of(x) == octets_of(y) {
        assert(octets_of(x)[0] == octets_of(y)[0]);
        assert(octets_of(x)[1] == octets_of(y)[1]);
        assert(octets_of(x)[2] == octets_of(y)[2]);
        assert(octets_of(x)[3] == octets_of(y)[3]);
        lemma_octets_determine(x, y);
    }
}

/// The text of an address is determined by, and determines, the address.
pub proof fn lemma_text_injective(o: Seq<u8>, p: Seq<u8>)
    requires
        o.len() == 4,
        p.len() == 4,
    ensures
        ipv4_text_bytes(o) == ipv4_text_bytes(p) ==> o == p,
        ipv4_text(o) == ipv4_text(p) ==> o == p,
        all_ascii(ipv4_text_bytes(o)),
{
    lemma_text_facts(o);
    lemma_text_facts(p);
    lemma_ascii_chars_injective(ipv4_text_bytes(o), ipv4_text_bytes(p));
    if ipv4_text_bytes(o) == ipv4_text_bytes(p) {
        let t = ipv4_text_bytes(o);
        lemma_octet_is_maximal_run(o, 0);
        lemma_octet_is_maximal_run(p, 0);
        lemma_same_run(t, 0, o[0] as nat, p[0] as nat);
        lemma_decimal_injective(o[0] as nat, p[0] as nat);
        lemma_octet_is_maximal_run(o, 1);
        lemma_octet_is_maximal_run(p, 1);
        lemma_same_run(t, octet_start(o, 1), o[1] as nat, p[1] as nat);
        lemma_decimal_injective(o[1] as nat, p[1] as nat);
        lemma_octet_is_maximal_run(o, 2);
        lemma_octet_is_maximal_run(p, 2);
        lemma_same_run(t, octet_start(o, 2), o[2] as nat, p[2] as nat);
        lemma_decimal_injective(o[2] as nat, p[2] as nat);
        lemma_octet_is_maximal_run(o, 3);
        lemma_octet_is_maximal_run(p, 3);
        lemma_same_run(t, octet_start(o, 3), o[3] as nat, p[3] as nat);
        lemma_decimal_injective(o[3] as nat, p[3] as nat);
        assert(o =~= p);
    }
}

/// In a byte string, a maximal run of digits starting at `start` that
/// spells `decimal_bytes(n)`.
pub open spec fn numeral_at(b: Seq<u8>, start: int, n: nat) -> bool {
    let d = decimal_bytes(n);
    &&& 0 <= start
    &&& start + d.len() <= b.len()
    &&& b.subrange(start, start + d.len()) == d
    &&& (start + d.len() == b.len() || b[start + d.len()] == 46u8)
}

proof fn lemma_same_run(b: Seq<u8>, start: int, n: nat, m: nat)
    requires
        numeral_at(b, start, n),
        numeral_at(b, start, m),
    ensures
        decimal_bytes(n) == decimal_bytes(m),
{
    lemma_decimal_bytes(n);
    lemma_decimal_bytes(m);
    let dn = decimal_bytes(n);
    let dm = decimal_bytes(m);
    if dn.len() < dm.len() {
        assert(b[start + dn.len()] == dm[dn.len() as int]);
        assert(false);
    } else if dm.len() < dn.len() {
        assert(b[start + dm.len()] == dn[dm.len() as int]);
        assert(false);
    } else {
        assert forall|i: int| 0 <= i < dn.len() implies dn[i] == dm[i] by {
            assert(dn[i] == b[start + i]);
            assert(dm[i] == b[start + i]);
        }
        assert(dn =~= dm);
    }
}

/// Layout of the text of an address: where each octet's numeral stands.
pub proof fn lemma_text_facts(o: Seq<u8>)
    requires
        o.len() == 4,
    ensures
        all_ascii(ipv4_text_bytes(o)),
        ipv4_text_bytes(o).len() == octet_end(o, 3),
        forall|i: int| 0 <= i < 4 ==> numeral_at(ipv4_text_bytes(o), octet_start(o, i), #[trigger] o[i] as nat),
        forall|i: int| 0 <= i < 3 ==> ipv4_text_bytes(o)[#[trigger] octet_end(o, i)] == 46u8,
        forall|i: int| 1 <= i < 4 ==> #[trigger] octet_start(o, i) == octet_end(o, i - 1) + 1,
        forall|i: int| 0 <= i < 4 ==> #[trigger] octet_end(o, i) == octet_start(o, i) + decimal_bytes(o[i] as nat).len(),
{
    let t = ipv4_text_bytes(o);
    let d0 = decimal_bytes(o[0] as nat);
    let d1 = decimal_bytes(o[1] as nat);
    let d2 = decimal_bytes(o[2] as nat);
    let d3 = decimal_bytes(o[3] as nat);
    lemma_decimal_bytes(o[0] as nat);
    lemma_decimal_bytes(o[1] as nat);
    lemma_decimal_bytes(o[2] as nat);
    lemma_decimal_bytes(o[3] as nat);
    let e0 = octet_end(o, 0);
    let e1 = octet_end(o, 1);
    let e2 = octet_end(o, 2);
    let e3 = octet_end(o, 3);
    assert(e0 == d0.len());
    assert(e1 == e0 + 1 + d1.len());
    assert(e2 == e1 + 1 + d2.len());
    assert(e3 == e2 + 1 + d3.len());
    assert(t.len() == e3);
    assert(t.subrange(0, e0) =~= d0);
    assert(t.subrange(e0 + 1, e1) =~= d1);
    assert(t.subrange(e1 + 1, e2) =~= d2);
    assert(t.subrange(e2 + 1, e3) =~= d3);
    assert(t[e0] == 46u8);
    assert(t[e1] == 46u8);
    assert(t[e2] == 46u8);
    assert(all_ascii(t)) by {
        assert forall|k: int| 0 <= k < t.len() implies #[trigger] t[k] < 128 by {
            if k < e0 {
                assert(t[k] == d0[k]);
            } else if k == e0 || k == e1 || k == e2 {
            } else if k < e1 {
                assert(t[k] == d1[k - e0 - 1]);
            } else if k < e2 {
                assert(t[k] == d2[k - e1 - 1]);
            } else {
                assert(t[k] == d3[k - e2 - 1]);
            }
        }
    }
    assert(numeral_at(t, octet_start(o, 0), o[0] as nat));
    assert(numeral_at(t, octet_start(o, 1), o[1] as nat));
    assert(numeral_at(t, octet_start(o, 2), o[2] as nat));
    assert(numeral_at(t, octet_start(o, 3), o[3] as nat));
}

proof fn lemma_octet_is_maximal_run(o: Seq<u8>, i: int)
    requires
        o.len() == 4,
        0 <= i < 4,
    ensures
        numeral_at(ipv4_text_bytes(o), octet_start(o, i), o[i] as nat),
{
    lemma_text_facts(o);
}

/// Reads a run of at most three decimal digits starting at `pos`.
fn read_octet(b: &[u8], pos: usize) -> (r: Option<(u8, usize)>)
    requires
        pos <= b.len(),
    ensures
        forall|n: nat|
            n < 256 && #[trigger] numeral_at(b@, pos as int, n) ==> r == Some(
                (n as u8, (pos + decimal_bytes(n).len()) as usize),
            ),
{
    let mut end = pos;
    let mut v: u32 = 0;
    assert(b@.subrange(pos as int, end as int) =~= Seq::<u8>::empty());
    while end < b.len() && end - pos < 3 && 48 <= b[end] && b[end] <= 57
        invariant
            pos <= end <= b.len(),
            end - pos <= 3,
            v == digits_value(b@.subrange(pos as int, end as int)),
            forall|k: int| pos <= k < end ==> is_digit_byte(#[trigger] b@[k]),
            end - pos == 0 ==> v == 0,
            end - pos <= 1 ==> v < 10,
            end - pos <= 2 ==> v < 100,
            v < 1000,
        decreases b.len() - end,
    {
        proof {
            let s = b@.subrange(pos as int, end as int + 1);
            assert(s.drop_last() =~= b@.subrange(pos as int, end as int));
            assert(s.last() == b@[end as int]);
        }
        v = v * 10 + (b[end] - 48) as u32;
        end = end + 1;
    }
    proof {
        assert forall|n: nat| n < 256 && #[trigger] numeral_at(b@, pos as int, n) implies end
            == pos + decimal_bytes(n).len() by {
            lemma_decimal_bytes(n);
            let d = decimal_bytes(n);
            let e = pos + d.len();
            if end < e {
                assert(b@[end as int] == d[end - pos]);
                assert(is_digit_byte(d[end - pos]));
            } else if end > e {
                assert(is_digit_byte(b@[e as int]));
            }
        }
    }
    if end == pos || v > 255 {
        proof {
            assert forall|n: nat| n < 256 && #[trigger] numeral_at(b@, pos as int, n) implies false by {
                lemma_decimal_bytes(n);
                assert(b@.subrange(pos as int, end as int) == decimal_bytes(n));
            }
        }
        None
    } else {
        proof {
            assert forall|n: nat| n < 256 && #[trigger] numeral_at(b@, pos as int, n) implies v == n by {
                lemma_decimal_bytes(n);
                assert(b@.subrange(pos as int, end as int) == decimal_bytes(n));
            }
        }
        Some((v as u8, end))
    }
}

/// The address whose canonical text is `s`, if any.
pub open spec fn ipv4_of_text(s: Seq<char>) -> Option<Ipv4> {
    if exists|ip: Ipv4| #[trigger] ip.text() == s {
        Some(choose|ip: Ipv4| #[trigger] ip.text() == s)
    } else {
        None
    }
}

/// The text of an address determines the address.
pub proof fn lemma_ipv4_text_determines_address(x: Ipv4, y: Ipv4)
    ensures
        x.text() == y.text() ==> x == y,
{
    lemma_text_injective(x.octets(), y.octets());
    lemma_octets_injective(x.bits, y.bits);
}

/// Reading back the text of an address gives the address.
pub proof fn lemma_ipv4_of_own_text(x: Ipv4)
    ensures
        ipv4_of_text(x.text()) == Some(x),
{
    let y = choose|ip: Ipv4| #[trigger] ip.text() == x.text();
    lemma_ipv4_text_determines_address(x, y);
}

/// An address read from a text has that text.
pub proof fn lemma_ipv4_text_of_parsed(s: Seq<char>)
    ensures
        ipv4_of_text(s) matches Some(ip) ==> ip.text() == s,
{
}

impl Ipv4 {
    /// The four octets, most significant first.
    pub open spec fn octets(self) -> Seq<u8> {
        octets_of(self.bits)
    }

    /// The dotted-quad text of the address.
    pub open spec fn text(self) -> Seq<char> {
        ipv4_text(self.octets())
    }

    /// The address `0.0.0.0`.
    pub fn unspecified() -> (r: Ipv4)
        ensures
            r.bits == 0,
    {
        Ipv4 { bits: 0 }
    }

    /// The address with the given octets.
    pub fn from_octets(a: u8, b: u8, c: u8, d: u8) -> (r: Ipv4)
        ensures
            r.octets() == seq![a, b, c, d],
            r.bits == bits_of(a, b, c, d),
    {
        proof {
            lemma_octets_bits(a, b, c, d);
        }
        let bits = ((a as u32) << 24u32) | ((b as u32) << 16u32) | ((c as u32) << 8u32) | (d as u32);
        let r = Ipv4 { bits };
        assert(r.octets() =~= seq![a, b, c, d]);
        r
    }

    /// The four octets, most significant first.
    pub fn octets_array(&self) -> (r: [u8; 4])
        ensures
            r@ == self.octets(),
    {
        let r = [
            (self.bits >> 24u32) as u8,
            (self.bits >> 16u32) as u8,
            (self.bits >> 8u32) as u8,
            self.bits as u8,
        ];
        assert(r@ =~= self.octets());
        r
    }

    /// Appends the dotted-quad text of the address to `out`, as ASCII bytes.
    pub fn push_text(&self, out: &mut Vec<u8>)
        ensures
            final(out)@ == old(out)@ + ipv4_text_bytes(self.octets()),
    {
        let o = self.octets_array();
        push_decimal(out, o[0] as u32);
        out.push(46u8);
        push_decimal(out, o[1] as u32);
        out.push(46u8);
        push_decimal(out, o[2] as u32);
        out.push(46u8);
        push_decimal(out, o[3] as u32);
        assert(final(out)@ =~= old(out)@ + ipv4_text_bytes(self.octets()));
    }

    /// The dotted-quad text of the address.
    pub fn to_string(&self) -> (s: String)
        ensures
            s@ == self.text(),
    {
        let mut v: Vec<u8> = Vec::new();
        self.push_text(&mut v);
        proof {
            assert(v@ =~= ipv4_text_bytes(self.octets()));
            lemma_text_facts(self.octets());
        }
        ascii_to_string(v)
    }

    /// Parses dotted-quad text given as bytes; only the canonical text of an
    /// address (four decimal octets without leading zeros) is accepted.
    pub fn parse_bytes(b: &[u8]) -> (r: Option<Ipv4>)
        ensures
            match r {
                Some(ip) => b@ == ipv4_text_bytes(ip.octets()),
                None => forall|ip: Ipv4| b@ != ipv4_text_bytes(#[trigger] ip.octets()),
            },
    {
        let ghost target: Option<Seq<u8>> = if exists|o: Seq<u8>|
            o.len() == 4 && b@ == #[trigger] ipv4_text_bytes(o) {
            Some(choose|o: Seq<u8>| o.len() == 4 && b@ == #[trigger] ipv4_text_bytes(o))
        } else {
            None
        };
        proof {
            if let Some(o) = target {
                lemma_text_facts(o);
            }
        }
        let r0 = read_octet(b, 0);
        let (a, p0) = match r0 {
            Some(x) => x,
            None => {
                proof { lemma_parse_none(b@, target); }
                return None;
            },
        };
        proof {
            if let Some(o) = target {
                assert(numeral_at(b@, octet_start(o, 0), o[0] as nat));
            }
        }
        if p0 >= b.len() || b[p0] != 46u8 {
            proof { lemma_parse_none(b@, target); }
            return None;
        }
        let r1 = read_octet(b, p0 + 1);
        let (bb, p1) = match r1 {
            Some(x) => x,
            None => {
                proof {
                    if let Some(o) = target {
                        assert(numeral_at(b@, octet_start(o, 1), o[1] as nat));
                    }
                    lemma_parse_none(b@, target);
                }
                return None;
            },
        };
        proof {
            if let Some(o) = target {
                assert(numeral_at(b@, octet_start(o, 1), o[1] as nat));
            }
        }
        if p1 >= b.len() || b[p1] != 46u8 {
            proof { lemma_parse_none(b@, target); }
            return None;
        }
        let r2 = read_octet(b, p1 + 1);
        let (c, p2) = match r2 {
            Some(x) => x,
            None => {
                proof {
                    if let Some(o) = target {
                        assert(numeral_at(b@, octet_start(o, 2), o[2] as nat));
                    }
                    lemma_parse_none(b@, target);
                }
                return None;
            },
        };
        proof {
            if let Some(o) = target {
                assert(numeral_at(b@, octet_start(o, 2), o[2] as nat));
            }
        }
        if p2 >= b.len() || b[p2] != 46u8 {
            proof { lemma_parse_none(b@, target); }
            return None;
        }
        let r3 = read_octet(b, p2 + 1);
        let (d, _p3) = match r3 {
            Some(x) => x,
            None => {
                proof {
                    if let Some(o) = target {
                        assert(numeral_at(b@, octet_start(o, 3), o[3] as nat));
                    }
                    lemma_parse_none(b@, target);
                }
                return None;
            },
        };
        proof {
            if let Some(o) = target {
                assert(numeral_at(b@, octet_start(o, 3), o[3] as nat));
                assert(o =~= seq![a, bb, c, d]);
            }
        }
        let ip = Ipv4::from_octets(a, bb, c, d);
        let mut rendered: Vec<u8> = Vec::new();
        ip.push_text(&mut rendered);
        assert(rendered@ =~= ipv4_text_bytes(ip.octets()));
        if bytes_eq(rendered.as_slice(), b) {
            Some(ip)
        } else {
            proof {
                assert(target is None);
                lemma_parse_none(b@, target);
            }
            None
        }
    }

    /// Parses the canonical dotted-quad text of an address.
    pub fn parse(s: &str) -> (r: Option<Ipv4>)
        ensures
            r == ipv4_of_text(s@),
    {
        let b = str_bytes(s);
        let r = Ipv4::parse_bytes(b.as_slice());
        proof {
            match r {
                Some(ip) => {
                    lemma_text_facts(ip.octets());
                    lemma_ascii_utf8(ipv4_text_bytes(ip.octets()));
                    encode_utf8_decode_utf8(s@);
                    lemma_ipv4_of_own_text(ip);
                },
                None => {
                    assert forall|ip: Ipv4| s@ != #[trigger] ip.text() by {
                        lemma_text_facts(ip.octets());
                        lemma_ascii_utf8(ipv4_text_bytes(ip.octets()));
                    }
                },
            }
        }
        r
    }

    /// True for `0.0.0.0`.
    pub fn is_unspecified(&self) -> (r: bool)
        ensures
            r == (self.bits == 0),
    {
        self.bits == 0
    }

    /// True for multicast addresses (224.0.0.0/4) and for the limited
    /// broadcast address 255.255.255.255.
    pub fn is_multicast_or_broadcast(&self) -> (r: bool)
        ensures
            r == (224 <= self.octets()[0] <= 239 || self.bits == 0xffff_ffffu32),
    {
        let first = (self.bits >> 24u32) as u8;
        (224 <= first && first <= 239) || self.bits == 0xffff_ffffu32
    }
}

/// The network address of `ip_str` under `netmask_str`: the bitwise AND of
/// the two addresses.
pub fn calculate_network_address(ip_str: &str, netmask_str: &str) -> (r: Result<Ipv4, String>)
    ensures
        r matches Ok(n) ==> ipv4_of_text(ip_str@) matches Some(ip) && ipv4_of_text(netmask_str@)
            matches Some(mask) && n.bits == ip.bits & mask.bits,
        r matches Err(e) ==> (ipv4_of_text(ip_str@) is None && e@
            == "Invalid IP address format"@) || (ipv4_of_text(ip_str@) is Some && ipv4_of_text(
            netmask_str@,
        ) is None && e@ == "Invalid netmask format"@),
        r is Ok <==> ipv4_of_text(ip_str@) is Some && ipv4_of_text(netmask_str@) is Some,
{
    let ip = match Ipv4::parse(ip_str) {
        Some(ip) => ip,
        None => return Err("Invalid IP address format".to_owned()),
    };
    let mask = match Ipv4::parse(netmask_str) {
        Some(m) => m,
        None => return Err("Invalid netmask format".to_owned()),
    };
    Ok(Ipv4 { bits: ip.bits & mask.bits })
}

proof fn lemma_parse_none(b: Seq<u8>, target: Option<Seq<u8>>)
    requires
        target is None <==> !exists|o: Seq<u8>| o.len() == 4 && b == #[trigger] ipv4_text_bytes(o),
        target is None,
    ensures
        forall|ip: Ipv4| b != ipv4_text_bytes(#[trigger] ip.octets()),
{
    assert forall|ip: Ipv4| b != ipv4_text_bytes(#[trigger] ip.octets()) by {
        if b == ipv4_text_bytes(ip.octets()) {
            assert(ip.octets().len() == 4);
        }
    }
}

} // verus!
