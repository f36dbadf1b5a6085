//! The server's DNS responder: it answers A queries for the names of the
//! overlay's clients.
use vstd::prelude::*;
use vstd::utf8::{decode_utf8, valid_utf8};

use crate::ipv4::{ipv4_of_text, Ipv4};
use crate::text::{concat_strs, utf8_to_string};
use crate::wire::copy_range;

verus! {

/// A big-endian 16-bit value from the first two bytes.
pub open spec fn be16_of(b: Seq<u8>) -> u16 {
    (b[0] as int * 256 + b[1] as int) as u16
}

/// The value of the first two bytes, big-endian.
pub fn u16_from_be(bytes: &[u8]) -> (r: u16)
    requires
        bytes@.len() >= 2,
    ensures
        r == be16_of(bytes@),
{
    (bytes[0] as u16) * 256 + (bytes[1] as u16)
}

/// The labels of the name that starts at `pos` of `p`, each valid UTF-8,
/// and the position after the name's terminating zero.
pub open spec fn read_labels(p: Seq<u8>, pos: int) -> Option<(Seq<Seq<u8>>, int)>
    decreases p.len() - pos,
{
    if pos < 0 || pos >= p.len() {
        None
    } else {
        let len = p[pos] as int;
        if len == 0 {
            Some((Seq::empty(), pos + 1))
        } else if pos + 1 + len > p.len() {
            None
        } else if !valid_utf8(p.subrange(pos + 1, pos + 1 + len)) {
            None
        } else {
            match read_labels(p, pos + 1 + len) {
                None => None,
                Some((ls, end)) => Some((seq![p.subrange(pos + 1, pos + 1 + len)] + ls, end)),
            }
        }
    }
}

/// The labels' texts joined by dots.
pub open spec fn dotted(ls: Seq<Seq<u8>>) -> Seq<char>
    decreases ls.len(),
{
    if ls.len() == 0 {
        Seq::empty()
    } else if ls.len() == 1 {
        decode_utf8(ls[0])
    } else {
        dotted(ls.drop_last()) + "."@ + decode_utf8(ls.last())
    }
}

proof fn lemma_read_labels_step(p: Seq<u8>, pos: int)
    requires
        0 <= pos < p.len(),
        p[pos] > 0,
        pos + 1 + p[pos] <= p.len(),
        valid_utf8(p.subrange(pos + 1, pos + 1 + p[pos])),
    ensures
        read_labels(p, pos) == match read_labels(p, pos + 1 + p[pos]) {
            None => None,
            Some((ls, end)) => Some((seq![p.subrange(pos + 1, pos + 1 + p[pos])] + ls, end)),
        },
{
}

proof fn lemma_dotted_push(ls: Seq<Seq<u8>>, l: Seq<u8>)
    ensures
        dotted(ls.push(l)) == if ls.len() == 0 {
            decode_utf8(l)
        } else {
            dotted(ls) + "."@ + decode_utf8(l)
        },
{
    assert(ls.push(l).drop_last() =~= ls);
}

/// Reads the name that starts at `pos` of a DNS packet: its labels joined
/// by dots, and the position after the name.
pub fn parse_qname(packet: &[u8], pos: usize) -> (r: Option<(String, usize)>)
    ensures
        match read_labels(packet@, pos as int) {
            None => r is None,
            Some((ls, end)) => r matches Some((name, e)) && name@ == dotted(ls) && e == end,
        },
{
    let ghost p = packet@;
    let mut name = String::new();
    let ghost mut done: Seq<Seq<u8>> = Seq::empty();
    let mut first = true;
    let mut cur = pos;
    loop
        invariant
            p == packet@,
            first == (done.len() == 0),
            name@ == dotted(done),
            read_labels(p, pos as int) == match read_labels(p, cur as int) {
                None => None,
                Some((ls, end)) => Some((done + ls, end)),
            },
        decreases p.len() - cur,
    {
        if cur >= packet.len() {
            return None;
        }
        let len = packet[cur] as usize;
        if len == 0 {
            proof {
                assert(done + Seq::<Seq<u8>>::empty() =~= done);
            }
            return Some((name, cur + 1));
        }
        let begin = cur + 1;
        if len > packet.len() - begin {
            return None;
        }
        let label = match utf8_to_string(copy_range(packet, begin, begin + len)) {
            Some(s) => s,
            None => return None,
        };
        proof {
            lemma_read_labels_step(p, cur as int);
            let l = p.subrange(begin as int, begin + len);
            lemma_dotted_push(done, l);
            match read_labels(p, begin + len) {
                None => {},
                Some((ls, end)) => {
                    assert(done + (seq![l] + ls) =~= done.push(l) + ls);
                },
            }
        }
        if first {
            name = label;
        } else {
            let with_dot = concat_strs(name.as_str(), ".");
            name = concat_strs(with_dot.as_str(), label.as_str());
        }
        proof {
            done = done.push(p.subrange(begin as int, begin + len));
        }
        first = false;
        cur = begin + len;
    }
}

proof fn lemma_read_labels_end(p: Seq<u8>, pos: int)
    ensures
        read_labels(p, pos) matches Some((_, end)) ==> pos < end <= p.len(),
    decreases p.len() - pos,
{
    if 0 <= pos < p.len() && p[pos] > 0 && pos + 1 + p[pos] <= p.len() {
        lemma_read_labels_end(p, pos + 1 + p[pos]);
    }
}

/// The query's type and class bytes follow its name; a query of type A and
/// class IN is answered.
pub open spec fn is_a_query(q: Seq<u8>, end: int) -> bool {
    be16_of(q.subrange(end, end + 2)) == 1 && be16_of(q.subrange(end + 2, end + 4)) == 1
}

/// The response to `q`, answered with `answer` when the query asks for it.
pub open spec fn response_bytes(q: Seq<u8>, end: int, answer: Option<Ipv4>) -> Seq<u8> {
    let answered = answer is Some;
    q.subrange(0, 2) + (if answered {
        seq![0x81u8, 0x80u8]
    } else {
        seq![0x81u8, 0x83u8]
    }) + q.subrange(4, 6) + (if answered {
        seq![0u8, 1u8]
    } else {
        seq![0u8, 0u8]
    }) + seq![0u8, 0u8, 0u8, 0u8] + q.subrange(12, end + 4) + match answer {
        Some(ip) => seq![0xC0u8, 0x0Cu8, 0u8, 1u8, 0u8, 1u8, 0u8, 0u8, 0u8, 0x3Cu8, 0u8, 4u8]
            + ip.octets(),
        None => Seq::empty(),
    }
}

/// What the responder sends for query `q` when the name's address is
/// `answer_ip`: `None` for a packet that is no query or an answer address
/// that is no IPv4 address; a response with the address for an A/IN query
/// of a known name; a response without answer (NXDOMAIN) otherwise.
pub open spec fn response_for(q: Seq<u8>, answer_ip: Option<Seq<char>>) -> Option<Seq<u8>> {
    if q.len() < 12 || be16_of(q.subrange(4, 6)) == 0 {
        None
    } else {
        match read_labels(q, 12) {
            None => None,
            Some((_, end)) => if end + 4 > q.len() {
                None
            } else if is_a_query(q, end) && answer_ip is Some {
                match ipv4_of_text(answer_ip->Some_0) {
                    None => None,
                    Some(ip) => Some(response_bytes(q, end, Some(ip))),
                }
            } else {
                Some(response_bytes(q, end, None))
            },
        }
    }
}

/// Every response answers the query it was built for: it carries the
/// query's ID and question count, has the response and recursion bits set,
/// and either holds exactly one answer, with the address of the name, under
/// response code 0, or no answer under NXDOMAIN (code 3), always the latter
/// when the name has no address. Its header is followed by the question.
pub proof fn lemma_response_answers_query(q: Seq<u8>, answer_ip: Option<Seq<char>>)
    ensures
        response_for(q, answer_ip) matches Some(v) ==> {
            &&& q.len() >= 12 && v.len() >= 16
            &&& v[0] == q[0] && v[1] == q[1]
            &&& v[2] == 0x81u8
            &&& v[4] == q[4] && v[5] == q[5]
            &&& v[6] == 0u8 && v[8] == 0u8 && v[9] == 0u8 && v[10] == 0u8 && v[11] == 0u8
            &&& (v[7] == 0u8 && v[3] == 0x83u8) || (v[7] == 1u8 && v[3] == 0x80u8)
            &&& answer_ip is None ==> v[7] == 0u8 && v[3] == 0x83u8
            &&& v[7] == 1u8 ==> (answer_ip matches Some(t) && ipv4_of_text(t) matches Some(ip)
                && v.subrange(v.len() - 4, v.len() as int) == ip.octets())
            &&& v[12] == q[12]
        },
{
    lemma_read_labels_end(q, 12);
    if let Some(v) = response_for(q, answer_ip) {
        let end = read_labels(q, 12)->Some_0.1;
        let ans: Option<Ipv4> = if is_a_query(q, end) && answer_ip is Some {
            ipv4_of_text(answer_ip->Some_0)
        } else {
            None
        };
        assert(v == response_bytes(q, end, ans));
        let answered = ans is Some;
        let a = q.subrange(0, 2);
        let b: Seq<u8> = if answered { seq![0x81u8, 0x80u8] } else { seq![0x81u8, 0x83u8] };
        let c = q.subrange(4, 6);
        let d: Seq<u8> = if answered { seq![0u8, 1u8] } else { seq![0u8, 0u8] };
        let e = seq![0u8, 0u8, 0u8, 0u8];
        let f = q.subrange(12, end + 4);
        let g: Seq<u8> = match ans {
            Some(ip) => seq![0xC0u8, 0x0Cu8, 0u8, 1u8, 0u8, 1u8, 0u8, 0u8, 0u8, 0x3Cu8, 0u8, 4u8] + ip.octets(),
            None => Seq::empty(),
        };
        let head = a + b + c + d + e;
        assert(head =~= seq![q[0], q[1], b[0], b[1], q[4], q[5], d[0], d[1], 0u8, 0u8, 0u8, 0u8]);
        assert(v =~= head + f + g);
        assert(f.len() >= 5);
        assert(v[12] == f[0]);
        if let Some(ip) = ans {
            assert(v.subrange(v.len() - 4, v.len() as int) =~= ip.octets());
        }
    }
}

/// Builds the response to a DNS query, `answer_ip` being the address the
/// queried name has, if any.
pub fn build_response(query: &[u8], answer_ip: Option<String>) -> (r: Option<Vec<u8>>)
    ensures
        match response_for(query@, match answer_ip {
            Some(s) => Some(s@),
            None => None,
        }) {
            None => r is None,
            Some(b) => r matches Some(v) && v@ == b,
        },
        r matches Some(v) ==> v@.len() >= 12 && v@.subrange(0, 2) == query@.subrange(0, 2),
{
    proof {
        lemma_response_answers_query(query@, match &answer_ip {
            Some(s) => Some(s@),
            None => None,
        });
    }
    if query.len() < 12 {
        return None;
    }
    let qdcount = u16_from_be(&[query[4], query[5]]);
    proof {
        assert(seq![query@[4], query@[5]] =~= query@.subrange(4, 6));
    }
    if qdcount == 0 {
        return None;
    }
    let (_qname, end) = match parse_qname(query, 12) {
        Some(x) => x,
        None => return None,
    };
    proof {
        lemma_read_labels_end(query@, 12);
    }
    if end > query.len() || query.len() - end < 4 {
        return None;
    }
    let qtype = u16_from_be(&[query[end], query[end + 1]]);
    let qclass = u16_from_be(&[query[end + 2], query[end + 3]]);
    proof {
        assert(seq![query@[end as int], query@[end + 1]] =~= query@.subrange(end as int, end + 2));
        assert(seq![query@[end + 2], query@[end + 3]] =~= query@.subrange(end + 2, end + 4));
    }
    let valid_query = qtype == 1 && qclass == 1;
    let answer: Option<Ipv4> = if valid_query {
        match &answer_ip {
            Some(text) => match Ipv4::parse(text.as_str()) {
                Some(ip) => Some(ip),
                None => return None,
            },
            None => None,
        }
    } else {
        None
    };
    let answered = answer.is_some();
    let mut resp: Vec<u8> = Vec::new();
    resp.push(query[0]);
    resp.push(query[1]);
    if answered {
        resp.push(0x81);
        resp.push(0x80);
    } else {
        resp.push(0x81);
        resp.push(0x83);
    }
    resp.push(query[4]);
    resp.push(query[5]);
    if answered {
        resp.push(0);
        resp.push(1);
    } else {
        resp.push(0);
        resp.push(0);
    }
    resp.push(0);
    resp.push(0);
    resp.push(0);
    resp.push(0);
    let question = copy_range(query, 12, end + 4);
    resp.extend_from_slice(question.as_slice());
    match answer {
        Some(ip) => {
            resp.extend_from_slice(&[0xC0, 0x0C, 0, 1, 0, 1, 0, 0, 0, 0x3C, 0, 4]);
            let o = ip.octets_array();
            resp.extend_from_slice(&o);
        },
        None => {},
    }
    proof {
        assert(resp@ =~= response_bytes(query@, end as int, answer));
    }
    Some(resp)
}

/// The DNS responder, with the records it answers from.
pub struct DnsServer<D> {
    pub db: D,
}

impl<D> DnsServer<D> {
    /// A responder answering from `db`.
    pub fn new(db: D) -> (r: DnsServer<D>)
        ensures
            r.db == db,
    {
        DnsServer { db }
    }
}

} // verus!
