//! The relay server's table of connected peers: for each connection, the
//! overlay address of its client, its handshake state, its public key and
//! when it was last heard of.
use vstd::prelude::*;

use crate::ipv4::{ipv4_of_text, Ipv4};
use crate::messages::PeerState;
use crate::peer_messages::{PeerInfo, PeerInfoView};

verus! {

/// A key under which the server files a connection.
pub trait PeerKey: Copy + Sized {
    /// True when the two keys are equal.
    fn same(&self, other: &Self) -> (r: bool)
        ensures
            r == (*self == *other),
    ;
}

/// A UDP socket address: the IP address (an IPv4 address in the low 32
/// bits), the port, and whether the address is IPv6.
#[derive(Clone, Copy, PartialEq, Eq, Debug, Structural)]
pub struct Endpoint {
    pub ip: u128,
    pub port: u16,
    pub v6: bool,
}

impl PeerKey for Endpoint {
    fn same(&self, other: &Self) -> (r: bool) {
        self.ip == other.ip && self.port == other.port && self.v6 == other.v6
    }
}

impl PeerKey for i32 {
    fn same(&self, other: &Self) -> (r: bool) {
        *self == *other
    }
}

/// One connection in the table.
pub struct PeerEntry<K> {
    pub key: K,
    /// The overlay address of the client (`0.0.0.0` before its handshake).
    pub sdn_addr: Ipv4,
    pub state: PeerState,
    pub client_public_key: Option<String>,
    /// When the client was last heard of, in milliseconds of the server's
    /// monotonic clock.
    pub last_heartbeat: u64,
}

/// The peer entry that announces a connection to the other clients.
pub open spec fn entry_info<K>(e: PeerEntry<K>) -> PeerInfoView {
    PeerInfoView {
        sdn_ip: e.sdn_addr.text(),
        public_key: match e.client_public_key {
            Some(k) => k@,
            None => Seq::empty(),
        },
    }
}

/// True for a connection whose handshake is done.
pub open spec fn is_done<K>(e: PeerEntry<K>) -> bool {
    e.state == PeerState::HandshakeDone
}

/// Index of the first entry with key `k`, or -1.
pub open spec fn key_index<K>(s: Seq<PeerEntry<K>>, k: K) -> int
    decreases s.len(),
{
    if s.len() == 0 {
        -1
    } else {
        let r = key_index(s.drop_last(), k);
        if r >= 0 {
            r
        } else if s.last().key == k {
            s.len() - 1
        } else {
            -1
        }
    }
}

/// The peer entries of the connections whose handshake is done, in table
/// order.
pub open spec fn done_infos<K>(s: Seq<PeerEntry<K>>) -> Seq<PeerInfoView> {
    s.filter_map(|e: PeerEntry<K>| if is_done(e) { Some(entry_info(e)) } else { None })
}

/// The keys of the connections whose handshake is done and whose address is
/// not `src`, in table order.
pub open spec fn done_keys_except<K>(s: Seq<PeerEntry<K>>, src: Ipv4) -> Seq<K> {
    s.filter_map(|e: PeerEntry<K>| if is_done(e) && e.sdn_addr != src { Some(e.key) } else { None })
}

/// The keys of the connections whose handshake is done, other than `k`, in
/// table order.
pub open spec fn done_keys_other_than<K>(s: Seq<PeerEntry<K>>, k: K) -> Seq<K> {
    s.filter_map(|e: PeerEntry<K>| if is_done(e) && e.key != k { Some(e.key) } else { None })
}

/// `s1` is the table `s` with the first entry of `key`, if any, recording
/// the address `ip`, the public key `pk` and the handshake state `state`.
pub open spec fn recorded<K>(
    s: Seq<PeerEntry<K>>,
    key: K,
    ip: Ipv4,
    pk: Seq<char>,
    state: PeerState,
    s1: Seq<PeerEntry<K>>,
) -> bool {
    let i = key_index(s, key);
    if i < 0 {
        s1 == s
    } else {
        &&& s1.len() == s.len()
        &&& forall|j: int| 0 <= j < s.len() && j != i ==> s1[j] == s[j]
        &&& s1[i].key == key
        &&& s1[i].sdn_addr == ip
        &&& s1[i].client_public_key matches Some(k) && k@ == pk
        &&& s1[i].state == state
        &&& s1[i].last_heartbeat == s[i].last_heartbeat
    }
}

/// The keys of the connections whose handshake is done, in table order.
pub open spec fn done_keys<K>(s: Seq<PeerEntry<K>>) -> Seq<K> {
    s.filter_map(|e: PeerEntry<K>| if is_done(e) { Some(e.key) } else { None })
}

/// The first connection whose handshake is done and whose address is `ip`.
pub open spec fn first_done_with<K>(s: Seq<PeerEntry<K>>, ip: Ipv4) -> Option<K>
    decreases s.len(),
{
    if s.len() == 0 {
        None
    } else {
        match first_done_with(s.drop_last(), ip) {
            Some(k) => Some(k),
            None => if is_done(s.last()) && s.last().sdn_addr == ip {
                Some(s.last().key)
            } else {
                None
            },
        }
    }
}

/// True for entries whose address text is not `t`.
pub open spec fn text_differs<K>(t: Seq<char>) -> spec_fn(PeerEntry<K>) -> bool {
    |e: PeerEntry<K>| e.sdn_addr.text() != t
}

/// True for entries whose key is not `k`.
pub open spec fn key_differs<K>(k: K) -> spec_fn(PeerEntry<K>) -> bool {
    |e: PeerEntry<K>| e.key != k
}

/// The entries whose address text is not `t`.
pub open spec fn without_text<K>(s: Seq<PeerEntry<K>>, t: Seq<char>) -> Seq<PeerEntry<K>> {
    s.filter(text_differs(t))
}

/// The entries whose key is not `k`.
pub open spec fn without_key<K>(s: Seq<PeerEntry<K>>, k: K) -> Seq<PeerEntry<K>> {
    s.filter(key_differs(k))
}

/// True when the entry's handshake is done and it was last heard of more
/// than `timeout` before `now`.
pub open spec fn is_expired<K>(e: PeerEntry<K>, now: u64, timeout: u64) -> bool {
    is_done(e) && now > e.last_heartbeat && now - e.last_heartbeat > timeout
}

/// True for expired entries.
pub open spec fn expired_at<K>(now: u64, timeout: u64) -> spec_fn(PeerEntry<K>) -> bool {
    |e: PeerEntry<K>| is_expired(e, now, timeout)
}

/// True for entries that are not expired.
pub open spec fn alive_at<K>(now: u64, timeout: u64) -> spec_fn(PeerEntry<K>) -> bool {
    |e: PeerEntry<K>| !is_expired(e, now, timeout)
}

pub(crate) proof fn lemma_filter_step<A>(s: Seq<A>, pred: spec_fn(A) -> bool, i: int)
    requires
        0 <= i < s.len(),
    ensures
        s.take(i + 1).filter(pred) == if pred(s[i]) {
            s.take(i).filter(pred).push(s[i])
        } else {
            s.take(i).filter(pred)
        },
{
    reveal(Seq::filter);
    assert(s.take(i + 1).drop_last() =~= s.take(i));
    assert(s.take(i + 1).last() == s[i]);
}

/// The connections of the relay server, in the order they were first heard
/// of.
pub struct Peers<K> {
    entries: Vec<PeerEntry<K>>,
}

impl<K> View for Peers<K> {
    type V = Seq<PeerEntry<K>>;

    closed spec fn view(&self) -> Seq<PeerEntry<K>> {
        self.entries@
    }
}

impl<K: PeerKey> Peers<K> {
    /// An empty table.
    pub fn new() -> (r: Self)
        ensures
            r@ == Seq::<PeerEntry<K>>::empty(),
    {
        Peers { entries: Vec::new() }
    }

    /// Number of connections.
    pub fn len(&self) -> (r: usize)
        ensures
            r == self@.len(),
    {
        self.entries.len()
    }

    fn find_index(&self, key: &K) -> (r: Option<usize>)
        ensures
            match r {
                Some(i) => key_index(self@, *key) == i && i < self@.len(),
                None => key_index(self@, *key) == -1,
            },
    {
        let mut i: usize = 0;
        while i < self.entries.len()
            invariant
                i <= self@.len(),
                key_index(self@.take(i as int), *key) == -1,
            decreases self@.len() - i,
        {
            proof {
                assert(self@.take(i + 1).drop_last() =~= self@.take(i as int));
            }
            if self.entries[i].key.same(key) {
                proof {
                    lemma_key_index_prefix(self@, *key, i as int + 1);
                }
                return Some(i);
            }
            i = i + 1;
        }
        assert(self@.take(i as int) =~= self@);
        None
    }

    /// The handshake state of the connection `key`, filing it as a new
    /// connection (pending, address `0.0.0.0`, heard of at `now`) when it is
    /// not in the table.
    pub fn state_or_insert(&mut self, key: K, now: u64) -> (r: PeerState)
        ensures
            key_index(old(self)@, key) >= 0 ==> r == old(self)@[key_index(old(self)@, key)].state
                && final(self)@ == old(self)@,
            key_index(old(self)@, key) < 0 ==> r == PeerState::HandshakePending && final(self)@
                == old(self)@.push(
                PeerEntry {
                    key,
                    sdn_addr: Ipv4 { bits: 0 },
                    state: PeerState::HandshakePending,
                    client_public_key: None,
                    last_heartbeat: now,
                },
            ),
    {
        match self.find_index(&key) {
            Some(i) => self.entries[i].state,
            None => {
                self.entries.push(
                    PeerEntry {
                        key,
                        sdn_addr: Ipv4 { bits: 0 },
                        state: PeerState::HandshakePending,
                        client_public_key: None,
                        last_heartbeat: now,
                    },
                );
                PeerState::HandshakePending
            },
        }
    }

    /// The peer entries of all connections whose handshake is done.
    pub fn get_peer_list(&self) -> (r: Vec<PeerInfo>)
        ensures
            crate::peer_messages::peer_views(r@) == done_infos(self@),
    {
        let mut out: Vec<PeerInfo> = Vec::new();
        let mut i: usize = 0;
        while i < self.entries.len()
            invariant
                i <= self@.len(),
                crate::peer_messages::peer_views(out@) == done_infos(self@.take(i as int)),
            decreases self@.len() - i,
        {
            proof {
                self@.lemma_filter_map_take_succ(
                    |e: PeerEntry<K>| if is_done(e) { Some(entry_info(e)) } else { None },
                    i as int,
                );
            }
            let e = &self.entries[i];
            if e.state == PeerState::HandshakeDone {
                let sdn = e.sdn_addr.to_string();
                let key = match &e.client_public_key {
                    Some(k) => k.clone(),
                    None => String::new(),
                };
                let info = PeerInfo::new(sdn.as_str(), key.as_str());
                let ghost before = out@;
                out.push(info);
                proof {
                    assert(crate::peer_messages::peer_views(out@) =~= crate::peer_messages::peer_views(before).push(info@));
                }
            }
            i = i + 1;
        }
        assert(self@.take(self@.len() as int) =~= self@);
        out
    }

    /// Files the outcome of a connection's handshake: first forgets every
    /// connection whose address text is `sdn_client_ip` (the same client
    /// connected again), then, if the connection `peer_id` is still filed,
    /// records its address, public key and state. An address text that is no
    /// IPv4 address is left out where it would be recorded.
    pub fn update(&mut self, peer_id: K, sdn_client_ip: &str, client_pub_key: &str, state: PeerState)
        requires
            ipv4_of_text(sdn_client_ip@) is None ==> key_index(
                without_text(old(self)@, sdn_client_ip@),
                peer_id,
            ) < 0,
        ensures
            ipv4_of_text(sdn_client_ip@) matches Some(ip) ==> recorded(
                without_text(old(self)@, sdn_client_ip@),
                peer_id,
                ip,
                client_pub_key@,
                state,
                final(self)@,
            ),
            ipv4_of_text(sdn_client_ip@) is None ==> final(self)@ == without_text(old(self)@, sdn_client_ip@),
    {
        let mut kept: Vec<PeerEntry<K>> = Vec::new();
        let ghost t = sdn_client_ip@;
        let mut old_entries: Vec<PeerEntry<K>> = Vec::new();
        std::mem::swap(&mut old_entries, &mut self.entries);
        let ghost src = old_entries@;
        assert(src == old(self)@);
        let mut i: usize = 0;
        let n = old_entries.len();
        let mut rest = old_entries;
        while i < n
            invariant
                n == src.len(),
                i <= n,
                rest@ == src.skip(i as int),
                kept@ == src.take(i as int).filter(text_differs::<K>(t)),
                t == sdn_client_ip@,
            decreases n - i,
        {
            let e = rest.remove(0);
            assert(e == src[i as int]);
            assert(rest@ =~= src.skip(i + 1));
            proof {
                lemma_filter_step(src, text_differs::<K>(t), i as int);
            }
            let text = e.sdn_addr.to_string();
            if !crate::text::bytes_eq(
                crate::text::str_bytes(text.as_str()).as_slice(),
                crate::text::str_bytes(sdn_client_ip).as_slice(),
            ) {
                proof {
                    vstd::utf8::encode_utf8_decode_utf8(text@);
                    vstd::utf8::encode_utf8_decode_utf8(t);
                }
                kept.push(e);
            } else {
                proof {
                    vstd::utf8::encode_utf8_decode_utf8(text@);
                    vstd::utf8::encode_utf8_decode_utf8(t);
                }
            }
            i = i + 1;
        }
        assert(src.take(n as int) =~= src);
        self.entries = kept;
        assert(self@ == without_text(old(self)@, sdn_client_ip@));
        proof {
            lemma_key_index_found(self@, peer_id);
        }
        match self.find_index(&peer_id) {
            Some(j) => {
                let ip = match Ipv4::parse(sdn_client_ip) {
                    Some(ip) => ip,
                    None => {
                        assert(false);
                        return;
                    },
                };
                let mut e = self.entries.remove(j);
                e.sdn_addr = ip;
                e.client_public_key = Some(client_pub_key.to_owned());
                e.state = state;
                self.entries.insert(j, e);
            },
            None => {},
        }
    }

    /// The first connection whose handshake is done and whose address is
    /// `sdn_ip`.
    pub fn find_by_sdn_ip(&self, sdn_ip: &Ipv4) -> (r: Option<K>)
        ensures
            r == first_done_with(self@, *sdn_ip),
    {
        let mut i: usize = 0;
        while i < self.entries.len()
            invariant
                i <= self@.len(),
                first_done_with(self@.take(i as int), *sdn_ip) is None,
            decreases self@.len() - i,
        {
            proof {
                assert(self@.take(i + 1).drop_last() =~= self@.take(i as int));
            }
            let e = &self.entries[i];
            if e.state == PeerState::HandshakeDone && e.sdn_addr == *sdn_ip {
                proof {
                    lemma_first_done_prefix(self@, *sdn_ip, i as int + 1);
                }
                return Some(e.key);
            }
            i = i + 1;
        }
        assert(self@.take(i as int) =~= self@);
        None
    }

    /// The keys of all connections whose handshake is done, but for those
    /// whose address is `src_sdn_ip`.
    pub fn find_all_addrs_except(&self, src_sdn_ip: &Ipv4) -> (r: Vec<K>)
        ensures
            r@ == done_keys_except(self@, *src_sdn_ip),
    {
        let mut out: Vec<K> = Vec::new();
        let mut i: usize = 0;
        while i < self.entries.len()
            invariant
                i <= self@.len(),
                out@ == done_keys_except(self@.take(i as int), *src_sdn_ip),
            decreases self@.len() - i,
        {
            proof {
                self@.lemma_filter_map_take_succ(
                    |e: PeerEntry<K>|
                        if is_done(e) && e.sdn_addr != *src_sdn_ip {
                            Some(e.key)
                        } else {
                            None
                        },
                    i as int,
                );
            }
            let e = &self.entries[i];
            if e.state == PeerState::HandshakeDone && e.sdn_addr != *src_sdn_ip {
                out.push(e.key);
            }
            i = i + 1;
        }
        assert(self@.take(self@.len() as int) =~= self@);
        out
    }

    /// The keys of all connections whose handshake is done.
    pub fn get_all_tx(&self) -> (r: Vec<K>)
        ensures
            r@ == done_keys(self@),
    {
        let mut out: Vec<K> = Vec::new();
        let mut i: usize = 0;
        while i < self.entries.len()
            invariant
                i <= self@.len(),
                out@ == done_keys(self@.take(i as int)),
            decreases self@.len() - i,
        {
            proof {
                self@.lemma_filter_map_take_succ(
                    |e: PeerEntry<K>| if is_done(e) { Some(e.key) } else { None },
                    i as int,
                );
            }
            let e = &self.entries[i];
            if e.state == PeerState::HandshakeDone {
                out.push(e.key);
            }
            i = i + 1;
        }
        assert(self@.take(self@.len() as int) =~= self@);
        out
    }

    /// The keys of all connections whose handshake is done, but for `key`.
    pub fn done_keys_other_than(&self, key: &K) -> (r: Vec<K>)
        ensures
            r@ == done_keys_other_than(self@, *key),
    {
        let mut out: Vec<K> = Vec::new();
        let mut i: usize = 0;
        while i < self.entries.len()
            invariant
                i <= self@.len(),
                out@ == done_keys_other_than(self@.take(i as int), *key),
            decreases self@.len() - i,
        {
            proof {
                self@.lemma_filter_map_take_succ(
                    |e: PeerEntry<K>| if is_done(e) && e.key != *key { Some(e.key) } else { None },
                    i as int,
                );
            }
            let e = &self.entries[i];
            if e.state == PeerState::HandshakeDone && !e.key.same(key) {
                out.push(e.key);
            }
            i = i + 1;
        }
        assert(self@.take(self@.len() as int) =~= self@);
        out
    }

    /// Records that the connection `key` completed its handshake, with the
    /// overlay address `ip` and the public key `pk`.
    pub fn set_done(&mut self, key: &K, ip: Ipv4, pk: &str)
        ensures
            recorded(old(self)@, *key, ip, pk@, PeerState::HandshakeDone, final(self)@),
    {
        proof {
            lemma_key_index_found(self@, *key);
        }
        match self.find_index(key) {
            Some(i) => {
                let mut e = self.entries.remove(i);
                e.sdn_addr = ip;
                e.client_public_key = Some(pk.to_owned());
                e.state = PeerState::HandshakeDone;
                self.entries.insert(i, e);
            },
            None => {},
        }
    }

    /// The key and address of every connection.
    pub fn to_vec(&self) -> (r: Vec<(K, Ipv4)>)
        ensures
            r@.len() == self@.len(),
            forall|j: int| 0 <= j < r@.len() ==> #[trigger] r@[j] == (self@[j].key, self@[j].sdn_addr),
    {
        let mut out: Vec<(K, Ipv4)> = Vec::new();
        let mut i: usize = 0;
        while i < self.entries.len()
            invariant
                i <= self@.len(),
                out@.len() == i,
                forall|j: int| 0 <= j < i ==> #[trigger] out@[j] == (self@[j].key, self@[j].sdn_addr),
            decreases self@.len() - i,
        {
            out.push((self.entries[i].key, self.entries[i].sdn_addr));
            i = i + 1;
        }
        out
    }

    /// The peer entry announcing the connection `key`, when it is filed and
    /// its handshake is done.
    pub fn done_peer_info(&self, key: &K) -> (r: Option<PeerInfo>)
        ensures
            match r {
                Some(info) => key_index(self@, *key) >= 0 && is_done(self@[key_index(self@, *key)])
                    && info@ == entry_info(self@[key_index(self@, *key)]),
                None => key_index(self@, *key) < 0 || !is_done(self@[key_index(self@, *key)]),
            },
    {
        match self.find_index(key) {
            Some(i) => {
                let e = &self.entries[i];
                if e.state == PeerState::HandshakeDone {
                    let sdn = e.sdn_addr.to_string();
                    let pk = match &e.client_public_key {
                        Some(k) => k.clone(),
                        None => String::new(),
                    };
                    Some(PeerInfo::new(sdn.as_str(), pk.as_str()))
                } else {
                    None
                }
            },
            None => None,
        }
    }

    /// Records that the connection `key` was heard of at `now`.
    pub fn touch(&mut self, key: &K, now: u64)
        ensures
            key_index(old(self)@, *key) < 0 ==> final(self)@ == old(self)@,
            key_index(old(self)@, *key) >= 0 ==> final(self)@ == old(self)@.update(
                key_index(old(self)@, *key),
                PeerEntry { last_heartbeat: now, ..old(self)@[key_index(old(self)@, *key)] },
            ),
    {
        match self.find_index(key) {
            Some(i) => {
                let mut e = self.entries.remove(i);
                e.last_heartbeat = now;
                self.entries.insert(i, e);
                assert(self@ =~= old(self)@.update(
                    key_index(old(self)@, *key),
                    PeerEntry { last_heartbeat: now, ..old(self)@[key_index(old(self)@, *key)] },
                ));
            },
            None => {},
        }
    }

    /// Forgets every connection filed under `key`.
    pub fn remove(&mut self, key: &K)
        ensures
            final(self)@ == without_key(old(self)@, *key),
    {
        let ghost k = *key;
        let mut old_entries: Vec<PeerEntry<K>> = Vec::new();
        std::mem::swap(&mut old_entries, &mut self.entries);
        let ghost src = old_entries@;
        let n = old_entries.len();
        let mut rest = old_entries;
        let mut kept: Vec<PeerEntry<K>> = Vec::new();
        let mut i: usize = 0;
        while i < n
            invariant
                n == src.len(),
                i <= n,
                rest@ == src.skip(i as int),
                kept@ == src.take(i as int).filter(key_differs::<K>(k)),
                k == *key,
            decreases n - i,
        {
            let e = rest.remove(0);
            assert(e == src[i as int]);
            assert(rest@ =~= src.skip(i + 1));
            proof {
                lemma_filter_step(src, key_differs::<K>(k), i as int);
                assert(key_differs::<K>(k)(src[i as int]) == (src[i as int].key != k));
            }
            let ghost before = kept@;
            if !e.key.same(key) {
                kept.push(e);
                assert(kept@ == before.push(src[i as int]));
            } else {
                assert(kept@ == before);
            }
            i = i + 1;
        }
        assert(src.take(n as int) =~= src);
        self.entries = kept;
    }

    /// Forgets the connections whose handshake is done and that were last
    /// heard of more than `timeout` milliseconds before `now`; gives them
    /// back, in table order.
    pub fn remove_expired(&mut self, now: u64, timeout: u64) -> (r: Vec<PeerEntry<K>>)
        ensures
            final(self)@ == old(self)@.filter(alive_at::<K>(now, timeout)),
            r@ == old(self)@.filter(expired_at::<K>(now, timeout)),
    {
        let mut old_entries: Vec<PeerEntry<K>> = Vec::new();
        std::mem::swap(&mut old_entries, &mut self.entries);
        let ghost src = old_entries@;
        let n = old_entries.len();
        let mut rest = old_entries;
        let mut kept: Vec<PeerEntry<K>> = Vec::new();
        let mut expired: Vec<PeerEntry<K>> = Vec::new();
        let mut i: usize = 0;
        while i < n
            invariant
                n == src.len(),
                i <= n,
                rest@ == src.skip(i as int),
                kept@ == src.take(i as int).filter(alive_at::<K>(now, timeout)),
                expired@ == src.take(i as int).filter(expired_at::<K>(now, timeout)),
            decreases n - i,
        {
            let e = rest.remove(0);
            assert(e == src[i as int]);
            assert(rest@ =~= src.skip(i + 1));
            proof {
                lemma_filter_step(src, alive_at::<K>(now, timeout), i as int);
                lemma_filter_step(src, expired_at::<K>(now, timeout), i as int);
            }
            if e.state == PeerState::HandshakeDone && now > e.last_heartbeat && now - e.last_heartbeat
                > timeout {
                expired.push(e);
            } else {
                kept.push(e);
            }
            i = i + 1;
        }
        assert(src.take(n as int) =~= src);
        self.entries = kept;
        expired
    }
}

/// The first index of a key is within the table, and holds the key.
pub proof fn lemma_key_index_in_range<K>(s: Seq<PeerEntry<K>>, k: K)
    ensures
        key_index(s, k) >= 0 ==> key_index(s, k) < s.len() && s[key_index(s, k)].key == k,
{
    lemma_key_index_found(s, k);
}

/// No entry kept by `without_text` has the address text `t`.
pub proof fn lemma_without_text_member<K>(s: Seq<PeerEntry<K>>, t: Seq<char>, j: int)
    requires
        0 <= j < without_text(s, t).len(),
    ensures
        without_text(s, t)[j].sdn_addr.text() != t,
{
    s.lemma_filter_pred(text_differs(t), j);
}

proof fn lemma_key_index_found<K>(s: Seq<PeerEntry<K>>, k: K)
    ensures
        key_index(s, k) >= 0 ==> key_index(s, k) < s.len() && s[key_index(s, k)].key == k,
        key_index(s, k) >= -1,
    decreases s.len(),
{
    if s.len() > 0 {
        lemma_key_index_found(s.drop_last(), k);
    }
}

proof fn lemma_key_index_prefix<K>(s: Seq<PeerEntry<K>>, k: K, m: int)
    requires
        0 < m <= s.len(),
        key_index(s.take(m), k) == m - 1,
    ensures
        key_index(s, k) == m - 1,
    decreases s.len() - m,
{
    if m < s.len() {
        assert(s.drop_last().take(m) =~= s.take(m));
        lemma_key_index_prefix(s.drop_last(), k, m);
    } else {
        assert(s.take(m) =~= s);
    }
}

proof fn lemma_first_done_prefix<K>(s: Seq<PeerEntry<K>>, ip: Ipv4, m: int)
    requires
        0 < m <= s.len(),
        first_done_with(s.take(m), ip) is Some,
    ensures
        first_done_with(s, ip) == first_done_with(s.take(m), ip),
    decreases s.len() - m,
{
    if m < s.len() {
        assert(s.drop_last().take(m) =~= s.take(m));
        lemma_first_done_prefix(s.drop_last(), ip, m);
    } else {
        assert(s.take(m) =~= s);
    }
}

/// True when entry `j` of `s` is a connection whose handshake is done and
/// whose address is `ip`.
pub open spec fn done_at<K>(s: Seq<PeerEntry<K>>, j: int, ip: Ipv4) -> bool {
    is_done(s[j]) && s[j].sdn_addr == ip
}

/// What is meant for the address `ip` goes to the first connection, in
/// table order, whose handshake is done and whose address is `ip`; to none
/// when there is no such connection.
pub proof fn lemma_first_done_with<K>(s: Seq<PeerEntry<K>>, ip: Ipv4)
    ensures
        first_done_with(s, ip) matches Some(k) ==> exists|j: int|
            0 <= j < s.len() && #[trigger] done_at(s, j, ip) && s[j].key == k && forall|i: int|
                0 <= i < j ==> !#[trigger] done_at(s, i, ip),
        first_done_with(s, ip) is None ==> forall|j: int| 0 <= j < s.len() ==> !#[trigger] done_at(s, j, ip),
    decreases s.len(),
{
    if s.len() > 0 {
        let s1 = s.drop_last();
        lemma_first_done_with(s1, ip);
        assert forall|j: int| 0 <= j < s1.len() implies done_at(s1, j, ip) == done_at(s, j, ip) by {
            assert(s1[j] == s[j]);
        }
        if let Some(k) = first_done_with(s1, ip) {
            let j = choose|j: int|
                0 <= j < s1.len() && #[trigger] done_at(s1, j, ip) && s1[j].key == k && forall|i: int|
                    0 <= i < j ==> !#[trigger] done_at(s1, i, ip);
            assert(done_at(s, j, ip) && s[j].key == k);
            assert forall|i: int| 0 <= i < j implies !#[trigger] done_at(s, i, ip) by {
                assert(!done_at(s1, i, ip));
            }
        } else if first_done_with(s, ip) is Some {
            let n = s.len() - 1;
            assert(done_at(s, n, ip));
            assert forall|i: int| 0 <= i < n implies !#[trigger] done_at(s, i, ip) by {
                assert(!done_at(s1, i, ip));
            }
        } else {
            assert forall|j: int| 0 <= j < s.len() implies !#[trigger] done_at(s, j, ip) by {
                if j < s.len() - 1 {
                    assert(!done_at(s1, j, ip));
                }
            }
        }
    }
}

/// A group packet from `src` goes to exactly the connections whose
/// handshake is done and whose address is not `src`.
pub proof fn lemma_done_keys_except<K>(s: Seq<PeerEntry<K>>, src: Ipv4, k: K)
    ensures
        done_keys_except(s, src).contains(k) <==> exists|j: int|
            0 <= j < s.len() && #[trigger] s[j].key == k && is_done(s[j]) && s[j].sdn_addr != src,
    decreases s.len(),
{
    if s.len() > 0 {
        let s1 = s.drop_last();
        let n = s.len() - 1;
        lemma_done_keys_except(s1, src, k);
        let f = |e: PeerEntry<K>| if is_done(e) && e.sdn_addr != src { Some(e.key) } else { None };
        assert(done_keys_except(s, src) == s.filter_map(f));
        assert(done_keys_except(s1, src) == s1.filter_map(f));
        let rest = s1.filter_map(f);
        if is_done(s[n]) && s[n].sdn_addr != src {
            assert(s.filter_map(f) == rest + seq![s[n].key]);
            if s[n].key == k {
                assert((rest + seq![s[n].key])[rest.len() as int] == k);
            } else {
                if (rest + seq![s[n].key]).contains(k) {
                    let i = choose|i: int| 0 <= i < rest.len() + 1 && (rest + seq![s[n].key])[i] == k;
                    assert(rest[i] == k);
                }
                if rest.contains(k) {
                    let i = choose|i: int| 0 <= i < rest.len() && rest[i] == k;
                    assert((rest + seq![s[n].key])[i] == k);
                }
            }
        } else {
            assert(s.filter_map(f) == rest);
        }
        if exists|j: int| 0 <= j < s.len() && #[trigger] s[j].key == k && is_done(s[j]) && s[j].sdn_addr != src {
            let j = choose|j: int| 0 <= j < s.len() && #[trigger] s[j].key == k && is_done(s[j]) && s[j].sdn_addr != src;
            if j < n {
                assert(s1[j] == s[j]);
            }
        }
        if exists|j: int| 0 <= j < s1.len() && #[trigger] s1[j].key == k && is_done(s1[j]) && s1[j].sdn_addr != src {
            let j = choose|j: int| 0 <= j < s1.len() && #[trigger] s1[j].key == k && is_done(s1[j]) && s1[j].sdn_addr != src;
            assert(s[j] == s1[j]);
        }
    }
}

} // verus!
