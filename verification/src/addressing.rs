//! Subnet arithmetic of the overlay network: CIDR notation of the SDN subnet
//! and allocation of free host addresses to new clients.
use vstd::prelude::*;

use crate::ipv4::{ipv4_of_text, Ipv4};
use crate::text::{concat_strs, decimal_string, decimal_text};

verus! {

/// Number of set bits among the lowest `k` bits of `m`.
pub open spec fn ones_below(m: u32, k: nat) -> nat
    decreases k,
{
    if k == 0 {
        0
    } else {
        ones_below(m, (k - 1) as nat) + if (m >> ((k - 1) as u32)) & 1u32 == 1u32 {
            1nat
        } else {
            0nat
        }
    }
}

/// Number of set bits of `m` (its population count).
pub open spec fn popcount(m: u32) -> nat {
    ones_below(m, 32)
}

proof fn lemma_ones_below_bound(m: u32, k: nat)
    ensures
        ones_below(m, k) <= k,
    decreases k,
{
    if k > 0 {
        lemma_ones_below_bound(m, (k - 1) as nat);
    }
}

/// Counts the set bits of `m`.
pub fn count_ones(m: u32) -> (r: u32)
    ensures
        r == popcount(m),
        r <= 32,
{
    let mut i: u32 = 0;
    let mut n: u32 = 0;
    while i < 32
        invariant
            i <= 32,
            n == ones_below(m, i as nat),
            n <= i,
        decreases 32 - i,
    {
        if (m >> i) & 1u32 == 1u32 {
            n = n + 1;
        }
        i = i + 1;
    }
    n
}

/// CIDR text of the SDN subnet: the network text as given, a slash and the
/// number of set bits of the netmask.
pub open spec fn cidr_text(network: Seq<char>, mask: Ipv4) -> Seq<char> {
    network + "/"@ + decimal_text(popcount(mask.bits))
}

/// CIDR string for the SDN subnet built from a network address and a
/// dotted-quad netmask. The network text is taken as it is; a netmask that
/// is no IPv4 address is refused.
pub fn sdn_cidr(network: &str, netmask: &str) -> (r: Result<String, String>)
    ensures
        r is Ok <==> ipv4_of_text(netmask@) is Some,
        r matches Ok(s) ==> s@ == cidr_text(network@, ipv4_of_text(netmask@)->Some_0),
        r matches Err(e) ==> e@ == "invalid netmask: "@ + netmask@,
{
    let mask = match Ipv4::parse(netmask) {
        Some(m) => m,
        None => return Err(concat_strs("invalid netmask: ", netmask)),
    };
    let bits = count_ones(mask.bits);
    let with_slash = concat_strs(network, "/");
    let count = decimal_string(bits);
    Ok(concat_strs(with_slash.as_str(), count.as_str()))
}

/// Broadcast address of the subnet of `net` under `mask`.
pub open spec fn broadcast_bits(net: u32, mask: u32) -> u32 {
    net | !mask
}

/// First host address of the subnet: one above the network address (the
/// network address itself where that would overflow).
pub open spec fn first_host(net: u32) -> u32 {
    if net == 0xffff_ffffu32 {
        net
    } else {
        (net + 1) as u32
    }
}

/// Last host address of the subnet: one below the broadcast address (the
/// broadcast address itself where that would underflow).
pub open spec fn last_host(net: u32, mask: u32) -> u32 {
    let b = broadcast_bits(net, mask);
    if b == 0 {
        b
    } else {
        (b - 1) as u32
    }
}

/// True when one of the texts in `used` is the address with value `x`;
/// texts that are no address are ignored.
pub open spec fn is_used(used: Seq<Seq<char>>, x: u32) -> bool {
    exists|i: int| 0 <= i < used.len() && #[trigger] ipv4_of_text(used[i]) == Some(Ipv4 { bits: x })
}

/// The texts of a list of strings.
pub open spec fn texts(used: Seq<String>) -> Seq<Seq<char>> {
    used.map_values(|s: String| s@)
}

/// Why no address could be allocated.
pub enum AllocError {
    /// The network text is no IPv4 address.
    InvalidNetwork,
    /// The netmask text is no IPv4 address.
    InvalidNetmask,
    /// The subnet has no host address.
    NoUsableHosts,
    /// Every host address of the subnet is taken.
    Exhausted,
}

/// An allocation hands out the lowest free host address of the subnet: an
/// address strictly between the network address and the broadcast address
/// that no used text names, every lower host address being used; it reports
/// the subnet exhausted only when every host address is used.
pub proof fn lemma_allocation_lowest_free_host(network: Seq<char>, netmask: Seq<char>, used: Seq<Seq<char>>)
    ensures
        allocation(network, netmask, used) matches Ok(c) ==> (ipv4_of_text(network) matches Some(net)
            && ipv4_of_text(netmask) matches Some(mask) && net.bits < c && c < (net.bits | !mask.bits)
            && !is_used(used, c) && forall|d: u32| net.bits < d < c ==> #[trigger] is_used(used, d)),
        allocation(network, netmask, used) matches Err(AllocError::Exhausted) ==> (ipv4_of_text(network) matches Some(net)
            && ipv4_of_text(netmask) matches Some(mask) && forall|d: u32|
            net.bits < d < (net.bits | !mask.bits) ==> #[trigger] is_used(used, d)),
{
    if let (Some(net), Some(mask)) = (ipv4_of_text(network), ipv4_of_text(netmask)) {
        let n = net.bits;
        let m = mask.bits;
        lemma_host_range(n, m);
        let first = first_host(n);
        let last = last_host(n, m);
        if first <= last {
            if exists|c: u32| first <= c <= last && !is_used(used, c) {
                let c0 = choose|c: u32| first <= c <= last && !is_used(used, c);
                lemma_lowest_free(used, first, last, c0);
                let c = choose|c: u32|
                    first <= c <= last && !is_used(used, c) && forall|d: u32| first <= d < c ==> is_used(used, d);
                assert forall|d: u32| n < d < c implies #[trigger] is_used(used, d) by {
                    assert(first <= d < c);
                }
            } else {
                assert forall|d: u32| n < d < (n | !m) implies #[trigger] is_used(used, d) by {
                    assert(!(first <= d <= last && !is_used(used, d)));
                }
            }
        }
    }
}

/// Where some address of a range is free, a lowest free one exists.
proof fn lemma_lowest_free(used: Seq<Seq<char>>, first: u32, last: u32, c0: u32)
    requires
        first <= c0 <= last,
        !is_used(used, c0),
    ensures
        exists|c: u32| first <= c <= last && !is_used(used, c) && forall|d: u32| first <= d < c ==> is_used(used, d),
    decreases c0 - first,
{
    if exists|d: u32| first <= d < c0 && !is_used(used, d) {
        let d = choose|d: u32| first <= d < c0 && !is_used(used, d);
        lemma_lowest_free(used, first, last, d);
    } else {
        assert(forall|d: u32| first <= d < c0 ==> is_used(used, d));
    }
}

/// The host range of a subnet, when it has one, lies strictly between the
/// network address and the broadcast address.
proof fn lemma_host_range(n: u32, m: u32)
    ensures
        (n | !m) >= n,
        first_host(n) <= last_host(n, m) ==> first_host(n) == n + 1 && last_host(n, m) == (n | !m) - 1,
{
    assert((n | !m) >= n) by (bit_vector);
}

/// The outcome of an allocation over the texts of the used addresses.
pub open spec fn allocation(network: Seq<char>, netmask: Seq<char>, used: Seq<Seq<char>>) -> Result<u32, AllocError> {
    match ipv4_of_text(network) {
        None => Err(AllocError::InvalidNetwork),
        Some(net) => match ipv4_of_text(netmask) {
            None => Err(AllocError::InvalidNetmask),
            Some(mask) => {
                let first = first_host(net.bits);
                let last = last_host(net.bits, mask.bits);
                if first > last {
                    Err(AllocError::NoUsableHosts)
                } else if exists|c: u32| first <= c <= last && !is_used(used, c) {
                    Ok(
                        choose|c: u32|
                            first <= c <= last && !is_used(used, c) && forall|d: u32|
                                first <= d < c ==> is_used(used, d),
                    )
                } else {
                    Err(AllocError::Exhausted)
                }
            },
        },
    }
}

/// The message of an allocation error, as the server reports it.
pub open spec fn alloc_error_text(e: AllocError, network: Seq<char>, netmask: Seq<char>) -> Seq<char> {
    match e {
        AllocError::InvalidNetwork => "Invalid network address: "@ + network,
        AllocError::InvalidNetmask => "Invalid netmask: "@ + netmask,
        AllocError::NoUsableHosts => "No usable host addresses in "@ + network + "/"@ + netmask,
        AllocError::Exhausted => "No free sdn_client_ip available in "@ + network + "/"@ + netmask,
    }
}

/// Parses every text that is an IPv4 address and keeps its value.
fn used_values(used: &[String]) -> (r: Vec<u32>)
    ensures
        forall|x: u32| is_used(texts(used@), x) <==> r@.contains(x),
{
    let ghost t = texts(used@);
    let mut r: Vec<u32> = Vec::new();
    let mut i: usize = 0;
    while i < used.len()
        invariant
            i <= used.len(),
            t == texts(used@),
            forall|x: u32|
                (exists|k: int| 0 <= k < i && #[trigger] ipv4_of_text(t[k]) == Some(Ipv4 { bits: x }))
                    <==> r@.contains(x),
        decreases used.len() - i,
    {
        match Ipv4::parse(used[i].as_str()) {
            Some(ip) => {
                let ghost prev = r@;
                r.push(ip.bits);
                proof {
                    assert forall|x: u32|
                        (exists|k: int|
                            0 <= k < i + 1 && #[trigger] ipv4_of_text(t[k]) == Some(Ipv4 { bits: x }))
                            <==> r@.contains(x) by {
                        assert(r@ == prev.push(ip.bits));
                        if r@.contains(x) && x != ip.bits {
                            let j = choose|j: int| 0 <= j < r@.len() && r@[j] == x;
                            assert(prev[j] == x);
                            assert(prev.contains(x));
                        }
                        if prev.contains(x) {
                            let j = choose|j: int| 0 <= j < prev.len() && prev[j] == x;
                            assert(r@[j] == x);
                        }
                        if x == ip.bits {
                            assert(ipv4_of_text(t[i as int]) == Some(Ipv4 { bits: x }));
                            assert(r@[r@.len() - 1] == x);
                        }
                    }
                }
            },
            None => {
                proof {
                    assert(ipv4_of_text(t[i as int]) is None);
                }
            },
        }
        i = i + 1;
    }
    r
}

/// True when `x` occurs in `v`.
fn contains_value(v: &Vec<u32>, x: u32) -> (r: bool)
    ensures
        r == v@.contains(x),
{
    let mut i: usize = 0;
    while i < v.len()
        invariant
            i <= v.len(),
            forall|j: int| 0 <= j < i ==> v@[j] != x,
        decreases v.len() - i,
    {
        if v[i] == x {
            return true;
        }
        i = i + 1;
    }
    false
}

/// The lowest host address of the subnet `network`/`netmask` that none of
/// `used` holds, as dotted-quad text. Texts in `used` that are no IPv4
/// address are ignored.
pub fn find_free_sdn_client_ip(network: &str, netmask: &str, used: &[String]) -> (r: Result<String, String>)
    ensures
        match allocation(network@, netmask@, texts(used@)) {
            Ok(c) => r matches Ok(s) && s@ == (Ipv4 { bits: c }).text(),
            Err(e) => r matches Err(m) && m@ == alloc_error_text(e, network@, netmask@),
        },
{
    let net = match Ipv4::parse(network) {
        Some(n) => n,
        None => return Err(concat_strs("Invalid network address: ", network)),
    };
    let mask = match Ipv4::parse(netmask) {
        Some(m) => m,
        None => return Err(concat_strs("Invalid netmask: ", netmask)),
    };
    let broadcast = net.bits | !mask.bits;
    let first = if net.bits == 0xffff_ffffu32 { net.bits } else { net.bits + 1 };
    let last = if broadcast == 0 { broadcast } else { broadcast - 1 };
    let ghost t = texts(used@);
    let subnet = concat_strs(concat_strs(network, "/").as_str(), netmask);
    if first > last {
        return Err(concat_strs("No usable host addresses in ", subnet.as_str()));
    }
    let taken = used_values(used);
    let mut candidate: u32 = first;
    loop
        invariant
            first <= candidate <= last,
            ipv4_of_text(network@) == Some(net),
            ipv4_of_text(netmask@) == Some(mask),
            t == texts(used@),
            subnet@ == network@ + "/"@ + netmask@,
            first == first_host(net.bits),
            last == last_host(net.bits, mask.bits),
            forall|x: u32| is_used(t, x) <==> taken@.contains(x),
            forall|d: u32| first <= d < candidate ==> is_used(t, d),
        decreases last - candidate,
    {
        if !contains_value(&taken, candidate) {
            proof {
                assert(!is_used(t, candidate));
                assert(first <= candidate <= last && !is_used(t, candidate));
                let c = choose|c: u32|
                    first <= c <= last && !is_used(t, c) && forall|d: u32|
                        first <= d < c ==> is_used(t, d);
                assert(first <= c <= last && !is_used(t, c) && forall|d: u32|
                    first <= d < c ==> is_used(t, d));
                if c < candidate {
                    assert(is_used(t, c));
                } else if c > candidate {
                    assert(is_used(t, candidate));
                }
            }
            return Ok(Ipv4 { bits: candidate }.to_string());
        }
        if candidate == last {
            proof {
                assert forall|c: u32| first <= c <= last implies is_used(t, c) by {
                    if c < candidate {
                    } else {
                        assert(c == candidate);
                    }
                }
            }
            return Err(concat_strs("No free sdn_client_ip available in ", subnet.as_str()));
        }
        candidate = candidate + 1;
    }
}

} // verus!
