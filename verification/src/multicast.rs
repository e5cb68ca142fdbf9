use vstd::prelude::*;

use crate::PORTBASE;

verus! {

/// The multicast group of a host: the low 27 bits of its IPv4 address placed under
/// 232.0.0.0/5.
pub open spec fn spec_multicast_group(ip: u32) -> u32 {
    (ip & 0x07ff_ffffu32) | 0xe800_0000u32
}

/// The multicast group of the host with IPv4 address `ip` (as a big-endian integer).
pub fn multicast_group(ip: u32) -> (r: u32)
    ensures
        r == spec_multicast_group(ip),
        r & 0xf800_0000u32 == 0xe800_0000u32,
        r & 0x07ff_ffffu32 == ip & 0x07ff_ffffu32,
{
    proof {
        lemma_multicast_group(ip);
    }
    (ip & 0x07ff_ffff) | 0xe800_0000
}

/// The multicast group lies in 232.0.0.0/5 and keeps the low 27 bits of the host's address.
pub proof fn lemma_multicast_group(ip: u32)
    ensures
        spec_multicast_group(ip) & 0xf800_0000u32 == 0xe800_0000u32,
        spec_multicast_group(ip) & 0x07ff_ffffu32 == ip & 0x07ff_ffffu32,
{
    let g = spec_multicast_group(ip);
    assert(g == (ip & 0x07ff_ffffu32) | 0xe800_0000u32);
    assert(((ip & 0x07ff_ffffu32) | 0xe800_0000u32) & 0xf800_0000u32 == 0xe800_0000u32)
        by (bit_vector);
    assert(((ip & 0x07ff_ffffu32) | 0xe800_0000u32) & 0x07ff_ffffu32 == ip & 0x07ff_ffffu32)
        by (bit_vector);
}

/// A peer listens on its own address, broadcasts to the broadcast address it is given, and
/// sends multicast traffic to its group: the receiver listens on the base port and sends to
/// the port one above, the sender the other way round.
pub proof fn lemma_endpoints(ip: u32, broadcast: u32)
    ensures
        receiver_endpoints_spec(ip, broadcast).myip == (ip, 9000u16),
        receiver_endpoints_spec(ip, broadcast).broadcast == (broadcast, 9001u16),
        receiver_endpoints_spec(ip, broadcast).multicast.1 == 9001u16,
        sender_endpoints_spec(ip, broadcast).myip == (ip, 9001u16),
        sender_endpoints_spec(ip, broadcast).broadcast == (broadcast, 9000u16),
        sender_endpoints_spec(ip, broadcast).multicast.1 == 9000u16,
        receiver_endpoints_spec(ip, broadcast).multicast.0 == sender_endpoints_spec(
            ip,
            broadcast,
        ).multicast.0,
        receiver_endpoints_spec(ip, broadcast).multicast.0 & 0xf800_0000u32 == 0xe800_0000u32,
        receiver_endpoints_spec(ip, broadcast).multicast.0 & 0x07ff_ffffu32 == ip
            & 0x07ff_ffffu32,
{
    lemma_multicast_group(ip);
}

/// The addresses a peer uses, as IPv4 address (big-endian integer) and UDP port.
#[derive(Debug, Clone, Copy, PartialEq, Eq)]
pub struct Endpoints {
    /// Where the peer itself listens.
    pub myip: (u32, u16),
    /// Where the peer broadcasts to.
    pub broadcast: (u32, u16),
    /// Where the peer sends multicast traffic to.
    pub multicast: (u32, u16),
}

/// The receiver's addresses on a network: it listens on the base port and talks to the
/// sender's port, one above.
pub fn receiver_endpoints(ip: u32, broadcast: u32) -> (r: Endpoints)
    ensures
        r == receiver_endpoints_spec(ip, broadcast),
        r.myip == (ip, PORTBASE),
        r.broadcast == (broadcast, 9001u16),
        r.multicast == (spec_multicast_group(ip), 9001u16),
{
    proof {
        lemma_endpoints(ip, broadcast);
    }
    Endpoints {
        myip: (ip, PORTBASE),
        broadcast: (broadcast, PORTBASE + 1),
        multicast: (multicast_group(ip), PORTBASE + 1),
    }
}

/// The sender's addresses on a network: it listens one above the base port and talks to the
/// receivers' port, the base port.
pub fn sender_endpoints(ip: u32, broadcast: u32) -> (r: Endpoints)
    ensures
        r == sender_endpoints_spec(ip, broadcast),
        r.myip == (ip, 9001u16),
        r.broadcast == (broadcast, PORTBASE),
        r.multicast == (spec_multicast_group(ip), PORTBASE),
{
    proof {
        lemma_endpoints(ip, broadcast);
    }
    Endpoints {
        myip: (ip, PORTBASE + 1),
        broadcast: (broadcast, PORTBASE),
        multicast: (multicast_group(ip), PORTBASE),
    }
}

/// Sender and receivers find each other: what one side sends to, broadcast or multicast,
/// is on the port the other side listens on, and hosts whose addresses agree in their low
/// 27 bits share the multicast group.
pub proof fn lemma_endpoints_match(sender_ip: u32, receiver_ip: u32, broadcast: u32)
    requires
        sender_ip & 0x07ff_ffffu32 == receiver_ip & 0x07ff_ffffu32,
    ensures
        ({
            let s = sender_endpoints_spec(sender_ip, broadcast);
            let r = receiver_endpoints_spec(receiver_ip, broadcast);
            &&& s.multicast.1 == r.myip.1
            &&& s.broadcast.1 == r.myip.1
            &&& r.broadcast.1 == s.myip.1
            &&& r.multicast.1 == s.myip.1
            &&& s.multicast.0 == r.multicast.0
        }),
{
}

/// The receiver's addresses, as `receiver_endpoints` gives them.
pub open spec fn receiver_endpoints_spec(ip: u32, broadcast: u32) -> Endpoints {
    Endpoints {
        myip: (ip, PORTBASE),
        broadcast: (broadcast, (PORTBASE + 1) as u16),
        multicast: (spec_multicast_group(ip), (PORTBASE + 1) as u16),
    }
}

/// The sender's addresses, as `sender_endpoints` gives them.
pub open spec fn sender_endpoints_spec(ip: u32, broadcast: u32) -> Endpoints {
    Endpoints {
        myip: (ip, (PORTBASE + 1) as u16),
        broadcast: (broadcast, PORTBASE),
        multicast: (spec_multicast_group(ip), PORTBASE),
    }
}

/// The host part of an IPv4 network with prefix length `prefix_len`: the low `32 - prefix_len`
/// bits set, none for a prefix of 32 or more.
pub open spec fn host_mask(prefix_len: u8) -> u32 {
    if prefix_len >= 32 {
        0
    } else {
        u32::MAX >> prefix_len
    }
}

/// The broadcast address of the IPv4 network of `addr` with prefix length `prefix_len`: the
/// address with every host bit set. A prefix longer than 32 bits is no network.
pub fn network_broadcast(addr: u32, prefix_len: u8) -> (r: Option<u32>)
    ensures
        r == if prefix_len <= 32 {
            Some(addr | host_mask(prefix_len))
        } else {
            None
        },
        r is Some <==> prefix_len <= 32,
        r is Some ==> forall|k: u32|
            k < 32 ==> (((#[trigger] (r.unwrap() >> k)) & 1 == 1) <==> (k + prefix_len < 32 || (
            addr >> k) & 1 == 1)),
{
    let r = if prefix_len > 32 {
        None
    } else if prefix_len == 32 {
        Some(addr | 0)
    } else {
        Some(addr | (u32::MAX >> prefix_len))
    };
    proof {
        if prefix_len <= 32 {
            let v = r.unwrap();
            assert(v == addr | host_mask(prefix_len));
            assert forall|k: u32| k < 32 implies (((#[trigger] (v >> k)) & 1 == 1) <==> (k
                + prefix_len < 32 || (addr >> k) & 1 == 1)) by {
                lemma_network_broadcast(addr, prefix_len, k);
            }
        }
    }
    r
}

/// The mask of a prefix keeps exactly the host bits: bit `k` (counted from the least
/// significant) is set in `host_mask(p)` exactly when `k < 32 - p`.
pub proof fn lemma_host_mask_bits(p: u8, k: u32)
    requires
        p <= 32,
        k < 32,
    ensures
        (host_mask(p) >> k) & 1 == 1 <==> k + p < 32,
{
    if p < 32 {
        let m = host_mask(p);
        assert(m == u32::MAX >> p);
        assert(p < 32 && k < 32 ==> (((u32::MAX >> p) >> k) & 1u32 == 1u32 <==> k + p < 32))
            by (bit_vector);
    } else {
        assert(((0u32 >> k) & 1u32) == 0u32) by (bit_vector);
    }
}

/// The broadcast address of a network keeps the network bits of the address and sets every
/// host bit: its bit `k` is set exactly when `k` is among the low `32 - prefix_len` bits or
/// the address has it set.
pub proof fn lemma_network_broadcast(addr: u32, prefix_len: u8, k: u32)
    requires
        prefix_len <= 32,
        k < 32,
    ensures
        ((addr | host_mask(prefix_len)) >> k) & 1 == 1 <==> (k + prefix_len < 32 || (addr >> k)
            & 1 == 1),
{
    let m = host_mask(prefix_len);
    lemma_host_mask_bits(prefix_len, k);
    assert(((addr | m) >> k) & 1 == 1 <==> ((addr >> k) & 1 == 1 || (m >> k) & 1 == 1))
        by (bit_vector);
}

} // verus!
