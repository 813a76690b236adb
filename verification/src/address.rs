//! Which remote addresses may deliver webhooks.

use vstd::prelude::*;
use netaddr2::Contains;

verus! {

/// An IP address: four octets for IPv4, sixteen for IPv6.
#[derive(Debug)]
pub enum IpAddress {
    V4([u8; 4]),
    V6([u8; 16]),
}

/// The IPv4 address as a 32-bit number, first octet highest.
pub open spec fn ipv4_bits(o: Seq<u8>) -> u32 {
    ((o[0] as u32) << 24u32) | ((o[1] as u32) << 16u32) | ((o[2] as u32) << 8u32) | (o[3] as u32)
}

/// The webhook sources: the IPv4 networks 185.30.20.0/24, 185.30.21.0/24
/// and 185.30.23.0/24.
pub open spec fn is_webhook_source(addr: IpAddress) -> bool {
    match addr {
        IpAddress::V4(o) => o@[0] == 185 && o@[1] == 30 && (o@[2] == 20 || o@[2] == 21 || o@[2]
            == 23),
        IpAddress::V6(_) => false,
    }
}

/// Calls `netaddr2::Netv4Addr::new` for the network and for the address (as a
/// network with the full mask), then `Contains::contains`. Trusted: `new`
/// masks the network address, and a network contains another when the other's
/// address masked with the network's mask equals the network's address.
#[verifier::external_body]
fn network_contains(network: u32, mask: u32, addr: u32) -> (contained: bool)
    ensures
        contained == ((addr & mask) == (network & mask)),
{
    let net = netaddr2::Netv4Addr::new(network.into(), mask.into());
    net.contains(&netaddr2::Netv4Addr::new(addr.into(), u32::MAX.into()))
}

/// Whether a webhook may come from `remote_addr`.
pub fn check_remote_address_is_valid(remote_addr: &IpAddress) -> (valid: bool)
    ensures
        valid == is_webhook_source(*remote_addr),
{
    match remote_addr {
        IpAddress::V4(o) => {
            let bits: u32 = ((o[0] as u32) << 24u32) | ((o[1] as u32) << 16u32) | ((o[2] as u32)
                << 8u32) | (o[3] as u32);
            let networks: [u32; 3] = [0xB91E1400u32, 0xB91E1500u32, 0xB91E1700u32];
            let mask: u32 = 0xFFFFFF00u32;
            let a0 = o[0];
            let a1 = o[1];
            let a2 = o[2];
            let a3 = o[3];
            assert(bits == ipv4_bits(o@));
            assert((bits & mask) == (0xB91E1400u32 & mask) <==> (a0 == 185 && a1 == 30 && a2 == 20))
                by (bit_vector)
                requires
                    bits == ((a0 as u32) << 24u32) | ((a1 as u32) << 16u32) | ((a2 as u32) << 8u32)
                        | (a3 as u32),
                    mask == 0xFFFFFF00u32,
            ;
            assert((bits & mask) == (0xB91E1500u32 & mask) <==> (a0 == 185 && a1 == 30 && a2 == 21))
                by (bit_vector)
                requires
                    bits == ((a0 as u32) << 24u32) | ((a1 as u32) << 16u32) | ((a2 as u32) << 8u32)
                        | (a3 as u32),
                    mask == 0xFFFFFF00u32,
            ;
            assert((bits & mask) == (0xB91E1700u32 & mask) <==> (a0 == 185 && a1 == 30 && a2 == 23))
                by (bit_vector)
                requires
                    bits == ((a0 as u32) << 24u32) | ((a1 as u32) << 16u32) | ((a2 as u32) << 8u32)
                        | (a3 as u32),
                    mask == 0xFFFFFF00u32,
            ;
            let mut i: usize = 0;
            #[verifier::loop_isolation(false)]
            while i < 3
                invariant
                    i <= 3,
                    networks@ == seq![0xB91E1400u32, 0xB91E1500u32, 0xB91E1700u32],
                    mask == 0xFFFFFF00u32,
                    forall|j: int| 0 <= j < i ==> (bits & mask) != (networks@[j] & mask),
                decreases 3 - i,
            {
                if network_contains(networks[i], mask, bits) {
                    return true;
                }
                i += 1;
            }
            false
        },
        IpAddress::V6(_) => false,
    }
}

/// The webhook networks are whole /24 networks: every address 185.30.c.d
/// with c one of 20, 21 and 23 is a webhook source, whatever its last octet.
pub proof fn lemma_webhook_networks_are_whole(o: [u8; 4])
    requires
        o@[0] == 185,
        o@[1] == 30,
        o@[2] == 20 || o@[2] == 21 || o@[2] == 23,
    ensures
        is_webhook_source(IpAddress::V4(o)),
{
}

/// Whether an IPv4 address is a webhook source depends only on its first
/// three octets: two addresses of the same /24 network get the same answer.
pub proof fn lemma_webhook_source_ignores_last_octet(a: [u8; 4], b: [u8; 4])
    requires
        a@[0] == b@[0],
        a@[1] == b@[1],
        a@[2] == b@[2],
    ensures
        is_webhook_source(IpAddress::V4(a)) == is_webhook_source(IpAddress::V4(b)),
{
}

/// No address outside 185.30.20.0/24, 185.30.21.0/24 and 185.30.23.0/24 is a
/// webhook source, and no IPv6 address is.
pub proof fn lemma_other_addresses_are_not_webhook_sources(o: [u8; 4], v6: [u8; 16])
    requires
        !(o@[0] == 185 && o@[1] == 30 && (o@[2] == 20 || o@[2] == 21 || o@[2] == 23)),
    ensures
        !is_webhook_source(IpAddress::V4(o)),
        !is_webhook_source(IpAddress::V6(v6)),
{
}

} // verus!
