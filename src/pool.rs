//! The address pool: every address of a plan is drawn, in order, from one
//! iterator over the hosts of the configured network.
use vstd::arithmetic::power2::pow2;
use vstd::prelude::*;

use crate::network::{Addr, IpAddress};
use ipnet::IpAddrRange;

verus! {

#[verifier::external_type_specification]
#[verifier::external_body]
pub struct ExIpAddrRange(IpAddrRange);

/// The addresses that a range has still to hand out, in the order it hands them out.
pub uninterp spec fn pool_addresses(pool: IpAddrRange) -> Seq<IpAddress>;

/// The number of addresses in a network of this prefix length.
pub open spec fn block_size(net: Addr) -> nat {
    match net.ip {
        IpAddress::V4(_) => pow2((32 - net.prefix_len) as nat),
        IpAddress::V6(_) => pow2((128 - net.prefix_len) as nat),
    }
}

/// The address of the network itself, as an integer.
pub open spec fn network_of(net: Addr) -> int {
    let bits: int = match net.ip {
        IpAddress::V4(a) => a as int,
        IpAddress::V6(a) => a as int,
    };
    (bits / block_size(net) as int) * block_size(net) as int
}

/// The first host address: IPv4 networks shorter than /31 leave out their
/// network address.
pub open spec fn first_host(net: Addr) -> int {
    if net.ip is V4 && net.prefix_len < 31 {
        network_of(net) + 1
    } else {
        network_of(net)
    }
}

/// The last host address: IPv4 networks shorter than /31 leave out their
/// broadcast address.
pub open spec fn last_host(net: Addr) -> int {
    if net.ip is V4 && net.prefix_len < 31 {
        network_of(net) + block_size(net) - 2
    } else {
        network_of(net) + block_size(net) - 1
    }
}

/// The host addresses of a network, lowest first.
pub open spec fn host_span(net: Addr) -> Seq<IpAddress> {
    Seq::new(
        (last_host(net) + 1 - first_host(net)) as nat,
        |i: int|
            match net.ip {
                IpAddress::V4(_) => IpAddress::V4((first_host(net) + i) as u32),
                IpAddress::V6(_) => IpAddress::V6((first_host(net) + i) as u128),
            },
    )
}

/// Relies on `ipnet::IpNet::hosts`: a range from the network's first host
/// address to its last.
#[verifier::external_body]
fn ipnet_hosts(net: Addr) -> (r: IpAddrRange)
    requires
        net.wf(),
    ensures
        pool_addresses(r) == host_span(net),
{
    match net.ip {
        IpAddress::V4(a) => ipnet::IpNet::V4(
            ipnet::Ipv4Net::new(core::net::Ipv4Addr::from(a), net.prefix_len).unwrap(),
        ).hosts(),
        IpAddress::V6(a) => ipnet::IpNet::V6(
            ipnet::Ipv6Net::new(core::net::Ipv6Addr::from(a), net.prefix_len).unwrap(),
        ).hosts(),
    }
}

/// Relies on `Iterator::next` of `ipnet::IpAddrRange`: the addresses come out
/// in increasing order, each once, then `None` for good.
#[verifier::external_body]
pub(crate) fn pool_next(pool: &mut IpAddrRange) -> (r: Option<IpAddress>)
    ensures
        pool_addresses(*old(pool)).len() == 0 ==> r is None && pool_addresses(*final(pool)).len()
            == 0,
        pool_addresses(*old(pool)).len() > 0 ==> r == Some(pool_addresses(*old(pool))[0])
            && pool_addresses(*final(pool)) == pool_addresses(*old(pool)).drop_first(),
        r is Some ==> !pool_addresses(*final(pool)).contains(r->0),
{
    match pool.next() {
        Some(core::net::IpAddr::V4(a)) => Some(IpAddress::V4(u32::from(a))),
        Some(core::net::IpAddr::V6(a)) => Some(IpAddress::V6(u128::from(a))),
        None => None,
    }
}

impl Addr {
    /// The pool of host addresses of this network.
    pub fn hosts(&self) -> (r: IpAddrRange)
        requires
            self.wf(),
        ensures
            pool_addresses(r) == host_span(*self),
    {
        ipnet_hosts(*self)
    }
}

} // verus!
