//! Names and addresses of the kernel objects a plan describes.
use vstd::prelude::*;

use crate::text::{decimal, u8_text, usize_text};

verus! {

/// An IP address: IPv4 as its 32 bits, IPv6 as its 128 bits.
#[derive(Debug, Clone, Copy, PartialEq, Eq, Hash)]
pub enum IpAddress {
    V4(u32),
    V6(u128),
}

/// The text `<a>.<b>.<c>.<d>` of an IPv4 address.
pub open spec fn dotted_quad(ip: u32) -> Seq<char> {
    decimal((ip as nat / 0x100_0000) % 256) + "."@ + decimal((ip as nat / 0x1_0000) % 256) + "."@
        + decimal((ip as nat / 0x100) % 256) + "."@ + decimal(ip as nat % 256)
}

/// What std's `Display` writes for an IP address.
pub uninterp spec fn ip_text_of(ip: IpAddress) -> Seq<char>;

/// Relies on `Display` of `std::net::IpAddr`: dot-decimal notation for IPv4,
/// RFC 5952 text for IPv6.
#[verifier::external_body]
pub(crate) fn ip_text(ip: IpAddress) -> (r: String)
    ensures
        r@ == ip_text_of(ip),
        ip is V4 ==> r@ == dotted_quad(ip->V4_0),
{
    let ip = match ip {
        IpAddress::V4(a) => core::net::IpAddr::V4(core::net::Ipv4Addr::from(a)),
        IpAddress::V6(a) => core::net::IpAddr::V6(core::net::Ipv6Addr::from(a)),
    };
    ip.to_string()
}

/// The number of bits of an address of this family.
pub open spec fn family_bits(ip: IpAddress) -> nat {
    match ip {
        IpAddress::V4(_) => 32,
        IpAddress::V6(_) => 128,
    }
}

/// An address together with the prefix length of its network (`10.0.0.1/16`).
#[derive(Debug, Clone, Copy, PartialEq, Eq, Hash)]
pub struct Addr {
    pub ip: IpAddress,
    pub prefix_len: u8,
}

impl Addr {
    /// The prefix length fits the address family.
    pub open spec fn wf(&self) -> bool {
        self.prefix_len as nat <= family_bits(self.ip)
    }

    /// Text of the address with its prefix length: `<ip>/<prefix_len>`.
    pub open spec fn spec_text(&self) -> Seq<char> {
        ip_text_of(self.ip) + "/"@ + decimal(self.prefix_len as nat)
    }

    /// The host part as a value of its own.
    pub fn ip(&self) -> (r: IpAddress)
        ensures
            r == self.ip,
    {
        self.ip
    }

    /// `<ip>/<prefix_len>`, as `ip addr add` takes it.
    pub fn to_string(&self) -> (r: String)
        ensures
            r@ == self.spec_text(),
    {
        let s = ip_text(self.ip);
        let s = s.concat("/");
        let p = u8_text(self.prefix_len);
        s.concat(p.as_str())
    }
}

/// `<prefix>-<index>`: the namespace of instance `index`.
pub open spec fn namespace_name(prefix: Seq<char>, index: nat) -> Seq<char> {
    prefix + "-"@ + decimal(index)
}

/// `<prefix>b<index>`: bridge number `index`.
pub open spec fn bridge_name(prefix: Seq<char>, index: nat) -> Seq<char> {
    prefix + "b"@ + decimal(index)
}

/// `v-<namespace>-br`: the host side of a namespace's veth pair.
pub open spec fn host_side(namespace: Seq<char>) -> Seq<char> {
    "v-"@ + namespace + "-br"@
}

/// `v-<namespace>-ns`: the side of a veth pair that lives in the namespace.
pub open spec fn guest_side(namespace: Seq<char>) -> Seq<char> {
    "v-"@ + namespace + "-ns"@
}

/// `vx-<prefix>`: the VXLAN device of a host.
pub open spec fn vxlan_name(prefix: Seq<char>) -> Seq<char> {
    "vx-"@ + prefix
}

/// A network namespace, one per command instance.
#[derive(Debug, Clone, PartialEq, Eq, Hash)]
pub struct Namespace {
    pub name: String,
}

impl Namespace {
    /// The name of the namespace of instance `index`.
    pub fn name(prefix: &str, index: usize) -> (r: String)
        ensures
            r@ == namespace_name(prefix@, index as nat),
    {
        let s = prefix.to_owned();
        let s = s.concat("-");
        let d = usize_text(index);
        s.concat(d.as_str())
    }

    pub fn new(prefix: &str, index: usize) -> (r: Self)
        ensures
            r.name@ == namespace_name(prefix@, index as nat),
    {
        Namespace { name: Self::name(prefix, index) }
    }
}

/// A bridge on the host; it owns the first address drawn for it.
#[derive(Debug, Clone, PartialEq, Eq, Hash)]
pub struct Bridge {
    pub index: usize,
    pub name: String,
    pub addr: Addr,
}

impl Bridge {
    pub fn new(index: usize, prefix: &str, addr: Addr) -> (r: Self)
        ensures
            r.index == index,
            r.name@ == bridge_name(prefix@, index as nat),
            r.addr == addr,
    {
        let s = prefix.to_owned();
        let s = s.concat("b");
        let d = usize_text(index);
        Bridge { index, name: s.concat(d.as_str()), addr }
    }
}

/// The veth pair of one namespace: the guest side holds `addr` inside the
/// namespace, the host side is enslaved to bridge `bridge`.
#[derive(Debug, Clone, PartialEq, Eq, Hash)]
pub struct NamespaceVeth {
    pub bridge: usize,
    pub addr: Addr,
    pub namespace: Namespace,
}

impl NamespaceVeth {
    pub fn new(bridge: usize, addr: Addr, namespace: Namespace) -> (r: Self)
        ensures
            r == (NamespaceVeth { bridge, addr, namespace }),
    {
        NamespaceVeth { bridge, addr, namespace }
    }

    /// A copy of this veth pair.
    pub fn copied(&self) -> (r: Self)
        ensures
            r == *self,
    {
        NamespaceVeth {
            bridge: self.bridge,
            addr: self.addr,
            namespace: Namespace { name: self.namespace.name.clone() },
        }
    }

    /// The name of the side inside the namespace.
    pub fn guest(&self) -> (r: String)
        ensures
            r@ == guest_side(self.namespace.name@),
    {
        let s = String::from_str("v-");
        let s = s.concat(self.namespace.name.as_str());
        s.concat("-ns")
    }

    /// The name of the side on the host.
    pub fn host(&self) -> (r: String)
        ensures
            r@ == host_side(self.namespace.name@),
    {
        let s = String::from_str("v-");
        let s = s.concat(self.namespace.name.as_str());
        s.concat("-br")
    }
}

/// Traffic shaping of one instance: the options after `tbf` and after `netem`
/// on the `tc qdisc add` command line.
#[derive(Debug, Clone, PartialEq)]
pub struct Qdisc {
    pub tbf: Option<String>,
    pub netem: Option<String>,
}

/// The VXLAN device that joins this host's bridge 0 to its peers.
#[derive(Debug, Clone, PartialEq)]
pub struct Vxlan {
    pub name: String,
    pub id: u32,
    pub port: u16,
    /// IPv4 multicast group, as its 32 bits.
    pub group: u32,
    pub device: String,
}

} // verus!
