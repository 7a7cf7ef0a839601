//! The kernel settings a deploy needs, and when one must be written.
use vstd::prelude::*;

use crate::text::{decimal, u32_text};

verus! {

/// Don't pass bridged packets to iptables.
pub fn disable_bridge_nf_call_iptables() -> (r: (String, String))
    ensures
        r.0@ == "net.bridge.bridge-nf-call-iptables"@,
        r.1@ == "0"@,
{
    (String::from_str("net.bridge.bridge-nf-call-iptables"), String::from_str("0"))
}

/// Room in the neighbour table for this many entries.
pub fn ipv4_neigh_gc_threash3(value: u32) -> (r: (String, String))
    ensures
        r.0@ == "net.ipv4.neigh.default.gc_thresh3"@,
        r.1@ == decimal(value as nat),
{
    (String::from_str("net.ipv4.neigh.default.gc_thresh3"), u32_text(value))
}

/// Forward IPv4 packets between interfaces.
pub fn enable_ipv4_forwarding() -> (r: (String, String))
    ensures
        r.0@ == "net.ipv4.ip_forward"@,
        r.1@ == "1"@,
{
    (String::from_str("net.ipv4.ip_forward"), String::from_str("1"))
}

/// The neighbour table size a deploy sets.
pub const NEIGH_GC_THRESH3: u32 = 2048000;

/// Every setting a deploy makes, in order.
pub fn required_sysctls() -> (r: Vec<(String, String)>)
    ensures
        r@.len() == 3,
        r@[0].0@ == "net.bridge.bridge-nf-call-iptables"@ && r@[0].1@ == "0"@,
        r@[1].0@ == "net.ipv4.neigh.default.gc_thresh3"@ && r@[1].1@ == decimal(NEIGH_GC_THRESH3 as nat),
        r@[2].0@ == "net.ipv4.ip_forward"@ && r@[2].1@ == "1"@,
{
    let mut r = Vec::new();
    r.push(disable_bridge_nf_call_iptables());
    r.push(ipv4_neigh_gc_threash3(NEIGH_GC_THRESH3));
    r.push(enable_ipv4_forwarding());
    r
}

/// A setting is written only when its current value, where it could be read,
/// differs from the one wanted.
pub fn ensure_value(current: &Option<String>, value: &str) -> (r: bool)
    ensures
        r == !(current is Some && current->0@ == value@),
{
    match current {
        Some(c) => {
            let v = value.to_owned();
            !(*c == v)
        },
        None => true,
    }
}

} // verus!
