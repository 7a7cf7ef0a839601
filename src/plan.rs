//! The planner: lays out namespaces, bridges, veth pairs, addresses and the
//! VXLAN overlay of every host, deterministically.
use vstd::arithmetic::div_mod::{lemma_div_is_ordered, lemma_fundamental_div_mod};
use vstd::prelude::*;

use crate::network::{
    bridge_name, namespace_name, vxlan_name, Addr, Bridge, IpAddress, Namespace, NamespaceVeth,
    Qdisc, Vxlan,
};
use crate::pool::{pool_addresses, pool_next};
use ipnet::IpAddrRange;

verus! {

/// The kernel allows at most 1024 ports on a bridge; a plan puts no more than
/// this many instances on one.
pub const MAX_VETH_PER_BRIDGE: usize = 1000;

/// The plan of one host. Each field is an ordered map, kept as a vector of
/// `(key, value)` pairs in increasing key order.
#[derive(Debug, Clone, PartialEq)]
pub struct Data {
    /// At most one entry, under key 0.
    pub vxlan: Vec<(usize, Vxlan)>,
    /// Keyed by bridge index.
    pub bridges: Vec<(usize, Bridge)>,
    /// Keyed by instance index.
    pub veth: Vec<(usize, NamespaceVeth)>,
    /// Keyed by instance index; a subset of the keys of `veth`.
    pub qdisc: Vec<(usize, Qdisc)>,
}

/// The keys of an ordered map increase strictly.
pub open spec fn keys_increase<T>(m: Seq<(usize, T)>) -> bool {
    forall|a: int, b: int| 0 <= a < b < m.len() ==> (#[trigger] m[a]).0 < (#[trigger] m[b]).0
}

impl Data {
    /// The plan runs instance `key`.
    pub open spec fn has_instance(&self, key: usize) -> bool {
        exists|m: int| 0 <= m < self.veth@.len() && (#[trigger] self.veth@[m]).0 == key
    }

    /// The invariants of a plan: keys increase in every map, every instance
    /// sits on the bridge its index names and the plan holds that bridge,
    /// every qdisc belongs to an instance, and no address repeats.
    pub open spec fn wf(&self, per_bridge: int) -> bool {
        &&& keys_increase(self.vxlan@)
        &&& keys_increase(self.bridges@)
        &&& keys_increase(self.veth@)
        &&& keys_increase(self.qdisc@)
        &&& veths_on_their_bridges(*self, per_bridge)
        &&& forall|k: int| 0 <= k < self.qdisc@.len() ==> self.has_instance(#[trigger] self.qdisc@[k].0)
        &&& addresses_distinct(*self)
    }

    pub fn new() -> (r: Self)
        ensures
            r.vxlan@.len() == 0,
            r.bridges@.len() == 0,
            r.veth@.len() == 0,
            r.qdisc@.len() == 0,
            r.wf(MAX_VETH_PER_BRIDGE as int),
    {
        Data { vxlan: Vec::new(), bridges: Vec::new(), veth: Vec::new(), qdisc: Vec::new() }
    }
}

/// What the planner needs to know of the playground.
pub struct Config {
    /// Starts the name of every kernel object.
    pub prefix: String,
    /// The network that every address is drawn from.
    pub net: Addr,
    /// How many instances share one bridge.
    pub per_bridge: usize,
    pub vxlan_id: u32,
    pub vxlan_port: u16,
    /// IPv4 multicast group of the overlay, as its 32 bits.
    pub vxlan_multicast_group: u32,
    /// The device that carries the overlay.
    pub vxlan_device: String,
}

/// Why no plan could be made.
#[derive(Debug, Clone, Copy, PartialEq, Eq)]
pub enum PlanError {
    /// `per_bridge` is 0 or above `MAX_VETH_PER_BRIDGE`.
    PerBridgeOutOfRange,
    /// The number of hosts is 0.
    NoHosts,
    /// The address pool ran out.
    AddressesExhausted,
}

/// The number of bridges that instances `s..e` use.
pub open spec fn bridges_in(s: int, e: int, pb: int) -> int {
    if e > s {
        (e - 1) / pb - s / pb + 1
    } else {
        0
    }
}

/// The number of addresses that instances `s..e` draw: one per instance and
/// one per bridge.
pub open spec fn addresses_used(s: int, e: int, pb: int) -> int {
    (e - s) + bridges_in(s, e, pb)
}

/// Where, counted from the first address drawn for instances starting at `s`,
/// the address of instance `i` lies: after its own bridge's when that bridge is
/// new.
pub open spec fn veth_position(s: int, i: int, pb: int) -> int {
    addresses_used(s, i + 1, pb) - 1
}

/// The first instance, from `s` on, that bridge `b` serves.
pub open spec fn bridge_first_index(s: int, b: int, pb: int) -> int {
    if b * pb > s {
        b * pb
    } else {
        s
    }
}

/// Where the address of bridge `b` lies: it is drawn just before the address
/// of the first instance it serves.
pub open spec fn bridge_position(s: int, b: int, pb: int) -> int {
    addresses_used(s, bridge_first_index(s, b, pb), pb)
}

/// How many of instances `s..e` the qdisc stream of length `qlen` reaches.
pub open spec fn qdisc_count(s: int, e: int, qlen: int) -> int {
    if qlen <= s {
        0
    } else if qlen >= e {
        e - s
    } else {
        qlen - s
    }
}

/// Bridge `b` as the plan holds it, its address found in `pool` (the addresses
/// as they came for instances from `s` on).
pub open spec fn bridge_entry(cfg: &Config, s: int, pool: Seq<IpAddress>, b: int, entry: (usize, Bridge)) -> bool {
    &&& entry.0 == b
    &&& entry.1.index == b
    &&& entry.1.name@ == bridge_name(cfg.prefix@, b as nat)
    &&& entry.1.addr == (Addr { ip: pool[bridge_position(s, b, cfg.per_bridge as int)], prefix_len: cfg.net.prefix_len })
}

/// Instance `i` as the plan holds it.
pub open spec fn veth_entry(cfg: &Config, s: int, pool: Seq<IpAddress>, i: int, entry: (usize, NamespaceVeth)) -> bool {
    &&& entry.0 == i
    &&& entry.1.bridge == i / cfg.per_bridge as int
    &&& entry.1.namespace.name@ == namespace_name(cfg.prefix@, i as nat)
    &&& entry.1.addr == (Addr { ip: pool[veth_position(s, i, cfg.per_bridge as int)], prefix_len: cfg.net.prefix_len })
}

/// The overlay device as the plan holds it.
pub open spec fn vxlan_entry(cfg: &Config, v: Vxlan) -> bool {
    &&& v.name@ == vxlan_name(cfg.prefix@)
    &&& v.id == cfg.vxlan_id
    &&& v.port == cfg.vxlan_port
    &&& v.group == cfg.vxlan_multicast_group
    &&& v.device@ == cfg.vxlan_device@
}

/// `d` is the plan of a host that runs instances `s..e`, drawing its addresses
/// in order from `pool`.
pub open spec fn host_plan(
    cfg: &Config,
    total_hosts: int,
    s: int,
    e: int,
    pool: Seq<IpAddress>,
    qdisc: Seq<(Option<String>, Option<String>)>,
    d: Data,
) -> bool {
    let pb = cfg.per_bridge as int;
    &&& if total_hosts > 1 {
        d.vxlan@.len() == 1 && d.vxlan@[0].0 == 0 && vxlan_entry(cfg, d.vxlan@[0].1)
    } else {
        d.vxlan@.len() == 0
    }
    &&& d.bridges@.len() == bridges_in(s, e, pb)
    &&& forall|k: int| 0 <= k < d.bridges@.len() ==> bridge_entry(cfg, s, pool, s / pb + k, #[trigger] d.bridges@[k])
    &&& d.veth@.len() == e - s
    &&& forall|k: int| 0 <= k < d.veth@.len() ==> veth_entry(cfg, s, pool, s + k, #[trigger] d.veth@[k])
    &&& d.qdisc@.len() == qdisc_count(s, e, qdisc.len() as int)
    &&& forall|k: int| 0 <= k < d.qdisc@.len() ==> {
        &&& (#[trigger] d.qdisc@[k]).0 == s + k
        &&& d.qdisc@[k].1.tbf == qdisc[s + k].0
        &&& d.qdisc@[k].1.netem == qdisc[s + k].1
    }
}

/// Every instance sits on bridge `index / per_bridge`, and the plan holds that bridge.
pub open spec fn veths_on_their_bridges(d: Data, pb: int) -> bool {
    forall|k: int| 0 <= k < d.veth@.len() ==> {
        &&& (#[trigger] d.veth@[k]).1.bridge == d.veth@[k].0 as int / pb
        &&& exists|m: int| 0 <= m < d.bridges@.len() && (#[trigger] d.bridges@[m]).0 == d.veth@[k].1.bridge
    }
}

/// No two bridges or instances of the plan share an address.
pub open spec fn addresses_distinct(d: Data) -> bool {
    &&& forall|a: int, b: int|
        0 <= a < b < d.bridges@.len() ==> (#[trigger] d.bridges@[a]).1.addr.ip != (#[trigger] d.bridges@[b]).1.addr.ip
    &&& forall|a: int, b: int|
        0 <= a < b < d.veth@.len() ==> (#[trigger] d.veth@[a]).1.addr.ip != (#[trigger] d.veth@[b]).1.addr.ip
    &&& forall|a: int, b: int|
        0 <= a < d.bridges@.len() && 0 <= b < d.veth@.len() ==> (#[trigger] d.bridges@[a]).1.addr.ip
            != (#[trigger] d.veth@[b]).1.addr.ip
}

proof fn lemma_next_instance(s: int, i: int, pb: int)
    requires
        pb > 0,
        0 <= s <= i,
    ensures
        (i == s || i % pb == 0) ==> bridges_in(s, i + 1, pb) == bridges_in(s, i, pb) + 1
            && bridge_first_index(s, i / pb, pb) == i && i / pb == s / pb + bridges_in(s, i, pb),
        !(i == s || i % pb == 0) ==> bridges_in(s, i + 1, pb) == bridges_in(s, i, pb),
{
    lemma_fundamental_div_mod(i, pb);
    lemma_fundamental_div_mod(s, pb);
    if i > s {
        lemma_fundamental_div_mod(i - 1, pb);
        assert(0 <= (i - 1) % pb < pb && 0 <= i % pb < pb) by {
            vstd::arithmetic::div_mod::lemma_mod_pos_bound(i - 1, pb);
            vstd::arithmetic::div_mod::lemma_mod_pos_bound(i, pb);
        }
        if i % pb == 0 {
            assert(i / pb == (i - 1) / pb + 1) by (nonlinear_arith)
                requires
                    i == pb * (i / pb) + i % pb,
                    i - 1 == pb * ((i - 1) / pb) + (i - 1) % pb,
                    i % pb == 0,
                    0 <= (i - 1) % pb < pb,
                    pb > 0,
            ;
            assert((i / pb) * pb == i) by (nonlinear_arith)
                requires
                    i == pb * (i / pb) + i % pb,
                    i % pb == 0,
            ;
        } else {
            assert(i / pb == (i - 1) / pb) by (nonlinear_arith)
                requires
                    i == pb * (i / pb) + i % pb,
                    i - 1 == pb * ((i - 1) / pb) + (i - 1) % pb,
                    i % pb != 0,
                    0 <= i % pb < pb,
                    0 <= (i - 1) % pb < pb,
                    pb > 0,
            ;
        }
    } else {
        assert((s / pb) * pb <= s) by (nonlinear_arith)
            requires
                s == pb * (s / pb) + s % pb,
                0 <= s % pb,
        ;
        vstd::arithmetic::div_mod::lemma_mod_pos_bound(s, pb);
    }
}

/// Clones an optional option string.
fn copy_option(o: &Option<String>) -> (r: Option<String>)
    ensures
        r == *o,
{
    match o {
        Some(t) => Some(t.clone()),
        None => None,
    }
}

/// Draws the next address of the pool for a network of prefix length `prefix_len`.
fn next_addr(prefix_len: u8, pool: &mut IpAddrRange) -> (r: Result<Addr, PlanError>)
    ensures
        pool_addresses(*old(pool)).len() == 0 <==> r is Err,
        r is Err ==> r == Err::<Addr, PlanError>(PlanError::AddressesExhausted),
        r is Ok ==> r->Ok_0 == (Addr { ip: pool_addresses(*old(pool))[0], prefix_len })
            && pool_addresses(*final(pool)) == pool_addresses(*old(pool)).drop_first()
            && !pool_addresses(*final(pool)).contains(pool_addresses(*old(pool))[0]),
{
    match pool_next(pool) {
        Some(ip) => Ok(Addr { ip, prefix_len }),
        None => Err(PlanError::AddressesExhausted),
    }
}


proof fn lemma_used_monotone(s: int, a: int, b: int, pb: int)
    requires
        pb > 0,
        0 <= s <= a <= b,
    ensures
        addresses_used(s, a, pb) <= addresses_used(s, b, pb),
{
    if a > s {
        lemma_div_is_ordered(a - 1, b - 1, pb);
    } else if b > s {
        lemma_div_is_ordered(s, b - 1, pb);
    }
}

/// Drawing the address at position `n` keeps every drawn address apart from
/// all that come after it.
proof fn lemma_draw(pool0: Seq<IpAddress>, n: int, rest: Seq<IpAddress>)
    requires
        0 <= n < pool0.len(),
        rest == pool0.skip(n).drop_first(),
        !rest.contains(pool0[n]),
        forall|j: int, j2: int| 0 <= j < n && j < j2 < pool0.len() ==> pool0[j] != pool0[j2],
    ensures
        rest == pool0.skip(n + 1),
        forall|j: int, j2: int| 0 <= j < n + 1 && j < j2 < pool0.len() ==> pool0[j] != pool0[j2],
{
    assert(rest =~= pool0.skip(n + 1));
    assert forall|j: int, j2: int| 0 <= j < n + 1 && j < j2 < pool0.len() implies pool0[j] != pool0[j2] by {
        if j == n {
            assert(rest[j2 - n - 1] == pool0[j2]);
        }
    }
}

/// Every bridge of `d` is as planned, its address drawn before position `n`.
pub open spec fn bridges_placed(cfg: &Config, s: int, pool0: Seq<IpAddress>, n: int, d: Data) -> bool {
    forall|k: int|
        0 <= k < d.bridges@.len() ==> bridge_entry(cfg, s, pool0, s / cfg.per_bridge as int + k, #[trigger] d.bridges@[k])
            && 0 <= bridge_position(s, s / cfg.per_bridge as int + k, cfg.per_bridge as int) < n
}

/// Every instance of `d` is as planned, its address drawn before position `n`.
pub open spec fn veths_placed(cfg: &Config, s: int, pool0: Seq<IpAddress>, n: int, d: Data) -> bool {
    forall|k: int|
        0 <= k < d.veth@.len() ==> veth_entry(cfg, s, pool0, s + k, #[trigger] d.veth@[k])
            && 0 <= veth_position(s, s + k, cfg.per_bridge as int) < n
}

proof fn lemma_bridges_later(cfg: &Config, s: int, pool0: Seq<IpAddress>, n: int, m: int, d: Data)
    requires
        n <= m,
        bridges_placed(cfg, s, pool0, n, d),
    ensures
        bridges_placed(cfg, s, pool0, m, d),
{
}

proof fn lemma_veths_later(cfg: &Config, s: int, pool0: Seq<IpAddress>, n: int, m: int, d: Data)
    requires
        n <= m,
        veths_placed(cfg, s, pool0, n, d),
    ensures
        veths_placed(cfg, s, pool0, m, d),
{
}

/// An address drawn at position `n` differs from every address of the plan
/// drawn before it.
proof fn lemma_fresh_address(cfg: &Config, s: int, pool0: Seq<IpAddress>, n: int, d: Data)
    requires
        cfg.per_bridge > 0,
        0 <= n < pool0.len(),
        drawn_apart(pool0, n),
        bridges_placed(cfg, s, pool0, n, d),
        veths_placed(cfg, s, pool0, n, d),
    ensures
        forall|k: int| 0 <= k < d.bridges@.len() ==> (#[trigger] d.bridges@[k]).1.addr.ip != pool0[n],
        forall|k: int| 0 <= k < d.veth@.len() ==> (#[trigger] d.veth@[k]).1.addr.ip != pool0[n],
{
    let pb = cfg.per_bridge as int;
    assert forall|k: int| 0 <= k < d.bridges@.len() implies (#[trigger] d.bridges@[k]).1.addr.ip != pool0[n] by {
        let pos = bridge_position(s, s / pb + k, pb);
        assert(bridge_entry(cfg, s, pool0, s / pb + k, d.bridges@[k]));
        assert(pool0[pos] != pool0[n]);
    }
    assert forall|k: int| 0 <= k < d.veth@.len() implies (#[trigger] d.veth@[k]).1.addr.ip != pool0[n] by {
        let pos = veth_position(s, s + k, pb);
        assert(veth_entry(cfg, s, pool0, s + k, d.veth@[k]));
        assert(pool0[pos] != pool0[n]);
    }
}


/// No address drawn before position `n` comes again later in the pool.
pub open spec fn drawn_apart(pool0: Seq<IpAddress>, n: int) -> bool {
    forall|j: int, j2: int| 0 <= j < n && j < j2 < pool0.len() ==> pool0[j] != pool0[j2]
}

/// `d` is the plan of instances `s..i` so far, every address of it drawn
/// before position `addresses_used(s, i)`.
pub open spec fn partial_plan(
    cfg: &Config,
    total_hosts: int,
    s: int,
    i: int,
    pool0: Seq<IpAddress>,
    qdisc: Seq<(Option<String>, Option<String>)>,
    data: Data,
) -> bool {
    let pb = cfg.per_bridge as int;
    &&& if total_hosts > 1 {
        data.vxlan@.len() == 1 && data.vxlan@[0].0 == 0 && vxlan_entry(cfg, data.vxlan@[0].1)
    } else {
        data.vxlan@.len() == 0
    }
    &&& data.bridges@.len() == bridges_in(s, i, pb)
    &&& bridges_placed(cfg, s, pool0, addresses_used(s, i, pb), data)
    &&& data.veth@.len() == i - s
    &&& veths_placed(cfg, s, pool0, addresses_used(s, i, pb), data)
    &&& data.qdisc@.len() == qdisc_count(s, i, qdisc.len() as int)
    &&& forall|k: int| 0 <= k < data.qdisc@.len() ==> {
        &&& (#[trigger] data.qdisc@[k]).0 == s + k
        &&& data.qdisc@[k].1.tbf == qdisc[s + k].0
        &&& data.qdisc@[k].1.netem == qdisc[s + k].1
    }
    &&& addresses_distinct(data)
}

#[verifier::spinoff_prover]
/// Adds instance `i` to the plan: its bridge first when the bridge is new,
/// then its veth pair, then its qdisc where the stream reaches it.
fn plan_instance(
    cfg: &Config,
    total_hosts: usize,
    start: usize,
    i: usize,
    pool: &mut IpAddrRange,
    qdisc: &Vec<(Option<String>, Option<String>)>,
    data: &mut Data,
    Ghost(pool0): Ghost<Seq<IpAddress>>,
) -> (r: Result<(), PlanError>)
    requires
        cfg.per_bridge > 0,
        start <= i,
        i < usize::MAX,
        addresses_used(start as int, i as int, cfg.per_bridge as int) <= pool0.len(),
        pool_addresses(*old(pool)) == pool0.skip(addresses_used(start as int, i as int, cfg.per_bridge as int)),
        drawn_apart(pool0, addresses_used(start as int, i as int, cfg.per_bridge as int)),
        partial_plan(cfg, total_hosts as int, start as int, i as int, pool0, qdisc@, *old(data)),
    ensures
        r is Ok <==> addresses_used(start as int, i as int + 1, cfg.per_bridge as int) <= pool0.len(),
        r is Err ==> r->Err_0 == PlanError::AddressesExhausted,
        r is Ok ==> {
            &&& pool_addresses(*final(pool)) == pool0.skip(addresses_used(start as int, i as int + 1, cfg.per_bridge as int))
            &&& drawn_apart(pool0, addresses_used(start as int, i as int + 1, cfg.per_bridge as int))
            &&& partial_plan(cfg, total_hosts as int, start as int, i as int + 1, pool0, qdisc@, *final(data))
        },
{
    let ghost s = start as int;
    proof {
        lemma_next_instance(s, i as int, cfg.per_bridge as int);
    }
    let pb = cfg.per_bridge;
    let b = i / pb;
    let ghost n0 = addresses_used(s, i as int, pb as int);
    if i == start || i % pb == 0 {
        let addr = match next_addr(cfg.net.prefix_len, pool) {
            Ok(a) => a,
            Err(e) => {
                assert(pool0.len() == n0);
                assert(bridges_in(s, i as int + 1, pb as int) == bridges_in(s, i as int, pb as int) + 1);
                assert(addresses_used(s, i as int + 1, pb as int) == n0 + 2);
                return Err(e);
            },
        };
        proof {
            lemma_draw(pool0, n0, pool_addresses(*pool));
            lemma_fresh_address(cfg, s, pool0, n0, *data);
        }
        let bridge = Bridge::new(b, cfg.prefix.as_str(), addr);
        let ghost before = *data;
        data.bridges.push((b, bridge));
        assert(data.bridges@.drop_last() == before.bridges@);
        assert(pool0.skip(n0)[0] == pool0[n0]);
        assert forall|k: int|
            0 <= k < data.bridges@.len() implies bridge_entry(cfg, s, pool0, s / pb as int + k, #[trigger] data.bridges@[k])
                && 0 <= bridge_position(s, s / pb as int + k, pb as int) < n0 + 1 by {
            if k < data.bridges@.len() - 1 {
                assert(before.bridges@[k] == data.bridges@[k]);
            }
        }
        assert(bridges_placed(cfg, s, pool0, n0 + 1, *data));
        assert(veths_placed(cfg, s, pool0, n0, *data));
        proof {
            lemma_veths_later(cfg, s, pool0, n0, n0 + 1, *data);
        }
        assert forall|a: int, c: int|
            0 <= a < c < data.bridges@.len() implies (#[trigger] data.bridges@[a]).1.addr.ip != (#[trigger] data.bridges@[c]).1.addr.ip by {
            if c == data.bridges@.len() - 1 {
                assert(before.bridges@[a] == data.bridges@[a]);
            }
        }
        assert forall|a: int, c: int|
            0 <= a < data.bridges@.len() && 0 <= c < data.veth@.len() implies (#[trigger] data.bridges@[a]).1.addr.ip
                != (#[trigger] data.veth@[c]).1.addr.ip by {
            if a < data.bridges@.len() - 1 {
                assert(before.bridges@[a] == data.bridges@[a]);
            }
        }
    }
    let ghost n1 = if i == start || i % pb == 0 { n0 + 1 } else { n0 };
    let addr = match next_addr(cfg.net.prefix_len, pool) {
        Ok(a) => a,
        Err(e) => {
            assert(pool0.len() == n1);
            return Err(e);
        },
    };
    let ghost mid = *data;
    assert(bridges_placed(cfg, s, pool0, n1, mid));
    assert(veths_placed(cfg, s, pool0, n1, mid));
    proof {
        lemma_draw(pool0, n1, pool_addresses(*pool));
        lemma_fresh_address(cfg, s, pool0, n1, mid);
    }
    assert(pool0.skip(n1)[0] == pool0[n1]);
    let ns = Namespace::new(cfg.prefix.as_str(), i);
    let ghost before = *data;
    data.veth.push((i, NamespaceVeth::new(b, addr, ns)));
    assert forall|a: int, c: int|
        0 <= a < c < data.veth@.len() implies (#[trigger] data.veth@[a]).1.addr.ip != (#[trigger] data.veth@[c]).1.addr.ip by {
        if c == data.veth@.len() - 1 {
            assert(before.veth@[a] == data.veth@[a]);
        }
    }
    assert forall|a: int, c: int|
        0 <= a < data.bridges@.len() && 0 <= c < data.veth@.len() implies (#[trigger] data.bridges@[a]).1.addr.ip
            != (#[trigger] data.veth@[c]).1.addr.ip by {
        if c < data.veth@.len() - 1 {
            assert(before.veth@[c] == data.veth@[c]);
        }
    }
    assert(addresses_used(s, i as int + 1, pb as int) == n1 + 1);
    assert forall|k: int|
        0 <= k < data.veth@.len() implies veth_entry(cfg, s, pool0, s + k, #[trigger] data.veth@[k])
            && 0 <= veth_position(s, s + k, pb as int) < n1 + 1 by {
        if k < data.veth@.len() - 1 {
            assert(before.veth@[k] == data.veth@[k]);
        }
    }
    assert(veths_placed(cfg, s, pool0, n1 + 1, *data));
    assert(bridges_placed(cfg, s, pool0, n1, *data));
    proof {
        lemma_bridges_later(cfg, s, pool0, n1, n1 + 1, *data);
    }
    let ghost before_q = *data;
    if i < qdisc.len() {
        let q = Qdisc { tbf: copy_option(&qdisc[i].0), netem: copy_option(&qdisc[i].1) };
        data.qdisc.push((i, q));
    }
    assert(data.bridges == before_q.bridges && data.veth == before_q.veth);
    assert(bridges_placed(cfg, s, pool0, n1 + 1, *data));
    assert(veths_placed(cfg, s, pool0, n1 + 1, *data));
    assert(addresses_distinct(*data));
    Ok(())
}

/// Builds the plan of the host that runs instances `start..end`, drawing
/// addresses from `pool` (bridge first, then instance, in increasing index)
/// and shaping instance `i` by `qdisc[i]` where the stream reaches it.
pub fn generate_one(
    cfg: &Config,
    total_hosts: usize,
    start: usize,
    end: usize,
    pool: &mut IpAddrRange,
    qdisc: &Vec<(Option<String>, Option<String>)>,
) -> (r: Result<Data, PlanError>)
    requires
        start <= end,
    ensures
        !(0 < cfg.per_bridge <= MAX_VETH_PER_BRIDGE) ==> r == Err::<Data, PlanError>(
            PlanError::PerBridgeOutOfRange,
        ) && pool_addresses(*final(pool)) == pool_addresses(*old(pool)),
        0 < cfg.per_bridge <= MAX_VETH_PER_BRIDGE ==> {
            &&& r is Ok <==> pool_addresses(*old(pool)).len() >= addresses_used(
                start as int,
                end as int,
                cfg.per_bridge as int,
            )
            &&& r is Err ==> r->Err_0 == PlanError::AddressesExhausted
        },
        r is Ok ==> {
            &&& host_plan(
                cfg,
                total_hosts as int,
                start as int,
                end as int,
                pool_addresses(*old(pool)),
                qdisc@,
                r->Ok_0,
            )
            &&& addresses_distinct(r->Ok_0)
            &&& pool_addresses(*final(pool)) == pool_addresses(*old(pool)).skip(
                addresses_used(start as int, end as int, cfg.per_bridge as int),
            )
        },
{
    if cfg.per_bridge == 0 || cfg.per_bridge > MAX_VETH_PER_BRIDGE {
        return Err(PlanError::PerBridgeOutOfRange);
    }
    let ghost pool0 = pool_addresses(*pool);
    let pb = cfg.per_bridge;
    let ghost s = start as int;
    let mut data = Data::new();
    if total_hosts > 1 {
        let name = String::from_str("vx-").concat(cfg.prefix.as_str());
        data.vxlan.push(
            (
                0,
                Vxlan {
                    name,
                    id: cfg.vxlan_id,
                    port: cfg.vxlan_port,
                    group: cfg.vxlan_multicast_group,
                    device: cfg.vxlan_device.clone(),
                },
            ),
        );
    }
    let mut i = start;
    assert(pool0.skip(0) =~= pool0);
    while i < end
        invariant
            start <= i <= end,
            s == start,
            cfg.per_bridge > 0,
            cfg.per_bridge <= MAX_VETH_PER_BRIDGE,
            pool0 == pool_addresses(*old(pool)),
            addresses_used(s, i as int, cfg.per_bridge as int) <= pool0.len(),
            pool_addresses(*pool) == pool0.skip(addresses_used(s, i as int, cfg.per_bridge as int)),
            drawn_apart(pool0, addresses_used(s, i as int, cfg.per_bridge as int)),
            partial_plan(cfg, total_hosts as int, s, i as int, pool0, qdisc@, data),
        decreases end - i,
    {
        proof {
            lemma_used_monotone(s, i as int + 1, end as int, cfg.per_bridge as int);
        }
        match plan_instance(cfg, total_hosts, start, i, pool, qdisc, &mut data, Ghost(pool0)) {
            Ok(()) => {},
            Err(e) => {
                return Err(e);
            },
        }
        i = i + 1;
    }
    Ok(data)
}


/// How many instances host 0 runs: the equal share plus the remainder.
pub open spec fn first_chunk(n: int, h: int) -> int {
    n - (h - 1) * (n / h)
}

/// The first instance of host `g` out of `h`, for `n` instances in all.
pub open spec fn host_start(n: int, h: int, g: int) -> int {
    if g == 0 {
        0
    } else {
        first_chunk(n, h) + (g - 1) * (n / h)
    }
}

/// One past the last instance of host `g`.
pub open spec fn host_end(n: int, h: int, g: int) -> int {
    first_chunk(n, h) + g * (n / h)
}

/// Instance `i` belongs to host `g`.
pub open spec fn in_chunk(n: int, h: int, g: int, i: int) -> bool {
    host_start(n, h, g) <= i < host_end(n, h, g)
}

/// Some host runs instance `i`.
pub open spec fn covered(n: int, h: int, i: int) -> bool {
    exists|g: int| 0 <= g < h && #[trigger] in_chunk(n, h, g, i)
}

/// How many addresses the hosts before host `g` draw.
pub open spec fn host_offset(n: int, h: int, pb: int, g: int) -> int
    decreases g,
{
    if g <= 0 {
        0
    } else {
        host_offset(n, h, pb, g - 1) + addresses_used(host_start(n, h, g - 1), host_end(n, h, g - 1), pb)
    }
}

pub(crate) proof fn lemma_chunk(n: int, h: int, g: int)
    requires
        n >= 0,
        h > 0,
        0 <= g < h,
    ensures
        0 <= host_start(n, h, g) <= host_end(n, h, g) <= n,
        host_end(n, h, h - 1) == n,
        host_start(n, h, g + 1) == host_end(n, h, g),
        0 <= (h - 1) * (n / h) <= n,
        0 <= g * (n / h) <= (h - 1) * (n / h),
{
    lemma_fundamental_div_mod(n, h);
    vstd::arithmetic::div_mod::lemma_mod_pos_bound(n, h);
    vstd::arithmetic::div_mod::lemma_div_pos_is_pos(n, h);
    let q = n / h;
    assert(0 <= (h - 1) * q <= n) by (nonlinear_arith)
        requires
            n == h * q + n % h,
            0 <= n % h,
            q >= 0,
            h > 0,
    ;
    assert(0 <= g * q <= (h - 1) * q) by (nonlinear_arith)
        requires
            0 <= g <= h - 1,
            q >= 0,
    ;
    if g > 0 {
        assert((g - 1) * q <= g * q) by (nonlinear_arith)
            requires
                g >= 1,
                q >= 0,
        ;
    }
}

proof fn lemma_used_nonnegative(s: int, e: int, pb: int)
    requires
        pb > 0,
        0 <= s <= e,
    ensures
        addresses_used(s, e, pb) >= 0,
{
    if e > s {
        lemma_div_is_ordered(s, e - 1, pb);
    }
}

proof fn lemma_offset_monotone(n: int, h: int, pb: int, a: int, b: int)
    requires
        n >= 0,
        h > 0,
        pb > 0,
        0 <= a <= b <= h,
    ensures
        host_offset(n, h, pb, a) <= host_offset(n, h, pb, b),
    decreases b - a,
{
    if a < b {
        lemma_chunk(n, h, b - 1);
        lemma_used_nonnegative(host_start(n, h, b - 1), host_end(n, h, b - 1), pb);
        lemma_offset_monotone(n, h, pb, a, b - 1);
    }
}

/// The hosts' chunks cover instances `0..n`, each instance once, and host 0
/// runs the equal share plus the remainder.
pub proof fn lemma_chunks_partition(n: int, h: int)
    requires
        n >= 0,
        h > 0,
    ensures
        host_end(n, h, 0) - host_start(n, h, 0) == n - (h - 1) * (n / h),
        forall|i: int| 0 <= i < n <==> #[trigger] covered(n, h, i),
        forall|g1: int, g2: int|
            0 <= g1 < g2 < h ==> host_end(n, h, g1) <= host_start(n, h, g2),
{
    let q = n / h;
    let f = first_chunk(n, h);
    lemma_chunk(n, h, 0);
    assert forall|g1: int, g2: int| 0 <= g1 < g2 < h implies host_end(n, h, g1) <= host_start(n, h, g2) by {
        lemma_chunk(n, h, g1);
        assert(g1 * q <= (g2 - 1) * q) by (nonlinear_arith)
            requires
                g1 <= g2 - 1,
                q >= 0,
        ;
    }
    assert forall|i: int| 0 <= i < n implies #[trigger] covered(n, h, i) by {
        if i < f {
            assert(in_chunk(n, h, 0, i));
        } else {
            vstd::arithmetic::div_mod::lemma_div_pos_is_pos(n, h);
            assert(q > 0) by (nonlinear_arith)
                requires
                    q >= 0,
                    f == n - (h - 1) * q,
                    i >= f,
                    i < n,
            ;
            let g = (i - f) / q + 1;
            lemma_fundamental_div_mod(i - f, q);
            vstd::arithmetic::div_mod::lemma_mod_pos_bound(i - f, q);
            vstd::arithmetic::div_mod::lemma_div_pos_is_pos(i - f, q);
            assert((g - 1) * q <= i - f < g * q) by (nonlinear_arith)
                requires
                    i - f == q * ((i - f) / q) + (i - f) % q,
                    0 <= (i - f) % q < q,
                    g == (i - f) / q + 1,
            ;
            assert(g < h) by (nonlinear_arith)
                requires
                    (g - 1) * q <= i - f,
                    i - f < n - f,
                    n - f == (h - 1) * q,
                    q > 0,
            ;
            assert(in_chunk(n, h, g, i));
        }
    }
    assert forall|i: int| #[trigger] covered(n, h, i) implies 0 <= i < n by {
        let g = choose|g: int| 0 <= g < h && #[trigger] in_chunk(n, h, g, i);
        lemma_chunk(n, h, g);
    }
}

/// Some plan runs instance `i`.
pub open spec fn instance_planned(plans: Seq<Data>, i: int) -> bool {
    exists|g: int, k: int|
        0 <= g < plans.len() && 0 <= k < plans[g].veth@.len() && (#[trigger] plans[g].veth@[k]).0 == i
}

/// No instance is planned twice, on one host or on two.
pub open spec fn instances_unique(plans: Seq<Data>) -> bool {
    forall|g1: int, k1: int, g2: int, k2: int|
        0 <= g1 < plans.len() && 0 <= k1 < plans[g1].veth@.len() && 0 <= g2 < plans.len() && 0 <= k2
            < plans[g2].veth@.len() && (#[trigger] plans[g1].veth@[k1]).0 == (#[trigger] plans[g2].veth@[k2]).0
            ==> g1 == g2 && k1 == k2
}

proof fn lemma_plans_partition(
    cfg: &Config,
    n: int,
    h: int,
    pool0: Seq<IpAddress>,
    qdisc: Seq<(Option<String>, Option<String>)>,
    plans: Seq<Data>,
)
    requires
        n >= 0,
        h > 0,
        plans.len() == h,
        forall|g: int|
            0 <= g < h ==> host_plan(
                cfg,
                h,
                host_start(n, h, g),
                host_end(n, h, g),
                pool0.skip(host_offset(n, h, cfg.per_bridge as int, g)),
                qdisc,
                #[trigger] plans[g],
            ),
    ensures
        plans[0].veth@.len() == n - (h - 1) * (n / h),
        forall|i: int| 0 <= i < n <==> #[trigger] instance_planned(plans, i),
        instances_unique(plans),
{
    lemma_chunks_partition(n, h);
    let pb = cfg.per_bridge as int;
    assert(host_plan(cfg, h, host_start(n, h, 0), host_end(n, h, 0), pool0.skip(host_offset(n, h, pb, 0)), qdisc, plans[0]));
    assert forall|i: int| 0 <= i < n implies #[trigger] instance_planned(plans, i) by {
        assert(covered(n, h, i));
        let g = choose|g: int| 0 <= g < h && #[trigger] in_chunk(n, h, g, i);
        let s = host_start(n, h, g);
        assert(host_plan(cfg, h, s, host_end(n, h, g), pool0.skip(host_offset(n, h, pb, g)), qdisc, plans[g]));
        let k = i - s;
        assert(veth_entry(cfg, s, pool0.skip(host_offset(n, h, pb, g)), s + k, plans[g].veth@[k]));
    }
    assert forall|i: int| #[trigger] instance_planned(plans, i) implies 0 <= i < n by {
        let (g, k) = choose|g: int, k: int|
            0 <= g < plans.len() && 0 <= k < plans[g].veth@.len() && (#[trigger] plans[g].veth@[k]).0 == i;
        let s = host_start(n, h, g);
        assert(host_plan(cfg, h, s, host_end(n, h, g), pool0.skip(host_offset(n, h, pb, g)), qdisc, plans[g]));
        assert(veth_entry(cfg, s, pool0.skip(host_offset(n, h, pb, g)), s + k, plans[g].veth@[k]));
        assert(in_chunk(n, h, g, i));
        assert(covered(n, h, i));
    }
    assert forall|g1: int, k1: int, g2: int, k2: int|
        0 <= g1 < plans.len() && 0 <= k1 < plans[g1].veth@.len() && 0 <= g2 < plans.len() && 0 <= k2
            < plans[g2].veth@.len() && (#[trigger] plans[g1].veth@[k1]).0 == (#[trigger] plans[g2].veth@[k2]).0
            implies g1 == g2 && k1 == k2 by {
        let s1 = host_start(n, h, g1);
        let s2 = host_start(n, h, g2);
        assert(host_plan(cfg, h, s1, host_end(n, h, g1), pool0.skip(host_offset(n, h, pb, g1)), qdisc, plans[g1]));
        assert(host_plan(cfg, h, s2, host_end(n, h, g2), pool0.skip(host_offset(n, h, pb, g2)), qdisc, plans[g2]));
        assert(veth_entry(cfg, s1, pool0.skip(host_offset(n, h, pb, g1)), s1 + k1, plans[g1].veth@[k1]));
        assert(veth_entry(cfg, s2, pool0.skip(host_offset(n, h, pb, g2)), s2 + k2, plans[g2].veth@[k2]));
        if g1 < g2 {
            assert(host_end(n, h, g1) <= host_start(n, h, g2));
        } else if g2 < g1 {
            assert(host_end(n, h, g2) <= host_start(n, h, g1));
        }
    }
}

/// Every instance of a host plan sits on its own bridge, which the plan holds.
proof fn lemma_host_plan_bridges(
    cfg: &Config,
    total_hosts: int,
    s: int,
    e: int,
    pool: Seq<IpAddress>,
    qdisc: Seq<(Option<String>, Option<String>)>,
    d: Data,
)
    requires
        cfg.per_bridge > 0,
        0 <= s <= e,
        host_plan(cfg, total_hosts, s, e, pool, qdisc, d),
    ensures
        veths_on_their_bridges(d, cfg.per_bridge as int),
{
    let pb = cfg.per_bridge as int;
    assert forall|k: int| 0 <= k < d.veth@.len() implies {
        &&& (#[trigger] d.veth@[k]).1.bridge == d.veth@[k].0 as int / pb
        &&& exists|m: int| 0 <= m < d.bridges@.len() && (#[trigger] d.bridges@[m]).0 == d.veth@[k].1.bridge
    } by {
        assert(veth_entry(cfg, s, pool, s + k, d.veth@[k]));
        let i = s + k;
        lemma_div_is_ordered(s, i, pb);
        lemma_div_is_ordered(i, e - 1, pb);
        let m = i / pb - s / pb;
        assert(bridge_entry(cfg, s, pool, s / pb + m, d.bridges@[m]));
    }
}

/// A host plan that draws its addresses apart keeps the invariants of a plan.
proof fn lemma_host_plan_wf(
    cfg: &Config,
    total_hosts: int,
    s: int,
    e: int,
    pool: Seq<IpAddress>,
    qdisc: Seq<(Option<String>, Option<String>)>,
    d: Data,
)
    requires
        cfg.per_bridge > 0,
        0 <= s <= e,
        host_plan(cfg, total_hosts, s, e, pool, qdisc, d),
        addresses_distinct(d),
    ensures
        d.wf(cfg.per_bridge as int),
{
    let pb = cfg.per_bridge as int;
    lemma_host_plan_bridges(cfg, total_hosts, s, e, pool, qdisc, d);
    assert forall|a: int, b: int| 0 <= a < b < d.bridges@.len() implies (#[trigger] d.bridges@[a]).0 < (#[trigger] d.bridges@[b]).0 by {
        assert(bridge_entry(cfg, s, pool, s / pb + a, d.bridges@[a]));
        assert(bridge_entry(cfg, s, pool, s / pb + b, d.bridges@[b]));
    }
    assert forall|a: int, b: int| 0 <= a < b < d.veth@.len() implies (#[trigger] d.veth@[a]).0 < (#[trigger] d.veth@[b]).0 by {
        assert(veth_entry(cfg, s, pool, s + a, d.veth@[a]));
        assert(veth_entry(cfg, s, pool, s + b, d.veth@[b]));
    }
    assert(d.qdisc@.len() <= d.veth@.len());
    assert forall|k: int| 0 <= k < d.qdisc@.len() implies d.has_instance(#[trigger] d.qdisc@[k].0) by {
        assert(veth_entry(cfg, s, pool, s + k, d.veth@[k]));
        assert(d.veth@[k].0 == d.qdisc@[k].0);
    }
    assert forall|a: int, b: int| 0 <= a < b < d.qdisc@.len() implies (#[trigger] d.qdisc@[a]).0 < (#[trigger] d.qdisc@[b]).0 by {}
    assert(keys_increase(d.vxlan@));
}

/// Splits instances `0..total_commands` into `total_hosts` contiguous chunks,
/// host 0 taking the remainder, and plans each host in turn from one address
/// pool. With more than one host every plan gets the VXLAN overlay.
pub fn generate(
    cfg: &Config,
    total_hosts: usize,
    total_commands: usize,
    pool: &mut IpAddrRange,
    qdisc: &Vec<(Option<String>, Option<String>)>,
) -> (r: Result<Vec<Data>, PlanError>)
    ensures
        !(0 < cfg.per_bridge <= MAX_VETH_PER_BRIDGE) ==> r == Err::<Vec<Data>, PlanError>(
            PlanError::PerBridgeOutOfRange,
        ),
        0 < cfg.per_bridge <= MAX_VETH_PER_BRIDGE && total_hosts == 0 ==> r == Err::<
            Vec<Data>,
            PlanError,
        >(PlanError::NoHosts),
        0 < cfg.per_bridge <= MAX_VETH_PER_BRIDGE && total_hosts > 0 ==> {
            &&& r is Ok <==> pool_addresses(*old(pool)).len() >= host_offset(
                total_commands as int,
                total_hosts as int,
                cfg.per_bridge as int,
                total_hosts as int,
            )
            &&& r is Err ==> r->Err_0 == PlanError::AddressesExhausted
        },
        r is Ok ==> {
            let plans = r->Ok_0@;
            let n = total_commands as int;
            let h = total_hosts as int;
            let pb = cfg.per_bridge as int;
            &&& plans.len() == h
            &&& forall|g: int|
                0 <= g < h ==> host_plan(
                    cfg,
                    h,
                    host_start(n, h, g),
                    host_end(n, h, g),
                    pool_addresses(*old(pool)).skip(host_offset(n, h, pb, g)),
                    qdisc@,
                    #[trigger] plans[g],
                )
            &&& forall|g: int| 0 <= g < h ==> veths_on_their_bridges(#[trigger] plans[g], pb)
            &&& forall|g: int| 0 <= g < h ==> addresses_distinct(#[trigger] plans[g])
            &&& forall|g: int| 0 <= g < h ==> (#[trigger] plans[g]).wf(pb)
            &&& plans[0].veth@.len() == n - (h - 1) * (n / h)
            &&& forall|i: int| 0 <= i < n <==> #[trigger] instance_planned(plans, i)
            &&& instances_unique(plans)
            &&& pool_addresses(*final(pool)) == pool_addresses(*old(pool)).skip(
                host_offset(n, h, pb, h),
            )
        },
{
    if cfg.per_bridge == 0 || cfg.per_bridge > MAX_VETH_PER_BRIDGE {
        return Err(PlanError::PerBridgeOutOfRange);
    }
    if total_hosts == 0 {
        return Err(PlanError::NoHosts);
    }
    let ghost pool0 = pool_addresses(*pool);
    let ghost n = total_commands as int;
    let ghost h = total_hosts as int;
    let ghost pb = cfg.per_bridge as int;
    proof {
        lemma_chunk(n, h, 0);
    }
    let base = total_commands / total_hosts;
    let first = total_commands - (total_hosts - 1) * base;
    let mut plans: Vec<Data> = Vec::new();
    let mut g: usize = 0;
    while g < total_hosts
        invariant
            0 <= g <= total_hosts,
            n == total_commands,
            h == total_hosts,
            h > 0,
            pb == cfg.per_bridge,
            pb > 0,
            cfg.per_bridge <= MAX_VETH_PER_BRIDGE,
            base == n / h,
            first == first_chunk(n, h),
            pool0 == pool_addresses(*old(pool)),
            plans@.len() == g,
            host_offset(n, h, pb, g as int) <= pool0.len(),
            pool_addresses(*pool) == pool0.skip(host_offset(n, h, pb, g as int)),
            forall|j: int|
                0 <= j < g ==> host_plan(
                    cfg,
                    h,
                    host_start(n, h, j),
                    host_end(n, h, j),
                    pool0.skip(host_offset(n, h, pb, j)),
                    qdisc@,
                    #[trigger] plans@[j],
                ),
            forall|j: int| 0 <= j < g ==> veths_on_their_bridges(#[trigger] plans@[j], pb),
            forall|j: int| 0 <= j < g ==> addresses_distinct(#[trigger] plans@[j]),
            forall|j: int| 0 <= j < g ==> (#[trigger] plans@[j]).wf(pb),
        decreases total_hosts - g,
    {
        proof {
            lemma_chunk(n, h, g as int);
            lemma_offset_monotone(n, h, pb, g as int + 1, h);
            lemma_offset_monotone(n, h, pb, 0, g as int);
        }
        let start = if g == 0 {
            0
        } else {
            first + (g - 1) * base
        };
        let end = first + g * base;
        let ghost off = host_offset(n, h, pb, g as int);
        assert(start as int == host_start(n, h, g as int));
        assert(end as int == host_end(n, h, g as int));
        assert(host_offset(n, h, pb, g as int + 1) == off + addresses_used(start as int, end as int, pb));
        proof {
            lemma_used_nonnegative(start as int, end as int, pb);
        }
        assert(pool_addresses(*pool).len() == pool0.len() - off);
        let data = match generate_one(cfg, total_hosts, start, end, pool, qdisc) {
            Ok(d) => d,
            Err(e) => {
                assert(pool0.len() - off < addresses_used(start as int, end as int, pb));
                return Err(e);
            },
        };
        assert(pool0.len() - off >= addresses_used(start as int, end as int, pb));
        proof {
            lemma_host_plan_bridges(cfg, h, start as int, end as int, pool0.skip(off), qdisc@, data);
            lemma_host_plan_wf(cfg, h, start as int, end as int, pool0.skip(off), qdisc@, data);
            assert(pool0.skip(off).skip(addresses_used(start as int, end as int, pb)) =~= pool0.skip(
                host_offset(n, h, pb, g as int + 1),
            ));
        }
        plans.push(data);
        g = g + 1;
    }
    proof {
        lemma_plans_partition(cfg, n, h, pool0, qdisc@, plans@);
    }
    Ok(plans)
}

} // verus!
