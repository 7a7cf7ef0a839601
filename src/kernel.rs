//! The kernel verbs, as values: each names one change to the host's network
//! and renders as the iproute2, tc or iptables command line that makes it.
use vstd::prelude::*;

use crate::network::{dotted_quad, ip_text, ip_text_of, Addr, IpAddress};
use crate::text::{decimal, u16_text, u32_text};

verus! {

/// One change to the kernel's network configuration.
#[allow(inconsistent_fields)]
#[derive(Debug, Clone, PartialEq, Eq)]
pub enum Action {
    AddNamespace { ns: String },
    DelNamespace { ns: String },
    AddBridge { name: String },
    /// A veth pair with both ends on the host.
    AddVethPair { name: String, peer: String },
    /// A veth pair whose `guest` end is created inside namespace `ns`.
    AddNamespaceVeth { host: String, guest: String, ns: String },
    AddVxlan { name: String, id: u32, group: u32, device: String, port: u16 },
    AddAddress { netns: Option<String>, dev: String, addr: Addr },
    SetMaster { dev: String, master: String },
    SetUp { netns: Option<String>, dev: String },
    AddDefaultRoute { netns: String, gateway: IpAddress },
    /// A token bucket filter at the root of `dev`.
    AddTbf { netns: String, dev: String, options: String },
    /// A netem qdisc: under the token bucket filter when there is one, else at the root.
    AddNetem { netns: String, dev: String, under_tbf: bool, options: String },
    DelLink { name: String },
    /// Drops, inside `netns`, every packet that comes from `source`.
    DropFrom { netns: String, source: IpAddress },
    /// Removes a rule that `DropFrom` installed.
    UndropFrom { netns: String, source: IpAddress },
}

/// An action as mathematics sees it: its strings as character sequences.
#[allow(inconsistent_fields)]
pub enum Verb {
    AddNamespace { ns: Seq<char> },
    DelNamespace { ns: Seq<char> },
    AddBridge { name: Seq<char> },
    AddVethPair { name: Seq<char>, peer: Seq<char> },
    AddNamespaceVeth { host: Seq<char>, guest: Seq<char>, ns: Seq<char> },
    AddVxlan { name: Seq<char>, id: u32, group: u32, device: Seq<char>, port: u16 },
    AddAddress { netns: Option<Seq<char>>, dev: Seq<char>, addr: Addr },
    SetMaster { dev: Seq<char>, master: Seq<char> },
    SetUp { netns: Option<Seq<char>>, dev: Seq<char> },
    AddDefaultRoute { netns: Seq<char>, gateway: IpAddress },
    AddTbf { netns: Seq<char>, dev: Seq<char>, options: Seq<char> },
    AddNetem { netns: Seq<char>, dev: Seq<char>, under_tbf: bool, options: Seq<char> },
    DelLink { name: Seq<char> },
    DropFrom { netns: Seq<char>, source: IpAddress },
    UndropFrom { netns: Seq<char>, source: IpAddress },
}

/// The view of an optional string.
pub open spec fn opt_view(o: Option<String>) -> Option<Seq<char>> {
    match o {
        Some(t) => Some(t@),
        None => None,
    }
}

impl View for Action {
    type V = Verb;

    open spec fn view(&self) -> Verb {
        match self {
            Action::AddNamespace { ns } => Verb::AddNamespace { ns: ns@ },
            Action::DelNamespace { ns } => Verb::DelNamespace { ns: ns@ },
            Action::AddBridge { name } => Verb::AddBridge { name: name@ },
            Action::AddVethPair { name, peer } => Verb::AddVethPair { name: name@, peer: peer@ },
            Action::AddNamespaceVeth { host, guest, ns } => Verb::AddNamespaceVeth {
                host: host@,
                guest: guest@,
                ns: ns@,
            },
            Action::AddVxlan { name, id, group, device, port } => Verb::AddVxlan {
                name: name@,
                id: *id,
                group: *group,
                device: device@,
                port: *port,
            },
            Action::AddAddress { netns, dev, addr } => Verb::AddAddress {
                netns: opt_view(*netns),
                dev: dev@,
                addr: *addr,
            },
            Action::SetMaster { dev, master } => Verb::SetMaster { dev: dev@, master: master@ },
            Action::SetUp { netns, dev } => Verb::SetUp { netns: opt_view(*netns), dev: dev@ },
            Action::AddDefaultRoute { netns, gateway } => Verb::AddDefaultRoute {
                netns: netns@,
                gateway: *gateway,
            },
            Action::AddTbf { netns, dev, options } => Verb::AddTbf {
                netns: netns@,
                dev: dev@,
                options: options@,
            },
            Action::AddNetem { netns, dev, under_tbf, options } => Verb::AddNetem {
                netns: netns@,
                dev: dev@,
                under_tbf: *under_tbf,
                options: options@,
            },
            Action::DelLink { name } => Verb::DelLink { name: name@ },
            Action::DropFrom { netns, source } => Verb::DropFrom { netns: netns@, source: *source },
            Action::UndropFrom { netns, source } => Verb::UndropFrom {
                netns: netns@,
                source: *source,
            },
        }
    }
}

/// The views of a sequence of actions.
pub open spec fn verbs(actions: Seq<Action>) -> Seq<Verb> {
    actions.map_values(|a: Action| a@)
}

/// `ip ` on the host, `ip -n <ns> ` inside a namespace.
pub open spec fn ip_in(netns: Option<Seq<char>>) -> Seq<char> {
    match netns {
        Some(ns) => "ip -n "@ + ns + " "@,
        None => "ip "@,
    }
}

/// The command line that carries out an action.
pub open spec fn verb_text(v: Verb) -> Seq<char> {
    match v {
        Verb::AddNamespace { ns } => "ip netns add "@ + ns,
        Verb::DelNamespace { ns } => "ip netns del "@ + ns,
        Verb::AddBridge { name } => "ip link add "@ + name + " type bridge"@,
        Verb::AddVethPair { name, peer } => "ip link add name "@ + name + " type veth peer name "@
            + peer,
        Verb::AddNamespaceVeth { host, guest, ns } => "ip link add "@ + host
            + " type veth peer name "@ + guest + " netns "@ + ns,
        Verb::AddVxlan { name, id, group, device, port } => "ip link add "@ + name
            + " type vxlan id "@ + decimal(id as nat) + " group "@ + dotted_quad(group) + " dev "@
            + device + " dstport "@ + decimal(port as nat),
        Verb::AddAddress { netns, dev, addr } => ip_in(netns) + "addr add "@ + addr.spec_text()
            + " dev "@ + dev,
        Verb::SetMaster { dev, master } => "ip link set "@ + dev + " master "@ + master,
        Verb::SetUp { netns, dev } => ip_in(netns) + "link set "@ + dev + " up"@,
        Verb::AddDefaultRoute { netns, gateway } => "ip -n "@ + netns + " route add default via "@
            + ip_text_of(gateway),
        Verb::AddTbf { netns, dev, options } => "ip netns exec "@ + netns + " tc qdisc add dev "@
            + dev + " root handle 1: tbf "@ + options,
        Verb::AddNetem { netns, dev, under_tbf, options } => "ip netns exec "@ + netns
            + " tc qdisc add dev "@ + dev + (if under_tbf {
            " parent 1:1 handle 10: netem "@
        } else {
            " root handle 1: netem "@
        }) + options,
        Verb::DelLink { name } => "ip link del "@ + name,
        Verb::DropFrom { netns, source } => "ip netns exec "@ + netns + " iptables -I INPUT -s "@
            + ip_text_of(source) + " -j DROP"@,
        Verb::UndropFrom { netns, source } => "ip netns exec "@ + netns
            + " iptables -D INPUT -s "@ + ip_text_of(source) + " -j DROP"@,
    }
}

fn ip_prefix(netns: &Option<String>) -> (r: String)
    ensures
        r@ == ip_in(opt_view(*netns)),
{
    match netns {
        Some(ns) => String::from_str("ip -n ").concat(ns.as_str()).concat(" "),
        None => String::from_str("ip "),
    }
}

impl Action {
    /// The command line that carries out this action.
    pub fn command(&self) -> (r: String)
        ensures
            r@ == verb_text(self@),
    {
        match self {
            Action::AddNamespace { ns } => String::from_str("ip netns add ").concat(ns.as_str()),
            Action::DelNamespace { ns } => String::from_str("ip netns del ").concat(ns.as_str()),
            Action::AddBridge { name } => String::from_str("ip link add ").concat(name.as_str()).concat(
                " type bridge",
            ),
            Action::AddVethPair { name, peer } => String::from_str("ip link add name ").concat(
                name.as_str(),
            ).concat(" type veth peer name ").concat(peer.as_str()),
            Action::AddNamespaceVeth { host, guest, ns } => String::from_str("ip link add ").concat(
                host.as_str(),
            ).concat(" type veth peer name ").concat(guest.as_str()).concat(" netns ").concat(
                ns.as_str(),
            ),
            Action::AddVxlan { name, id, group, device, port } => {
                let id_text = u32_text(*id);
                let group_text = ip_text(IpAddress::V4(*group));
                let port_text = u16_text(*port);
                String::from_str("ip link add ").concat(name.as_str()).concat(
                    " type vxlan id ",
                ).concat(id_text.as_str()).concat(" group ").concat(group_text.as_str()).concat(
                    " dev ",
                ).concat(device.as_str()).concat(" dstport ").concat(port_text.as_str())
            },
            Action::AddAddress { netns, dev, addr } => {
                let a = addr.to_string();
                ip_prefix(netns).concat("addr add ").concat(a.as_str()).concat(" dev ").concat(
                    dev.as_str(),
                )
            },
            Action::SetMaster { dev, master } => String::from_str("ip link set ").concat(
                dev.as_str(),
            ).concat(" master ").concat(master.as_str()),
            Action::SetUp { netns, dev } => ip_prefix(netns).concat("link set ").concat(
                dev.as_str(),
            ).concat(" up"),
            Action::AddDefaultRoute { netns, gateway } => {
                let g = ip_text(*gateway);
                String::from_str("ip -n ").concat(netns.as_str()).concat(
                    " route add default via ",
                ).concat(g.as_str())
            },
            Action::AddTbf { netns, dev, options } => String::from_str("ip netns exec ").concat(
                netns.as_str(),
            ).concat(" tc qdisc add dev ").concat(dev.as_str()).concat(" root handle 1: tbf ").concat(
                options.as_str(),
            ),
            Action::AddNetem { netns, dev, under_tbf, options } => {
                let s = String::from_str("ip netns exec ").concat(netns.as_str()).concat(
                    " tc qdisc add dev ",
                ).concat(dev.as_str());
                let s = if *under_tbf {
                    s.concat(" parent 1:1 handle 10: netem ")
                } else {
                    s.concat(" root handle 1: netem ")
                };
                s.concat(options.as_str())
            },
            Action::DelLink { name } => String::from_str("ip link del ").concat(name.as_str()),
            Action::DropFrom { netns, source } => {
                let src = ip_text(*source);
                String::from_str("ip netns exec ").concat(netns.as_str()).concat(
                    " iptables -I INPUT -s ",
                ).concat(src.as_str()).concat(" -j DROP")
            },
            Action::UndropFrom { netns, source } => {
                let src = ip_text(*source);
                String::from_str("ip netns exec ").concat(netns.as_str()).concat(
                    " iptables -D INPUT -s ",
                ).concat(src.as_str()).concat(" -j DROP")
            },
        }
    }
}


/// What the host's network holds, as far as actions create and delete it:
/// the links on the host and the namespaces. A link inside a namespace goes
/// with its namespace and is not counted.
pub struct KernelState {
    pub links: Set<Seq<char>>,
    pub namespaces: Set<Seq<char>>,
}

/// The state after an action that succeeded. Deleting what is absent changes nothing.
pub open spec fn apply(st: KernelState, v: Verb) -> KernelState {
    match v {
        Verb::AddNamespace { ns } => KernelState { namespaces: st.namespaces.insert(ns), ..st },
        Verb::DelNamespace { ns } => KernelState { namespaces: st.namespaces.remove(ns), ..st },
        Verb::AddBridge { name } => KernelState { links: st.links.insert(name), ..st },
        Verb::AddVethPair { name, peer } => KernelState { links: st.links.insert(name).insert(peer), ..st },
        Verb::AddNamespaceVeth { host, .. } => KernelState { links: st.links.insert(host), ..st },
        Verb::AddVxlan { name, .. } => KernelState { links: st.links.insert(name), ..st },
        Verb::DelLink { name } => KernelState { links: st.links.remove(name), ..st },
        _ => st,
    }
}

/// The state after a run of actions that all succeeded.
pub open spec fn run(st: KernelState, vs: Seq<Verb>) -> KernelState
    decreases vs.len(),
{
    if vs.len() == 0 {
        st
    } else {
        apply(run(st, vs.drop_last()), vs.last())
    }
}

/// The links an action creates.
pub open spec fn creates_links(v: Verb) -> Set<Seq<char>> {
    match v {
        Verb::AddBridge { name } => set![name],
        Verb::AddVethPair { name, peer } => set![name, peer],
        Verb::AddNamespaceVeth { host, .. } => set![host],
        Verb::AddVxlan { name, .. } => set![name],
        _ => Set::empty(),
    }
}

/// The namespaces an action creates.
pub open spec fn creates_namespaces(v: Verb) -> Set<Seq<char>> {
    match v {
        Verb::AddNamespace { ns } => set![ns],
        _ => Set::empty(),
    }
}

/// The links an action deletes.
pub open spec fn deletes_links(v: Verb) -> Set<Seq<char>> {
    match v {
        Verb::DelLink { name } => set![name],
        _ => Set::empty(),
    }
}

/// The namespaces an action deletes.
pub open spec fn deletes_namespaces(v: Verb) -> Set<Seq<char>> {
    match v {
        Verb::DelNamespace { ns } => set![ns],
        _ => Set::empty(),
    }
}

/// The union of `f` over the actions of `vs`.
pub open spec fn gathered(vs: Seq<Verb>, f: spec_fn(Verb) -> Set<Seq<char>>) -> Set<Seq<char>>
    decreases vs.len(),
{
    if vs.len() == 0 {
        Set::empty()
    } else {
        gathered(vs.drop_last(), f) + f(vs.last())
    }
}

/// Every link that some action of `vs` creates.
pub open spec fn created_links(vs: Seq<Verb>) -> Set<Seq<char>> {
    gathered(vs, |v: Verb| creates_links(v))
}

/// Every namespace that some action of `vs` creates.
pub open spec fn created_namespaces(vs: Seq<Verb>) -> Set<Seq<char>> {
    gathered(vs, |v: Verb| creates_namespaces(v))
}

/// Every link that some action of `vs` deletes.
pub open spec fn deleted_links(vs: Seq<Verb>) -> Set<Seq<char>> {
    gathered(vs, |v: Verb| deletes_links(v))
}

/// Every namespace that some action of `vs` deletes.
pub open spec fn deleted_namespaces(vs: Seq<Verb>) -> Set<Seq<char>> {
    gathered(vs, |v: Verb| deletes_namespaces(v))
}

/// What a union over two runs gathers is what each gathers.
pub proof fn lemma_gathered_concat(a: Seq<Verb>, b: Seq<Verb>, f: spec_fn(Verb) -> Set<Seq<char>>)
    ensures
        gathered(a + b, f) == gathered(a, f) + gathered(b, f),
    decreases b.len(),
{
    if b.len() == 0 {
        assert(a + b =~= a);
        assert(gathered(a, f) + Set::empty() =~= gathered(a, f));
    } else {
        lemma_gathered_concat(a, b.drop_last(), f);
        assert((a + b).drop_last() =~= a + b.drop_last());
        assert(gathered(a + b, f) =~= gathered(a, f) + gathered(b, f));
    }
}

/// A name is gathered exactly when some action yields it.
pub proof fn lemma_gathered_members(vs: Seq<Verb>, f: spec_fn(Verb) -> Set<Seq<char>>)
    ensures
        forall|x: Seq<char>|
            #[trigger] gathered(vs, f).contains(x) <==> exists|i: int| 0 <= i < vs.len() && f(vs[i]).contains(x),
    decreases vs.len(),
{
    if vs.len() > 0 {
        lemma_gathered_members(vs.drop_last(), f);
        assert forall|x: Seq<char>| #[trigger] gathered(vs, f).contains(x) <==> exists|i: int| 0 <= i < vs.len() && f(vs[i]).contains(x) by {
            assert(gathered(vs, f) == gathered(vs.drop_last(), f) + f(vs.last()));
            assert(gathered(vs.drop_last(), f).contains(x) <==> exists|i: int| 0 <= i < vs.drop_last().len() && f(vs.drop_last()[i]).contains(x));
            if gathered(vs, f).contains(x) {
                if gathered(vs.drop_last(), f).contains(x) {
                    let i = choose|i: int| 0 <= i < vs.drop_last().len() && f(vs.drop_last()[i]).contains(x);
                    assert(f(vs[i]).contains(x));
                } else {
                    assert(f(vs[vs.len() - 1]).contains(x));
                }
            }
            if exists|i: int| 0 <= i < vs.len() && f(vs[i]).contains(x) {
                let i = choose|i: int| 0 <= i < vs.len() && f(vs[i]).contains(x);
                if i < vs.len() - 1 {
                    assert(f(vs.drop_last()[i]).contains(x));
                    assert(gathered(vs.drop_last(), f).contains(x));
                }
            }
        }
    }
}

/// What a run creates and deletes is what its two parts do.
pub proof fn lemma_effects_concat(a: Seq<Verb>, b: Seq<Verb>)
    ensures
        created_links(a + b) == created_links(a) + created_links(b),
        created_namespaces(a + b) == created_namespaces(a) + created_namespaces(b),
        deleted_links(a + b) == deleted_links(a) + deleted_links(b),
        deleted_namespaces(a + b) == deleted_namespaces(a) + deleted_namespaces(b),
{
    lemma_gathered_concat(a, b, |v: Verb| creates_links(v));
    lemma_gathered_concat(a, b, |v: Verb| creates_namespaces(v));
    lemma_gathered_concat(a, b, |v: Verb| deletes_links(v));
    lemma_gathered_concat(a, b, |v: Verb| deletes_namespaces(v));
}

/// A run adds nothing but what its actions create.
pub proof fn lemma_run_grows_by_creations(st: KernelState, vs: Seq<Verb>)
    ensures
        run(st, vs).links.subset_of(st.links + created_links(vs)),
        run(st, vs).namespaces.subset_of(st.namespaces + created_namespaces(vs)),
    decreases vs.len(),
{
    if vs.len() > 0 {
        lemma_run_grows_by_creations(st, vs.drop_last());
        assert(created_links(vs) == created_links(vs.drop_last()) + creates_links(vs.last()));
        assert(created_namespaces(vs) == created_namespaces(vs.drop_last()) + creates_namespaces(vs.last()));
    }
}

/// A run that creates nothing removes everything its actions delete.
pub proof fn lemma_run_of_deletions(st: KernelState, vs: Seq<Verb>)
    requires
        created_links(vs).is_empty(),
        created_namespaces(vs).is_empty(),
    ensures
        run(st, vs).links.subset_of(st.links.difference(deleted_links(vs))),
        run(st, vs).namespaces.subset_of(st.namespaces.difference(deleted_namespaces(vs))),
    decreases vs.len(),
{
    if vs.len() > 0 {
        let last = vs.last();
        assert(created_links(vs) == created_links(vs.drop_last()) + creates_links(last));
        assert(created_namespaces(vs) == created_namespaces(vs.drop_last()) + creates_namespaces(last));
        assert(created_links(vs.drop_last()).subset_of(created_links(vs)));
        assert(created_namespaces(vs.drop_last()).subset_of(created_namespaces(vs)));
        assert(creates_links(last).subset_of(created_links(vs)));
        assert(creates_namespaces(last).subset_of(created_namespaces(vs)));
        assert(deleted_links(vs) == deleted_links(vs.drop_last()) + deletes_links(last));
        assert(deleted_namespaces(vs) == deleted_namespaces(vs.drop_last()) + deletes_namespaces(last));
        lemma_run_of_deletions(st, vs.drop_last());
        match last {
            Verb::AddNamespace { ns } => {
                assert(creates_namespaces(last).contains(ns));
            },
            Verb::AddBridge { name } => {
                assert(creates_links(last).contains(name));
            },
            Verb::AddVethPair { name, peer } => {
                assert(creates_links(last).contains(name));
            },
            Verb::AddNamespaceVeth { host, .. } => {
                assert(creates_links(last).contains(host));
            },
            Verb::AddVxlan { name, .. } => {
                assert(creates_links(last).contains(name));
            },
            _ => {},
        }
    }
}

} // verus!
