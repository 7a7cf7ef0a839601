//! Deploy and teardown: the ordered kernel actions that apply a plan, and
//! those that reverse it.
use vstd::prelude::*;

use crate::kernel::{
    created_links, created_namespaces, creates_links, creates_namespaces, deleted_links,
    deleted_namespaces, deletes_links, deletes_namespaces, lemma_effects_concat,
    lemma_gathered_members, lemma_run_grows_by_creations, lemma_run_of_deletions, run, verbs, Action,
    KernelState, Verb,
};
use crate::network::{guest_side, host_side, Bridge, NamespaceVeth, Qdisc, Vxlan};
use crate::plan::Data;
use crate::text::{decimal, usize_text};

verus! {

/// `v-<prefix>-c<a><b>-<end>`: one end of the veth pair between bridges `a` and `b`.
pub open spec fn connector_name(prefix: Seq<char>, a: nat, b: nat, end: Seq<char>) -> Seq<char> {
    "v-"@ + prefix + "-c"@ + decimal(a) + decimal(b) + "-"@ + end
}

/// The first bridge of `bs` under `key`.
pub open spec fn find_bridge(bs: Seq<(usize, Bridge)>, key: usize) -> Option<Bridge>
    decreases bs.len(),
{
    if bs.len() == 0 {
        None
    } else if bs[0].0 == key {
        Some(bs[0].1)
    } else {
        find_bridge(bs.drop_first(), key)
    }
}

/// The first qdisc of `qs` under `key`.
pub open spec fn find_qdisc(qs: Seq<(usize, Qdisc)>, key: usize) -> Option<Qdisc>
    decreases qs.len(),
{
    if qs.len() == 0 {
        None
    } else if qs[0].0 == key {
        Some(qs[0].1)
    } else {
        find_qdisc(qs.drop_first(), key)
    }
}

/// Create a bridge, give it its address, bring it up.
pub open spec fn bridge_up(b: Bridge) -> Seq<Verb> {
    seq![
        Verb::AddBridge { name: b.name@ },
        Verb::AddAddress { netns: None, dev: b.name@, addr: b.addr },
        Verb::SetUp { netns: None, dev: b.name@ },
    ]
}

pub open spec fn bridges_up(bs: Seq<(usize, Bridge)>) -> Seq<Verb>
    decreases bs.len(),
{
    if bs.len() == 0 {
        seq![]
    } else {
        bridges_up(bs.drop_last()) + bridge_up(bs.last().1)
    }
}

/// Join bridges `a` and `b` with a veth pair, each end enslaved to its bridge.
pub open spec fn link_up(prefix: Seq<char>, a: Bridge, b: Bridge) -> Seq<Verb> {
    let end0 = connector_name(prefix, a.index as nat, b.index as nat, "0"@);
    let end1 = connector_name(prefix, a.index as nat, b.index as nat, "1"@);
    seq![
        Verb::AddVethPair { name: end0, peer: end1 },
        Verb::SetMaster { dev: end0, master: a.name@ },
        Verb::SetMaster { dev: end1, master: b.name@ },
        Verb::SetUp { netns: None, dev: end0 },
        Verb::SetUp { netns: None, dev: end1 },
    ]
}

/// Join `b` to every bridge of `earlier`, in order.
pub open spec fn links_to(prefix: Seq<char>, earlier: Seq<(usize, Bridge)>, b: Bridge) -> Seq<Verb>
    decreases earlier.len(),
{
    if earlier.len() == 0 {
        seq![]
    } else {
        links_to(prefix, earlier.drop_last(), b) + link_up(prefix, earlier.last().1, b)
    }
}

/// Join every pair of bridges: for each bridge, to each bridge before it.
pub open spec fn bridge_links(prefix: Seq<char>, bs: Seq<(usize, Bridge)>) -> Seq<Verb>
    decreases bs.len(),
{
    if bs.len() == 0 {
        seq![]
    } else {
        bridge_links(prefix, bs.drop_last()) + links_to(prefix, bs.drop_last(), bs.last().1)
    }
}

/// Create the VXLAN device on its carrier, enslave it to `b0`, bring it up.
pub open spec fn vxlan_up(v: Vxlan, b0: Bridge) -> Seq<Verb> {
    seq![
        Verb::AddVxlan { name: v.name@, id: v.id, group: v.group, device: v.device@, port: v.port },
        Verb::SetMaster { dev: v.name@, master: b0.name@ },
        Verb::SetUp { netns: None, dev: v.name@ },
    ]
}

pub open spec fn vxlans_up(vs: Seq<(usize, Vxlan)>, b0: Bridge) -> Seq<Verb>
    decreases vs.len(),
{
    if vs.len() == 0 {
        seq![]
    } else {
        vxlans_up(vs.drop_last(), b0) + vxlan_up(vs.last().1, b0)
    }
}

/// The qdiscs of one instance: tbf at the root, netem under it or at the root.
pub open spec fn qdisc_up(ns: Seq<char>, guest: Seq<char>, q: Qdisc) -> Seq<Verb> {
    (match q.tbf {
        Some(t) => seq![Verb::AddTbf { netns: ns, dev: guest, options: t@ }],
        None => seq![],
    }) + (match q.netem {
        Some(n) => seq![
            Verb::AddNetem { netns: ns, dev: guest, under_tbf: q.tbf is Some, options: n@ },
        ],
        None => seq![],
    })
}

/// Bring up one instance: its namespace, its veth pair on its bridge, its
/// address, loopback, default route through the bridge, and its qdiscs.
pub open spec fn veth_up(d: Data, entry: (usize, NamespaceVeth)) -> Seq<Verb> {
    let v = entry.1;
    let ns = v.namespace.name@;
    let host = host_side(ns);
    let guest = guest_side(ns);
    let b = find_bridge(d.bridges@, v.bridge).unwrap();
    seq![
        Verb::AddNamespace { ns },
        Verb::AddNamespaceVeth { host, guest, ns },
        Verb::SetMaster { dev: host, master: b.name@ },
        Verb::AddAddress { netns: Some(ns), dev: guest, addr: v.addr },
        Verb::SetUp { netns: Some(ns), dev: "lo"@ },
        Verb::SetUp { netns: Some(ns), dev: guest },
        Verb::AddDefaultRoute { netns: ns, gateway: b.addr.ip },
        Verb::SetUp { netns: None, dev: host },
    ] + match find_qdisc(d.qdisc@, entry.0) {
        Some(q) => qdisc_up(ns, guest, q),
        None => seq![],
    }
}

pub open spec fn veths_up(d: Data, vs: Seq<(usize, NamespaceVeth)>) -> Seq<Verb>
    decreases vs.len(),
{
    if vs.len() == 0 {
        seq![]
    } else {
        veths_up(d, vs.drop_last()) + veth_up(d, vs.last())
    }
}

/// Every instance's bridge is in the plan, and so is a bridge for the overlay.
pub open spec fn deployable(d: Data) -> bool {
    &&& forall|k: int| 0 <= k < d.veth@.len() ==> find_bridge(d.bridges@, (#[trigger] d.veth@[k]).1.bridge) is Some
    &&& d.vxlan@.len() > 0 ==> d.bridges@.len() > 0
}

/// Deploy order: bridges, the links between them, the overlay, then each instance.
pub open spec fn deploy_verbs(d: Data, prefix: Seq<char>) -> Seq<Verb> {
    bridges_up(d.bridges@) + bridge_links(prefix, d.bridges@) + vxlans_up(d.vxlan@, d.bridges@[0].1)
        + veths_up(d, d.veth@)
}

pub open spec fn veth_downs(vs: Seq<(usize, NamespaceVeth)>) -> Seq<Verb>
    decreases vs.len(),
{
    if vs.len() == 0 {
        seq![]
    } else {
        veth_downs(vs.drop_last()) + seq![Verb::DelLink { name: host_side(vs.last().1.namespace.name@) }]
    }
}

pub open spec fn namespace_downs(vs: Seq<(usize, NamespaceVeth)>) -> Seq<Verb>
    decreases vs.len(),
{
    if vs.len() == 0 {
        seq![]
    } else {
        namespace_downs(vs.drop_last()) + seq![Verb::DelNamespace { ns: vs.last().1.namespace.name@ }]
    }
}

/// Delete both ends of the pair between bridges `a` and `b`.
pub open spec fn link_down(prefix: Seq<char>, a: Bridge, b: Bridge) -> Seq<Verb> {
    seq![
        Verb::DelLink { name: connector_name(prefix, a.index as nat, b.index as nat, "0"@) },
        Verb::DelLink { name: connector_name(prefix, a.index as nat, b.index as nat, "1"@) },
    ]
}

pub open spec fn links_down_to(prefix: Seq<char>, earlier: Seq<(usize, Bridge)>, b: Bridge) -> Seq<Verb>
    decreases earlier.len(),
{
    if earlier.len() == 0 {
        seq![]
    } else {
        links_down_to(prefix, earlier.drop_last(), b) + link_down(prefix, earlier.last().1, b)
    }
}

pub open spec fn bridge_unlinks(prefix: Seq<char>, bs: Seq<(usize, Bridge)>) -> Seq<Verb>
    decreases bs.len(),
{
    if bs.len() == 0 {
        seq![]
    } else {
        bridge_unlinks(prefix, bs.drop_last()) + links_down_to(prefix, bs.drop_last(), bs.last().1)
    }
}

pub open spec fn vxlan_downs(vs: Seq<(usize, Vxlan)>) -> Seq<Verb>
    decreases vs.len(),
{
    if vs.len() == 0 {
        seq![]
    } else {
        vxlan_downs(vs.drop_last()) + seq![Verb::DelLink { name: vs.last().1.name@ }]
    }
}

pub open spec fn bridge_downs(bs: Seq<(usize, Bridge)>) -> Seq<Verb>
    decreases bs.len(),
{
    if bs.len() == 0 {
        seq![]
    } else {
        bridge_downs(bs.drop_last()) + seq![Verb::DelLink { name: bs.last().1.name@ }]
    }
}

/// Teardown order: the instances' veth pairs, their namespaces, the links
/// between bridges, the overlay, the bridges.
pub open spec fn teardown_verbs(d: Data, prefix: Seq<char>) -> Seq<Verb> {
    veth_downs(d.veth@) + namespace_downs(d.veth@) + bridge_unlinks(prefix, d.bridges@) + vxlan_downs(
        d.vxlan@,
    ) + bridge_downs(d.bridges@)
}


/// The four effect sets of a run.
proof fn lemma_members(vs: Seq<Verb>)
    ensures
        forall|x: Seq<char>|
            #[trigger] created_links(vs).contains(x) <==> exists|i: int| 0 <= i < vs.len() && creates_links(vs[i]).contains(x),
        forall|x: Seq<char>|
            #[trigger] created_namespaces(vs).contains(x) <==> exists|i: int| 0 <= i < vs.len() && creates_namespaces(vs[i]).contains(x),
        forall|x: Seq<char>|
            #[trigger] deleted_links(vs).contains(x) <==> exists|i: int| 0 <= i < vs.len() && deletes_links(vs[i]).contains(x),
        forall|x: Seq<char>|
            #[trigger] deleted_namespaces(vs).contains(x) <==> exists|i: int| 0 <= i < vs.len() && deletes_namespaces(vs[i]).contains(x),
{
    lemma_gathered_members(vs, |v: Verb| creates_links(v));
    lemma_gathered_members(vs, |v: Verb| creates_namespaces(v));
    lemma_gathered_members(vs, |v: Verb| deletes_links(v));
    lemma_gathered_members(vs, |v: Verb| deletes_namespaces(v));
}

/// A run of deletions only creates nothing.
pub open spec fn quiet(vs: Seq<Verb>) -> bool {
    created_links(vs).is_empty() && created_namespaces(vs).is_empty()
}

/// Everything `up` creates, `down` deletes, and `down` creates nothing.
pub open spec fn reverses(up: Seq<Verb>, down: Seq<Verb>) -> bool {
    &&& created_links(up).subset_of(deleted_links(down))
    &&& created_namespaces(up).subset_of(deleted_namespaces(down))
    &&& quiet(down)
}

proof fn lemma_reverses_concat(u1: Seq<Verb>, d1: Seq<Verb>, u2: Seq<Verb>, d2: Seq<Verb>)
    requires
        reverses(u1, d1),
        reverses(u2, d2),
    ensures
        reverses(u1 + u2, d1 + d2),
{
    lemma_effects_concat(u1, u2);
    lemma_effects_concat(d1, d2);
    assert(created_links(d1 + d2) =~= Set::empty());
    assert(created_namespaces(d1 + d2) =~= Set::empty());
}

proof fn lemma_empty_reverses()
    ensures
        reverses(seq![], seq![]),
{
    lemma_members(seq![]);
    assert(created_links(seq![]) =~= Set::empty());
    assert(created_namespaces(seq![]) =~= Set::empty());
}

proof fn lemma_bridge_unit(b: Bridge)
    ensures
        reverses(bridge_up(b), seq![Verb::DelLink { name: b.name@ }]),
{
    let up = bridge_up(b);
    let down = seq![Verb::DelLink { name: b.name@ }];
    lemma_members(up);
    lemma_members(down);
    assert(deletes_links(down[0]).contains(b.name@));
    assert forall|x: Seq<char>| created_links(up).contains(x) implies deleted_links(down).contains(x) by {
        let i = choose|i: int| 0 <= i < up.len() && creates_links(up[i]).contains(x);
        if i == 0 {} else if i == 1 {} else {}
    }
    assert forall|x: Seq<char>| !created_namespaces(up).contains(x) by {
        if created_namespaces(up).contains(x) {
            let i = choose|i: int| 0 <= i < up.len() && creates_namespaces(up[i]).contains(x);
            if i == 0 {} else if i == 1 {} else {}
        }
    }
    assert forall|x: Seq<char>| !created_links(down).contains(x) && !created_namespaces(down).contains(x) by {
        if created_links(down).contains(x) {
            let i = choose|i: int| 0 <= i < down.len() && creates_links(down[i]).contains(x);
        }
        if created_namespaces(down).contains(x) {
            let i = choose|i: int| 0 <= i < down.len() && creates_namespaces(down[i]).contains(x);
        }
    }
    assert(created_namespaces(up) =~= Set::empty());
    assert(created_links(down) =~= Set::empty());
    assert(created_namespaces(down) =~= Set::empty());
}

proof fn lemma_bridges_reverse(bs: Seq<(usize, Bridge)>)
    ensures
        reverses(bridges_up(bs), bridge_downs(bs)),
    decreases bs.len(),
{
    if bs.len() == 0 {
        lemma_empty_reverses();
    } else {
        lemma_bridges_reverse(bs.drop_last());
        lemma_bridge_unit(bs.last().1);
        lemma_reverses_concat(
            bridges_up(bs.drop_last()),
            bridge_downs(bs.drop_last()),
            bridge_up(bs.last().1),
            seq![Verb::DelLink { name: bs.last().1.name@ }],
        );
    }
}

proof fn lemma_link_unit(prefix: Seq<char>, a: Bridge, b: Bridge)
    ensures
        reverses(link_up(prefix, a, b), link_down(prefix, a, b)),
{
    let up = link_up(prefix, a, b);
    let down = link_down(prefix, a, b);
    lemma_members(up);
    lemma_members(down);
    assert(deletes_links(down[0]).contains(connector_name(prefix, a.index as nat, b.index as nat, "0"@)));
    assert(deletes_links(down[1]).contains(connector_name(prefix, a.index as nat, b.index as nat, "1"@)));
    assert forall|x: Seq<char>| created_links(up).contains(x) implies deleted_links(down).contains(x) by {
        let i = choose|i: int| 0 <= i < up.len() && creates_links(up[i]).contains(x);
        if i == 0 {} else if i == 1 {} else if i == 2 {} else if i == 3 {} else {}
    }
    assert forall|x: Seq<char>| !created_namespaces(up).contains(x) by {
        if created_namespaces(up).contains(x) {
            let i = choose|i: int| 0 <= i < up.len() && creates_namespaces(up[i]).contains(x);
            if i == 0 {} else if i == 1 {} else if i == 2 {} else if i == 3 {} else {}
        }
    }
    assert forall|x: Seq<char>| !created_links(down).contains(x) && !created_namespaces(down).contains(x) by {
        if created_links(down).contains(x) {
            let i = choose|i: int| 0 <= i < down.len() && creates_links(down[i]).contains(x);
            if i == 0 {} else {}
        }
        if created_namespaces(down).contains(x) {
            let i = choose|i: int| 0 <= i < down.len() && creates_namespaces(down[i]).contains(x);
            if i == 0 {} else {}
        }
    }
    assert(created_namespaces(up) =~= Set::empty());
    assert(created_links(down) =~= Set::empty());
    assert(created_namespaces(down) =~= Set::empty());
}

proof fn lemma_links_to_reverse(prefix: Seq<char>, earlier: Seq<(usize, Bridge)>, b: Bridge)
    ensures
        reverses(links_to(prefix, earlier, b), links_down_to(prefix, earlier, b)),
    decreases earlier.len(),
{
    if earlier.len() == 0 {
        lemma_empty_reverses();
    } else {
        lemma_links_to_reverse(prefix, earlier.drop_last(), b);
        lemma_link_unit(prefix, earlier.last().1, b);
        lemma_reverses_concat(
            links_to(prefix, earlier.drop_last(), b),
            links_down_to(prefix, earlier.drop_last(), b),
            link_up(prefix, earlier.last().1, b),
            link_down(prefix, earlier.last().1, b),
        );
    }
}

proof fn lemma_bridge_links_reverse(prefix: Seq<char>, bs: Seq<(usize, Bridge)>)
    ensures
        reverses(bridge_links(prefix, bs), bridge_unlinks(prefix, bs)),
    decreases bs.len(),
{
    if bs.len() == 0 {
        lemma_empty_reverses();
    } else {
        lemma_bridge_links_reverse(prefix, bs.drop_last());
        lemma_links_to_reverse(prefix, bs.drop_last(), bs.last().1);
        lemma_reverses_concat(
            bridge_links(prefix, bs.drop_last()),
            bridge_unlinks(prefix, bs.drop_last()),
            links_to(prefix, bs.drop_last(), bs.last().1),
            links_down_to(prefix, bs.drop_last(), bs.last().1),
        );
    }
}

proof fn lemma_vxlan_unit(v: Vxlan, b0: Bridge)
    ensures
        reverses(vxlan_up(v, b0), seq![Verb::DelLink { name: v.name@ }]),
{
    let up = vxlan_up(v, b0);
    let down = seq![Verb::DelLink { name: v.name@ }];
    lemma_members(up);
    lemma_members(down);
    assert(deletes_links(down[0]).contains(v.name@));
    assert forall|x: Seq<char>| created_links(up).contains(x) implies deleted_links(down).contains(x) by {
        let i = choose|i: int| 0 <= i < up.len() && creates_links(up[i]).contains(x);
        if i == 0 {} else if i == 1 {} else {}
    }
    assert forall|x: Seq<char>| !created_namespaces(up).contains(x) by {
        if created_namespaces(up).contains(x) {
            let i = choose|i: int| 0 <= i < up.len() && creates_namespaces(up[i]).contains(x);
            if i == 0 {} else if i == 1 {} else {}
        }
    }
    assert forall|x: Seq<char>| !created_links(down).contains(x) && !created_namespaces(down).contains(x) by {
        if created_links(down).contains(x) {
            let i = choose|i: int| 0 <= i < down.len() && creates_links(down[i]).contains(x);
        }
        if created_namespaces(down).contains(x) {
            let i = choose|i: int| 0 <= i < down.len() && creates_namespaces(down[i]).contains(x);
        }
    }
    assert(created_namespaces(up) =~= Set::empty());
    assert(created_links(down) =~= Set::empty());
    assert(created_namespaces(down) =~= Set::empty());
}

proof fn lemma_vxlans_reverse(vs: Seq<(usize, Vxlan)>, b0: Bridge)
    ensures
        reverses(vxlans_up(vs, b0), vxlan_downs(vs)),
    decreases vs.len(),
{
    if vs.len() == 0 {
        lemma_empty_reverses();
    } else {
        lemma_vxlans_reverse(vs.drop_last(), b0);
        lemma_vxlan_unit(vs.last().1, b0);
        lemma_reverses_concat(
            vxlans_up(vs.drop_last(), b0),
            vxlan_downs(vs.drop_last()),
            vxlan_up(vs.last().1, b0),
            seq![Verb::DelLink { name: vs.last().1.name@ }],
        );
    }
}

proof fn lemma_qdisc_quiet(ns: Seq<char>, guest: Seq<char>, q: Qdisc)
    ensures
        quiet(qdisc_up(ns, guest, q)),
{
    let vs = qdisc_up(ns, guest, q);
    lemma_members(vs);
    assert forall|i: int| 0 <= i < vs.len() implies (vs[i] is AddTbf || vs[i] is AddNetem) by {}
    assert forall|x: Seq<char>| !created_links(vs).contains(x) && !created_namespaces(vs).contains(x) by {
        if created_links(vs).contains(x) {
            let i = choose|i: int| 0 <= i < vs.len() && creates_links(vs[i]).contains(x);
        }
        if created_namespaces(vs).contains(x) {
            let i = choose|i: int| 0 <= i < vs.len() && creates_namespaces(vs[i]).contains(x);
        }
    }
    assert(created_links(vs) =~= Set::empty());
    assert(created_namespaces(vs) =~= Set::empty());
}

proof fn lemma_veth_unit(d: Data, entry: (usize, NamespaceVeth))
    ensures
        reverses(
            veth_up(d, entry),
            seq![Verb::DelLink { name: host_side(entry.1.namespace.name@) }] + seq![
                Verb::DelNamespace { ns: entry.1.namespace.name@ },
            ],
        ),
{
    let ns = entry.1.namespace.name@;
    let host = host_side(ns);
    let guest = guest_side(ns);
    let b = find_bridge(d.bridges@, entry.1.bridge).unwrap();
    let head = seq![
        Verb::AddNamespace { ns },
        Verb::AddNamespaceVeth { host, guest, ns },
        Verb::SetMaster { dev: host, master: b.name@ },
        Verb::AddAddress { netns: Some(ns), dev: guest, addr: entry.1.addr },
        Verb::SetUp { netns: Some(ns), dev: "lo"@ },
        Verb::SetUp { netns: Some(ns), dev: guest },
        Verb::AddDefaultRoute { netns: ns, gateway: b.addr.ip },
        Verb::SetUp { netns: None, dev: host },
    ];
    let tail = match find_qdisc(d.qdisc@, entry.0) {
        Some(q) => qdisc_up(ns, guest, q),
        None => seq![],
    };
    assert(veth_up(d, entry) == head + tail);
    match find_qdisc(d.qdisc@, entry.0) {
        Some(q) => lemma_qdisc_quiet(ns, guest, q),
        None => {
            lemma_members(tail);
            assert(created_links(tail) =~= Set::empty());
            assert(created_namespaces(tail) =~= Set::empty());
        },
    }
    let down = seq![Verb::DelLink { name: host }] + seq![Verb::DelNamespace { ns }];
    assert(down =~= seq![Verb::DelLink { name: host }, Verb::DelNamespace { ns }]);
    lemma_members(head);
    lemma_members(down);
    lemma_effects_concat(head, tail);
    assert(deletes_links(down[0]).contains(host));
    assert(deletes_namespaces(down[1]).contains(ns));
    assert forall|x: Seq<char>| created_links(head).contains(x) implies deleted_links(down).contains(x) by {
        let i = choose|i: int| 0 <= i < head.len() && creates_links(head[i]).contains(x);
        if i == 0 {} else if i == 1 {} else if i == 2 {} else if i == 3 {} else if i == 4 {} else if i
            == 5 {} else if i == 6 {} else {}
    }
    assert forall|x: Seq<char>| created_namespaces(head).contains(x) implies deleted_namespaces(down).contains(x) by {
        let i = choose|i: int| 0 <= i < head.len() && creates_namespaces(head[i]).contains(x);
        if i == 0 {} else if i == 1 {} else if i == 2 {} else if i == 3 {} else if i == 4 {} else if i
            == 5 {} else if i == 6 {} else {}
    }
    assert forall|x: Seq<char>| !created_links(down).contains(x) && !created_namespaces(down).contains(x) by {
        if created_links(down).contains(x) {
            let i = choose|i: int| 0 <= i < down.len() && creates_links(down[i]).contains(x);
            if i == 0 {} else {}
        }
        if created_namespaces(down).contains(x) {
            let i = choose|i: int| 0 <= i < down.len() && creates_namespaces(down[i]).contains(x);
            if i == 0 {} else {}
        }
    }
    assert(created_links(down) =~= Set::empty());
    assert(created_namespaces(down) =~= Set::empty());
}

proof fn lemma_veths_reverse(d: Data, vs: Seq<(usize, NamespaceVeth)>)
    ensures
        reverses(veths_up(d, vs), veth_downs(vs) + namespace_downs(vs)),
    decreases vs.len(),
{
    if vs.len() == 0 {
        lemma_empty_reverses();
        assert(veth_downs(vs) + namespace_downs(vs) =~= seq![]);
    } else {
        let pre = vs.drop_last();
        let last = vs.last();
        lemma_veths_reverse(d, pre);
        lemma_veth_unit(d, last);
        let dl = seq![Verb::DelLink { name: host_side(last.1.namespace.name@) }];
        let dn = seq![Verb::DelNamespace { ns: last.1.namespace.name@ }];
        lemma_reverses_concat(veths_up(d, pre), veth_downs(pre) + namespace_downs(pre), veth_up(d, last), dl + dn);
        let mixed = (veth_downs(pre) + namespace_downs(pre)) + (dl + dn);
        let ordered = veth_downs(vs) + namespace_downs(vs);
        assert(ordered =~= veth_downs(pre) + dl + namespace_downs(pre) + dn);
        lemma_effects_concat(veth_downs(pre) + dl, namespace_downs(pre) + dn);
        lemma_effects_concat(veth_downs(pre), dl);
        lemma_effects_concat(namespace_downs(pre), dn);
        lemma_effects_concat(veth_downs(pre) + namespace_downs(pre), dl + dn);
        lemma_effects_concat(veth_downs(pre), namespace_downs(pre));
        lemma_effects_concat(dl, dn);
        assert(deleted_links(ordered) =~= deleted_links(mixed));
        assert(deleted_namespaces(ordered) =~= deleted_namespaces(mixed));
        assert(created_links(ordered) =~= created_links(mixed));
        assert(created_namespaces(ordered) =~= created_namespaces(mixed));
    }
}

/// Tearing a plan down deletes everything that deploying it creates, and
/// creates nothing itself.
pub proof fn lemma_teardown_reverses_deploy(d: Data, prefix: Seq<char>)
    ensures
        reverses(deploy_verbs(d, prefix), teardown_verbs(d, prefix)),
{
    let bs = d.bridges@;
    lemma_bridges_reverse(bs);
    lemma_bridge_links_reverse(prefix, bs);
    lemma_vxlans_reverse(d.vxlan@, bs[0].1);
    lemma_veths_reverse(d, d.veth@);
    let u1 = bridges_up(bs);
    let u2 = bridge_links(prefix, bs);
    let u3 = vxlans_up(d.vxlan@, bs[0].1);
    let u4 = veths_up(d, d.veth@);
    let d1 = bridge_downs(bs);
    let d2 = bridge_unlinks(prefix, bs);
    let d3 = vxlan_downs(d.vxlan@);
    let d4 = veth_downs(d.veth@) + namespace_downs(d.veth@);
    lemma_reverses_concat(u1, d1, u2, d2);
    lemma_reverses_concat(u1 + u2, d1 + d2, u3, d3);
    lemma_reverses_concat(u1 + u2 + u3, d1 + d2 + d3, u4, d4);
    let td = teardown_verbs(d, prefix);
    let mixed = d1 + d2 + d3 + d4;
    lemma_effects_concat(d4, d2);
    lemma_effects_concat(d4 + d2, d3);
    lemma_effects_concat(d4 + d2 + d3, d1);
    lemma_effects_concat(d1, d2);
    lemma_effects_concat(d1 + d2, d3);
    lemma_effects_concat(d1 + d2 + d3, d4);
    assert(td =~= d4 + d2 + d3 + d1);
    assert(deleted_links(td) =~= deleted_links(mixed));
    assert(deleted_namespaces(td) =~= deleted_namespaces(mixed));
    assert(created_links(td) =~= created_links(mixed));
    assert(created_namespaces(td) =~= created_namespaces(mixed));
}

/// Whatever part of a deploy went through, a teardown that runs to its end
/// leaves no link or namespace that was not there before the deploy began;
/// so where none was named by the prefix before, none is after.
pub proof fn lemma_teardown_restores(d: Data, prefix: Seq<char>, before: KernelState, k: int)
    requires
        0 <= k <= deploy_verbs(d, prefix).len(),
    ensures
        run(run(before, deploy_verbs(d, prefix).take(k)), teardown_verbs(d, prefix)).links.subset_of(
            before.links,
        ),
        run(run(before, deploy_verbs(d, prefix).take(k)), teardown_verbs(d, prefix)).namespaces.subset_of(
            before.namespaces,
        ),
        (forall|n: Seq<char>| #[trigger] before.links.contains(n) ==> !prefix.is_prefix_of(n))
            ==> (forall|n: Seq<char>|
            #[trigger] run(run(before, deploy_verbs(d, prefix).take(k)), teardown_verbs(d, prefix)).links.contains(n)
                ==> !prefix.is_prefix_of(n)),
{
    let up = deploy_verbs(d, prefix);
    let down = teardown_verbs(d, prefix);
    lemma_teardown_reverses_deploy(d, prefix);
    assert(up =~= up.take(k) + up.skip(k));
    lemma_effects_concat(up.take(k), up.skip(k));
    let mid = run(before, up.take(k));
    lemma_run_grows_by_creations(before, up.take(k));
    lemma_run_of_deletions(mid, down);
}


/// Why a plan cannot be deployed.
#[derive(Debug, Clone, Copy, PartialEq, Eq)]
pub enum DeployError {
    /// An instance sits on a bridge that the plan does not hold.
    MissingBridge(usize),
    /// The plan has an overlay device but no bridge to enslave it to.
    NoBridges,
}

/// Appends `more` to `out`.
fn push_all(out: &mut Vec<Action>, more: Vec<Action>)
    ensures
        verbs(final(out)@) == verbs(old(out)@) + verbs(more@),
{
    let mut more = more;
    let ghost m = more@;
    out.append(&mut more);
    assert(verbs(out@) =~= verbs(old(out)@) + verbs(m));
}

/// Appends one action to `out`.
fn push_one(out: &mut Vec<Action>, a: Action)
    ensures
        verbs(final(out)@) == verbs(old(out)@).push(a@),
{
    out.push(a);
    assert(verbs(out@) =~= verbs(old(out)@).push(a@));
}

/// Where in `bs` the first bridge under `key` stands.
fn bridge_position_of(bs: &Vec<(usize, Bridge)>, key: usize) -> (r: Option<usize>)
    ensures
        match r {
            Some(i) => i < bs@.len() && find_bridge(bs@, key) == Some(bs@[i as int].1),
            None => find_bridge(bs@, key) is None,
        },
{
    let mut j: usize = 0;
    assert(bs@.skip(0) =~= bs@);
    while j < bs.len()
        invariant
            j <= bs@.len(),
            find_bridge(bs@, key) == find_bridge(bs@.skip(j as int), key),
        decreases bs@.len() - j,
    {
        assert(bs@.skip(j as int)[0] == bs@[j as int]);
        if bs[j].0 == key {
            return Some(j);
        }
        assert(bs@.skip(j as int).drop_first() =~= bs@.skip(j as int + 1));
        j = j + 1;
    }
    None
}

/// Where in `qs` the first qdisc under `key` stands.
fn qdisc_position_of(qs: &Vec<(usize, Qdisc)>, key: usize) -> (r: Option<usize>)
    ensures
        match r {
            Some(i) => i < qs@.len() && find_qdisc(qs@, key) == Some(qs@[i as int].1),
            None => find_qdisc(qs@, key) is None,
        },
{
    let mut j: usize = 0;
    assert(qs@.skip(0) =~= qs@);
    while j < qs.len()
        invariant
            j <= qs@.len(),
            find_qdisc(qs@, key) == find_qdisc(qs@.skip(j as int), key),
        decreases qs@.len() - j,
    {
        assert(qs@.skip(j as int)[0] == qs@[j as int]);
        if qs[j].0 == key {
            return Some(j);
        }
        assert(qs@.skip(j as int).drop_first() =~= qs@.skip(j as int + 1));
        j = j + 1;
    }
    None
}

fn bridge_up_actions(b: &Bridge) -> (r: Vec<Action>)
    ensures
        verbs(r@) == bridge_up(*b),
{
    let mut r = Vec::new();
    push_one(&mut r, Action::AddBridge { name: b.name.clone() });
    push_one(&mut r, Action::AddAddress { netns: None, dev: b.name.clone(), addr: b.addr });
    push_one(&mut r, Action::SetUp { netns: None, dev: b.name.clone() });
    assert(verbs(r@) =~= bridge_up(*b));
    r
}

/// The name of one end of the pair between bridges `a` and `b`.
fn connector(prefix: &str, a: &Bridge, b: &Bridge, end: &str) -> (r: String)
    ensures
        r@ == connector_name(prefix@, a.index as nat, b.index as nat, end@),
{
    let ai = usize_text(a.index);
    let bi = usize_text(b.index);
    String::from_str("v-").concat(prefix).concat("-c").concat(ai.as_str()).concat(bi.as_str()).concat(
        "-",
    ).concat(end)
}

fn link_up_actions(prefix: &str, a: &Bridge, b: &Bridge) -> (r: Vec<Action>)
    ensures
        verbs(r@) == link_up(prefix@, *a, *b),
{
    let end0 = connector(prefix, a, b, "0");
    let end1 = connector(prefix, a, b, "1");
    proof {
        reveal_strlit("0");
        reveal_strlit("1");
    }
    let mut r = Vec::new();
    push_one(&mut r, Action::AddVethPair { name: end0.clone(), peer: end1.clone() });
    push_one(&mut r, Action::SetMaster { dev: end0.clone(), master: a.name.clone() });
    push_one(&mut r, Action::SetMaster { dev: end1.clone(), master: b.name.clone() });
    push_one(&mut r, Action::SetUp { netns: None, dev: end0 });
    push_one(&mut r, Action::SetUp { netns: None, dev: end1 });
    assert(verbs(r@) =~= link_up(prefix@, *a, *b));
    r
}

fn vxlan_up_actions(v: &Vxlan, b0: &Bridge) -> (r: Vec<Action>)
    ensures
        verbs(r@) == vxlan_up(*v, *b0),
{
    let mut r = Vec::new();
    push_one(
        &mut r,
        Action::AddVxlan {
            name: v.name.clone(),
            id: v.id,
            group: v.group,
            device: v.device.clone(),
            port: v.port,
        },
    );
    push_one(&mut r, Action::SetMaster { dev: v.name.clone(), master: b0.name.clone() });
    push_one(&mut r, Action::SetUp { netns: None, dev: v.name.clone() });
    assert(verbs(r@) =~= vxlan_up(*v, *b0));
    r
}

fn qdisc_actions(ns: &String, guest: &String, q: &Qdisc) -> (r: Vec<Action>)
    ensures
        verbs(r@) == qdisc_up(ns@, guest@, *q),
{
    let mut r = Vec::new();
    match &q.tbf {
        Some(t) => push_one(&mut r, Action::AddTbf { netns: ns.clone(), dev: guest.clone(), options: t.clone() }),
        None => {},
    }
    let under_tbf = q.tbf.is_some();
    match &q.netem {
        Some(n) => push_one(
            &mut r,
            Action::AddNetem { netns: ns.clone(), dev: guest.clone(), under_tbf, options: n.clone() },
        ),
        None => {},
    }
    assert(verbs(r@) =~= qdisc_up(ns@, guest@, *q));
    r
}

fn veth_up_actions(d: &Data, k: usize) -> (r: Vec<Action>)
    requires
        k < d.veth@.len(),
        find_bridge(d.bridges@, d.veth@[k as int].1.bridge) is Some,
    ensures
        verbs(r@) == veth_up(*d, d.veth@[k as int]),
{
    let entry = &d.veth[k];
    let v = &entry.1;
    let b = match bridge_position_of(&d.bridges, v.bridge) {
        Some(i) => &d.bridges[i].1,
        None => {
            return Vec::new();
        },
    };
    let ns = v.namespace.name.clone();
    let host = v.host();
    let guest = v.guest();
    let mut r = Vec::new();
    push_one(&mut r, Action::AddNamespace { ns: ns.clone() });
    push_one(&mut r, Action::AddNamespaceVeth { host: host.clone(), guest: guest.clone(), ns: ns.clone() });
    push_one(&mut r, Action::SetMaster { dev: host.clone(), master: b.name.clone() });
    push_one(&mut r, Action::AddAddress { netns: Some(ns.clone()), dev: guest.clone(), addr: v.addr });
    push_one(&mut r, Action::SetUp { netns: Some(ns.clone()), dev: String::from_str("lo") });
    push_one(&mut r, Action::SetUp { netns: Some(ns.clone()), dev: guest.clone() });
    push_one(&mut r, Action::AddDefaultRoute { netns: ns.clone(), gateway: b.addr.ip });
    push_one(&mut r, Action::SetUp { netns: None, dev: host.clone() });
    let ghost head = verbs(r@);
    let tail = match qdisc_position_of(&d.qdisc, entry.0) {
        Some(j) => qdisc_actions(&ns, &guest, &d.qdisc[j].1),
        None => Vec::new(),
    };
    push_all(&mut r, tail);
    assert(verbs(r@) =~= veth_up(*d, d.veth@[k as int]));
    r
}

/// The kernel actions that deploy a plan, in deploy order: each bridge with
/// its address, a veth pair between every two bridges, the overlay device on
/// the first bridge, then each instance with its namespace, veth pair,
/// address, routes and qdiscs. `prefix` names the pairs between bridges.
pub fn deploy(data: &Data, prefix: &str) -> (r: Result<Vec<Action>, DeployError>)
    ensures
        r is Ok <==> deployable(*data),
        r is Ok ==> verbs(r->Ok_0@) == deploy_verbs(*data, prefix@),
        r matches Err(DeployError::MissingBridge(b)) ==> exists|k: int|
            0 <= k < data.veth@.len() && (#[trigger] data.veth@[k]).1.bridge == b && find_bridge(data.bridges@, b) is None,
        r matches Err(DeployError::NoBridges) ==> data.vxlan@.len() > 0 && data.bridges@.len() == 0,
{
    let mut k: usize = 0;
    while k < data.veth.len()
        invariant
            k <= data.veth@.len(),
            forall|j: int| 0 <= j < k ==> find_bridge(data.bridges@, (#[trigger] data.veth@[j]).1.bridge) is Some,
        decreases data.veth@.len() - k,
    {
        let b = data.veth[k].1.bridge;
        if bridge_position_of(&data.bridges, b).is_none() {
            return Err(DeployError::MissingBridge(b));
        }
        k = k + 1;
    }
    if data.vxlan.len() > 0 && data.bridges.len() == 0 {
        return Err(DeployError::NoBridges);
    }
    let bs = &data.bridges;
    let mut out: Vec<Action> = Vec::new();
    let mut i: usize = 0;
    while i < bs.len()
        invariant
            i <= bs@.len(),
            verbs(out@) == bridges_up(bs@.take(i as int)),
        decreases bs@.len() - i,
    {
        assert(bs@.take(i as int + 1).drop_last() =~= bs@.take(i as int));
        push_all(&mut out, bridge_up_actions(&bs[i].1));
        i = i + 1;
    }
    assert(bs@.take(bs@.len() as int) =~= bs@);
    let ghost part1 = verbs(out@);
    let mut j: usize = 0;
    while j < bs.len()
        invariant
            j <= bs@.len(),
            verbs(out@) == part1 + bridge_links(prefix@, bs@.take(j as int)),
        decreases bs@.len() - j,
    {
        let ghost before = verbs(out@);
        let mut i: usize = 0;
        while i < j
            invariant
                i <= j < bs@.len(),
                verbs(out@) == before + links_to(prefix@, bs@.take(i as int), bs@[j as int].1),
            decreases j - i,
        {
            assert(bs@.take(i as int + 1).drop_last() =~= bs@.take(i as int));
            push_all(&mut out, link_up_actions(prefix, &bs[i].1, &bs[j].1));
            assert(verbs(out@) =~= before + links_to(prefix@, bs@.take(i as int + 1), bs@[j as int].1));
            i = i + 1;
        }
        assert(bs@.take(j as int + 1).drop_last() =~= bs@.take(j as int));
        assert(bs@.take(j as int + 1).last() == bs@[j as int]);
        assert(verbs(out@) =~= part1 + bridge_links(prefix@, bs@.take(j as int + 1)));
        j = j + 1;
    }
    let ghost part2 = verbs(out@);
    let mut v: usize = 0;
    while v < data.vxlan.len()
        invariant
            v <= data.vxlan@.len(),
            data.vxlan@.len() > 0 ==> bs@.len() > 0,
            verbs(out@) == part2 + vxlans_up(data.vxlan@.take(v as int), bs@[0].1),
        decreases data.vxlan@.len() - v,
    {
        assert(data.vxlan@.take(v as int + 1).drop_last() =~= data.vxlan@.take(v as int));
        push_all(&mut out, vxlan_up_actions(&data.vxlan[v].1, &bs[0].1));
        assert(verbs(out@) =~= part2 + vxlans_up(data.vxlan@.take(v as int + 1), bs@[0].1));
        v = v + 1;
    }
    assert(data.vxlan@.take(data.vxlan@.len() as int) =~= data.vxlan@);
    let ghost part3 = verbs(out@);
    let mut k: usize = 0;
    while k < data.veth.len()
        invariant
            k <= data.veth@.len(),
            deployable(*data),
            verbs(out@) == part3 + veths_up(*data, data.veth@.take(k as int)),
        decreases data.veth@.len() - k,
    {
        assert(data.veth@.take(k as int + 1).drop_last() =~= data.veth@.take(k as int));
        assert(find_bridge(data.bridges@, data.veth@[k as int].1.bridge) is Some);
        push_all(&mut out, veth_up_actions(data, k));
        assert(verbs(out@) =~= part3 + veths_up(*data, data.veth@.take(k as int + 1)));
        k = k + 1;
    }
    assert(data.veth@.take(data.veth@.len() as int) =~= data.veth@);
    assert(verbs(out@) =~= deploy_verbs(*data, prefix@));
    Ok(out)
}

/// The kernel actions that tear a plan down, in teardown order: the
/// instances' veth pairs, their namespaces, the pairs between bridges, the
/// overlay device, the bridges. Each is worth trying whatever came of the
/// others.
pub fn cleanup(data: &Data, prefix: &str) -> (r: Vec<Action>)
    ensures
        verbs(r@) == teardown_verbs(*data, prefix@),
{
    let mut out: Vec<Action> = Vec::new();
    let mut k: usize = 0;
    while k < data.veth.len()
        invariant
            k <= data.veth@.len(),
            verbs(out@) == veth_downs(data.veth@.take(k as int)),
        decreases data.veth@.len() - k,
    {
        assert(data.veth@.take(k as int + 1).drop_last() =~= data.veth@.take(k as int));
        push_one(&mut out, Action::DelLink { name: data.veth[k].1.host() });
        assert(verbs(out@) =~= veth_downs(data.veth@.take(k as int + 1)));
        k = k + 1;
    }
    let ghost part1 = verbs(out@);
    let mut k: usize = 0;
    while k < data.veth.len()
        invariant
            k <= data.veth@.len(),
            verbs(out@) == part1 + namespace_downs(data.veth@.take(k as int)),
        decreases data.veth@.len() - k,
    {
        assert(data.veth@.take(k as int + 1).drop_last() =~= data.veth@.take(k as int));
        push_one(&mut out, Action::DelNamespace { ns: data.veth[k].1.namespace.name.clone() });
        assert(verbs(out@) =~= part1 + namespace_downs(data.veth@.take(k as int + 1)));
        k = k + 1;
    }
    let bs = &data.bridges;
    let ghost part2 = verbs(out@);
    let mut j: usize = 0;
    while j < bs.len()
        invariant
            j <= bs@.len(),
            verbs(out@) == part2 + bridge_unlinks(prefix@, bs@.take(j as int)),
        decreases bs@.len() - j,
    {
        let ghost before = verbs(out@);
        let mut i: usize = 0;
        while i < j
            invariant
                i <= j < bs@.len(),
                verbs(out@) == before + links_down_to(prefix@, bs@.take(i as int), bs@[j as int].1),
            decreases j - i,
        {
            assert(bs@.take(i as int + 1).drop_last() =~= bs@.take(i as int));
            let end0 = connector(prefix, &bs[i].1, &bs[j].1, "0");
            let end1 = connector(prefix, &bs[i].1, &bs[j].1, "1");
            proof {
                reveal_strlit("0");
                reveal_strlit("1");
            }
            push_one(&mut out, Action::DelLink { name: end0 });
            push_one(&mut out, Action::DelLink { name: end1 });
            assert(verbs(out@) =~= before + links_down_to(prefix@, bs@.take(i as int + 1), bs@[j as int].1));
            i = i + 1;
        }
        assert(bs@.take(j as int + 1).drop_last() =~= bs@.take(j as int));
        assert(verbs(out@) =~= part2 + bridge_unlinks(prefix@, bs@.take(j as int + 1)));
        j = j + 1;
    }
    let ghost part3 = verbs(out@);
    let mut v: usize = 0;
    while v < data.vxlan.len()
        invariant
            v <= data.vxlan@.len(),
            verbs(out@) == part3 + vxlan_downs(data.vxlan@.take(v as int)),
        decreases data.vxlan@.len() - v,
    {
        assert(data.vxlan@.take(v as int + 1).drop_last() =~= data.vxlan@.take(v as int));
        push_one(&mut out, Action::DelLink { name: data.vxlan[v].1.name.clone() });
        assert(verbs(out@) =~= part3 + vxlan_downs(data.vxlan@.take(v as int + 1)));
        v = v + 1;
    }
    let ghost part4 = verbs(out@);
    let mut i: usize = 0;
    while i < bs.len()
        invariant
            i <= bs@.len(),
            verbs(out@) == part4 + bridge_downs(bs@.take(i as int)),
        decreases bs@.len() - i,
    {
        assert(bs@.take(i as int + 1).drop_last() =~= bs@.take(i as int));
        push_one(&mut out, Action::DelLink { name: bs[i].1.name.clone() });
        assert(verbs(out@) =~= part4 + bridge_downs(bs@.take(i as int + 1)));
        i = i + 1;
    }
    assert(data.veth@.take(data.veth@.len() as int) =~= data.veth@);
    assert(bs@.take(bs@.len() as int) =~= bs@);
    assert(data.vxlan@.take(data.vxlan@.len() as int) =~= data.vxlan@);
    assert(verbs(out@) =~= teardown_verbs(*data, prefix@));
    out
}

} // verus!
