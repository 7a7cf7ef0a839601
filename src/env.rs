//! The playground of one host across its lifecycle: plan every host, keep
//! this host's plan and launch configurations, and hand out the actions that
//! deploy and tear it down.
use vstd::prelude::*;

use crate::deploy::{cleanup, deploy, deploy_verbs, deployable, teardown_verbs, DeployError};
use crate::kernel::{verbs, Action};
use crate::network::{Addr, IpAddress, NamespaceVeth};
use crate::partition::{Partition, Task};
use crate::plan::{
    generate, host_end, host_offset, host_plan, host_start, lemma_chunk, Config, Data, PlanError,
    MAX_VETH_PER_BRIDGE,
};
use crate::pool::{host_span, pool_addresses};
use crate::supervisor::{self, config_entry, host_first, sum_first, CommandConfig, ConfigError};
use ipnet::IpAddrRange;

verus! {

/// Why the environment could not go on.
#[derive(Debug, Clone, Copy, PartialEq, Eq)]
pub enum EnvError {
    /// This host's number is not between 1 and the number of hosts.
    HostOutOfRange,
    Plan(PlanError),
    Config(ConfigError),
    /// No plan has been made for this host yet.
    NotGenerated,
    Deploy(DeployError),
}

/// The playground as one host sees it.
pub struct Env {
    /// This host's number, counted from 1.
    pub host_id: usize,
    pub total_hosts: usize,
    pub prefix: String,
    pub net: Addr,
    pub instances_per_bridge: usize,
    /// Tear the network down when done.
    pub revert: bool,
    /// Send the instances' output to files in their working directories.
    pub redirect: bool,
    pub vxlan_id: u32,
    pub vxlan_port: u16,
    pub vxlan_multicast_group: u32,
    pub vxlan_device: String,
    pub address_pool: IpAddrRange,
    /// This host's launch configurations.
    pub commands: Vec<(usize, CommandConfig)>,
    /// The plans of every host.
    pub network: Vec<Data>,
}

/// The planner's configuration, as the environment holds it.
pub open spec fn config_of(e: &Env) -> Config {
    Config {
        prefix: e.prefix,
        net: e.net,
        per_bridge: e.instances_per_bridge,
        vxlan_id: e.vxlan_id,
        vxlan_port: e.vxlan_port,
        vxlan_multicast_group: e.vxlan_multicast_group,
        vxlan_device: e.vxlan_device,
    }
}

/// Every instance of every plan, host by host.
pub open spec fn all_veths(plans: Seq<Data>) -> Seq<NamespaceVeth>
    decreases plans.len(),
{
    if plans.len() == 0 {
        seq![]
    } else {
        all_veths(plans.drop_last()) + plans.last().veth@.map_values(|e: (usize, NamespaceVeth)| e.1)
    }
}

/// The number of instances of each plan.
pub open spec fn plan_sizes(plans: Seq<Data>) -> Seq<usize> {
    plans.map_values(|d: Data| d.veth@.len() as usize)
}

proof fn lemma_plan_sizes_sum(cfg: &Config, n: int, h: int, pool0: Seq<IpAddress>, qdisc: Seq<(Option<String>, Option<String>)>, plans: Seq<Data>, g: int)
    requires
        n >= 0,
        n <= usize::MAX,
        h > 0,
        0 <= g <= h,
        plans.len() == h,
        forall|j: int|
            0 <= j < h ==> host_plan(
                cfg,
                h,
                host_start(n, h, j),
                host_end(n, h, j),
                pool0.skip(host_offset(n, h, cfg.per_bridge as int, j)),
                qdisc,
                #[trigger] plans[j],
            ),
    ensures
        sum_first(plan_sizes(plans), g) == host_start(n, h, g),
    decreases g,
{
    if g > 0 {
        lemma_plan_sizes_sum(cfg, n, h, pool0, qdisc, plans, g - 1);
        lemma_chunk(n, h, g - 1);
        assert(host_plan(
            cfg,
            h,
            host_start(n, h, g - 1),
            host_end(n, h, g - 1),
            pool0.skip(host_offset(n, h, cfg.per_bridge as int, g - 1)),
            qdisc,
            plans[g - 1],
        ));
        assert(plan_sizes(plans)[g - 1] == host_end(n, h, g - 1) - host_start(n, h, g - 1));
    } else {
        assert(host_start(n, h, 0) == 0);
    }
}

impl Env {
    pub fn new(
        host_id: usize,
        total_hosts: usize,
        prefix: String,
        net: Addr,
        per_bridge: usize,
        revert: bool,
        redirect: bool,
        vxlan_id: u32,
        vxlan_port: u16,
        vxlan_multicast_group: u32,
        vxlan_device: String,
    ) -> (r: Self)
        requires
            net.wf(),
        ensures
            r.host_id == host_id && r.total_hosts == total_hosts && r.prefix == prefix,
            r.net == net && r.instances_per_bridge == per_bridge,
            r.revert == revert && r.redirect == redirect,
            r.vxlan_id == vxlan_id && r.vxlan_port == vxlan_port,
            r.vxlan_multicast_group == vxlan_multicast_group && r.vxlan_device == vxlan_device,
            pool_addresses(r.address_pool) == host_span(net),
            r.commands@.len() == 0 && r.network@.len() == 0,
    {
        let pool = net.hosts();
        Env {
            host_id,
            total_hosts,
            prefix,
            net,
            instances_per_bridge: per_bridge,
            revert,
            redirect,
            vxlan_id,
            vxlan_port,
            vxlan_multicast_group,
            vxlan_device,
            address_pool: pool,
            commands: Vec::new(),
            network: Vec::new(),
        }
    }

    /// Plans every host for `total_commands` instances, from the address pool,
    /// and keeps this host's launch configurations: instance `i` runs
    /// `commands[i]` from `workdir[i]` with `env`.
    pub fn generate(
        &mut self,
        total_commands: usize,
        qdisc: &Vec<(Option<String>, Option<String>)>,
        commands: &Vec<String>,
        env: &Vec<(String, String)>,
        workdir: &Vec<String>,
    ) -> (r: Result<(), EnvError>)
        ensures
            !(1 <= old(self).host_id <= old(self).total_hosts) ==> r == Err::<(), EnvError>(EnvError::HostOutOfRange),
            !(0 < old(self).instances_per_bridge <= MAX_VETH_PER_BRIDGE) && 1 <= old(self).host_id <= old(self).total_hosts
                ==> r == Err::<(), EnvError>(EnvError::Plan(PlanError::PerBridgeOutOfRange)),
            final(self).host_id == old(self).host_id && final(self).total_hosts == old(self).total_hosts,
            final(self).prefix == old(self).prefix && final(self).revert == old(self).revert,
            final(self).instances_per_bridge == old(self).instances_per_bridge,
            r is Err ==> final(self).network == old(self).network && final(self).commands == old(self).commands,
            1 <= old(self).host_id <= old(self).total_hosts && 0 < old(self).instances_per_bridge <= MAX_VETH_PER_BRIDGE ==> {
                let n = total_commands as int;
                let h = old(self).total_hosts as int;
                let pb = old(self).instances_per_bridge as int;
                let enough = pool_addresses(old(self).address_pool).len() >= host_offset(n, h, pb, h);
                let started = if n < commands@.len() { n } else { commands@.len() as int };
                &&& !enough ==> r == Err::<(), EnvError>(EnvError::Plan(PlanError::AddressesExhausted))
                &&& enough && started > workdir@.len() ==> r == Err::<(), EnvError>(
                    EnvError::Config(ConfigError::MissingWorkDir(workdir.len())),
                )
                &&& enough && started <= workdir@.len() ==> r is Ok
            },
            r is Ok ==> {
                let n = total_commands as int;
                let h = old(self).total_hosts as int;
                let pb = old(self).instances_per_bridge as int;
                let plans = final(self).network@;
                let lo = host_first(plan_sizes(plans), old(self).host_id - 1, commands@.len() as int);
                let hi = host_first(plan_sizes(plans), old(self).host_id as int, commands@.len() as int);
                &&& plans.len() == h
                &&& forall|g: int|
                    0 <= g < h ==> host_plan(
                        &config_of(old(self)),
                        h,
                        host_start(n, h, g),
                        host_end(n, h, g),
                        pool_addresses(old(self).address_pool).skip(host_offset(n, h, pb, g)),
                        qdisc@,
                        #[trigger] plans[g],
                    )
                &&& final(self).commands@.len() == hi - lo
                &&& forall|k: int|
                    0 <= k < final(self).commands@.len() ==> config_entry(
                        old(self).prefix@,
                        old(self).redirect,
                        commands@,
                        env@,
                        workdir@,
                        lo + k,
                        #[trigger] final(self).commands@[k],
                    )
            },
    {
        if self.host_id == 0 || self.host_id > self.total_hosts {
            return Err(EnvError::HostOutOfRange);
        }
        let cfg = Config {
            prefix: self.prefix.clone(),
            net: self.net,
            per_bridge: self.instances_per_bridge,
            vxlan_id: self.vxlan_id,
            vxlan_port: self.vxlan_port,
            vxlan_multicast_group: self.vxlan_multicast_group,
            vxlan_device: self.vxlan_device.clone(),
        };
        assert(cfg == config_of(old(self)));
        let network = match generate(&cfg, self.total_hosts, total_commands, &mut self.address_pool, qdisc) {
            Ok(n) => n,
            Err(e) => {
                return Err(EnvError::Plan(e));
            },
        };
        let mut sizes: Vec<usize> = Vec::new();
        let mut g: usize = 0;
        while g < network.len()
            invariant
                g <= network@.len(),
                sizes@ == plan_sizes(network@).take(g as int),
            decreases network@.len() - g,
        {
            sizes.push(network[g].veth.len());
            assert(sizes@ =~= plan_sizes(network@).take(g as int + 1));
            g = g + 1;
        }
        assert(sizes@ =~= plan_sizes(network@));
        proof {
            lemma_plan_sizes_sum(
                &cfg,
                total_commands as int,
                self.total_hosts as int,
                pool_addresses(old(self).address_pool),
                qdisc@,
                network@,
                self.total_hosts as int,
            );
            lemma_chunk(total_commands as int, self.total_hosts as int, 0);
        }
        let mut hosts = match supervisor::generate(self.prefix.as_str(), self.redirect, &sizes, commands, env, workdir) {
            Ok(c) => c,
            Err(e) => {
                return Err(EnvError::Config(e));
            },
        };
        let idx = self.host_id - 1;
        let mine = hosts.swap_remove(idx);
        self.commands = mine;
        self.network = network;
        Ok(())
    }

    /// The actions that deploy this host's plan.
    pub fn deploy(&self) -> (r: Result<Vec<Action>, EnvError>)
        ensures
            !(1 <= self.host_id <= self.network@.len()) ==> r == Err::<Vec<Action>, EnvError>(EnvError::NotGenerated),
            1 <= self.host_id <= self.network@.len() ==> {
                let d = self.network@[self.host_id - 1];
                &&& r is Ok <==> deployable(d)
                &&& r is Ok ==> verbs(r->Ok_0@) == deploy_verbs(d, self.prefix@)
            },
    {
        if self.host_id == 0 || self.host_id > self.network.len() {
            return Err(EnvError::NotGenerated);
        }
        match deploy(&self.network[self.host_id - 1], self.prefix.as_str()) {
            Ok(a) => Ok(a),
            Err(e) => Err(EnvError::Deploy(e)),
        }
    }

    /// The actions that tear this host's plan down: none when the network is
    /// to be kept or no plan was made.
    pub fn clear(&self) -> (r: Vec<Action>)
        ensures
            self.revert && 1 <= self.host_id <= self.network@.len() ==> verbs(r@) == teardown_verbs(
                self.network@[self.host_id - 1],
                self.prefix@,
            ),
            !(self.revert && 1 <= self.host_id <= self.network@.len()) ==> r@.len() == 0,
    {
        if self.revert && self.host_id >= 1 && self.host_id <= self.network.len() {
            cleanup(&self.network[self.host_id - 1], self.prefix.as_str())
        } else {
            Vec::new()
        }
    }

    /// The partition agent's task for a schedule: every instance of every
    /// plan, host by host, and no rule installed yet.
    pub fn enable_partition(&self, partition: Partition) -> (r: Task)
        ensures
            r.partition == partition,
            r.instances@ == all_veths(self.network@),
            r.enabled@.len() == 0,
    {
        Task::new(partition, self.partition_instances())
    }

    /// The instances the partition agent works on: every instance of every
    /// plan, host by host.
    pub fn partition_instances(&self) -> (r: Vec<NamespaceVeth>)
        ensures
            r@ == all_veths(self.network@),
    {
        let mut r: Vec<NamespaceVeth> = Vec::new();
        let mut g: usize = 0;
        while g < self.network.len()
            invariant
                g <= self.network@.len(),
                r@ == all_veths(self.network@.take(g as int)),
            decreases self.network@.len() - g,
        {
            let d = &self.network[g];
            let ghost before = r@;
            let mut k: usize = 0;
            while k < d.veth.len()
                invariant
                    k <= d.veth@.len(),
                    r@ == before + d.veth@.take(k as int).map_values(|e: (usize, NamespaceVeth)| e.1),
                decreases d.veth@.len() - k,
            {
                r.push(d.veth[k].1.copied());
                assert(r@ =~= before + d.veth@.take(k as int + 1).map_values(|e: (usize, NamespaceVeth)| e.1));
                k = k + 1;
            }
            assert(d.veth@.take(d.veth@.len() as int) =~= d.veth@);
            assert(self.network@.take(g as int + 1).drop_last() =~= self.network@.take(g as int));
            assert(r@ =~= all_veths(self.network@.take(g as int + 1)));
            g = g + 1;
        }
        assert(self.network@.take(self.network@.len() as int) =~= self.network@);
        r
    }
}

} // verus!
