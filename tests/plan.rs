use playground::deploy::{cleanup, deploy, DeployError};
use playground::network::{Addr, IpAddress};
use playground::plan::{generate, generate_one, Config, PlanError};

fn v4(a: u8, b: u8, c: u8, d: u8) -> IpAddress {
    IpAddress::V4(u32::from_be_bytes([a, b, c, d]))
}

fn test_config() -> Config {
    Config {
        prefix: "test".to_string(),
        net: Addr { ip: v4(10, 1, 1, 0), prefix_len: 16 },
        per_bridge: 1000,
        vxlan_id: 100,
        vxlan_port: 4789,
        vxlan_multicast_group: u32::from_be_bytes([239, 1, 1, 1]),
        vxlan_device: "eth0".to_string(),
    }
}

#[test]
fn test_generate() {
    let cfg = test_config();
    const TOTAL_HOSTS: usize = 5;
    const TOTAL_COMMANDS: usize = 10000;
    let data = generate(&cfg, TOTAL_HOSTS, TOTAL_COMMANDS, &mut cfg.net.hosts(), &vec![]);
    assert!(data.is_ok());
    let data = data.unwrap();
    assert_eq!(data.len(), TOTAL_HOSTS);
    for instance in data {
        assert_eq!(instance.vxlan.len(), 1);
        assert_eq!(instance.bridges.len(), TOTAL_COMMANDS / TOTAL_HOSTS / cfg.per_bridge);
        assert_eq!(instance.veth.len(), TOTAL_COMMANDS / TOTAL_HOSTS, "{:?}", instance.veth);
        assert_eq!(instance.qdisc.len(), 0);
    }
}

#[test]
fn single_host_has_no_overlay_and_keeps_qdiscs() {
    let cfg = test_config();
    let qdisc = vec![
        (None, None),
        (Some("rate 1mbit".to_string()), None),
        (None, Some("delay 100ms".to_string())),
    ];
    let plans = generate(&cfg, 1, 3, &mut cfg.net.hosts(), &qdisc).unwrap();
    assert_eq!(plans.len(), 1);
    let p = &plans[0];
    assert_eq!(p.vxlan.len(), 0);
    assert_eq!(p.bridges.len(), 1);
    assert_eq!(p.veth.len(), 3);
    assert_eq!(p.qdisc.len(), 3);
    assert_eq!(p.qdisc[0].1.tbf, None);
    assert_eq!(p.qdisc[0].1.netem, None);
    assert_eq!(p.qdisc[1].1.tbf.as_deref(), Some("rate 1mbit"));
    assert_eq!(p.qdisc[2].1.netem.as_deref(), Some("delay 100ms"));
}

#[test]
fn addresses_come_bridge_first_in_index_order() {
    let mut cfg = test_config();
    cfg.per_bridge = 2;
    let plans = generate(&cfg, 1, 3, &mut cfg.net.hosts(), &vec![]).unwrap();
    let p = &plans[0];
    assert_eq!(p.bridges.len(), 2);
    assert_eq!(p.bridges[0].1.addr.ip, v4(10, 1, 0, 1));
    assert_eq!(p.veth[0].1.addr.ip, v4(10, 1, 0, 2));
    assert_eq!(p.veth[1].1.addr.ip, v4(10, 1, 0, 3));
    assert_eq!(p.bridges[1].1.addr.ip, v4(10, 1, 0, 4));
    assert_eq!(p.veth[2].1.addr.ip, v4(10, 1, 0, 5));
    assert_eq!(p.veth[2].1.bridge, 1);
    assert_eq!(p.bridges[1].1.name, "testb1");
    assert_eq!(p.veth[2].1.namespace.name, "test-2");
    assert_eq!(p.veth[2].1.addr.prefix_len, 16);
}

#[test]
fn host_zero_takes_the_remainder() {
    let cfg = test_config();
    let plans = generate(&cfg, 3, 10, &mut cfg.net.hosts(), &vec![]).unwrap();
    let sizes: Vec<usize> = plans.iter().map(|p| p.veth.len()).collect();
    assert_eq!(sizes, vec![4, 3, 3]);
    let keys: Vec<usize> = plans.iter().flat_map(|p| p.veth.iter().map(|v| v.0)).collect();
    assert_eq!(keys, (0..10).collect::<Vec<usize>>());
}

#[test]
fn addresses_within_a_plan_are_distinct() {
    let mut cfg = test_config();
    cfg.per_bridge = 3;
    let plans = generate(&cfg, 2, 20, &mut cfg.net.hosts(), &vec![]).unwrap();
    for p in &plans {
        let mut all: Vec<IpAddress> = p.bridges.iter().map(|b| b.1.addr.ip).collect();
        all.extend(p.veth.iter().map(|v| v.1.addr.ip));
        let n = all.len();
        all.sort_by_key(|a| format!("{:?}", a));
        all.dedup();
        assert_eq!(all.len(), n);
        for (i, v) in &p.veth {
            assert_eq!(v.bridge, i / 3);
            assert!(p.bridges.iter().any(|b| b.0 == v.bridge));
        }
    }
}

#[test]
fn same_inputs_give_equal_plans() {
    let cfg = test_config();
    let a = generate(&cfg, 2, 7, &mut cfg.net.hosts(), &vec![]).unwrap();
    let b = generate(&cfg, 2, 7, &mut cfg.net.hosts(), &vec![]).unwrap();
    assert_eq!(a, b);
}

#[test]
fn per_bridge_out_of_range_is_refused() {
    let mut cfg = test_config();
    cfg.per_bridge = 0;
    assert_eq!(generate(&cfg, 1, 1, &mut cfg.net.hosts(), &vec![]), Err(PlanError::PerBridgeOutOfRange));
    cfg.per_bridge = 1001;
    assert_eq!(generate(&cfg, 1, 1, &mut cfg.net.hosts(), &vec![]), Err(PlanError::PerBridgeOutOfRange));
}

#[test]
fn no_hosts_is_refused() {
    let cfg = test_config();
    assert_eq!(generate(&cfg, 0, 1, &mut cfg.net.hosts(), &vec![]), Err(PlanError::NoHosts));
}

#[test]
fn small_pool_runs_out() {
    let mut cfg = test_config();
    cfg.net = Addr { ip: v4(10, 0, 0, 0), prefix_len: 30 };
    // two host addresses: one bridge and one instance fit, a second instance does not
    assert!(generate(&cfg, 1, 1, &mut cfg.net.hosts(), &vec![]).is_ok());
    assert_eq!(generate(&cfg, 1, 2, &mut cfg.net.hosts(), &vec![]), Err(PlanError::AddressesExhausted));
}

#[test]
fn deploy_runs_in_order() {
    let mut cfg = test_config();
    cfg.per_bridge = 2;
    let qdisc = vec![(Some("rate 1mbit".to_string()), Some("delay 100ms".to_string()))];
    let plans = generate(&cfg, 1, 3, &mut cfg.net.hosts(), &qdisc).unwrap();
    let actions = deploy(&plans[0], "test").unwrap();
    let lines: Vec<String> = actions.iter().map(|a| a.command()).collect();
    assert_eq!(lines[0], "ip link add testb0 type bridge");
    assert_eq!(lines[1], "ip addr add 10.1.0.1/16 dev testb0");
    assert_eq!(lines[2], "ip link set testb0 up");
    assert_eq!(lines[6], "ip link add name v-test-c01-0 type veth peer name v-test-c01-1");
    assert_eq!(lines[7], "ip link set v-test-c01-0 master testb0");
    assert_eq!(lines[11], "ip netns add test-0");
    assert_eq!(lines[12], "ip link add v-test-0-br type veth peer name v-test-0-ns netns test-0");
    assert_eq!(lines[13], "ip link set v-test-0-br master testb0");
    assert_eq!(lines[14], "ip -n test-0 addr add 10.1.0.2/16 dev v-test-0-ns");
    assert_eq!(lines[15], "ip -n test-0 link set lo up");
    assert_eq!(lines[17], "ip -n test-0 route add default via 10.1.0.1");
    assert_eq!(lines[18], "ip link set v-test-0-br up");
    assert_eq!(lines[19], "ip netns exec test-0 tc qdisc add dev v-test-0-ns root handle 1: tbf rate 1mbit");
    assert_eq!(
        lines[20],
        "ip netns exec test-0 tc qdisc add dev v-test-0-ns parent 1:1 handle 10: netem delay 100ms"
    );
    assert_eq!(lines.len(), 11 + 3 * 8 + 2);
}

#[test]
fn overlay_goes_on_the_first_bridge() {
    let cfg = test_config();
    let plans = generate(&cfg, 2, 2, &mut cfg.net.hosts(), &vec![]).unwrap();
    let lines: Vec<String> = deploy(&plans[1], "test").unwrap().iter().map(|a| a.command()).collect();
    assert_eq!(lines[3], "ip link add vx-test type vxlan id 100 group 239.1.1.1 dev eth0 dstport 4789");
    assert_eq!(lines[4], "ip link set vx-test master testb0");
}

#[test]
fn netem_alone_sits_at_the_root() {
    let cfg = test_config();
    let qdisc = vec![(None, Some("delay 5ms".to_string()))];
    let plans = generate(&cfg, 1, 1, &mut cfg.net.hosts(), &qdisc).unwrap();
    let lines: Vec<String> = deploy(&plans[0], "p").unwrap().iter().map(|a| a.command()).collect();
    assert_eq!(lines.last().unwrap(), "ip netns exec test-0 tc qdisc add dev v-test-0-ns root handle 1: netem delay 5ms");
}

#[test]
fn deploy_refuses_a_missing_bridge() {
    let cfg = test_config();
    let mut plans = generate(&cfg, 1, 1, &mut cfg.net.hosts(), &vec![]).unwrap();
    plans[0].bridges.clear();
    assert_eq!(deploy(&plans[0], "test"), Err(DeployError::MissingBridge(0)));
}

#[test]
fn cleanup_reverses_in_order() {
    let mut cfg = test_config();
    cfg.per_bridge = 1;
    let plans = generate(&cfg, 2, 4, &mut cfg.net.hosts(), &vec![]).unwrap();
    let lines: Vec<String> = cleanup(&plans[0], "test").iter().map(|a| a.command()).collect();
    assert_eq!(
        lines,
        vec![
            "ip link del v-test-0-br",
            "ip link del v-test-1-br",
            "ip netns del test-0",
            "ip netns del test-1",
            "ip link del v-test-c01-0",
            "ip link del v-test-c01-1",
            "ip link del vx-test",
            "ip link del testb0",
            "ip link del testb1",
        ]
    );
}

#[test]
fn generate_one_refuses_per_bridge_out_of_range() {
    let mut cfg = test_config();
    cfg.per_bridge = 1001;
    assert_eq!(generate_one(&cfg, 1, 0, 0, &mut cfg.net.hosts(), &vec![]), Err(PlanError::PerBridgeOutOfRange));
    cfg.per_bridge = 0;
    assert_eq!(generate_one(&cfg, 1, 0, 3, &mut cfg.net.hosts(), &vec![]), Err(PlanError::PerBridgeOutOfRange));
    cfg.per_bridge = 1000;
    assert_eq!(generate_one(&cfg, 1, 0, 3, &mut cfg.net.hosts(), &vec![]).unwrap().veth.len(), 3);
}
