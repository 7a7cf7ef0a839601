use playground::agent::{Data, HostInfo, WorkerStatus};
use playground::fanout::{
    counts_for, expand_commands, expand_prefix, merge_env, parse_env, parse_host, qdisc_stream, replace_xxx, total_instances,
    work_dirs_for, EnvError, FanOutError, HostError,
};
use playground::shell::{bridge_cleanup, namespace_cleanup, veth_cleanup, ListingError};
use playground::sysctl::{ensure_value, ipv4_neigh_gc_threash3, required_sysctls};

#[test]
fn counts_broadcast() {
    assert_eq!(counts_for(3, &vec![]).unwrap(), vec![1, 1, 1]);
    assert_eq!(counts_for(3, &vec![4]).unwrap(), vec![4, 4, 4]);
    assert_eq!(counts_for(2, &vec![4, 5]).unwrap(), vec![4, 5]);
    assert_eq!(counts_for(3, &vec![4, 5]).unwrap_err(), FanOutError::CountMismatch);
}

#[test]
fn totals_add_up() {
    assert_eq!(total_instances(&vec![2, 3]).unwrap(), 5);
    assert_eq!(total_instances(&vec![usize::MAX, 1]).unwrap_err(), FanOutError::TooManyInstances);
}

#[test]
fn commands_repeat_their_count() {
    let c = vec!["a".to_string(), "b".to_string()];
    assert_eq!(expand_commands(&c, &vec![2, 1]), vec!["a", "a", "b"]);
}

#[test]
fn qdisc_falls_back_to_the_first() {
    let tbf = vec!["rate 1mbit".to_string()];
    let s = qdisc_stream(2, &tbf, &vec![]);
    assert_eq!(s, vec![(Some("rate 1mbit".to_string()), None), (Some("rate 1mbit".to_string()), None)]);
    assert!(qdisc_stream(2, &vec![], &vec![]).is_empty());
}

#[test]
fn work_dirs_fall_back() {
    assert_eq!(work_dirs_for(2, &vec![], "/cwd"), vec!["/cwd", "/cwd"]);
    assert_eq!(work_dirs_for(3, &vec!["/a".to_string(), "/b".to_string()], "/cwd"), vec!["/a", "/b", "/a"]);
}

#[test]
fn env_values_split_at_the_first_equals() {
    assert_eq!(parse_env("K=V=W").unwrap(), ("K".to_string(), "V=W".to_string()));
    assert_eq!(parse_env("K=").unwrap(), ("K".to_string(), "".to_string()));
    assert_eq!(parse_env("K").unwrap_err(), EnvError::NoValue);
}

#[test]
fn host_identity() {
    assert_eq!(parse_host("1/1").unwrap(), (1, 1));
    assert_eq!(parse_host("2/5").unwrap(), (2, 5));
    assert_eq!(parse_host("2").unwrap_err(), HostError::NoTotal);
    assert_eq!(parse_host("a/5").unwrap_err(), HostError::BadNumber);
    assert_eq!(parse_host("0/5").unwrap_err(), HostError::OutOfRange);
    assert_eq!(parse_host("6/5").unwrap_err(), HostError::OutOfRange);
}

#[test]
fn prefix_expansion() {
    assert_eq!(expand_prefix("p-XX", &vec!['a', '7']), "p-a7");
    let a = replace_xxx("p-XX");
    assert_eq!(a.len(), 4);
    assert!(a.starts_with("p-"));
    assert!(a.chars().skip(2).all(|c| c.is_ascii_alphanumeric()));
    assert_eq!(replace_xxx("plain"), "plain");
}

#[test]
fn sweep_keeps_only_prefixed_names() {
    let ns = br#"[{"name":"p-0","id":1},{"name":"other"},{"id":3},{"name":"p-1"}]"#;
    let lines: Vec<String> = namespace_cleanup(ns, "p-").unwrap().iter().map(|a| a.command()).collect();
    assert_eq!(lines, vec!["ip netns del p-0", "ip netns del p-1"]);
    let links = br#"[{"ifname":"pb0"},{"ifname":"eth0"}]"#;
    let lines: Vec<String> = bridge_cleanup(links, "p").unwrap().iter().map(|a| a.command()).collect();
    assert_eq!(lines, vec!["ip link del pb0"]);
    let veths = br#"[{"ifname":"v-p-0-br"},{"ifname":"veth9"}]"#;
    let lines: Vec<String> = veth_cleanup(veths, "p").unwrap().iter().map(|a| a.command()).collect();
    assert_eq!(lines, vec!["ip link del v-p-0-br"]);
    assert_eq!(namespace_cleanup(b"not json", "p").unwrap_err(), ListingError::Malformed);
}

#[test]
fn sysctls() {
    let s = required_sysctls();
    assert_eq!(s[0], ("net.bridge.bridge-nf-call-iptables".to_string(), "0".to_string()));
    assert_eq!(s[1], ("net.ipv4.neigh.default.gc_thresh3".to_string(), "2048000".to_string()));
    assert_eq!(s[2], ("net.ipv4.ip_forward".to_string(), "1".to_string()));
    assert_eq!(ipv4_neigh_gc_threash3(7).1, "7");
    assert!(!ensure_value(&Some("0".to_string()), "0"));
    assert!(ensure_value(&Some("1".to_string()), "0"));
    assert!(ensure_value(&None, "0"));
}

#[test]
fn worker_status() {
    assert_eq!(WorkerStatus::of(false, false, false, false), WorkerStatus::Pending);
    assert_eq!(WorkerStatus::of(true, true, false, false), WorkerStatus::Running);
    assert_eq!(WorkerStatus::of(true, false, true, false), WorkerStatus::Stopped);
    assert_eq!(WorkerStatus::of(true, false, false, false), WorkerStatus::Stopping);
    assert_eq!(WorkerStatus::of(false, false, false, true), WorkerStatus::Failed);
    assert_eq!(WorkerStatus::Stopping.to_string(), "stopping");
    assert!(WorkerStatus::Pending.accepts_work());
    assert!(!WorkerStatus::Running.accepts_work());
    let d = Data::new();
    assert!(d.commands.is_empty() && d.network.veth.is_empty());
    let h = HostInfo { hostname: "h".to_string(), vxlan_device: "eth0".to_string() };
    assert_eq!(h.vxlan_device, "eth0");
}

#[test]
fn later_env_values_win() {
    let p = |k: &str, v: &str| (k.to_string(), v.to_string());
    let merged = merge_env(&vec![p("A", "1"), p("B", "2"), p("A", "3")]);
    assert_eq!(merged, vec![p("A", "3"), p("B", "2")]);
    assert!(merge_env(&vec![]).is_empty());
}

#[test]
fn numbers_render_in_base_ten() {
    assert_eq!(ipv4_neigh_gc_threash3(0).1, "0");
    assert_eq!(ipv4_neigh_gc_threash3(4294967295).1, "4294967295");
    assert_eq!(ipv4_neigh_gc_threash3(2048000).1, "2048000");
}
