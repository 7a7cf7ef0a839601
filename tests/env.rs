use playground::env::{Env, EnvError};
use playground::network::{Addr, IpAddress};
use playground::partition::Partition;
use playground::plan::PlanError;
use playground::supervisor::ConfigError;

fn env(host_id: usize, total: usize, revert: bool) -> Env {
    Env::new(
        host_id,
        total,
        "t".to_string(),
        Addr { ip: IpAddress::V4(u32::from_be_bytes([10, 0, 0, 0])), prefix_len: 16 },
        1000,
        revert,
        false,
        1000,
        4789,
        u32::from_be_bytes([239, 1, 1, 1]),
        "eth0".to_string(),
    )
}

fn texts(n: usize, s: &str) -> Vec<String> {
    (0..n).map(|_| s.to_string()).collect()
}

#[test]
fn second_host_keeps_its_own_commands() {
    let mut e = env(2, 2, true);
    e.generate(4, &vec![], &texts(4, "run {index}"), &vec![], &texts(4, "/w")).unwrap();
    assert_eq!(e.network.len(), 2);
    let keys: Vec<usize> = e.commands.iter().map(|c| c.0).collect();
    assert_eq!(keys, vec![2, 3]);
    assert_eq!(e.commands[0].1.name, "t-2");
    assert!(!e.deploy().unwrap().is_empty());
    assert_eq!(e.clear()[0].command(), "ip link del v-t-2-br");
    assert_eq!(e.partition_instances().len(), 4);
}

#[test]
fn host_out_of_range_is_refused() {
    let mut e = env(3, 2, true);
    assert_eq!(e.generate(4, &vec![], &texts(4, "x"), &vec![], &texts(4, "/w")), Err(EnvError::HostOutOfRange));
    assert_eq!(e.deploy().unwrap_err(), EnvError::NotGenerated);
}

#[test]
fn kept_network_needs_no_teardown() {
    let mut e = env(1, 1, false);
    e.generate(1, &vec![], &texts(1, "x"), &vec![], &texts(1, "/w")).unwrap();
    assert!(e.clear().is_empty());
}

#[test]
fn partition_task_covers_every_host() {
    let mut e = env(1, 2, true);
    e.generate(3, &vec![], &texts(3, "x"), &vec![], &texts(3, "/w")).unwrap();
    let task = e.enable_partition(Partition::parse("0.5 0.5 interval 1s duration 1s").unwrap());
    let names: Vec<String> = task.instances.iter().map(|v| v.namespace.name.clone()).collect();
    assert_eq!(names, vec!["t-0", "t-1", "t-2"]);
    assert!(task.enabled.is_empty());
}

#[test]
fn env_reports_missing_work_dirs() {
    let mut e = env(1, 1, true);
    assert_eq!(
        e.generate(3, &vec![], &texts(3, "x"), &vec![], &texts(2, "/w")),
        Err(EnvError::Config(ConfigError::MissingWorkDir(2)))
    );
    assert!(e.network.is_empty() && e.commands.is_empty());
}

#[test]
fn env_reports_an_exhausted_pool() {
    let mut e = Env::new(
        1,
        1,
        "t".to_string(),
        Addr { ip: IpAddress::V4(u32::from_be_bytes([10, 0, 0, 0])), prefix_len: 30 },
        1000,
        true,
        false,
        1,
        1,
        0,
        String::new(),
    );
    assert_eq!(
        e.generate(3, &vec![], &texts(3, "x"), &vec![], &texts(3, "/w")),
        Err(EnvError::Plan(PlanError::AddressesExhausted))
    );
}
