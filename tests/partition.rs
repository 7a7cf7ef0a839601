use playground::network::{Addr, IpAddress, Namespace, NamespaceVeth};
use playground::partition::{
    agent_step, agent_wait, drop_rules, AgentAction, AgentEvent, AgentState, Partition, ScheduleError, Span, Task,
};

#[test]
fn schedule_parses() {
    let p = Partition::parse("0.5 0.5 interval 5s duration 10s").unwrap();
    assert_eq!(p.buckets, vec!["0.5".to_string(), "0.5".to_string()]);
    assert_eq!(p.interval, Span { secs: 5, nanos: 0 });
    assert_eq!(p.duration, Span { secs: 10, nanos: 0 });
}

#[test]
fn schedule_without_duration_is_refused() {
    assert_eq!(Partition::parse("0.5 0.5 interval 5s").unwrap_err(), ScheduleError::MissingDuration);
}

#[test]
fn schedule_with_bucket_sum_off_keeps_its_buckets_for_the_sum_check() {
    let p = Partition::parse("0.4 0.4 interval 5s duration 10s").unwrap();
    assert_eq!(p.buckets, vec!["0.4".to_string(), "0.4".to_string()]);
}

#[test]
fn schedule_errors() {
    assert_eq!(Partition::parse("interval 5s duration 1s").unwrap_err(), ScheduleError::MissingBuckets);
    assert_eq!(Partition::parse("0.5 0.5").unwrap_err(), ScheduleError::MissingInterval);
    assert_eq!(Partition::parse("1 interval").unwrap_err(), ScheduleError::MissingInterval);
    assert_eq!(Partition::parse("1 interval soon duration 1s").unwrap_err(), ScheduleError::BadInterval);
    assert_eq!(Partition::parse("1 interval 5s lasting 1s").unwrap_err(), ScheduleError::UnknownKeyword);
    assert_eq!(Partition::parse("1 interval 5s duration").unwrap_err(), ScheduleError::MissingDuration);
    assert_eq!(Partition::parse("1 interval 5s duration long").unwrap_err(), ScheduleError::BadDuration);
    assert_eq!(Partition::parse("1 interval 5s duration 1s more").unwrap_err(), ScheduleError::ExtraTokens);
    assert_eq!(Partition::parse("1 interval 0s duration 1s").unwrap_err(), ScheduleError::NotPositive);
    assert_eq!(Partition::parse("1 interval 1s duration 0s").unwrap_err(), ScheduleError::NotPositive);
}

#[test]
fn spans_of_minutes_and_millis() {
    let p = Partition::parse("1 interval 1m 30s duration 250ms").unwrap_err();
    assert_eq!(p, ScheduleError::UnknownKeyword);
    let p = Partition::parse("1 interval 90s duration 250ms").unwrap();
    assert_eq!(p.interval, Span { secs: 90, nanos: 0 });
    assert_eq!(p.duration, Span { secs: 0, nanos: 250_000_000 });
}

#[test]
fn rules_pair_every_instance_with_the_other_buckets() {
    let mut rules = drop_rules(&vec![2, 2], 4);
    rules.sort();
    assert_eq!(
        rules,
        vec![(0, 2), (0, 3), (1, 2), (1, 3), (2, 0), (2, 1), (3, 0), (3, 1)]
    );
}

#[test]
fn last_bucket_takes_what_is_left() {
    let mut rules = drop_rules(&vec![2, 2], 3);
    rules.sort();
    assert_eq!(rules, vec![(0, 2), (1, 2), (2, 0), (2, 1)]);
    assert!(drop_rules(&vec![5], 3).is_empty());
    assert!(drop_rules(&vec![], 3).is_empty());
}

fn veth(i: usize, last: u8) -> NamespaceVeth {
    NamespaceVeth::new(0, Addr { ip: IpAddress::V4(u32::from_be_bytes([10, 0, 0, last])), prefix_len: 24 }, Namespace::new("p", i))
}

#[test]
fn task_installs_and_reverts_what_it_recorded() {
    let p = Partition::parse("0.5 0.5 interval 5s duration 10s").unwrap();
    let mut task = Task::new(p, vec![veth(0, 2), veth(1, 3)]);
    assert_eq!(task.rule(0, 1).command(), "ip netns exec p-0 iptables -I INPUT -s 10.0.0.3 -j DROP");
    task.record(0, 1);
    task.record(1, 0);
    let undo: Vec<String> = task.revert().iter().map(|a| a.command()).collect();
    assert_eq!(
        undo,
        vec![
            "ip netns exec p-0 iptables -D INPUT -s 10.0.0.3 -j DROP".to_string(),
            "ip netns exec p-1 iptables -D INPUT -s 10.0.0.2 -j DROP".to_string(),
        ]
    );
    assert!(task.enabled.is_empty());
    assert!(task.revert().is_empty());
}

#[test]
fn agent_cycles_and_reverts_before_exit() {
    assert_eq!(agent_step(AgentState::Idle, AgentEvent::Elapsed), (AgentState::Active, AgentAction::Apply));
    assert_eq!(agent_step(AgentState::Active, AgentEvent::Elapsed), (AgentState::Idle, AgentAction::Revert));
    assert_eq!(agent_step(AgentState::Idle, AgentEvent::Stopped), (AgentState::Idle, AgentAction::Exit));
    assert_eq!(agent_step(AgentState::Active, AgentEvent::Stopped), (AgentState::Idle, AgentAction::RevertAndExit));
    let p = Partition::parse("1 interval 5s duration 10s").unwrap();
    assert_eq!(agent_wait(&p, AgentState::Idle), Span { secs: 5, nanos: 0 });
    assert_eq!(agent_wait(&p, AgentState::Active), Span { secs: 10, nanos: 0 });
}

#[test]
fn overlong_spans_are_refused() {
    assert_eq!(
        Partition::parse("1 interval 18446744073709551615s1000ms duration 1s").unwrap_err(),
        ScheduleError::BadInterval
    );
    assert_eq!(
        Partition::parse("1 interval 1s duration 18446744073709551615s1000ms").unwrap_err(),
        ScheduleError::BadDuration
    );
    assert_eq!(Partition::parse("1 interval 1s duration 999999999ms").unwrap().duration, Span { secs: 999_999, nanos: 999_000_000 });
}
