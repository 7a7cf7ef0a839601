use playground::supervisor::{
    exit_outcome, generate, invocation, launch_argv, stderr_file, stdout_file, CommandConfig, ConfigError, ExitOutcome,
};

fn cmds(n: usize, c: &str) -> Vec<String> {
    (0..n).map(|_| c.to_string()).collect()
}

#[test]
fn index_is_written_into_each_command() {
    let hosts = generate("p", false, &vec![3], &cmds(3, "echo {index}"), &vec![], &cmds(3, "/tmp")).unwrap();
    let lines: Vec<String> = hosts[0].iter().map(|(i, c)| invocation(c, *i)).collect();
    assert_eq!(
        lines,
        vec![
            "ip netns exec p-0 echo 0".to_string(),
            "ip netns exec p-1 echo 1".to_string(),
            "ip netns exec p-2 echo 2".to_string(),
        ]
    );
    let argv = launch_argv(&hosts[0][2].1, 2);
    assert_eq!(argv, vec!["ip", "netns", "exec", "p-2", "echo", "2"]);
}

#[test]
fn hosts_get_consecutive_instances() {
    let env = vec![("K".to_string(), "V".to_string())];
    let hosts = generate("p", true, &vec![2, 1], &cmds(3, "run"), &env, &cmds(3, "/w")).unwrap();
    assert_eq!(hosts.len(), 2);
    assert_eq!(hosts[0].len(), 2);
    assert_eq!(hosts[1][0].0, 2);
    assert_eq!(hosts[1][0].1.name, "p-2");
    assert_eq!(hosts[1][0].1.os_env, env);
    assert!(hosts[1][0].1.redirect);
}

#[test]
fn commands_running_out_end_the_list() {
    let hosts = generate("p", false, &vec![2, 2], &cmds(3, "run"), &vec![], &cmds(3, "/w")).unwrap();
    assert_eq!(hosts[0].len(), 2);
    assert_eq!(hosts[1].len(), 1);
}

#[test]
fn missing_work_dir_is_refused() {
    let r = generate("p", false, &vec![3], &cmds(3, "run"), &vec![], &cmds(2, "/w"));
    assert_eq!(r.unwrap_err(), ConfigError::MissingWorkDir(2));
}

#[test]
fn output_files_are_named_by_namespace() {
    let c = CommandConfig {
        name: "p-4".to_string(),
        command: "x".to_string(),
        work_dir: "/w".to_string(),
        os_env: vec![],
        redirect: true,
    };
    assert_eq!(stdout_file(&c), "p-4.stdout");
    assert_eq!(stderr_file(&c), "p-4.stderr");
}

#[test]
fn exits_are_classified() {
    assert_eq!(exit_outcome(None), ExitOutcome::Signalled);
    assert_eq!(exit_outcome(Some(0)), ExitOutcome::Succeeded);
    assert_eq!(exit_outcome(Some(3)), ExitOutcome::Failed(3));
}
