//! What the supervisor needs to launch each instance: its launch
//! configuration, the command line it runs in its namespace, where its output
//! goes, and what its exit means.
use vstd::prelude::*;

use crate::network::{namespace_name, Namespace};
use crate::text::{decimal, replace_all, replace_text, texts, usize_text, words, words_of};

verus! {

/// How one instance is launched.
#[derive(Debug, Clone)]
pub struct CommandConfig {
    /// The namespace it runs in.
    pub name: String,
    /// The command; `{index}` stands for the instance index.
    pub command: String,
    /// Its working directory.
    pub work_dir: String,
    /// Environment variables set on top of the inherited environment, in order.
    pub os_env: Vec<(String, String)>,
    /// Output goes to files in the working directory rather than to the log.
    pub redirect: bool,
}

/// Why launch configurations could not be made.
#[derive(Debug, Clone, Copy, PartialEq, Eq)]
pub enum ConfigError {
    /// No working directory was given for this instance.
    MissingWorkDir(usize),
}

/// The total of the first `h` counts.
pub open spec fn sum_first(counts: Seq<usize>, h: int) -> int
    decreases h,
{
    if h <= 0 {
        0
    } else {
        sum_first(counts, h - 1) + counts[h - 1]
    }
}

/// The first instance of host `h`, where only `n` commands are to be had.
pub open spec fn host_first(counts: Seq<usize>, h: int, n: int) -> int {
    if sum_first(counts, h) < n {
        sum_first(counts, h)
    } else {
        n
    }
}

/// Instance `i` as its launch configuration holds it.
pub open spec fn config_entry(
    prefix: Seq<char>,
    redirect: bool,
    commands: Seq<String>,
    env: Seq<(String, String)>,
    work_dirs: Seq<String>,
    i: int,
    entry: (usize, CommandConfig),
) -> bool {
    &&& entry.0 == i
    &&& entry.1.name@ == namespace_name(prefix, i as nat)
    &&& entry.1.command == commands[i]
    &&& entry.1.work_dir == work_dirs[i]
    &&& entry.1.os_env@ == env
    &&& entry.1.redirect == redirect
}

fn copy_env(env: &Vec<(String, String)>) -> (r: Vec<(String, String)>)
    ensures
        r@ == env@,
{
    let mut r: Vec<(String, String)> = Vec::new();
    let mut i: usize = 0;
    while i < env.len()
        invariant
            i <= env@.len(),
            r@ == env@.take(i as int),
        decreases env@.len() - i,
    {
        r.push((env[i].0.clone(), env[i].1.clone()));
        assert(r@ =~= env@.take(i as int + 1));
        i = i + 1;
    }
    assert(env@.take(env@.len() as int) =~= env@);
    r
}

proof fn lemma_sum_first_monotone(counts: Seq<usize>, a: int, b: int)
    requires
        0 <= a <= b <= counts.len(),
    ensures
        sum_first(counts, a) <= sum_first(counts, b),
    decreases b - a,
{
    if a < b {
        lemma_sum_first_monotone(counts, a, b - 1);
    }
}

/// The launch configurations of every host: host `h` runs the next
/// `per_host[h]` instances, as long as commands last. Instance `i` runs
/// `commands[i]` in namespace `<prefix>-<i>` from `work_dirs[i]` with `env`.
pub fn generate(
    prefix: &str,
    redirect: bool,
    per_host: &Vec<usize>,
    commands: &Vec<String>,
    env: &Vec<(String, String)>,
    work_dirs: &Vec<String>,
) -> (r: Result<Vec<Vec<(usize, CommandConfig)>>, ConfigError>)
    ensures
        ({
            let needed = host_first(per_host@, per_host@.len() as int, commands@.len() as int);
            &&& r is Ok <==> needed <= work_dirs@.len()
            &&& r is Err ==> r->Err_0 == ConfigError::MissingWorkDir(work_dirs.len())
        }),
        r is Ok ==> {
            let hosts = r->Ok_0@;
            &&& hosts.len() == per_host@.len()
            &&& forall|h: int|
                0 <= h < hosts.len() ==> {
                    let lo = host_first(per_host@, h, commands@.len() as int);
                    let hi = host_first(per_host@, h + 1, commands@.len() as int);
                    &&& (#[trigger] hosts[h])@.len() == hi - lo
                    &&& forall|k: int|
                        0 <= k < hosts[h]@.len() ==> config_entry(
                            prefix@,
                            redirect,
                            commands@,
                            env@,
                            work_dirs@,
                            lo + k,
                            #[trigger] hosts[h]@[k],
                        )
                }
        },
{
    let n = commands.len();
    let mut hosts: Vec<Vec<(usize, CommandConfig)>> = Vec::new();
    let mut i: usize = 0;
    let mut h: usize = 0;
    while h < per_host.len()
        invariant
            h <= per_host@.len(),
            n == commands@.len(),
            i == host_first(per_host@, h as int, n as int),
            i <= work_dirs@.len(),
            hosts@.len() == h,
            forall|g: int|
                0 <= g < h ==> {
                    let lo = host_first(per_host@, g, n as int);
                    let hi = host_first(per_host@, g + 1, n as int);
                    &&& (#[trigger] hosts@[g])@.len() == hi - lo
                    &&& forall|k: int|
                        0 <= k < hosts@[g]@.len() ==> config_entry(
                            prefix@,
                            redirect,
                            commands@,
                            env@,
                            work_dirs@,
                            lo + k,
                            #[trigger] hosts@[g]@[k],
                        )
                },
        decreases per_host@.len() - h,
    {
        let count = per_host[h];
        let lo = i;
        let mut taken: usize = 0;
        let mut conf: Vec<(usize, CommandConfig)> = Vec::new();
        while taken < count && i < n
            invariant
                h < per_host@.len(),
                count == per_host@[h as int],
                lo == host_first(per_host@, h as int, n as int),
                sum_first(per_host@, h as int + 1) == sum_first(per_host@, h as int) + count,
                i == lo + taken,
                taken <= count,
                i <= n,
                n == commands@.len(),
                lo <= work_dirs@.len(),
                i <= work_dirs@.len(),
                conf@.len() == taken,
                forall|k: int|
                    0 <= k < conf@.len() ==> config_entry(
                        prefix@,
                        redirect,
                        commands@,
                        env@,
                        work_dirs@,
                        lo + k,
                        #[trigger] conf@[k],
                    ),
            decreases count - taken,
        {
            if i >= work_dirs.len() {
                proof {
                    lemma_sum_first_monotone(per_host@, h as int + 1, per_host@.len() as int);
                    assert(i < host_first(per_host@, h as int + 1, n as int));
                }
                return Err(ConfigError::MissingWorkDir(i));
            }
            let c = CommandConfig {
                name: Namespace::name(prefix, i),
                command: commands[i].clone(),
                work_dir: work_dirs[i].clone(),
                os_env: copy_env(env),
                redirect,
            };
            conf.push((i, c));
            i = i + 1;
            taken = taken + 1;
        }
        proof {
            lemma_sum_first_monotone(per_host@, h as int, h as int + 1);
        }
        assert(i == host_first(per_host@, h as int + 1, n as int));
        hosts.push(conf);
        h = h + 1;
    }
    Ok(hosts)
}

/// `ip netns exec <namespace> <command>`, `{index}` in the command written as
/// the instance index.
pub open spec fn invocation_text(namespace: Seq<char>, command: Seq<char>, index: nat) -> Seq<char> {
    "ip netns exec "@ + namespace + " "@ + replace_all(command, "{index}"@, decimal(index))
}

/// The command line that runs instance `index` in its namespace.
pub fn invocation(cfg: &CommandConfig, index: usize) -> (r: String)
    ensures
        r@ == invocation_text(cfg.name@, cfg.command@, index as nat),
{
    let i = usize_text(index);
    proof {
        reveal_strlit("{index}");
    }
    let cmd = replace_text(cfg.command.as_str(), "{index}", i.as_str());
    String::from_str("ip netns exec ").concat(cfg.name.as_str()).concat(" ").concat(cmd.as_str())
}

/// The program and its arguments for instance `index`: the words of its
/// command line.
pub fn launch_argv(cfg: &CommandConfig, index: usize) -> (r: Vec<String>)
    ensures
        texts(r@) == words_of(invocation_text(cfg.name@, cfg.command@, index as nat)),
{
    let line = invocation(cfg, index);
    words(line.as_str())
}

/// `<namespace>.stdout`: where a redirected instance's output goes, in its
/// working directory.
pub fn stdout_file(cfg: &CommandConfig) -> (r: String)
    ensures
        r@ == cfg.name@ + ".stdout"@,
{
    cfg.name.clone().concat(".stdout")
}

/// `<namespace>.stderr`: where a redirected instance's errors go.
pub fn stderr_file(cfg: &CommandConfig) -> (r: String)
    ensures
        r@ == cfg.name@ + ".stderr"@,
{
    cfg.name.clone().concat(".stderr")
}

/// What an instance's exit means.
#[derive(Debug, Clone, Copy, PartialEq, Eq)]
pub enum ExitOutcome {
    /// Ended by a signal: no exit code, nothing to report.
    Signalled,
    Succeeded,
    /// A non-zero exit code: an error.
    Failed(i32),
}

/// Classifies an exit by its code, `None` when a signal ended the process.
pub fn exit_outcome(code: Option<i32>) -> (r: ExitOutcome)
    ensures
        code is None ==> r == ExitOutcome::Signalled,
        code == Some(0i32) ==> r == ExitOutcome::Succeeded,
        code is Some && code->0 != 0 ==> r == ExitOutcome::Failed(code->0),
{
    match code {
        None => ExitOutcome::Signalled,
        Some(0) => ExitOutcome::Succeeded,
        Some(c) => ExitOutcome::Failed(c),
    }
}

} // verus!
