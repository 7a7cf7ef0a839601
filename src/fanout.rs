//! From the command line's lists to one value per instance: how many
//! instances each command runs, which command, qdisc and working directory
//! each instance gets, the environment, the host identity and the prefix.
use vstd::prelude::*;

use crate::supervisor::sum_first;
use crate::text::{chars_of, parse_usize, string_of, usize_value};
use rand::Rng;

verus! {

/// Why the command line's lists do not fit together.
#[derive(Debug, Clone, Copy, PartialEq, Eq)]
pub enum FanOutError {
    /// More than one count, and not one per command.
    CountMismatch,
    /// The total number of instances does not fit a machine word.
    TooManyInstances,
}

/// The count of each command: 1 each when none is given, the one count for
/// all when one is given, else one count per command.
pub open spec fn counts_spec(n: int, counts: Seq<usize>) -> Option<Seq<usize>> {
    if counts.len() == 0 {
        Some(Seq::new(n as nat, |_i: int| 1usize))
    } else if counts.len() == 1 {
        Some(Seq::new(n as nat, |_i: int| counts[0]))
    } else if counts.len() == n {
        Some(counts)
    } else {
        None
    }
}

pub fn counts_for(n_commands: usize, counts: &Vec<usize>) -> (r: Result<Vec<usize>, FanOutError>)
    ensures
        match counts_spec(n_commands as int, counts@) {
            Some(c) => r is Ok && r->Ok_0@ == c,
            None => r == Err::<Vec<usize>, FanOutError>(FanOutError::CountMismatch),
        },
{
    if counts.len() > 1 && counts.len() != n_commands {
        return Err(FanOutError::CountMismatch);
    }
    if counts.len() == n_commands && counts.len() > 1 {
        let mut r: Vec<usize> = Vec::new();
        let mut i: usize = 0;
        while i < counts.len()
            invariant
                i <= counts@.len(),
                r@ == counts@.take(i as int),
            decreases counts@.len() - i,
        {
            r.push(counts[i]);
            assert(r@ =~= counts@.take(i as int + 1));
            i = i + 1;
        }
        assert(counts@.take(counts@.len() as int) =~= counts@);
        return Ok(r);
    }
    let each: usize = if counts.len() == 0 { 1 } else { counts[0] };
    let mut r: Vec<usize> = Vec::new();
    let mut i: usize = 0;
    while i < n_commands
        invariant
            i <= n_commands,
            r@.len() == i,
            forall|j: int| 0 <= j < i ==> #[trigger] r@[j] == each,
        decreases n_commands - i,
    {
        r.push(each);
        i = i + 1;
    }
    proof {
        if counts@.len() == 0 {
            assert(r@ =~= Seq::new(n_commands as nat, |_i: int| 1usize));
        } else {
            assert(r@ =~= Seq::new(n_commands as nat, |_i: int| counts@[0]));
        }
    }
    Ok(r)
}

/// The number of instances in all.
pub fn total_instances(counts: &Vec<usize>) -> (r: Result<usize, FanOutError>)
    ensures
        sum_first(counts@, counts@.len() as int) <= usize::MAX ==> r == Ok::<usize, FanOutError>(
            sum_first(counts@, counts@.len() as int) as usize,
        ),
        sum_first(counts@, counts@.len() as int) > usize::MAX ==> r == Err::<usize, FanOutError>(
            FanOutError::TooManyInstances,
        ),
{
    let mut total: usize = 0;
    let mut i: usize = 0;
    while i < counts.len()
        invariant
            i <= counts@.len(),
            total == sum_first(counts@, i as int),
        decreases counts@.len() - i,
    {
        if total > usize::MAX - counts[i] {
            proof {
                lemma_sum_grows(counts@, i as int + 1, counts@.len() as int);
            }
            return Err(FanOutError::TooManyInstances);
        }
        total = total + counts[i];
        i = i + 1;
    }
    Ok(total)
}

proof fn lemma_sum_grows(counts: Seq<usize>, a: int, b: int)
    requires
        0 <= a <= b <= counts.len(),
    ensures
        sum_first(counts, a) <= sum_first(counts, b),
    decreases b - a,
{
    if a < b {
        lemma_sum_grows(counts, a, b - 1);
    }
}

/// Each command repeated its count of times, in order.
pub open spec fn repeated(commands: Seq<String>, counts: Seq<usize>) -> Seq<String>
    decreases commands.len(),
{
    if commands.len() == 0 || counts.len() < commands.len() {
        seq![]
    } else {
        repeated(commands.drop_last(), counts.take(commands.len() - 1)) + Seq::new(
            counts[commands.len() - 1] as nat,
            |_i: int| commands.last(),
        )
    }
}

proof fn lemma_repeated_len(commands: Seq<String>, counts: Seq<usize>)
    requires
        commands.len() == counts.len(),
    ensures
        repeated(commands, counts).len() == sum_first(counts, counts.len() as int),
    decreases commands.len(),
{
    if commands.len() > 0 {
        assert(counts.take(commands.len() - 1).len() == commands.len() - 1);
        lemma_repeated_len(commands.drop_last(), counts.take(commands.len() - 1));
        lemma_sum_take(counts, counts.len() - 1);
    }
}

proof fn lemma_sum_take(counts: Seq<usize>, h: int)
    requires
        0 <= h <= counts.len(),
    ensures
        sum_first(counts.take(h), h) == sum_first(counts, h),
    decreases h,
{
    if h > 0 {
        assert(counts.take(h).take(h - 1) =~= counts.take(h - 1));
        lemma_sum_take(counts.take(h), h - 1);
        lemma_sum_take(counts, h - 1);
    }
}

/// The command of every instance: each command repeated its count of times.
pub fn expand_commands(commands: &Vec<String>, counts: &Vec<usize>) -> (r: Vec<String>)
    requires
        commands@.len() == counts@.len(),
        sum_first(counts@, counts@.len() as int) <= usize::MAX,
    ensures
        r@ == repeated(commands@, counts@),
{
    let mut r: Vec<String> = Vec::new();
    let mut i: usize = 0;
    while i < commands.len()
        invariant
            i <= commands@.len(),
            commands@.len() == counts@.len(),
            r@ == repeated(commands@.take(i as int), counts@.take(i as int)),
        decreases commands@.len() - i,
    {
        let ghost before = r@;
        let mut k: usize = 0;
        while k < counts[i]
            invariant
                i < commands@.len(),
                commands@.len() == counts@.len(),
                k <= counts@[i as int],
                r@.len() == before.len() + k,
                forall|j: int| 0 <= j < before.len() ==> r@[j] == before[j],
                forall|j: int| before.len() <= j < r@.len() ==> r@[j] == commands@[i as int],
            decreases counts@[i as int] - k,
        {
            r.push(commands[i].clone());
            k = k + 1;
        }
        proof {
            let c = commands@.take(i as int + 1);
            let n = counts@.take(i as int + 1);
            assert(c.drop_last() =~= commands@.take(i as int));
            assert(n.take(c.len() - 1) =~= counts@.take(i as int));
            assert(r@ =~= repeated(c, n));
        }
        i = i + 1;
    }
    assert(commands@.take(commands@.len() as int) =~= commands@);
    assert(counts@.take(counts@.len() as int) =~= counts@);
    r
}

/// The value for instance `i`: the `i`-th given, else the first given, else none.
pub open spec fn pick(values: Seq<String>, i: int) -> Option<String> {
    if i < values.len() {
        Some(values[i])
    } else if values.len() > 0 {
        Some(values[0])
    } else {
        None
    }
}

fn pick_value(values: &Vec<String>, i: usize) -> (r: Option<String>)
    ensures
        r == pick(values@, i as int),
{
    if i < values.len() {
        Some(values[i].clone())
    } else if values.len() > 0 {
        Some(values[0].clone())
    } else {
        None
    }
}

/// The qdisc options of each instance: tbf and netem each by index, else the
/// first given; no stream at all where neither was given.
pub fn qdisc_stream(total: usize, tbf: &Vec<String>, netem: &Vec<String>) -> (r: Vec<(Option<String>, Option<String>)>)
    ensures
        tbf@.len() == 0 && netem@.len() == 0 ==> r@.len() == 0,
        tbf@.len() > 0 || netem@.len() > 0 ==> r@.len() == total && forall|i: int|
            0 <= i < total ==> #[trigger] r@[i] == (pick(tbf@, i), pick(netem@, i)),
{
    let mut r: Vec<(Option<String>, Option<String>)> = Vec::new();
    if tbf.len() == 0 && netem.len() == 0 {
        return r;
    }
    let mut i: usize = 0;
    while i < total
        invariant
            i <= total,
            r@.len() == i,
            forall|j: int| 0 <= j < i ==> #[trigger] r@[j] == (pick(tbf@, j), pick(netem@, j)),
        decreases total - i,
    {
        r.push((pick_value(tbf, i), pick_value(netem, i)));
        i = i + 1;
    }
    r
}

/// The working directory of each instance: by index, else the first given,
/// else `current`.
pub fn work_dirs_for(total: usize, dirs: &Vec<String>, current: &str) -> (r: Vec<String>)
    ensures
        r@.len() == total,
        forall|i: int|
            0 <= i < total ==> (#[trigger] r@[i])@ == match pick(dirs@, i) {
                Some(d) => d@,
                None => current@,
            },
{
    let mut r: Vec<String> = Vec::new();
    let mut i: usize = 0;
    while i < total
        invariant
            i <= total,
            r@.len() == i,
            forall|j: int|
                0 <= j < i ==> (#[trigger] r@[j])@ == match pick(dirs@, j) {
                    Some(d) => d@,
                    None => current@,
                },
        decreases total - i,
    {
        let d = match pick_value(dirs, i) {
            Some(d) => d,
            None => current.to_owned(),
        };
        r.push(d);
        i = i + 1;
    }
    r
}

/// Where `c` first stands in `s`, or the length of `s`.
pub open spec fn char_position(s: Seq<char>, c: char) -> int
    decreases s.len(),
{
    if s.len() == 0 {
        0
    } else if s[0] == c {
        0
    } else {
        1 + char_position(s.drop_first(), c)
    }
}

proof fn lemma_char_position(s: Seq<char>, c: char, i: int)
    requires
        0 <= i <= s.len(),
        i < s.len() ==> s[i] == c,
        forall|j: int| 0 <= j < i ==> s[j] != c,
    ensures
        char_position(s, c) == i,
    decreases i,
{
    if i > 0 {
        assert(s[0] != c);
        assert forall|j: int| 0 <= j < i - 1 implies s.drop_first()[j] != c by {
            assert(s.drop_first()[j] == s[j + 1]);
        }
        if i < s.len() {
            assert(s.drop_first()[i - 1] == s[i]);
        }
        lemma_char_position(s.drop_first(), c, i - 1);
    }
}

fn find_char(s: &Vec<char>, c: char) -> (r: Option<usize>)
    ensures
        match r {
            Some(i) => i < s@.len() && s@[i as int] == c && forall|j: int| 0 <= j < i ==> s@[j] != c,
            None => forall|j: int| 0 <= j < s@.len() ==> s@[j] != c,
        },
{
    let mut i: usize = 0;
    while i < s.len()
        invariant
            i <= s@.len(),
            forall|j: int| 0 <= j < i ==> s@[j] != c,
        decreases s@.len() - i,
    {
        if s[i] == c {
            return Some(i);
        }
        i = i + 1;
    }
    None
}

fn slice_text(s: &Vec<char>, from: usize, to: usize) -> (r: String)
    requires
        from <= to <= s@.len(),
    ensures
        r@ == s@.subrange(from as int, to as int),
{
    let mut v: Vec<char> = Vec::new();
    let mut i = from;
    while i < to
        invariant
            from <= i <= to <= s@.len(),
            v@ == s@.subrange(from as int, i as int),
        decreases to - i,
    {
        v.push(s[i]);
        assert(v@ =~= s@.subrange(from as int, i as int + 1));
        i = i + 1;
    }
    string_of(&v)
}

/// Why a `KEY=VALUE` setting was refused.
#[derive(Debug, Clone, Copy, PartialEq, Eq)]
pub enum EnvError {
    NoValue,
}

/// Reads `KEY=VALUE`: the key is what comes before the first `=`, the value
/// all that follows it.
pub fn parse_env(s: &str) -> (r: Result<(String, String), EnvError>)
    ensures
        ({
            let i = char_position(s@, '=');
            &&& r is Ok <==> i < s@.len()
            &&& r is Err ==> r->Err_0 == EnvError::NoValue
            &&& r is Ok ==> r->Ok_0.0@ == s@.take(i) && r->Ok_0.1@ == s@.skip(i + 1)
        }),
{
    let cs = chars_of(s);
    let n = cs.len();
    match find_char(&cs, '=') {
        Some(i) => {
            proof {
                lemma_char_position(s@, '=', i as int);
            }
            let key = slice_text(&cs, 0, i);
            let value = slice_text(&cs, i + 1, n);
            assert(s@.subrange(0, i as int) =~= s@.take(i as int));
            assert(s@.subrange(i + 1, n as int) =~= s@.skip(i + 1));
            Ok((key, value))
        },
        None => {
            proof {
                lemma_char_position(s@, '=', s@.len() as int);
            }
            Err(EnvError::NoValue)
        },
    }
}

/// The views of environment settings.
pub open spec fn env_views(v: Seq<(String, String)>) -> Seq<(Seq<char>, Seq<char>)> {
    v.map_values(|p: (String, String)| (p.0@, p.1@))
}

/// Where key `k` first stands in `m`, or the length of `m`.
pub open spec fn key_position(m: Seq<(Seq<char>, Seq<char>)>, k: Seq<char>) -> int
    decreases m.len(),
{
    if m.len() == 0 {
        0
    } else if m[0].0 == k {
        0
    } else {
        1 + key_position(m.drop_first(), k)
    }
}

/// Settings applied in order: each key once, in the order it first came,
/// with the last value given for it.
pub open spec fn merged(ps: Seq<(Seq<char>, Seq<char>)>) -> Seq<(Seq<char>, Seq<char>)>
    decreases ps.len(),
{
    if ps.len() == 0 {
        seq![]
    } else {
        let m = merged(ps.drop_last());
        let k = ps.last().0;
        let i = key_position(m, k);
        if i < m.len() {
            m.update(i, ps.last())
        } else {
            m.push(ps.last())
        }
    }
}

proof fn lemma_key_position(m: Seq<(Seq<char>, Seq<char>)>, k: Seq<char>, i: int)
    requires
        0 <= i <= m.len(),
        i < m.len() ==> m[i].0 == k,
        forall|j: int| 0 <= j < i ==> m[j].0 != k,
    ensures
        key_position(m, k) == i,
    decreases i,
{
    if i > 0 {
        assert(m[0].0 != k);
        assert forall|j: int| 0 <= j < i - 1 implies m.drop_first()[j].0 != k by {
            assert(m.drop_first()[j] == m[j + 1]);
        }
        if i < m.len() {
            assert(m.drop_first()[i - 1] == m[i]);
        }
        lemma_key_position(m.drop_first(), k, i - 1);
    }
}

/// Merges `KEY=VALUE` settings given in order: a later value for a key
/// replaces an earlier one.
pub fn merge_env(pairs: &Vec<(String, String)>) -> (r: Vec<(String, String)>)
    ensures
        env_views(r@) == merged(env_views(pairs@)),
{
    let ghost ps = env_views(pairs@);
    let mut out: Vec<(String, String)> = Vec::new();
    let mut i: usize = 0;
    while i < pairs.len()
        invariant
            i <= pairs@.len(),
            ps == env_views(pairs@),
            env_views(out@) == merged(ps.take(i as int)),
        decreases pairs@.len() - i,
    {
        let ghost m = env_views(out@);
        assert(ps.take(i as int + 1).drop_last() =~= ps.take(i as int));
        assert(ps.take(i as int + 1).last() == ps[i as int]);
        let mut j: usize = 0;
        while j < out.len() && !(out[j].0 == pairs[i].0)
            invariant
                j <= out@.len(),
                m == env_views(out@),
                i < pairs@.len(),
                ps == env_views(pairs@),
                forall|x: int| 0 <= x < j ==> m[x].0 != ps[i as int].0,
            decreases out@.len() - j,
        {
            j = j + 1;
        }
        if j < out.len() {
            proof {
                lemma_key_position(m, ps[i as int].0, j as int);
            }
            out.set(j, (pairs[i].0.clone(), pairs[i].1.clone()));
            assert(env_views(out@) =~= m.update(j as int, ps[i as int]));
        } else {
            proof {
                lemma_key_position(m, ps[i as int].0, m.len() as int);
            }
            out.push((pairs[i].0.clone(), pairs[i].1.clone()));
            assert(env_views(out@) =~= m.push(ps[i as int]));
        }
        i = i + 1;
    }
    assert(ps.take(pairs@.len() as int) =~= ps);
    out
}

/// Why a host identity was refused.
#[derive(Debug, Clone, Copy, PartialEq, Eq)]
pub enum HostError {
    /// No `/` between the host's number and the number of hosts.
    NoTotal,
    /// A number that is not one.
    BadNumber,
    /// The host's number is not between 1 and the number of hosts.
    OutOfRange,
}

/// What `<id>/<total>` reads as.
pub open spec fn host_spec(s: Seq<char>) -> Result<(usize, usize), HostError> {
    let i = char_position(s, '/');
    if i >= s.len() {
        Err(HostError::NoTotal)
    } else {
        match (usize_value(s.take(i)), usize_value(s.skip(i + 1))) {
            (Some(id), Some(total)) => if 1 <= id <= total {
                Ok((id, total))
            } else {
                Err(HostError::OutOfRange)
            },
            _ => Err(HostError::BadNumber),
        }
    }
}

/// Reads `<id>/<total>`: this host's number, counted from 1, and the number of hosts.
pub fn parse_host(s: &str) -> (r: Result<(usize, usize), HostError>)
    ensures
        r == host_spec(s@),
{
    let cs = chars_of(s);
    let i = match find_char(&cs, '/') {
        Some(i) => i,
        None => {
            proof {
                lemma_char_position(s@, '/', s@.len() as int);
            }
            return Err(HostError::NoTotal);
        },
    };
    proof {
        lemma_char_position(s@, '/', i as int);
    }
    let n = cs.len();
    let id_text = slice_text(&cs, 0, i);
    let total_text = slice_text(&cs, i + 1, n);
    assert(s@.subrange(0, i as int) =~= s@.take(i as int));
    assert(s@.subrange(i + 1, n as int) =~= s@.skip(i + 1));
    let id = match parse_usize(id_text.as_str()) {
        Some(v) => v,
        None => {
            return Err(HostError::BadNumber);
        },
    };
    let total = match parse_usize(total_text.as_str()) {
        Some(v) => v,
        None => {
            return Err(HostError::BadNumber);
        },
    };
    if id == 0 || id > total {
        return Err(HostError::OutOfRange);
    }
    Ok((id, total))
}

/// An ASCII letter or digit.
pub open spec fn is_alphanumeric(c: char) -> bool {
    ('a' <= c <= 'z') || ('A' <= c <= 'Z') || ('0' <= c <= '9')
}

/// Relies on rand's `Alphanumeric` distribution, sampled from `thread_rng`:
/// `n` characters, each an ASCII letter or digit.
#[verifier::external_body]
fn random_alphanumeric(n: usize) -> (r: Vec<char>)
    ensures
        r@.len() == n,
        forall|i: int| 0 <= i < n ==> is_alphanumeric(#[trigger] r@[i]),
{
    rand::thread_rng().sample_iter(&rand::distributions::Alphanumeric).take(n).map(char::from).collect()
}

/// How many `X` are among the first `k` characters.
pub open spec fn x_before(s: Seq<char>, k: int) -> int
    decreases k,
{
    if k <= 0 {
        0
    } else {
        x_before(s, k - 1) + if s[k - 1] == 'X' { 1int } else { 0int }
    }
}

proof fn lemma_x_before_bound(s: Seq<char>, k: int)
    requires
        0 <= k <= s.len(),
    ensures
        0 <= x_before(s, k) <= k,
    decreases k,
{
    if k > 0 {
        lemma_x_before_bound(s, k - 1);
    }
}

/// `template` with its `k`-th `X` written as `random[k]`.
pub open spec fn expanded(template: Seq<char>, random: Seq<char>) -> Seq<char> {
    Seq::new(
        template.len(),
        |i: int|
            if template[i] == 'X' {
                random[x_before(template, i)]
            } else {
                template[i]
            },
    )
}

/// Writes the `k`-th `X` of `template` as `random[k]`.
pub fn expand_prefix(template: &str, random: &Vec<char>) -> (r: String)
    requires
        x_before(template@, template@.len() as int) <= random@.len(),
    ensures
        r@ == expanded(template@, random@),
{
    let cs = chars_of(template);
    let rn = random.len();
    let mut out: Vec<char> = Vec::new();
    let mut k: usize = 0;
    let mut i: usize = 0;
    while i < cs.len()
        invariant
            i <= cs@.len(),
            cs@ == template@,
            k == x_before(template@, i as int),
            rn == random@.len(),
            x_before(template@, template@.len() as int) <= random@.len(),
            out@ == expanded(template@, random@).take(i as int),
        decreases cs@.len() - i,
    {
        proof {
            lemma_x_before_monotone(template@, i as int + 1, template@.len() as int);
        }
        if cs[i] == 'X' {
            out.push(random[k]);
            k = k + 1;
        } else {
            out.push(cs[i]);
        }
        assert(out@ =~= expanded(template@, random@).take(i as int + 1));
        i = i + 1;
    }
    assert(expanded(template@, random@).take(cs@.len() as int) =~= expanded(template@, random@));
    string_of(&out)
}

proof fn lemma_x_before_monotone(s: Seq<char>, a: int, b: int)
    requires
        0 <= a <= b <= s.len(),
    ensures
        x_before(s, a) <= x_before(s, b),
    decreases b - a,
{
    if a < b {
        lemma_x_before_monotone(s, a, b - 1);
    }
}

/// The prefix with every `X` replaced by a random ASCII letter or digit.
pub fn replace_xxx(prefix: &str) -> (r: String)
    ensures
        r@.len() == prefix@.len(),
        forall|i: int| 0 <= i < prefix@.len() && prefix@[i] != 'X' ==> r@[i] == prefix@[i],
        forall|i: int| 0 <= i < prefix@.len() && prefix@[i] == 'X' ==> is_alphanumeric(#[trigger] r@[i]),
{
    let n = prefix.unicode_len();
    let cs = chars_of(prefix);
    let mut count: usize = 0;
    let mut i: usize = 0;
    while i < n
        invariant
            i <= n,
            n == prefix@.len(),
            cs@ == prefix@,
            count == x_before(prefix@, i as int),
            count <= i,
        decreases n - i,
    {
        if cs[i] == 'X' {
            count = count + 1;
        }
        i = i + 1;
    }
    let random = random_alphanumeric(count);
    let r = expand_prefix(prefix, &random);
    assert forall|i: int| 0 <= i < prefix@.len() && prefix@[i] == 'X' implies is_alphanumeric(#[trigger] r@[i]) by {
        lemma_x_before_monotone(prefix@, i + 1, prefix@.len() as int);
        lemma_x_before_bound(prefix@, i);
    }
    r
}

} // verus!
