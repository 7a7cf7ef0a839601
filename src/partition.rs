//! The partition schedule and agent: which DROP rules split the instances
//! into buckets, and when to install and remove them.
use vstd::prelude::*;

use crate::kernel::{verbs, Action, Verb};
use crate::network::NamespaceVeth;
use crate::text::{lemma_texts_push, texts, words, words_of};

verus! {

/// A length of time, as whole seconds and the nanoseconds beyond them.
#[derive(Debug, Clone, Copy, PartialEq, Eq)]
pub struct Span {
    pub secs: u64,
    pub nanos: u32,
}

impl Span {
    pub open spec fn is_zero(&self) -> bool {
        self.secs == 0 && self.nanos == 0
    }
}

#[verifier::external_type_specification]
#[verifier::external_body]
pub struct ExDurationError(humantime::DurationError);

/// The length of time a humantime text (`5s`, `1m 30s`) denotes, where it denotes one.
pub uninterp spec fn humantime_span(s: Seq<char>) -> Option<Span>;

/// The longest word read as a length of time. A word this short has at most
/// eleven digits, so whatever its units it denotes fewer than 10^11 years,
/// far below `u64::MAX` seconds: `humantime::parse_duration` never reaches
/// the seconds overflow in which `Duration::new` panics.
pub const MAX_SPAN_WORD: usize = 12;

/// Relies on `humantime::parse_duration`: a length of time for a text in its
/// grammar, its error otherwise; the result depends on the text alone. Texts
/// longer than `MAX_SPAN_WORD` are left out: a long one can make it panic.
#[verifier::external_body]
fn parse_span(s: &str) -> (r: Result<Span, humantime::DurationError>)
    requires
        s@.len() <= MAX_SPAN_WORD,
    ensures
        r is Ok <==> humantime_span(s@) is Some,
        r is Ok ==> humantime_span(s@) == Some(r->Ok_0),
{
    humantime::parse_duration(s).map(|d| Span { secs: d.as_secs(), nanos: d.subsec_nanos() })
}

/// Why a partition schedule was refused.
#[derive(Debug, Clone, Copy, PartialEq, Eq)]
pub enum ScheduleError {
    /// No bucket comes before `interval`.
    MissingBuckets,
    /// No `interval` keyword, or nothing after it.
    MissingInterval,
    /// The interval is not a length of time, or is written in more than
    /// `MAX_SPAN_WORD` characters.
    BadInterval,
    /// No `duration` keyword, or nothing after it.
    MissingDuration,
    /// Another word stands where `duration` belongs.
    UnknownKeyword,
    /// The duration is not a length of time, or is written in more than
    /// `MAX_SPAN_WORD` characters.
    BadDuration,
    /// Words follow the duration.
    ExtraTokens,
    /// The interval or the duration is zero.
    NotPositive,
}

/// A partition schedule: bucket ratios as written (`0.5`), how long to wait
/// before each partition, and how long each lasts.
#[derive(Debug, Clone)]
pub struct Partition {
    pub buckets: Vec<String>,
    pub interval: Span,
    pub duration: Span,
}

/// Where `w` first stands in `ws`, or the length of `ws`.
pub open spec fn position_of(ws: Seq<Seq<char>>, w: Seq<char>) -> int
    decreases ws.len(),
{
    if ws.len() == 0 {
        0
    } else if ws[0] == w {
        0
    } else {
        1 + position_of(ws.drop_first(), w)
    }
}

/// The outcome of reading a schedule from its words:
/// `<bucket>+ interval <span> duration <span>`.
pub open spec fn schedule_of(ws: Seq<Seq<char>>) -> Result<(Seq<Seq<char>>, Span, Span), ScheduleError> {
    let k = position_of(ws, "interval"@);
    let rest = ws.skip(k + 1);
    if k == 0 {
        Err(ScheduleError::MissingBuckets)
    } else if k >= ws.len() || rest.len() == 0 {
        Err(ScheduleError::MissingInterval)
    } else if rest[0].len() > MAX_SPAN_WORD || humantime_span(rest[0]) is None {
        Err(ScheduleError::BadInterval)
    } else if rest.len() == 1 {
        Err(ScheduleError::MissingDuration)
    } else if rest[1] != "duration"@ {
        Err(ScheduleError::UnknownKeyword)
    } else if rest.len() == 2 {
        Err(ScheduleError::MissingDuration)
    } else if rest[2].len() > MAX_SPAN_WORD || humantime_span(rest[2]) is None {
        Err(ScheduleError::BadDuration)
    } else if rest.len() > 3 {
        Err(ScheduleError::ExtraTokens)
    } else if humantime_span(rest[0])->0.is_zero() || humantime_span(rest[2])->0.is_zero() {
        Err(ScheduleError::NotPositive)
    } else {
        Ok((ws.take(k), humantime_span(rest[0])->0, humantime_span(rest[2])->0))
    }
}

proof fn lemma_position_step(ws: Seq<Seq<char>>, w: Seq<char>, j: int)
    requires
        0 <= j < ws.len(),
        forall|i: int| 0 <= i < j ==> ws[i] != w,
    ensures
        ws[j] == w ==> position_of(ws, w) == j,
        ws[j] != w ==> forall|i: int| 0 <= i < j + 1 ==> ws[i] != w,
    decreases j,
{
    if j > 0 {
        assert forall|i: int| 0 <= i < j - 1 implies ws.drop_first()[i] != w by {
            assert(ws.drop_first()[i] == ws[i + 1]);
        }
        assert(ws.drop_first()[j - 1] == ws[j]);
        lemma_position_step(ws.drop_first(), w, j - 1);
    }
}

proof fn lemma_position_absent(ws: Seq<Seq<char>>, w: Seq<char>)
    requires
        forall|i: int| 0 <= i < ws.len() ==> ws[i] != w,
    ensures
        position_of(ws, w) == ws.len(),
    decreases ws.len(),
{
    if ws.len() > 0 {
        assert forall|i: int| 0 <= i < ws.len() - 1 implies ws.drop_first()[i] != w by {
            assert(ws.drop_first()[i] == ws[i + 1]);
        }
        lemma_position_absent(ws.drop_first(), w);
    }
}

impl Partition {
    /// Reads `<bucket>+ interval <span> duration <span>`, for example
    /// `0.5 0.5 interval 5s duration 10s`. The bucket ratios are kept as
    /// written; both spans must be positive.
    pub fn parse(s: &str) -> (r: Result<Partition, ScheduleError>)
        ensures
            match (r, schedule_of(words_of(s@))) {
                (Ok(p), Ok((b, i, d))) => texts(p.buckets@) == b && p.interval == i
                    && p.duration == d,
                (Err(e), Err(f)) => e == f,
                _ => false,
            },
            r is Ok ==> !r->Ok_0.interval.is_zero() && !r->Ok_0.duration.is_zero(),
    {
        let ws = words(s);
        let ghost wv = texts(ws@);
        let interval_kw = String::from_str("interval");
        let duration_kw = String::from_str("duration");
        proof {
            reveal_strlit("interval");
            reveal_strlit("duration");
        }
        let mut k: usize = 0;
        while k < ws.len() && !(ws[k] == interval_kw)
            invariant
                k <= ws@.len(),
                wv == texts(ws@),
                interval_kw@ == "interval"@,
                forall|i: int| 0 <= i < k ==> wv[i] != "interval"@,
            decreases ws@.len() - k,
        {
            proof {
                lemma_position_step(wv, "interval"@, k as int);
            }
            k = k + 1;
        }
        proof {
            if k < ws@.len() {
                lemma_position_step(wv, "interval"@, k as int);
            } else {
                lemma_position_absent(wv, "interval"@);
            }
        }
        assert(k == position_of(wv, "interval"@));
        let ghost rest = wv.skip(k as int + 1);
        if k == 0 {
            return Err(ScheduleError::MissingBuckets);
        }
        if ws.len() - k < 2 {
            return Err(ScheduleError::MissingInterval);
        }
        assert(rest[0] == wv[k as int + 1]);
        if ws[k + 1].as_str().unicode_len() > MAX_SPAN_WORD {
            return Err(ScheduleError::BadInterval);
        }
        let interval = match parse_span(ws[k + 1].as_str()) {
            Ok(t) => t,
            Err(_) => {
                return Err(ScheduleError::BadInterval);
            },
        };
        if ws.len() - k < 3 {
            return Err(ScheduleError::MissingDuration);
        }
        assert(rest[1] == wv[k as int + 2]);
        if !(ws[k + 2] == duration_kw) {
            return Err(ScheduleError::UnknownKeyword);
        }
        if ws.len() - k < 4 {
            return Err(ScheduleError::MissingDuration);
        }
        assert(rest[2] == wv[k as int + 3]);
        if ws[k + 3].as_str().unicode_len() > MAX_SPAN_WORD {
            return Err(ScheduleError::BadDuration);
        }
        let duration = match parse_span(ws[k + 3].as_str()) {
            Ok(t) => t,
            Err(_) => {
                return Err(ScheduleError::BadDuration);
            },
        };
        if ws.len() - k > 4 {
            return Err(ScheduleError::ExtraTokens);
        }
        if (interval.secs == 0 && interval.nanos == 0) || (duration.secs == 0 && duration.nanos == 0) {
            return Err(ScheduleError::NotPositive);
        }
        let mut buckets: Vec<String> = Vec::new();
        let mut i: usize = 0;
        while i < k
            invariant
                i <= k < ws@.len(),
                wv == texts(ws@),
                texts(buckets@) == wv.take(i as int),
            decreases k - i,
        {
            let ghost before = buckets@;
            buckets.push(ws[i].clone());
            assert(buckets@ == before.push(ws@[i as int]));
            proof {
                lemma_texts_push(before, ws@[i as int]);
            }
            assert(wv[i as int] == ws@[i as int]@);
            assert(texts(buckets@) =~= wv.take(i as int + 1));
            i = i + 1;
        }
        Ok(Partition { buckets, interval, duration })
    }
}


/// The bucket of each instance, for buckets of the given sizes filled in turn
/// from `n` instances; instances beyond the buckets belong to none.
pub open spec fn owners(sizes: Seq<usize>, n: int) -> Seq<int>
    decreases sizes.len(),
{
    if sizes.len() == 0 {
        seq![]
    } else {
        let prev = owners(sizes.drop_last(), n);
        let room = n - prev.len();
        let take = if sizes.last() < room { sizes.last() as int } else { room };
        prev + Seq::new(if take > 0 { take as nat } else { 0 }, |_j: int| sizes.len() - 1)
    }
}

proof fn lemma_owners_bound(sizes: Seq<usize>, n: int)
    requires
        n >= 0,
    ensures
        owners(sizes, n).len() <= n,
        forall|j: int| 0 <= j < owners(sizes, n).len() ==> 0 <= #[trigger] owners(sizes, n)[j] < sizes.len(),
    decreases sizes.len(),
{
    if sizes.len() > 0 {
        lemma_owners_bound(sizes.drop_last(), n);
        let prev = owners(sizes.drop_last(), n);
        assert forall|j: int| 0 <= j < owners(sizes, n).len() implies 0 <= #[trigger] owners(sizes, n)[j] < sizes.len() by {
            if j < prev.len() {
                assert(owners(sizes, n)[j] == prev[j]);
            }
        }
    }
}

/// The drop rules of a partition, as pairs of instance positions `(from, to)`:
/// `from` drops what comes from `to` exactly when the two are in different buckets.
pub open spec fn is_rule(own: Seq<int>, p: (usize, usize)) -> bool {
    p.0 < own.len() && p.1 < own.len() && own[p.0 as int] != own[p.1 as int]
}

/// Rule `p` comes before position `(f, t)` in from-major order.
pub open spec fn rule_before(own: Seq<int>, f: int, t: int, p: (usize, usize)) -> bool {
    (p.0 < f || (p.0 == f && p.1 < t)) && is_rule(own, p)
}

/// Splits `n` instances, in order, into buckets of the given sizes (a bucket
/// takes what is left when fewer remain), and pairs every instance with every
/// instance of another bucket, each pair once.
pub fn drop_rules(sizes: &Vec<usize>, n: usize) -> (r: Vec<(usize, usize)>)
    ensures
        r@.no_duplicates(),
        forall|p: (usize, usize)| r@.contains(p) <==> is_rule(owners(sizes@, n as int), p),
{
    let mut owner: Vec<usize> = Vec::new();
    let mut b: usize = 0;
    proof {
        lemma_owners_bound(sizes@, n as int);
    }
    while b < sizes.len()
        invariant
            b <= sizes@.len(),
            owner@.len() == owners(sizes@.take(b as int), n as int).len(),
            owner@.len() <= n,
            forall|j: int| 0 <= j < owner@.len() ==> owner@[j] as int == #[trigger] owners(sizes@.take(b as int), n as int)[j],
        decreases sizes@.len() - b,
    {
        let ghost prev = owners(sizes@.take(b as int), n as int);
        assert(sizes@.take(b as int + 1).drop_last() =~= sizes@.take(b as int));
        let size = sizes[b];
        let mut taken: usize = 0;
        while taken < size && owner.len() < n
            invariant
                b < sizes@.len(),
                size == sizes@[b as int],
                owner@.len() == prev.len() + taken,
                owner@.len() <= n,
                taken <= size,
                forall|j: int| 0 <= j < prev.len() ==> owner@[j] as int == prev[j],
                forall|j: int| prev.len() <= j < owner@.len() ==> owner@[j] == b,
            decreases size - taken,
        {
            owner.push(b);
            taken = taken + 1;
        }
        proof {
            let next = owners(sizes@.take(b as int + 1), n as int);
            assert(sizes@.take(b as int + 1).last() == size);
            assert(next.len() == owner@.len());
            assert forall|j: int| 0 <= j < owner@.len() implies owner@[j] as int == #[trigger] owners(sizes@.take(b as int + 1), n as int)[j] by {
                if j < prev.len() {
                    assert(next[j] == prev[j]);
                } else {
                    assert(next[j] == b);
                }
            }
        }
        b = b + 1;
    }
    assert(sizes@.take(sizes@.len() as int) =~= sizes@);
    let ghost own = owners(sizes@, n as int);
    let m = owner.len();
    let mut r: Vec<(usize, usize)> = Vec::new();
    assert forall|p: (usize, usize)| #[trigger] r@.contains(p) <==> rule_before(own, 0, 0, p) by {}
    let mut f: usize = 0;
    while f < m
        invariant
            f <= m,
            m == owner@.len(),
            m == own.len(),
            forall|j: int| 0 <= j < m ==> owner@[j] as int == #[trigger] own[j],
            r@.no_duplicates(),
            forall|p: (usize, usize)| #[trigger] r@.contains(p) <==> rule_before(own, f as int, 0, p),
        decreases m - f,
    {
        let mut t: usize = 0;
        while t < m
            invariant
                f < m,
                t <= m,
                m == owner@.len(),
                m == own.len(),
                forall|j: int| 0 <= j < m ==> owner@[j] as int == #[trigger] own[j],
                r@.no_duplicates(),
                forall|p: (usize, usize)| #[trigger] r@.contains(p) <==> rule_before(own, f as int, t as int, p),
            decreases m - t,
        {
            assert(owner@[f as int] as int == own[f as int] && owner@[t as int] as int == own[t as int]);
            if owner[f] != owner[t] {
                let ghost before = r@;
                assert(!rule_before(own, f as int, t as int, (f, t)));
                assert(!before.contains((f, t)));
                r.push((f, t));
                assert forall|p: (usize, usize)| #[trigger] r@.contains(p) <==> rule_before(own, f as int, t as int + 1, p) by {
                    if r@.contains(p) && p != (f, t) {
                        let i = choose|i: int| 0 <= i < r@.len() && r@[i] == p;
                        assert(before[i] == p);
                        assert(before.contains(p));
                    }
                    if p == (f, t) {
                        assert(r@[r@.len() - 1] == p);
                    } else if rule_before(own, f as int, t as int, p) {
                        assert(before.contains(p));
                        let i = choose|i: int| 0 <= i < before.len() && before[i] == p;
                        assert(r@[i] == p);
                    }
                }
                assert forall|i: int, j: int| 0 <= i < r@.len() && 0 <= j < r@.len() && i != j implies r@[i] != r@[j] by {
                    if i == r@.len() - 1 {
                        assert(r@[j] == before[j]);
                        assert(before.contains(before[j]));
                    } else if j == r@.len() - 1 {
                        assert(r@[i] == before[i]);
                        assert(before.contains(before[i]));
                    } else {
                        assert(r@[i] == before[i] && r@[j] == before[j]);
                    }
                }
            } else {
                assert forall|p: (usize, usize)| #[trigger] r@.contains(p) <==> rule_before(own, f as int, t as int + 1, p) by {
                    if p == (f, t) {
                        assert(!is_rule(own, p));
                    }
                }
            }
            t = t + 1;
        }
        assert forall|p: (usize, usize)| #[trigger] r@.contains(p) <==> rule_before(own, f as int + 1, 0, p) by {
            assert(rule_before(own, f as int, m as int, p) <==> rule_before(own, f as int + 1, 0, p));
        }
        f = f + 1;
    }
    assert forall|p: (usize, usize)| r@.contains(p) <==> is_rule(own, p) by {
        assert(rule_before(own, m as int, 0, p) <==> is_rule(own, p));
    }
    r
}

/// The partition agent's task: the schedule, the instances in plan order,
/// and the rules it has installed.
pub struct Task {
    pub partition: Partition,
    pub instances: Vec<NamespaceVeth>,
    pub enabled: Vec<(usize, usize)>,
}

/// The rule that makes instance `from` drop what comes from instance `to`.
pub open spec fn drop_verb(instances: Seq<NamespaceVeth>, p: (usize, usize)) -> Verb {
    Verb::DropFrom { netns: instances[p.0 as int].namespace.name@, source: instances[p.1 as int].addr.ip }
}

/// The action that removes that rule.
pub open spec fn undrop_verb(instances: Seq<NamespaceVeth>, p: (usize, usize)) -> Verb {
    Verb::UndropFrom { netns: instances[p.0 as int].namespace.name@, source: instances[p.1 as int].addr.ip }
}

/// The actions that remove the rules `ps`.
pub open spec fn undrops(instances: Seq<NamespaceVeth>, ps: Seq<(usize, usize)>) -> Seq<Verb> {
    ps.map_values(|p: (usize, usize)| undrop_verb(instances, p))
}

impl Task {
    pub fn new(partition: Partition, instances: Vec<NamespaceVeth>) -> (r: Self)
        ensures
            r.partition == partition,
            r.instances == instances,
            r.enabled@.len() == 0,
    {
        Task { partition, instances, enabled: Vec::new() }
    }

    /// The action that installs rule `(from, to)`.
    pub fn rule(&self, from: usize, to: usize) -> (r: Action)
        requires
            from < self.instances@.len(),
            to < self.instances@.len(),
        ensures
            r@ == drop_verb(self.instances@, (from, to)),
    {
        Action::DropFrom {
            netns: self.instances[from].namespace.name.clone(),
            source: self.instances[to].addr.ip,
        }
    }

    /// Remembers that rule `(from, to)` is installed.
    pub fn record(&mut self, from: usize, to: usize)
        ensures
            final(self).enabled@ == old(self).enabled@.push((from, to)),
            final(self).instances == old(self).instances,
            final(self).partition == old(self).partition,
    {
        self.enabled.push((from, to));
    }

    /// The actions that remove every rule installed, in the order they were
    /// installed; afterwards none is remembered.
    pub fn revert(&mut self) -> (r: Vec<Action>)
        requires
            forall|i: int|
                0 <= i < old(self).enabled@.len() ==> (#[trigger] old(self).enabled@[i]).0 < old(self).instances@.len()
                    && old(self).enabled@[i].1 < old(self).instances@.len(),
        ensures
            verbs(r@) == undrops(old(self).instances@, old(self).enabled@),
            final(self).enabled@.len() == 0,
            final(self).instances == old(self).instances,
            final(self).partition == old(self).partition,
    {
        let mut r: Vec<Action> = Vec::new();
        let mut i: usize = 0;
        while i < self.enabled.len()
            invariant
                i <= self.enabled@.len(),
                self.enabled == old(self).enabled,
                self.instances == old(self).instances,
                self.partition == old(self).partition,
                forall|j: int|
                    0 <= j < self.enabled@.len() ==> (#[trigger] self.enabled@[j]).0 < self.instances@.len()
                        && self.enabled@[j].1 < self.instances@.len(),
                verbs(r@) == undrops(self.instances@, self.enabled@.take(i as int)),
            decreases self.enabled@.len() - i,
        {
            let (from, to) = self.enabled[i];
            let a = Action::UndropFrom {
                netns: self.instances[from].namespace.name.clone(),
                source: self.instances[to].addr.ip,
            };
            let ghost before = r@;
            r.push(a);
            assert(a@ == undrop_verb(self.instances@, self.enabled@[i as int]));
            assert(self.enabled@.take(i as int + 1).drop_last() =~= self.enabled@.take(i as int));
            assert(verbs(r@) =~= undrops(self.instances@, self.enabled@.take(i as int + 1))) by {
                assert(verbs(r@) =~= verbs(before).push(a@));
                assert(undrops(self.instances@, self.enabled@.take(i as int + 1)) =~= undrops(
                    self.instances@,
                    self.enabled@.take(i as int),
                ).push(undrop_verb(self.instances@, self.enabled@[i as int])));
            }
            i = i + 1;
        }
        assert(self.enabled@.take(self.enabled@.len() as int) =~= self.enabled@);
        self.enabled.clear();
        r
    }
}

/// Where the partition agent stands.
#[derive(Debug, Clone, Copy, PartialEq, Eq)]
pub enum AgentState {
    /// No rule installed; waiting for the interval.
    Idle,
    /// Rules installed; waiting for the duration.
    Active,
}

/// What ended the agent's wait.
#[derive(Debug, Clone, Copy, PartialEq, Eq)]
pub enum AgentEvent {
    /// The wait ran its full length.
    Elapsed,
    /// A stop was asked for.
    Stopped,
}

/// What the agent does next.
#[derive(Debug, Clone, Copy, PartialEq, Eq)]
pub enum AgentAction {
    /// Install the drop rules.
    Apply,
    /// Remove the rules installed.
    Revert,
    /// Stop with nothing installed.
    Exit,
    /// Remove the rules installed, then stop.
    RevertAndExit,
}

/// The agent's next state and action.
pub open spec fn agent_transition(state: AgentState, event: AgentEvent) -> (AgentState, AgentAction) {
    match (state, event) {
        (AgentState::Idle, AgentEvent::Elapsed) => (AgentState::Active, AgentAction::Apply),
        (AgentState::Idle, AgentEvent::Stopped) => (AgentState::Idle, AgentAction::Exit),
        (AgentState::Active, AgentEvent::Elapsed) => (AgentState::Idle, AgentAction::Revert),
        (AgentState::Active, AgentEvent::Stopped) => (AgentState::Idle, AgentAction::RevertAndExit),
    }
}

/// Decides the agent's next state and action once a wait has ended.
pub fn agent_step(state: AgentState, event: AgentEvent) -> (r: (AgentState, AgentAction))
    ensures
        r == agent_transition(state, event),
{
    match (state, event) {
        (AgentState::Idle, AgentEvent::Elapsed) => (AgentState::Active, AgentAction::Apply),
        (AgentState::Idle, AgentEvent::Stopped) => (AgentState::Idle, AgentAction::Exit),
        (AgentState::Active, AgentEvent::Elapsed) => (AgentState::Idle, AgentAction::Revert),
        (AgentState::Active, AgentEvent::Stopped) => (AgentState::Idle, AgentAction::RevertAndExit),
    }
}

/// How long the agent waits in a state: the interval while idle, the
/// duration while active.
pub fn agent_wait(partition: &Partition, state: AgentState) -> (r: Span)
    ensures
        state == AgentState::Idle ==> r == partition.interval,
        state == AgentState::Active ==> r == partition.duration,
{
    match state {
        AgentState::Idle => partition.interval,
        AgentState::Active => partition.duration,
    }
}

} // verus!
