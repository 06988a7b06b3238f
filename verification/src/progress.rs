//! The dispatcher as a state machine over plain mathematical values: what
//! it has done so far, what it decides next, and what holds of every run.

use crate::probe::Probe;
use crate::url::url_of;
use vstd::multiset::Multiset;
use vstd::prelude::*;

verus! {

/// The URLs of one hostname: one for each probe, in the order of the probe
/// set.
pub open spec fn expansion(host: Seq<char>, probes: Seq<Probe>) -> Seq<Seq<char>> {
    Seq::new(probes.len(), |j: int| url_of(host, probes[j]))
}

/// The URLs of a list of hostnames: the expansion of the first hostname,
/// then that of the second, and so on.
pub open spec fn targets(hosts: Seq<Seq<char>>, probes: Seq<Probe>) -> Seq<Seq<char>>
    decreases hosts.len(),
{
    if hosts.len() == 0 {
        Seq::empty()
    } else {
        targets(hosts.drop_last(), probes) + expansion(hosts.last(), probes)
    }
}

/// What a dispatcher has done so far.
pub struct Progress {
    /// The probe set of the run.
    pub probes: Seq<Probe>,
    /// The most requests that may be in flight at once.
    pub limit: nat,
    /// The hostnames taken from the input so far, in input order.
    pub hosts: Seq<Seq<char>>,
    /// The URLs submitted so far, in the order of submission.
    pub submitted: Seq<Seq<char>>,
    /// The URLs of the requests in flight: submitted and not yet completed.
    /// A URL that is in flight twice is held twice.
    pub outstanding: Multiset<Seq<char>>,
    /// The URLs of the requests that have completed, in the order of
    /// completion.
    pub outcomes: Seq<Seq<char>>,
    /// Whether the input has come to its end.
    pub exhausted: bool,
}

/// The next thing for the dispatcher to do.
pub enum Decision {
    /// Issue a request for this URL.
    Submit(Seq<char>),
    /// Take the next hostname from the input.
    ReadHost,
    /// Wait for one of the requests in flight to complete.
    AwaitCompletion,
    /// Stop: the input is exhausted and every request has completed.
    Finished,
}

/// One step of a run.
pub enum Step {
    /// The next target is submitted as a request.
    Submit,
    /// The input yields this hostname.
    HostRead(Seq<char>),
    /// The input comes to its end.
    InputEnded,
    /// The request for this URL completes, with success or failure.
    Completed(Seq<char>),
}

impl Progress {
    /// The state before anything has happened.
    pub open spec fn initial(probes: Seq<Probe>, limit: nat) -> Progress {
        Progress {
            probes,
            limit,
            hosts: Seq::empty(),
            submitted: Seq::empty(),
            outstanding: Multiset::empty(),
            outcomes: Seq::empty(),
            exhausted: false,
        }
    }

    /// The number of requests in flight.
    pub open spec fn in_flight(self) -> nat {
        self.outstanding.len()
    }

    /// Every target of the hostnames read so far, in submission order.
    pub open spec fn all_targets(self) -> Seq<Seq<char>> {
        targets(self.hosts, self.probes)
    }

    /// What holds of a dispatcher at every instant.
    ///
    /// The requests in flight never exceed the limit; every request
    /// submitted is either in flight or has completed, and nothing else is
    /// or has; the URLs submitted are the targets of the hostnames read, in
    /// order and without gaps; and a hostname is read only once all targets
    /// of the earlier ones have been submitted.
    pub open spec fn inv(self) -> bool {
        &&& self.limit >= 1
        &&& self.in_flight() <= self.limit
        &&& self.submitted.to_multiset() == self.outcomes.to_multiset().add(self.outstanding)
        &&& self.submitted.is_prefix_of(self.all_targets())
        &&& self.hosts.len() > 0 ==> targets(self.hosts.drop_last(), self.probes).len()
            <= self.submitted.len()
    }

    /// Whether a target of the hostnames read so far is still to be
    /// submitted.
    pub open spec fn pending(self) -> bool {
        self.submitted.len() < self.all_targets().len()
    }

    /// The target to be submitted next.
    pub open spec fn next_target(self) -> Seq<char>
        recommends
            self.pending(),
    {
        self.all_targets()[self.submitted.len() as int]
    }

    /// Whether the run is over: the input is exhausted, every target has
    /// been submitted and every request has completed.
    pub open spec fn finished(self) -> bool {
        self.exhausted && !self.pending() && self.in_flight() == 0
    }

    /// What the dispatcher does next.
    ///
    /// While a slot is free it fills it: with the next target if one is
    /// pending, else by asking the input for another hostname. With every
    /// slot taken, or with the input exhausted and requests outstanding, it
    /// waits for a completion. It stops when nothing is left to do.
    pub open spec fn decision(self) -> Decision {
        if self.in_flight() >= self.limit {
            Decision::AwaitCompletion
        } else if self.pending() {
            Decision::Submit(self.next_target())
        } else if !self.exhausted {
            Decision::ReadHost
        } else if self.in_flight() > 0 {
            Decision::AwaitCompletion
        } else {
            Decision::Finished
        }
    }

    /// Whether `step` may be taken in this state.
    pub open spec fn enabled(self, step: Step) -> bool {
        match step {
            Step::Submit => self.pending() && self.in_flight() < self.limit,
            Step::HostRead(_) => !self.pending() && !self.exhausted,
            Step::InputEnded => true,
            Step::Completed(url) => self.outstanding.contains(url),
        }
    }

    /// The state after `step`.
    pub open spec fn apply(self, step: Step) -> Progress {
        match step {
            Step::Submit => Progress {
                submitted: self.submitted.push(self.next_target()),
                outstanding: self.outstanding.insert(self.next_target()),
                ..self
            },
            Step::HostRead(host) => Progress { hosts: self.hosts.push(host), ..self },
            Step::InputEnded => Progress { exhausted: true, ..self },
            Step::Completed(url) => Progress {
                outstanding: self.outstanding.remove(url),
                outcomes: self.outcomes.push(url),
                ..self
            },
        }
    }

    /// The state after the dispatcher has acted on its own decision: a
    /// submission is a step; the other decisions wait for an event.
    pub open spec fn decided(self) -> Progress {
        match self.decision() {
            Decision::Submit(_) => self.apply(Step::Submit),
            _ => self,
        }
    }

    /// The state after `steps`, taken in order.
    pub open spec fn run(self, steps: Seq<Step>) -> Progress
        decreases steps.len(),
    {
        if steps.len() == 0 {
            self
        } else {
            self.run(steps.drop_last()).apply(steps.last())
        }
    }

    /// Whether each of `steps` is enabled in the state in which it is taken.
    pub open spec fn admits(self, steps: Seq<Step>) -> bool
        decreases steps.len(),
    {
        steps.len() == 0 || (self.admits(steps.drop_last()) && self.run(
            steps.drop_last(),
        ).enabled(steps.last()))
    }
}

/// The hostnames that the input yields in the course of `steps`, in order.
pub open spec fn hosts_read(steps: Seq<Step>) -> Seq<Seq<char>>
    decreases steps.len(),
{
    if steps.len() == 0 {
        Seq::empty()
    } else {
        match steps.last() {
            Step::HostRead(host) => hosts_read(steps.drop_last()).push(host),
            _ => hosts_read(steps.drop_last()),
        }
    }
}

/// The URLs of the requests that complete in the course of `steps`, in the
/// order of completion.
pub open spec fn outcomes_of(steps: Seq<Step>) -> Seq<Seq<char>>
    decreases steps.len(),
{
    if steps.len() == 0 {
        Seq::empty()
    } else {
        match steps.last() {
            Step::Completed(url) => outcomes_of(steps.drop_last()).push(url),
            _ => outcomes_of(steps.drop_last()),
        }
    }
}

/// Reading one more hostname adds its expansion behind the targets so far.
pub proof fn lemma_targets_push(hosts: Seq<Seq<char>>, host: Seq<char>, probes: Seq<Probe>)
    ensures
        targets(hosts.push(host), probes) == targets(hosts, probes) + expansion(host, probes),
{
    assert(hosts.push(host).drop_last() =~= hosts);
}

/// M hostnames and K probes give M times K targets.
pub proof fn lemma_targets_len(hosts: Seq<Seq<char>>, probes: Seq<Probe>)
    ensures
        targets(hosts, probes).len() == hosts.len() * probes.len(),
    decreases hosts.len(),
{
    let m = hosts.len() as int;
    let k = probes.len() as int;
    if m == 0 {
        assert(m * k == 0);
    } else {
        lemma_targets_len(hosts.drop_last(), probes);
        assert((m - 1) * k + k == m * k) by (nonlinear_arith);
    }
}

/// The target of the i-th hostname and the j-th probe stands at place
/// i times K plus j, where K is the number of probes: no pair of a
/// hostname and a probe is left out.
pub proof fn lemma_target_of_pair(hosts: Seq<Seq<char>>, probes: Seq<Probe>, i: int, j: int)
    requires
        0 <= i < hosts.len(),
        0 <= j < probes.len(),
    ensures
        0 <= i * probes.len() + j < targets(hosts, probes).len(),
        targets(hosts, probes)[i * probes.len() + j] == url_of(hosts[i], probes[j]),
    decreases hosts.len(),
{
    let m = hosts.len() as int;
    let k = probes.len() as int;
    let earlier = hosts.drop_last();
    lemma_targets_len(hosts, probes);
    lemma_targets_len(earlier, probes);
    assert(0 <= i * k && i * k + k <= m * k && (m - 1) * k + k == m * k) by (nonlinear_arith)
        requires
            0 <= i < m,
            0 <= k,
    ;
    if i < m - 1 {
        lemma_target_of_pair(earlier, probes, i, j);
        assert(earlier[i] == hosts[i]);
    } else {
        assert(expansion(hosts.last(), probes)[j] == url_of(hosts[i], probes[j]));
    }
}

/// The target at place n is that of the hostname n div K and the probe
/// n mod K, where K is the number of probes: every place holds the target
/// of one pair, and two places never hold that of the same pair.
pub proof fn lemma_pair_of_target(hosts: Seq<Seq<char>>, probes: Seq<Probe>, n: int)
    requires
        0 <= n < targets(hosts, probes).len(),
    ensures
        probes.len() > 0,
        0 <= n / (probes.len() as int) < hosts.len(),
        0 <= n % (probes.len() as int) < probes.len(),
        n == (n / (probes.len() as int)) * probes.len() + n % (probes.len() as int),
        targets(hosts, probes)[n] == url_of(
            hosts[n / (probes.len() as int)],
            probes[n % (probes.len() as int)],
        ),
{
    let m = hosts.len() as int;
    let k = probes.len() as int;
    lemma_targets_len(hosts, probes);
    assert(k > 0 && m > 0) by (nonlinear_arith)
        requires
            0 <= n < m * k,
            0 <= k,
            0 <= m,
    ;
    let i = n / k;
    let j = n % k;
    assert(0 <= i < m && 0 <= j < k && n == i * k + j) by (nonlinear_arith)
        requires
            0 <= n < m * k,
            0 < k,
            i == n / k,
            j == n % k,
    ;
    lemma_target_of_pair(hosts, probes, i, j);
}

/// In a state that satisfies the invariant, every request submitted is
/// either in flight or has completed: the counts add up.
pub proof fn lemma_requests_add_up(state: Progress)
    requires
        state.inv(),
    ensures
        state.outcomes.len() + state.in_flight() == state.submitted.len(),
        state.in_flight() == 0 ==> state.outcomes.to_multiset() == state.submitted.to_multiset(),
{
    broadcast use vstd::seq_lib::group_to_multiset_ensures;
    broadcast use vstd::multiset::group_multiset_axioms;

    assert(state.outcomes.to_multiset().add(state.outstanding).len()
        == state.outcomes.to_multiset().len() + state.outstanding.len());
    if state.in_flight() == 0 {
        assert(state.outstanding =~= Multiset::empty());
        assert(state.outcomes.to_multiset().add(state.outstanding)
            =~= state.outcomes.to_multiset());
    }
}

/// An enabled step keeps the invariant.
pub proof fn lemma_step_keeps_inv(state: Progress, step: Step)
    requires
        state.inv(),
        state.enabled(step),
    ensures
        state.apply(step).inv(),
        state.apply(step).in_flight() <= state.limit,
        state.apply(step).probes == state.probes,
        state.apply(step).limit == state.limit,
{
    broadcast use vstd::seq_lib::group_to_multiset_ensures;
    broadcast use vstd::multiset::group_multiset_axioms;

    let next = state.apply(step);
    let all = state.all_targets();
    match step {
        Step::Submit => {
            assert(next.submitted =~= all.subrange(0, next.submitted.len() as int)) by {
                assert(state.submitted =~= all.subrange(0, state.submitted.len() as int));
            }
            assert(next.submitted.to_multiset() =~= next.outcomes.to_multiset().add(
                next.outstanding,
            ));
        },
        Step::HostRead(host) => {
            lemma_targets_push(state.hosts, host, state.probes);
            assert(next.hosts.drop_last() =~= state.hosts);
            assert(state.submitted =~= all);
            assert(next.submitted =~= next.all_targets().subrange(
                0,
                next.submitted.len() as int,
            ));
        },
        Step::InputEnded => {},
        Step::Completed(url) => {
            assert(next.submitted.to_multiset() =~= next.outcomes.to_multiset().add(
                next.outstanding,
            ));
        },
    }
}

/// The dispatcher only decides what it may do: it submits the next target
/// only while one is pending and a slot is free, asks for a hostname only
/// while none of the earlier targets is pending and the input has not
/// ended, waits only while a request is in flight, and stops exactly when
/// the run is over.
pub proof fn lemma_decision_is_enabled(state: Progress)
    requires
        state.inv(),
    ensures
        match state.decision() {
            Decision::Submit(url) => state.enabled(Step::Submit) && url == state.next_target(),
            Decision::ReadHost => forall|host: Seq<char>|
                #[trigger] state.enabled(Step::HostRead(host)),
            Decision::AwaitCompletion => state.in_flight() > 0,
            Decision::Finished => state.finished(),
        },
        state.finished() <==> state.decision() is Finished,
        state.decided().inv(),
{
    if state.decision() is Submit {
        lemma_step_keeps_inv(state, Step::Submit);
    }
}

/// A run that takes only enabled steps keeps the invariant, and with it the
/// bound on the requests in flight, in every state it passes through. The
/// state it reaches has read the hostnames that the input yielded, and its
/// outcomes are the completions of the run.
pub proof fn lemma_run_keeps_inv(start: Progress, steps: Seq<Step>)
    requires
        start.inv(),
        start.admits(steps),
    ensures
        start.run(steps).inv(),
        start.run(steps).in_flight() <= start.limit,
        start.run(steps).probes == start.probes,
        start.run(steps).limit == start.limit,
        start.run(steps).hosts == start.hosts + hosts_read(steps),
        start.run(steps).outcomes == start.outcomes + outcomes_of(steps),
    decreases steps.len(),
{
    if steps.len() == 0 {
        assert(start.hosts + hosts_read(steps) =~= start.hosts);
        assert(start.outcomes + outcomes_of(steps) =~= start.outcomes);
    } else {
        let earlier = steps.drop_last();
        lemma_run_keeps_inv(start, earlier);
        lemma_step_keeps_inv(start.run(earlier), steps.last());
        assert(start.run(steps).hosts =~= start.hosts + hosts_read(steps));
        assert(start.run(steps).outcomes =~= start.outcomes + outcomes_of(steps));
    }
}

/// A run that takes only enabled steps does so in each of its beginnings.
pub proof fn lemma_admits_prefix(start: Progress, steps: Seq<Step>, taken: int)
    requires
        start.admits(steps),
        0 <= taken <= steps.len(),
    ensures
        start.admits(steps.take(taken)),
    decreases steps.len(),
{
    if taken == steps.len() {
        assert(steps.take(taken) =~= steps);
    } else {
        lemma_admits_prefix(start, steps.drop_last(), taken);
        assert(steps.drop_last().take(taken) =~= steps.take(taken));
    }
}

/// The state before anything has happened satisfies the invariant, for any
/// limit of at least one.
pub proof fn lemma_initial_inv(probes: Seq<Probe>, limit: nat)
    requires
        limit >= 1,
    ensures
        Progress::initial(probes, limit).inv(),
{
    broadcast use vstd::seq_lib::group_to_multiset_ensures;
    broadcast use vstd::multiset::group_multiset_axioms;

    let start = Progress::initial(probes, limit);
    assert(start.submitted.is_prefix_of(start.all_targets()));
    assert(start.submitted.to_multiset() =~= start.outcomes.to_multiset().add(
        start.outstanding,
    ));
}

/// At no instant of a run are more requests in flight than the limit
/// allows: the bound holds after every number of steps, for any limit of at
/// least one and any input.
pub proof fn lemma_in_flight_never_exceeds_limit(
    probes: Seq<Probe>,
    limit: nat,
    steps: Seq<Step>,
    taken: int,
)
    requires
        limit >= 1,
        Progress::initial(probes, limit).admits(steps),
        0 <= taken <= steps.len(),
    ensures
        Progress::initial(probes, limit).run(steps.take(taken)).in_flight() <= limit,
{
    let start = Progress::initial(probes, limit);
    lemma_initial_inv(probes, limit);
    lemma_admits_prefix(start, steps, taken);
    lemma_run_keeps_inv(start, steps.take(taken));
}

/// When a dispatcher has finished, every target of the hostnames it read
/// has been submitted exactly once, in order, and every request has
/// completed exactly once: the outcomes are the targets, each as often as
/// it is listed, in whatever order they arrived. For M hostnames and K
/// probes there are M times K outcomes.
pub proof fn lemma_finished_is_complete(state: Progress)
    requires
        state.inv(),
        state.finished(),
    ensures
        state.submitted == targets(state.hosts, state.probes),
        state.outcomes.to_multiset() == targets(state.hosts, state.probes).to_multiset(),
        state.outcomes.len() == state.hosts.len() * state.probes.len(),
        state.in_flight() == 0,
{
    lemma_targets_len(state.hosts, state.probes);
    lemma_requests_add_up(state);
    assert(state.submitted =~= state.all_targets());
}

/// A whole run, from the first step to the finish: whatever the order in
/// which requests complete, the URLs submitted are the targets of the
/// hostnames that the input yielded, and the outcomes are those targets,
/// each as often as it is listed: none is left out and none comes twice.
pub proof fn lemma_finished_run_is_complete(probes: Seq<Probe>, limit: nat, steps: Seq<Step>)
    requires
        limit >= 1,
        Progress::initial(probes, limit).admits(steps),
        Progress::initial(probes, limit).run(steps).finished(),
    ensures
        Progress::initial(probes, limit).run(steps).submitted == targets(
            hosts_read(steps),
            probes,
        ),
        outcomes_of(steps).to_multiset() == targets(hosts_read(steps), probes).to_multiset(),
        outcomes_of(steps).len() == hosts_read(steps).len() * probes.len(),
{
    let start = Progress::initial(probes, limit);
    lemma_initial_inv(probes, limit);
    lemma_run_keeps_inv(start, steps);
    assert(start.hosts + hosts_read(steps) =~= hosts_read(steps));
    assert(start.outcomes + outcomes_of(steps) =~= outcomes_of(steps));
    lemma_finished_is_complete(start.run(steps));
}

/// With an empty probe set no hostname has a target: nothing is ever
/// pending, whatever the input.
pub proof fn lemma_empty_probe_set_has_no_targets(hosts: Seq<Seq<char>>)
    ensures
        targets(hosts, Seq::empty()).len() == 0,
{
    lemma_targets_len(hosts, Seq::empty());
}

} // verus!
