//! The bounded dispatcher: it decides when the next hostname is read, when
//! the next request is submitted and when to wait, so that no more than a
//! fixed number of requests are in flight at once. The caller reads the
//! input, issues the requests and reports back what happened.

use crate::probe::Probe;
use crate::progress::{expansion, lemma_step_keeps_inv, targets, Decision, Progress, Step};
use crate::url::probe_to_url;
use vstd::multiset::Multiset;
use vstd::prelude::*;

verus! {

/// What the caller is to do next.
#[derive(Debug, PartialEq, Eq)]
pub enum Action {
    /// Issue a GET request for this URL. It counts as in flight from now
    /// on, until `request_completed` reports its completion.
    Submit(String),
    /// Take the next line from the input and report it with `host_read`,
    /// or report with `input_ended` that there is none.
    ReadHost,
    /// Wait until one of the requests in flight has completed, by response,
    /// failure or timeout, hand its outcome on, and report the completion
    /// with `request_completed`.
    AwaitCompletion,
    /// Stop: the input is exhausted and every request has completed.
    Finished,
}

impl View for Action {
    type V = Decision;

    open spec fn view(&self) -> Decision {
        match self {
            Action::Submit(url) => Decision::Submit(url@),
            Action::ReadHost => Decision::ReadHost,
            Action::AwaitCompletion => Decision::AwaitCompletion,
            Action::Finished => Decision::Finished,
        }
    }
}

/// The URLs of one hostname: one for each probe, in the order of the probe
/// set.
pub fn expand_host(host: &str, probes: &Vec<Probe>) -> (urls: Vec<String>)
    ensures
        urls.deep_view() == expansion(host@, probes@),
{
    let mut urls: Vec<String> = Vec::new();
    let mut j: usize = 0;
    while j < probes.len()
        invariant
            j <= probes.len(),
            urls.deep_view() == expansion(host@, probes@).take(j as int),
        decreases probes.len() - j,
    {
        let ghost before = urls.deep_view();
        let url = probe_to_url(host, &probes[j]);
        urls.push(url);
        assert(urls.deep_view() =~= before.push(expansion(host@, probes@)[j as int]));
        assert(urls.deep_view() =~= expansion(host@, probes@).take(j + 1));
        j = j + 1;
    }
    assert(expansion(host@, probes@).take(j as int) =~= expansion(host@, probes@));
    urls
}

/// What changes in the course of a run.
struct Ledger {
    /// Whether the input has come to its end.
    exhausted: bool,
    /// The URLs of the hostname read last.
    queue: Vec<String>,
    /// How many of them have been submitted.
    cursor: usize,
    /// The URLs of the requests in flight.
    outstanding: Vec<String>,
    /// The hostnames read so far.
    hosts: Ghost<Seq<Seq<char>>>,
    /// The URLs of the requests that have completed, in order.
    outcomes: Ghost<Seq<Seq<char>>>,
}

impl Ledger {
    /// Whether nothing has happened yet.
    spec fn is_blank(&self) -> bool {
        &&& !self.exhausted
        &&& self.queue@.len() == 0
        &&& self.cursor == 0
        &&& self.outstanding@.len() == 0
        &&& self.hosts@.len() == 0
        &&& self.outcomes@.len() == 0
    }

    /// The ledger before anything has happened.
    fn blank() -> (ledger: Ledger)
        ensures
            ledger.is_blank(),
    {
        Ledger {
            exhausted: false,
            queue: Vec::new(),
            cursor: 0,
            outstanding: Vec::new(),
            hosts: Ghost(Seq::empty()),
            outcomes: Ghost(Seq::empty()),
        }
    }

    /// A blank ledger is consistent with any probe set and any limit of at
    /// least one, and amounts to the initial state.
    proof fn lemma_blank(&self, probes: Seq<Probe>, limit: nat)
        requires
            self.is_blank(),
            limit >= 1,
        ensures
            self.consistent(probes, limit),
            self.progress(probes, limit) == Progress::initial(probes, limit),
    {
        broadcast use vstd::seq_lib::group_to_multiset_ensures;
        broadcast use vstd::multiset::group_multiset_axioms;

        assert(self.hosts@ =~= Seq::<Seq<char>>::empty());
        assert(self.outcomes@ =~= Seq::<Seq<char>>::empty());
        assert(self.outstanding.deep_view() =~= Seq::<Seq<char>>::empty());
        assert(self.in_flight() =~= Multiset::empty());
        assert(self.submitted(probes).to_multiset() =~= self.outcomes@.to_multiset().add(
            self.in_flight(),
        ));
    }

    /// The URLs submitted so far: every target of the hostnames read before
    /// the last one, and those of the last one up to the cursor.
    spec fn submitted(&self, probes: Seq<Probe>) -> Seq<Seq<char>> {
        if self.hosts@.len() == 0 {
            Seq::empty()
        } else {
            targets(self.hosts@.drop_last(), probes) + self.queue.deep_view().take(
                self.cursor as int,
            )
        }
    }

    /// The URLs in flight, each as often as it is in flight.
    spec fn in_flight(&self) -> Multiset<Seq<char>> {
        self.outstanding.deep_view().to_multiset()
    }

    /// Whether the ledger is consistent with the probe set and the limit.
    spec fn consistent(&self, probes: Seq<Probe>, limit: nat) -> bool {
        &&& 1 <= limit
        &&& self.outstanding.len() <= limit
        &&& self.cursor <= self.queue.len()
        &&& if self.hosts@.len() == 0 {
            self.queue.len() == 0
        } else {
            self.queue.deep_view() == expansion(self.hosts@.last(), probes)
        }
        &&& self.submitted(probes).to_multiset() == self.outcomes@.to_multiset().add(
            self.in_flight(),
        )
    }

    /// What the ledger amounts to.
    spec fn progress(&self, probes: Seq<Probe>, limit: nat) -> Progress {
        Progress {
            probes,
            limit,
            hosts: self.hosts@,
            submitted: self.submitted(probes),
            outstanding: self.in_flight(),
            outcomes: self.outcomes@,
            exhausted: self.exhausted,
        }
    }

    /// A consistent ledger amounts to a state that satisfies the invariant
    /// of a run, and a target is pending exactly when the cursor has not
    /// reached the end of the queue.
    proof fn lemma_progress(&self, probes: Seq<Probe>, limit: nat)
        requires
            self.consistent(probes, limit),
        ensures
            self.progress(probes, limit).inv(),
            self.progress(probes, limit).in_flight() == self.outstanding.len(),
            self.progress(probes, limit).pending() <==> self.cursor < self.queue.len(),
            self.progress(probes, limit).pending() ==> self.progress(probes, limit).next_target()
                == self.queue[self.cursor as int]@,
    {
        broadcast use vstd::seq_lib::group_to_multiset_ensures;

        let all = targets(self.hosts@, probes);
        let submitted = self.submitted(probes);
        if self.hosts@.len() > 0 {
            let queue = self.queue.deep_view();
            assert(submitted =~= all.subrange(0, submitted.len() as int));
            if self.cursor < self.queue.len() {
                assert(all[submitted.len() as int] == queue[self.cursor as int]);
            }
        }
    }
}

/// The bounded dispatcher of one run.
///
/// The caller asks `next_action` what to do, does it, and reports what came
/// of it: a line of input with `host_read`, the end of the input with
/// `input_ended`, the completion of a request with `request_completed`. It
/// goes on until the action is `Finished`. Whatever the order in which
/// requests complete, no more than the limit are in flight at any time,
/// every hostname is requested under every probe, and the run finishes only
/// when the input is exhausted and every request has completed.
pub struct Dispatcher {
    probes: Vec<Probe>,
    limit: usize,
    ledger: Ledger,
}

impl View for Dispatcher {
    type V = Progress;

    closed spec fn view(&self) -> Progress {
        self.ledger.progress(self.probes@, self.limit as nat)
    }
}

impl Dispatcher {
    /// What holds of every dispatcher: its ledger is consistent with its
    /// probe set and its limit.
    #[verifier::type_invariant]
    closed spec fn well_formed(&self) -> bool {
        self.ledger.consistent(self.probes@, self.limit as nat)
    }

    /// A dispatcher for the probe set and at most `limit` requests in
    /// flight. There is none for a limit of zero, under which no request
    /// could ever be submitted.
    pub fn new(probes: Vec<Probe>, limit: usize) -> (dispatcher: Option<Dispatcher>)
        ensures
            dispatcher is Some <==> limit >= 1,
            dispatcher matches Some(d) ==> d@ == Progress::initial(probes@, limit as nat)
                && d@.inv(),
    {
        if limit == 0 {
            return None;
        }
        let ledger = Ledger::blank();
        proof {
            ledger.lemma_blank(probes@, limit as nat);
            ledger.lemma_progress(probes@, limit as nat);
        }
        Some(Dispatcher { probes, limit, ledger })
    }

    /// The most requests that may be in flight at once.
    pub fn limit(&self) -> (limit: usize)
        ensures
            limit == self@.limit,
            limit >= 1,
    {
        proof {
            use_type_invariant(self);
        }
        self.limit
    }

    /// The number of requests in flight. It never exceeds the limit.
    pub fn in_flight(&self) -> (count: usize)
        ensures
            count == self@.in_flight(),
            count <= self@.limit,
            self@.inv(),
    {
        proof {
            use_type_invariant(self);
            self.ledger.lemma_progress(self.probes@, self.limit as nat);
        }
        self.ledger.outstanding.len()
    }

    /// Whether the input was reported to have ended.
    pub fn is_exhausted(&self) -> (exhausted: bool)
        ensures
            exhausted == self@.exhausted,
    {
        self.ledger.exhausted
    }

    /// Whether a target of the hostnames read so far is still to be
    /// submitted.
    pub fn has_pending(&self) -> (pending: bool)
        ensures
            pending == self@.pending(),
    {
        proof {
            use_type_invariant(self);
            self.ledger.lemma_progress(self.probes@, self.limit as nat);
        }
        self.ledger.cursor < self.ledger.queue.len()
    }

    /// Whether the run is over.
    pub fn is_finished(&self) -> (finished: bool)
        ensures
            finished == self@.finished(),
    {
        self.ledger.exhausted && !self.has_pending() && self.in_flight() == 0
    }

    /// Decides what is to be done next and, where that is a submission,
    /// enters the request among those in flight.
    pub fn next_action(&mut self) -> (action: Action)
        ensures
            action@ == old(self)@.decision(),
            final(self)@ == old(self)@.decided(),
            final(self)@.inv(),
    {
        proof {
            use_type_invariant(&*self);
            self.ledger.lemma_progress(self.probes@, self.limit as nat);
        }
        if self.ledger.outstanding.len() >= self.limit {
            Action::AwaitCompletion
        } else if self.ledger.cursor < self.ledger.queue.len() {
            let url = self.ledger.queue[self.ledger.cursor].clone();
            let ghost before = self@;
            proof {
                lemma_step_keeps_inv(before, Step::Submit);
            }
            let mut ledger = Ledger::blank();
            proof {
                ledger.lemma_blank(self.probes@, self.limit as nat);
            }
            std::mem::swap(&mut self.ledger, &mut ledger);
            ledger.cursor = ledger.cursor + 1;
            ledger.outstanding.push(url.clone());
            proof {
                broadcast use vstd::seq_lib::group_to_multiset_ensures;

                let after = ledger.progress(self.probes@, self.limit as nat);
                assert(after.submitted =~= before.submitted.push(url@));
                assert(ledger.outstanding.deep_view() =~= old(self).ledger.outstanding.deep_view().push(
                    url@,
                ));
                assert(after.outstanding =~= before.outstanding.insert(url@));
                assert(after == before.apply(Step::Submit));
            }
            self.ledger = ledger;
            Action::Submit(url)
        } else if !self.ledger.exhausted {
            Action::ReadHost
        } else if self.ledger.outstanding.len() > 0 {
            Action::AwaitCompletion
        } else {
            Action::Finished
        }
    }

    /// Takes the hostname that the input has yielded. It is accepted only
    /// while every target of the earlier hostnames has been submitted and
    /// the input has not ended; otherwise nothing changes.
    pub fn host_read(&mut self, host: &str) -> (accepted: bool)
        ensures
            accepted == old(self)@.enabled(Step::HostRead(host@)),
            final(self)@ == if accepted {
                old(self)@.apply(Step::HostRead(host@))
            } else {
                old(self)@
            },
            final(self)@.inv(),
    {
        proof {
            use_type_invariant(&*self);
            self.ledger.lemma_progress(self.probes@, self.limit as nat);
        }
        if self.ledger.exhausted || self.ledger.cursor < self.ledger.queue.len() {
            return false;
        }
        let queue = expand_host(host, &self.probes);
        let ghost before = self@;
        let ghost hosts = self.ledger.hosts@;
        proof {
            lemma_step_keeps_inv(before, Step::HostRead(host@));
        }
        let mut ledger = Ledger::blank();
        proof {
            ledger.lemma_blank(self.probes@, self.limit as nat);
        }
        std::mem::swap(&mut self.ledger, &mut ledger);
        ledger.queue = queue;
        ledger.cursor = 0;
        ledger.hosts = Ghost(hosts.push(host@));
        proof {
            let after = ledger.progress(self.probes@, self.limit as nat);
            assert(hosts.push(host@).drop_last() =~= hosts);
            assert(before.submitted =~= targets(hosts, self.probes@));
            assert(ledger.queue.deep_view().take(0) =~= Seq::<Seq<char>>::empty());
            assert(after.submitted =~= before.submitted);
            assert(after == before.apply(Step::HostRead(host@)));
        }
        self.ledger = ledger;
        true
    }

    /// Takes note that the input has come to its end.
    pub fn input_ended(&mut self)
        ensures
            final(self)@ == old(self)@.apply(Step::InputEnded),
            final(self)@.inv(),
    {
        proof {
            use_type_invariant(&*self);
            self.ledger.lemma_progress(self.probes@, self.limit as nat);
            lemma_step_keeps_inv(self@, Step::InputEnded);
        }
        self.ledger.exhausted = true;
    }

    /// Takes note that the request for `url` has completed, whether with a
    /// response, a failure or a timeout, and frees its slot. It is accepted
    /// only while a request for this URL is in flight; otherwise nothing
    /// changes.
    pub fn request_completed(&mut self, url: &str) -> (accepted: bool)
        ensures
            accepted == old(self)@.enabled(Step::Completed(url@)),
            final(self)@ == if accepted {
                old(self)@.apply(Step::Completed(url@))
            } else {
                old(self)@
            },
            final(self)@.inv(),
    {
        proof {
            use_type_invariant(&*self);
            self.ledger.lemma_progress(self.probes@, self.limit as nat);
        }
        let ghost before = self@;
        let ghost in_flight = self.ledger.outstanding.deep_view();
        let wanted = String::from_str(url);
        let mut at: usize = 0;
        while at < self.ledger.outstanding.len() && !(self.ledger.outstanding[at] == wanted)
            invariant
                at <= self.ledger.outstanding.len(),
                wanted@ == url@,
                in_flight == self.ledger.outstanding.deep_view(),
                forall|j: int| 0 <= j < at ==> in_flight[j] != url@,
            decreases self.ledger.outstanding.len() - at,
        {
            at = at + 1;
        }
        proof {
            broadcast use vstd::seq_lib::group_to_multiset_ensures;

            if at < in_flight.len() {
                assert(in_flight[at as int] == url@);
                assert(in_flight.contains(url@));
            } else {
                assert(!in_flight.contains(url@));
            }
            assert(before.outstanding.count(url@) > 0 <==> in_flight.contains(url@));
        }
        if at == self.ledger.outstanding.len() {
            return false;
        }
        proof {
            lemma_step_keeps_inv(before, Step::Completed(url@));
        }
        let mut ledger = Ledger::blank();
        proof {
            ledger.lemma_blank(self.probes@, self.limit as nat);
        }
        std::mem::swap(&mut self.ledger, &mut ledger);
        let _ = ledger.outstanding.remove(at);
        ledger.outcomes = Ghost(ledger.outcomes@.push(url@));
        proof {
            broadcast use vstd::seq_lib::group_to_multiset_ensures;

            let after = ledger.progress(self.probes@, self.limit as nat);
            assert(ledger.outstanding.deep_view() =~= in_flight.remove(at as int));
            assert(after.outstanding =~= before.outstanding.remove(url@));
            assert(after == before.apply(Step::Completed(url@)));
        }
        self.ledger = ledger;
        true
    }
}

} // verus!
