//! The decisions of project-level table listing: one table-list request per
//! dataset, at most `MAX_IN_FLIGHT` of them outstanding at any time, results
//! kept in dataset order whatever the order they complete in, and the first
//! failure failing the whole listing.
//!
//! The caller performs the requests: it asks `next_step` what to do, starts
//! the request for a dataset when told to, and reports each completion with
//! `complete`.

use vstd::prelude::*;

use crate::error::GatewayError;

verus! {

/// The most per-dataset requests outstanding at once.
pub const MAX_IN_FLIGHT: usize = 10;

/// What the caller should do next.
#[derive(Debug, PartialEq, Eq, Clone, Copy, Structural)]
pub enum FanOutStep {
    /// Start the table-list request for the dataset at this position.
    Launch(usize),
    /// Wait for an outstanding request to complete.
    Wait,
    /// Nothing is left to do: take the outcome.
    Done,
}

/// The state of a project-level listing.
pub struct TableFanOut {
    datasets: Vec<String>,
    launched: usize,
    in_flight: usize,
    results: Vec<Option<Vec<String>>>,
    failure: Option<GatewayError>,
}

pub open spec fn names_of(v: Vec<String>) -> Seq<Seq<char>> {
    v@.map_values(|s: String| s@)
}

/// How many of the first `n` results are still outstanding.
pub open spec fn count_pending(results: Seq<Option<Vec<String>>>, n: int) -> nat
    decreases n,
{
    if n <= 0 {
        0
    } else {
        count_pending(results, n - 1) + if results[n - 1] is None {
            1nat
        } else {
            0nat
        }
    }
}

proof fn lemma_count_pending_update(results: Seq<Option<Vec<String>>>, n: int, k: int, v: Vec<String>)
    requires
        0 <= k < n <= results.len(),
        results[k] is None,
    ensures
        count_pending(results.update(k, Some(v)), n) + 1 == count_pending(results, n),
    decreases n,
{
    if n - 1 > k {
        lemma_count_pending_update(results, n - 1, k, v);
    } else {
        lemma_count_pending_same(results, results.update(k, Some(v)), n - 1);
    }
}

proof fn lemma_count_pending_same(a: Seq<Option<Vec<String>>>, b: Seq<Option<Vec<String>>>, n: int)
    requires
        0 <= n <= a.len(),
        n <= b.len(),
        forall|i: int| 0 <= i < n ==> #[trigger] a[i] == b[i],
    ensures
        count_pending(a, n) == count_pending(b, n),
    decreases n,
{
    if n > 0 {
        lemma_count_pending_same(a, b, n - 1);
    }
}

proof fn lemma_none_pending(results: Seq<Option<Vec<String>>>, n: int)
    requires
        0 <= n <= results.len(),
        count_pending(results, n) == 0,
    ensures
        forall|i: int| 0 <= i < n ==> #[trigger] results[i] is Some,
    decreases n,
{
    if n > 0 {
        lemma_none_pending(results, n - 1);
    }
}

proof fn lemma_pending_positive(results: Seq<Option<Vec<String>>>, n: int, k: int)
    requires
        0 <= k < n <= results.len(),
        results[k] is None,
    ensures
        count_pending(results, n) > 0,
    decreases n,
{
    if n - 1 > k {
        lemma_pending_positive(results, n - 1, k);
    }
}

impl TableFanOut {
    /// The datasets, in order.
    pub closed spec fn datasets(&self) -> Seq<Seq<char>> {
        names_of(self.datasets)
    }

    /// How many requests have been started: those of the first `launched()`
    /// datasets.
    pub closed spec fn launched(&self) -> nat {
        self.launched as nat
    }

    /// How many started requests are outstanding.
    pub closed spec fn in_flight(&self) -> nat {
        self.in_flight as nat
    }

    /// The tables of dataset `i`, once its request has succeeded.
    pub closed spec fn result(&self, i: int) -> Option<Seq<Seq<char>>> {
        match self.results@[i] {
            Some(t) => Some(names_of(t)),
            None => None,
        }
    }

    /// Whether a request has failed.
    pub closed spec fn failed(&self) -> bool {
        self.failure is Some
    }

    /// The first failure reported.
    pub closed spec fn first_failure(&self) -> GatewayError {
        self.failure->0
    }

    /// Dataset `i`'s request has been started and has not completed.
    pub open spec fn pending(&self, i: int) -> bool {
        0 <= i < self.launched() && self.result(i) is None
    }

    /// Nothing is left to do: a request has failed, or every request has
    /// been started and has completed.
    pub open spec fn finished(&self) -> bool {
        self.failed() || (self.launched() == self.datasets().len() && self.in_flight() == 0)
    }

    /// How many of the first `n` datasets have a request outstanding.
    pub open spec fn outstanding(&self, n: int) -> nat
        decreases n,
    {
        if n <= 0 {
            0
        } else {
            self.outstanding(n - 1) + if self.pending(n - 1) {
                1nat
            } else {
                0nat
            }
        }
    }

    /// The count of outstanding requests is the number of datasets whose
    /// request was started and has not completed, and it never exceeds
    /// `MAX_IN_FLIGHT`, however many datasets there are.
    pub proof fn lemma_in_flight_bounded(&self)
        requires
            self.wf(),
        ensures
            self.in_flight() == self.outstanding(self.launched() as int),
            self.in_flight() <= MAX_IN_FLIGHT,
    {
        self.lemma_outstanding_counts(self.launched as int);
    }

    proof fn lemma_outstanding_counts(&self, n: int)
        requires
            self.wf(),
            0 <= n <= self.launched,
        ensures
            self.outstanding(n) == count_pending(self.results@, n),
        decreases n,
    {
        if n > 0 {
            self.lemma_outstanding_counts(n - 1);
        }
    }

    pub closed spec fn wf(&self) -> bool {
        &&& self.launched <= self.datasets@.len()
        &&& self.results@.len() == self.datasets@.len()
        &&& forall|i: int| self.launched <= i < self.results@.len() ==> #[trigger] self.results@[i] is None
        &&& self.in_flight == count_pending(self.results@, self.launched as int)
        &&& self.in_flight <= MAX_IN_FLIGHT
    }

    /// A listing of the tables of `datasets`, with nothing started yet.
    pub fn new(datasets: Vec<String>) -> (r: TableFanOut)
        ensures
            r.wf(),
            r.datasets() == names_of(datasets),
            r.launched() == 0,
            r.in_flight() == 0,
            !r.failed(),
    {
        let n = datasets.len();
        let mut results: Vec<Option<Vec<String>>> = Vec::new();
        let mut i: usize = 0;
        while i < n
            invariant
                i <= n,
                results@.len() == i,
                forall|j: int| 0 <= j < i ==> #[trigger] results@[j] is None,
            decreases n - i,
        {
            results.push(None);
            i = i + 1;
        }
        TableFanOut { datasets, launched: 0, in_flight: 0, results, failure: None }
    }

    /// The name of dataset `i`.
    pub fn dataset(&self, i: usize) -> (r: &String)
        requires
            self.wf(),
            i < self.datasets().len(),
        ensures
            r@ == self.datasets()[i as int],
    {
        &self.datasets[i]
    }

    /// Whether it is all over.
    pub fn is_finished(&self) -> (r: bool)
        requires
            self.wf(),
        ensures
            r == self.finished(),
    {
        self.failure.is_some() || (self.launched == self.datasets.len() && self.in_flight == 0)
    }

    /// Decides what to do next. A launch is decided only while fewer than
    /// `MAX_IN_FLIGHT` requests are outstanding, datasets are launched in
    /// order, and nothing is launched after a failure.
    pub fn next_step(&mut self) -> (r: FanOutStep)
        requires
            old(self).wf(),
        ensures
            final(self).wf(),
            final(self).in_flight() <= MAX_IN_FLIGHT,
            final(self).datasets() == old(self).datasets(),
            final(self).failed() == old(self).failed(),
            old(self).failed() ==> final(self).first_failure() == old(self).first_failure(),
            forall|i: int| 0 <= i < old(self).datasets().len() ==> #[trigger] final(self).result(i) == old(self).result(i),
            match r {
                FanOutStep::Launch(i) => {
                    &&& !old(self).failed()
                    &&& old(self).in_flight() < MAX_IN_FLIGHT
                    &&& i == old(self).launched()
                    &&& i < old(self).datasets().len()
                    &&& final(self).launched() == old(self).launched() + 1
                    &&& final(self).in_flight() == old(self).in_flight() + 1
                },
                FanOutStep::Wait => {
                    &&& !old(self).finished()
                    &&& (old(self).in_flight() == MAX_IN_FLIGHT || old(self).launched() == old(self).datasets().len())
                    &&& final(self).launched() == old(self).launched()
                    &&& final(self).in_flight() == old(self).in_flight()
                },
                FanOutStep::Done => {
                    &&& old(self).finished()
                    &&& final(self).launched() == old(self).launched()
                    &&& final(self).in_flight() == old(self).in_flight()
                },
            },
    {
        if self.failure.is_some() {
            return FanOutStep::Done;
        }
        if self.launched < self.datasets.len() && self.in_flight < MAX_IN_FLIGHT {
            let i = self.launched;
            proof {
                assert(self.results@[i as int] is None);
                assert(count_pending(self.results@, i + 1) == count_pending(self.results@, i as int) + 1);
            }
            self.launched = i + 1;
            self.in_flight = self.in_flight + 1;
            return FanOutStep::Launch(i);
        }
        if self.launched == self.datasets.len() && self.in_flight == 0 {
            FanOutStep::Done
        } else {
            FanOutStep::Wait
        }
    }

    /// Records the completion of dataset `index`'s request. The first
    /// failure is kept; what completes after it is disregarded.
    pub fn complete(&mut self, index: usize, outcome: Result<Vec<String>, GatewayError>)
        requires
            old(self).wf(),
            old(self).pending(index as int),
        ensures
            final(self).wf(),
            final(self).datasets() == old(self).datasets(),
            final(self).launched() == old(self).launched(),
            old(self).failed() ==> final(self).failed() && final(self).first_failure() == old(self).first_failure()
                && final(self).in_flight() == old(self).in_flight(),
            !old(self).failed() ==> final(self).in_flight() + 1 == old(self).in_flight(),
            !old(self).failed() ==> match outcome {
                Ok(t) => {
                    &&& !final(self).failed()
                    &&& final(self).result(index as int) == Some(names_of(t))
                    &&& forall|i: int|
                        0 <= i < old(self).datasets().len() && i != index ==> #[trigger] final(self).result(i)
                            == old(self).result(i)
                },
                Err(e) => final(self).failed() && final(self).first_failure() == e,
            },
    {
        if self.failure.is_some() {
            return;
        }
        proof {
            lemma_pending_positive(self.results@, self.launched as int, index as int);
        }
        match outcome {
            Ok(tables) => {
                let ghost before = self.results@;
                let ghost t = tables;
                self.results.set(index, Some(tables));
                proof {
                    lemma_count_pending_update(before, self.launched as int, index as int, t);
                    assert(self.results@ == before.update(index as int, Some(t)));
                }
                self.in_flight = self.in_flight - 1;
            },
            Err(e) => {
                let ghost before = self.results@;
                let empty: Vec<String> = Vec::new();
                let ghost ge = empty;
                self.results.set(index, Some(empty));
                proof {
                    lemma_count_pending_update(before, self.launched as int, index as int, ge);
                }
                self.in_flight = self.in_flight - 1;
                self.failure = Some(e);
            },
        }
    }

    /// The outcome of a finished listing: the first failure, or else the
    /// table names of every dataset, dataset by dataset in order.
    pub fn outcome(self) -> (r: Result<Vec<String>, GatewayError>)
        requires
            self.wf(),
            self.finished(),
        ensures
            self.failed() ==> r == Err::<Vec<String>, GatewayError>(self.first_failure()),
            !self.failed() ==> {
                &&& forall|i: int| 0 <= i < self.datasets().len() ==> #[trigger] self.result(i) is Some
                &&& r is Ok
                &&& r->Ok_0@.map_values(|s: String| s@) == Seq::new(
                    self.datasets().len(),
                    |i: int| self.result(i)->0,
                ).flatten()
            },
    {
        let ghost me = self;
        match self.failure {
            Some(e) => Err(e),
            None => {
                let n = self.results.len();
                proof {
                    lemma_none_pending(self.results@, n as int);
                }
                let ghost parts = Seq::new(me.datasets().len(), |i: int| me.result(i)->0);
                let mut out: Vec<String> = Vec::new();
                let mut i: usize = 0;
                proof {
                    assert(out@.map_values(|s: String| s@) =~= parts.take(0).flatten());
                }
                while i < n
                    invariant
                        n == self.results@.len(),
                        n == me.datasets().len(),
                        self.results == me.results,
                        parts == Seq::new(me.datasets().len(), |i: int| me.result(i)->0),
                        forall|j: int| 0 <= j < n ==> #[trigger] self.results@[j] is Some,
                        i <= n,
                        out@.map_values(|s: String| s@) == parts.take(i as int).flatten(),
                    decreases n - i,
                {
                    let tables = match &self.results[i] {
                        Some(t) => t,
                        None => {
                            proof {
                                assert(false);
                            }
                            return Ok(out);
                        },
                    };
                    let ghost start = out@;
                    let mut j: usize = 0;
                    while j < tables.len()
                        invariant
                            j <= tables@.len(),
                            out@.len() == start.len() + j,
                            forall|k: int| 0 <= k < start.len() ==> #[trigger] out@[k] == start[k],
                            forall|k: int| 0 <= k < j ==> #[trigger] out@[start.len() + k]@ == tables@[k]@,
                        decreases tables@.len() - j,
                    {
                        out.push(tables[j].clone());
                        j = j + 1;
                    }
                    proof {
                        assert(parts[i as int] == names_of(*tables));
                        assert(parts.take(i + 1) =~= parts.take(i as int) + seq![parts[i as int]]);
                        vstd::seq_lib::lemma_flatten_concat(parts.take(i as int), seq![parts[i as int]]);
                        seq![parts[i as int]].lemma_flatten_one_element();
                        assert forall|k: int| start.len() <= k < out@.len() implies #[trigger] out@[k]@ == tables@[k - start.len()]@ by {
                            assert(out@[start.len() + (k - start.len())]@ == tables@[k - start.len()]@);
                        }
                        assert(out@.map_values(|s: String| s@) =~= start.map_values(|s: String| s@) + names_of(*tables));
                    }
                    i = i + 1;
                }
                proof {
                    assert(parts.take(n as int) =~= parts);
                }
                Ok(out)
            },
        }
    }
}

} // verus!
