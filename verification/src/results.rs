//! Request statistics: the counters of one endpoint (`Results`) and the
//! collection of all endpoints with their aggregate (`AllResults`).
//!
//! Response times and elapsed times are whole microseconds.

use vstd::prelude::*;

use crate::utils::str_equals;

verus! {

/// The identity of an endpoint: its type (such as "GET") and its name.
#[derive(Debug, Default, PartialEq, Eq, Hash)]
pub struct EndpointTypeName {
    pub endpoint_type: String,
    pub name: String,
}

/// An endpoint's identity as a pair of character sequences: (type, name).
pub type EndpointKey = (Seq<char>, Seq<char>);

impl View for EndpointTypeName {
    type V = EndpointKey;

    open spec fn view(&self) -> EndpointKey {
        (self.endpoint_type@, self.name@)
    }
}

impl Clone for EndpointTypeName {
    fn clone(&self) -> (res: Self)
        ensures
            res@ == self@,
    {
        EndpointTypeName { endpoint_type: self.endpoint_type.clone(), name: self.name.clone() }
    }
}

impl EndpointTypeName {
    pub fn new(endpoint_type: String, name: String) -> (res: Self)
        ensures
            res@ == (endpoint_type@, name@),
    {
        EndpointTypeName { endpoint_type, name }
    }

    /// Whether two endpoints have the same type and name.
    pub fn same_endpoint(&self, other: &EndpointTypeName) -> (res: bool)
        ensures
            res == (self@ == other@),
    {
        self.endpoint_type == other.endpoint_type && self.name == other.name
    }
}

/// The counters of a `Results` as they stood at the last update interval:
/// the figures from which averages and rates are derived.
#[derive(Debug, Clone, Copy, PartialEq, Eq, Structural)]
pub struct UpdateSnapshot {
    pub total_requests: u32,
    pub total_failed_requests: u32,
    pub total_response_time: u64,
    pub elapsed_micros: u64,
}

/// The statistics of the requests to one endpoint (or of all of them).
#[derive(Debug, Clone, Copy)]
pub struct Results {
    total_requests: u32,
    total_failed_requests: u32,
    total_errors: u32,
    total_response_time: u64,
    min_response_time: u64,
    max_response_time: u64,
    last_update: Option<UpdateSnapshot>,
}

/// The mathematical content of a `Results`.
pub struct ResultsView {
    pub total_requests: nat,
    pub total_failed_requests: nat,
    pub total_errors: nat,
    pub total_response_time: nat,
    pub min_response_time: nat,
    pub max_response_time: nat,
    pub last_update: Option<UpdateSnapshot>,
}

impl ResultsView {
    /// The statistics before any request.
    pub open spec fn empty() -> ResultsView {
        ResultsView {
            total_requests: 0,
            total_failed_requests: 0,
            total_errors: 0,
            total_response_time: 0,
            min_response_time: 0,
            max_response_time: 0,
            last_update: None,
        }
    }

    /// A successful request that took `response_time`: it counts as a
    /// request, adds to the total time, and updates the minimum (where the
    /// minimum is 0, meaning none yet, or larger) and the maximum.
    pub open spec fn add_success(self, response_time: nat) -> ResultsView {
        ResultsView {
            total_requests: self.total_requests + 1,
            total_response_time: self.total_response_time + response_time,
            min_response_time: if self.min_response_time == 0 || response_time
                < self.min_response_time {
                response_time
            } else {
                self.min_response_time
            },
            max_response_time: if response_time > self.max_response_time {
                response_time
            } else {
                self.max_response_time
            },
            ..self
        }
    }

    /// A failed request: it counts as a request and as a failure.
    pub open spec fn add_failure(self) -> ResultsView {
        ResultsView {
            total_requests: self.total_requests + 1,
            total_failed_requests: self.total_failed_requests + 1,
            ..self
        }
    }

    /// An error: it counts as an error only.
    pub open spec fn add_error(self) -> ResultsView {
        ResultsView { total_errors: self.total_errors + 1, ..self }
    }

    /// Records the current counters together with the elapsed time.
    pub open spec fn update(self, elapsed_micros: u64) -> ResultsView {
        ResultsView {
            last_update: Some(
                UpdateSnapshot {
                    total_requests: self.total_requests as u32,
                    total_failed_requests: self.total_failed_requests as u32,
                    total_response_time: self.total_response_time as u64,
                    elapsed_micros,
                },
            ),
            ..self
        }
    }
}

impl View for Results {
    type V = ResultsView;

    closed spec fn view(&self) -> ResultsView {
        ResultsView {
            total_requests: self.total_requests as nat,
            total_failed_requests: self.total_failed_requests as nat,
            total_errors: self.total_errors as nat,
            total_response_time: self.total_response_time as nat,
            min_response_time: self.min_response_time as nat,
            max_response_time: self.max_response_time as nat,
            last_update: self.last_update,
        }
    }
}

impl Results {
    /// The statistics before any request.
    pub fn new() -> (res: Results)
        ensures
            res@ == ResultsView::empty(),
    {
        Results {
            total_requests: 0,
            total_failed_requests: 0,
            total_errors: 0,
            total_response_time: 0,
            min_response_time: 0,
            max_response_time: 0,
            last_update: None,
        }
    }

    pub fn add_success(&mut self, response_time: u64)
        requires
            old(self)@.total_requests < u32::MAX,
            old(self)@.total_response_time + response_time <= u64::MAX,
        ensures
            final(self)@ == old(self)@.add_success(response_time as nat),
    {
        self.total_response_time = self.total_response_time + response_time;
        self.total_requests = self.total_requests + 1;
        if self.min_response_time == 0 || response_time < self.min_response_time {
            self.min_response_time = response_time;
        }
        if response_time > self.max_response_time {
            self.max_response_time = response_time;
        }
    }

    pub fn add_failure(&mut self)
        requires
            old(self)@.total_requests < u32::MAX,
            old(self)@.total_failed_requests < u32::MAX,
        ensures
            final(self)@ == old(self)@.add_failure(),
    {
        self.total_requests = self.total_requests + 1;
        self.total_failed_requests = self.total_failed_requests + 1;
    }

    pub fn add_error(&mut self)
        requires
            old(self)@.total_errors < u32::MAX,
        ensures
            final(self)@ == old(self)@.add_error(),
    {
        self.total_errors = self.total_errors + 1;
    }

    /// Records the counters as they stand, with the time elapsed since the
    /// test started, for the averages and rates of this interval.
    pub fn calculate_on_update_interval(&mut self, elapsed_micros: u64)
        ensures
            final(self)@ == old(self)@.update(elapsed_micros),
    {
        self.last_update = Some(
            UpdateSnapshot {
                total_requests: self.total_requests,
                total_failed_requests: self.total_failed_requests,
                total_response_time: self.total_response_time,
                elapsed_micros,
            },
        );
    }

    pub fn get_total_requests(&self) -> (res: u32)
        ensures
            res == self@.total_requests,
    {
        self.total_requests
    }

    pub fn get_total_failed_requests(&self) -> (res: u32)
        ensures
            res == self@.total_failed_requests,
    {
        self.total_failed_requests
    }

    pub fn get_total_errors(&self) -> (res: u32)
        ensures
            res == self@.total_errors,
    {
        self.total_errors
    }

    pub fn get_total_response_time(&self) -> (res: u64)
        ensures
            res == self@.total_response_time,
    {
        self.total_response_time
    }

    pub fn get_min_response_time(&self) -> (res: u64)
        ensures
            res == self@.min_response_time,
    {
        self.min_response_time
    }

    pub fn get_max_response_time(&self) -> (res: u64)
        ensures
            res == self@.max_response_time,
    {
        self.max_response_time
    }

    /// The counters recorded at the last update interval, if there was one.
    pub fn get_last_update(&self) -> (res: Option<UpdateSnapshot>)
        ensures
            res == self@.last_update,
    {
        self.last_update
    }
}

impl Default for Results {
    fn default() -> (res: Results)
        ensures
            res@ == ResultsView::empty(),
    {
        Results::new()
    }
}

/// The counters that add up over the endpoints.
#[derive(Clone, Copy)]
pub enum Counter {
    Requests,
    FailedRequests,
    Errors,
    ResponseTime,
}

/// The value of one counter in a view.
pub open spec fn counter(v: ResultsView, c: Counter) -> nat {
    match c {
        Counter::Requests => v.total_requests,
        Counter::FailedRequests => v.total_failed_requests,
        Counter::Errors => v.total_errors,
        Counter::ResponseTime => v.total_response_time,
    }
}

/// The sum of one counter over a sequence of endpoints.
pub open spec fn sum_counter(s: Seq<(EndpointKey, ResultsView)>, c: Counter) -> nat
    decreases s.len(),
{
    if s.len() == 0 {
        0
    } else {
        sum_counter(s.drop_last(), c) + counter(s.last().1, c)
    }
}

/// The largest maximum response time over a sequence of endpoints (0 if none).
pub open spec fn max_response(s: Seq<(EndpointKey, ResultsView)>) -> nat
    decreases s.len(),
{
    if s.len() == 0 {
        0
    } else {
        let m = max_response(s.drop_last());
        if s.last().1.max_response_time > m {
            s.last().1.max_response_time
        } else {
            m
        }
    }
}

/// The mathematical content of an `AllResults`: the aggregate statistics and
/// the statistics of each endpoint, in the order the endpoints first appeared.
pub struct AllResultsView {
    pub aggregated: ResultsView,
    pub endpoints: Seq<(EndpointKey, ResultsView)>,
}

impl AllResultsView {
    /// No results yet.
    pub open spec fn empty() -> AllResultsView {
        AllResultsView { aggregated: ResultsView::empty(), endpoints: Seq::empty() }
    }

    /// No endpoint occurs twice.
    pub open spec fn distinct_keys(self) -> bool {
        forall|i: int, j: int|
            0 <= i < self.endpoints.len() && 0 <= j < self.endpoints.len() && i != j
                ==> #[trigger] self.endpoints[i].0 != #[trigger] self.endpoints[j].0
    }

    /// The aggregate is the sum of the endpoints' counters, and its maximum
    /// response time is the largest of theirs.
    pub open spec fn aggregate_consistent(self) -> bool {
        &&& self.aggregated.total_requests == sum_counter(self.endpoints, Counter::Requests)
        &&& self.aggregated.total_failed_requests == sum_counter(
            self.endpoints,
            Counter::FailedRequests,
        )
        &&& self.aggregated.total_errors == sum_counter(self.endpoints, Counter::Errors)
        &&& self.aggregated.total_response_time == sum_counter(
            self.endpoints,
            Counter::ResponseTime,
        )
        &&& self.aggregated.max_response_time == max_response(self.endpoints)
    }

    /// No statistics count more failed requests than requests.
    pub open spec fn counts_ordered(self) -> bool {
        &&& self.aggregated.total_failed_requests <= self.aggregated.total_requests
        &&& forall|i: int|
            0 <= i < self.endpoints.len() ==> (#[trigger] self.endpoints[i]).1.total_failed_requests
                <= self.endpoints[i].1.total_requests
    }

    /// The invariant of `AllResults`.
    pub open spec fn wf(self) -> bool {
        &&& self.distinct_keys()
        &&& self.aggregate_consistent()
        &&& self.counts_ordered()
    }

    /// Where the endpoint `k` stands, if it has results.
    pub open spec fn position(self, k: EndpointKey) -> Option<int> {
        if exists|i: int| 0 <= i < self.endpoints.len() && self.endpoints[i].0 == k {
            Some(choose|i: int| 0 <= i < self.endpoints.len() && self.endpoints[i].0 == k)
        } else {
            None
        }
    }

    /// Applies `f` to the aggregate and to the results of endpoint `k`,
    /// which starts from empty results where it has none yet.
    pub open spec fn record(self, k: EndpointKey, f: spec_fn(ResultsView) -> ResultsView) -> AllResultsView {
        AllResultsView {
            aggregated: f(self.aggregated),
            endpoints: match self.position(k) {
                Some(i) => self.endpoints.update(i, (k, f(self.endpoints[i].1))),
                None => self.endpoints.push((k, f(ResultsView::empty()))),
            },
        }
    }

    pub open spec fn add_success(self, k: EndpointKey, response_time: nat) -> AllResultsView {
        self.record(k, |v: ResultsView| v.add_success(response_time))
    }

    pub open spec fn add_failure(self, k: EndpointKey) -> AllResultsView {
        self.record(k, |v: ResultsView| v.add_failure())
    }

    pub open spec fn add_error(self, k: EndpointKey) -> AllResultsView {
        self.record(k, |v: ResultsView| v.add_error())
    }

    /// Records the update interval on the aggregate and on every endpoint.
    pub open spec fn update(self, elapsed_micros: u64) -> AllResultsView {
        AllResultsView {
            aggregated: self.aggregated.update(elapsed_micros),
            endpoints: self.endpoints.map_values(
                |p: (EndpointKey, ResultsView)| (p.0, p.1.update(elapsed_micros)),
            ),
        }
    }

    /// The results of the endpoints of the given type, in order.
    pub open spec fn of_type(self, endpoint_type: Seq<char>) -> Seq<ResultsView> {
        results_where(self.endpoints, |k: EndpointKey| k.0 == endpoint_type)
    }

    /// The results of the endpoints of the given name, in order.
    pub open spec fn of_name(self, name: Seq<char>) -> Seq<ResultsView> {
        results_where(self.endpoints, |k: EndpointKey| k.1 == name)
    }
}

/// The results of the endpoints whose key satisfies `p`, in order.
pub open spec fn results_where(
    s: Seq<(EndpointKey, ResultsView)>,
    p: spec_fn(EndpointKey) -> bool,
) -> Seq<ResultsView>
    decreases s.len(),
{
    if s.len() == 0 {
        Seq::empty()
    } else if p(s.last().0) {
        results_where(s.drop_last(), p).push(s.last().1)
    } else {
        results_where(s.drop_last(), p)
    }
}

proof fn lemma_sum_push(s: Seq<(EndpointKey, ResultsView)>, x: (EndpointKey, ResultsView), c: Counter)
    ensures
        sum_counter(s.push(x), c) == sum_counter(s, c) + counter(x.1, c),
        max_response(s.push(x)) == if x.1.max_response_time > max_response(s) {
            x.1.max_response_time
        } else {
            max_response(s)
        },
{
    assert(s.push(x).drop_last() =~= s);
}

proof fn lemma_sum_update(
    s: Seq<(EndpointKey, ResultsView)>,
    i: int,
    x: (EndpointKey, ResultsView),
    c: Counter,
)
    requires
        0 <= i < s.len(),
    ensures
        sum_counter(s.update(i, x), c) + counter(s[i].1, c) == sum_counter(s, c) + counter(x.1, c),
        counter(s[i].1, c) <= sum_counter(s, c),
    decreases s.len(),
{
    if i == s.len() - 1 {
        assert(s.update(i, x).drop_last() =~= s.drop_last());
    } else {
        lemma_sum_update(s.drop_last(), i, x, c);
        assert(s.update(i, x).drop_last() =~= s.drop_last().update(i, x));
    }
}

proof fn lemma_max_update(s: Seq<(EndpointKey, ResultsView)>, i: int, x: (EndpointKey, ResultsView))
    requires
        0 <= i < s.len(),
        x.1.max_response_time >= s[i].1.max_response_time,
    ensures
        max_response(s.update(i, x)) == if x.1.max_response_time > max_response(s) {
            x.1.max_response_time
        } else {
            max_response(s)
        },
    decreases s.len(),
{
    if i == s.len() - 1 {
        assert(s.update(i, x).drop_last() =~= s.drop_last());
    } else {
        lemma_max_update(s.drop_last(), i, x);
        assert(s.update(i, x).drop_last() =~= s.drop_last().update(i, x));
    }
}

proof fn lemma_max_elem(s: Seq<(EndpointKey, ResultsView)>, i: int)
    requires
        0 <= i < s.len(),
    ensures
        s[i].1.max_response_time <= max_response(s),
    decreases s.len(),
{
    if i < s.len() - 1 {
        lemma_max_elem(s.drop_last(), i);
        assert(s.drop_last()[i] == s[i]);
    }
}

/// Two sequences whose counters and maxima agree position by position have the
/// same sums and the same largest maximum.
proof fn lemma_congruent(s: Seq<(EndpointKey, ResultsView)>, t: Seq<(EndpointKey, ResultsView)>, c: Counter)
    requires
        s.len() == t.len(),
        forall|i: int|
            0 <= i < s.len() ==> {
                &&& (#[trigger] s[i]).1.total_requests == t[i].1.total_requests
                &&& s[i].1.total_failed_requests == t[i].1.total_failed_requests
                &&& s[i].1.total_errors == t[i].1.total_errors
                &&& s[i].1.total_response_time == t[i].1.total_response_time
                &&& s[i].1.max_response_time == t[i].1.max_response_time
            },
    ensures
        sum_counter(s, c) == sum_counter(t, c),
        max_response(s) == max_response(t),
    decreases s.len(),
{
    if s.len() > 0 {
        let n = s.len() - 1;
        assert(s[n] == s.last());
        assert(t[n] == t.last());
        assert forall|i: int| 0 <= i < s.drop_last().len() implies {
                &&& (#[trigger] s.drop_last()[i]).1.total_requests == t.drop_last()[i].1.total_requests
                &&& s.drop_last()[i].1.total_failed_requests == t.drop_last()[i].1.total_failed_requests
                &&& s.drop_last()[i].1.total_errors == t.drop_last()[i].1.total_errors
                &&& s.drop_last()[i].1.total_response_time == t.drop_last()[i].1.total_response_time
                &&& s.drop_last()[i].1.max_response_time == t.drop_last()[i].1.max_response_time
            } by {
            assert(s.drop_last()[i] == s[i]);
            assert(t.drop_last()[i] == t[i]);
        }
        lemma_congruent(s.drop_last(), t.drop_last(), c);
    }
}

/// The aggregate of all requests and the results of each endpoint.
#[derive(Debug, Clone)]
pub struct AllResults {
    aggrigated_results: Results,
    endpoint_results: Vec<(EndpointTypeName, Results)>,
}

/// The view of one stored endpoint entry.
pub open spec fn entry_view(p: (EndpointTypeName, Results)) -> (EndpointKey, ResultsView) {
    (p.0@, p.1@)
}

impl View for AllResults {
    type V = AllResultsView;

    closed spec fn view(&self) -> AllResultsView {
        AllResultsView {
            aggregated: self.aggrigated_results@,
            endpoints: self.endpoint_results@.map_values(|p: (EndpointTypeName, Results)| entry_view(p)),
        }
    }
}

impl AllResults {
    /// No results yet.
    pub fn new() -> (res: AllResults)
        ensures
            res@ == AllResultsView::empty(),
            res@.wf(),
    {
        let res = AllResults { aggrigated_results: Results::new(), endpoint_results: Vec::new() };
        assert(res@.endpoints =~= Seq::empty());
        res
    }

    /// Where the results of an endpoint stand, if it has any.
    fn position(&self, endpoint_type_name: &EndpointTypeName) -> (res: Option<usize>)
        requires
            self@.wf(),
        ensures
            match res {
                Some(i) => self@.position(endpoint_type_name@) == Some(i as int),
                None => self@.position(endpoint_type_name@) is None,
            },
    {
        let n = self.endpoint_results.len();
        let mut i: usize = 0;
        while i < n
            invariant
                n == self.endpoint_results@.len(),
                self@.endpoints.len() == n,
                self@.wf(),
                i <= n,
                forall|j: int| 0 <= j < i ==> self@.endpoints[j].0 != endpoint_type_name@,
            decreases n - i,
        {
            if self.endpoint_results[i].0.same_endpoint(endpoint_type_name) {
                let ghost k = endpoint_type_name@;
                assert(self@.endpoints[i as int].0 == k);
                proof {
                    let j = choose|j: int| 0 <= j < self@.endpoints.len() && self@.endpoints[j].0 == k;
                    if j != i as int {
                        assert(self@.endpoints[j].0 != self@.endpoints[i as int].0);
                    }
                }
                return Some(i);
            }
            i = i + 1;
        }
        None
    }

    /// Records a successful request to an endpoint that took `response_time`.
    pub fn add_success(&mut self, endpoint_type_name: &EndpointTypeName, response_time: u64)
        requires
            old(self)@.wf(),
            old(self)@.aggregated.total_requests < u32::MAX,
            old(self)@.aggregated.total_response_time + response_time <= u64::MAX,
        ensures
            final(self)@.wf(),
            final(self)@ == old(self)@.add_success(endpoint_type_name@, response_time as nat),
    {
        let ghost f = |v: ResultsView| v.add_success(response_time as nat);
        let pos = self.position(endpoint_type_name);
        self.aggrigated_results.add_success(response_time);
        match pos {
            Some(i) => {
                proof {
                    lemma_sum_update(old(self)@.endpoints, i as int, old(self)@.endpoints[i as int], Counter::Requests);
                    lemma_sum_update(old(self)@.endpoints, i as int, old(self)@.endpoints[i as int], Counter::ResponseTime);
                }
                self.endpoint_results[i].1.add_success(response_time);
                assert(self@.endpoints =~= old(self)@.endpoints.update(
                    i as int,
                    (old(self)@.endpoints[i as int].0, f(old(self)@.endpoints[i as int].1)),
                ));
            },
            None => {
                let mut r = Results::new();
                r.add_success(response_time);
                self.endpoint_results.push((endpoint_type_name.clone(), r));
                assert(self@.endpoints =~= old(self)@.endpoints.push((endpoint_type_name@, f(ResultsView::empty()))));
            },
        }
        proof { self.lemma_record(*old(self), endpoint_type_name@, f, pos); }
    }

    /// Records a failed request to an endpoint.
    pub fn add_failure(&mut self, endpoint_type_name: &EndpointTypeName)
        requires
            old(self)@.wf(),
            old(self)@.aggregated.total_requests < u32::MAX,
        ensures
            final(self)@.wf(),
            final(self)@ == old(self)@.add_failure(endpoint_type_name@),
    {
        let ghost f = |v: ResultsView| v.add_failure();
        let pos = self.position(endpoint_type_name);
        self.aggrigated_results.add_failure();
        match pos {
            Some(i) => {
                proof {
                    lemma_sum_update(old(self)@.endpoints, i as int, old(self)@.endpoints[i as int], Counter::Requests);
                    lemma_sum_update(old(self)@.endpoints, i as int, old(self)@.endpoints[i as int], Counter::FailedRequests);
                }
                self.endpoint_results[i].1.add_failure();
                assert(self@.endpoints =~= old(self)@.endpoints.update(
                    i as int,
                    (old(self)@.endpoints[i as int].0, f(old(self)@.endpoints[i as int].1)),
                ));
            },
            None => {
                let mut r = Results::new();
                r.add_failure();
                self.endpoint_results.push((endpoint_type_name.clone(), r));
                assert(self@.endpoints =~= old(self)@.endpoints.push((endpoint_type_name@, f(ResultsView::empty()))));
            },
        }
        proof { self.lemma_record(*old(self), endpoint_type_name@, f, pos); }
    }

    /// Records an error on an endpoint; the error text is not kept.
    pub fn add_error(&mut self, endpoint_type_name: &EndpointTypeName, _error: &str)
        requires
            old(self)@.wf(),
            old(self)@.aggregated.total_errors < u32::MAX,
        ensures
            final(self)@.wf(),
            final(self)@ == old(self)@.add_error(endpoint_type_name@),
    {
        let ghost f = |v: ResultsView| v.add_error();
        let pos = self.position(endpoint_type_name);
        self.aggrigated_results.add_error();
        match pos {
            Some(i) => {
                proof {
                    lemma_sum_update(old(self)@.endpoints, i as int, old(self)@.endpoints[i as int], Counter::Errors);
                }
                self.endpoint_results[i].1.add_error();
                assert(self@.endpoints =~= old(self)@.endpoints.update(
                    i as int,
                    (old(self)@.endpoints[i as int].0, f(old(self)@.endpoints[i as int].1)),
                ));
            },
            None => {
                let mut r = Results::new();
                r.add_error();
                self.endpoint_results.push((endpoint_type_name.clone(), r));
                assert(self@.endpoints =~= old(self)@.endpoints.push((endpoint_type_name@, f(ResultsView::empty()))));
            },
        }
        proof { self.lemma_record(*old(self), endpoint_type_name@, f, pos); }
    }

    /// After `record` the view is as `AllResultsView::record` says and the
    /// invariant holds, provided `f` only adds to the counters and the maximum.
    proof fn lemma_record(
        &self,
        before: AllResults,
        k: EndpointKey,
        f: spec_fn(ResultsView) -> ResultsView,
        pos: Option<usize>,
    )
        requires
            before@.wf(),
            self@.aggregated == f(before@.aggregated),
            match pos {
                Some(i) => before@.position(k) == Some(i as int) && self@.endpoints
                    == before@.endpoints.update(i as int, (before@.endpoints[i as int].0, f(before@.endpoints[i as int].1))),
                None => before@.position(k) is None && self@.endpoints == before@.endpoints.push((k, f(ResultsView::empty()))),
            },
            forall|v: ResultsView, c: Counter| #[trigger] counter(f(v), c) == counter(v, c) + counter(f(ResultsView::empty()), c),
            forall|v: ResultsView| v.total_failed_requests <= v.total_requests
                ==> #[trigger] f(v).total_failed_requests <= f(v).total_requests,
            forall|v: ResultsView| #![trigger f(v)] f(v).max_response_time == if f(ResultsView::empty()).max_response_time > v.max_response_time {
                f(ResultsView::empty()).max_response_time
            } else {
                v.max_response_time
            },
        ensures
            self@.wf(),
            self@ == before@.record(k, f),
    {
        let s = before@.endpoints;
        let z = f(ResultsView::empty());
        match pos {
            Some(i) => {
                let i = i as int;
                let x = (s[i].0, f(s[i].1));
                assert(s[i].0 == k);
                assert forall|c: Counter| sum_counter(s.update(i, x), c) == sum_counter(s, c) + counter(z, c) by {
                    lemma_sum_update(s, i, x, c);
                    assert(counter(f(s[i].1), c) == counter(s[i].1, c) + counter(z, c));
                }
                assert(f(s[i].1).max_response_time >= s[i].1.max_response_time);
                lemma_max_update(s, i, x);
                lemma_max_elem(s, i);
                assert(f(s[i].1).max_response_time == if z.max_response_time > s[i].1.max_response_time {
                    z.max_response_time
                } else {
                    s[i].1.max_response_time
                });
                assert(f(before@.aggregated).max_response_time == if z.max_response_time > before@.aggregated.max_response_time {
                    z.max_response_time
                } else {
                    before@.aggregated.max_response_time
                });
                assert(counter(f(before@.aggregated), Counter::Requests) == counter(before@.aggregated, Counter::Requests) + counter(z, Counter::Requests));
                assert(counter(f(before@.aggregated), Counter::FailedRequests) == counter(before@.aggregated, Counter::FailedRequests) + counter(z, Counter::FailedRequests));
                assert(counter(f(before@.aggregated), Counter::Errors) == counter(before@.aggregated, Counter::Errors) + counter(z, Counter::Errors));
                assert(counter(f(before@.aggregated), Counter::ResponseTime) == counter(before@.aggregated, Counter::ResponseTime) + counter(z, Counter::ResponseTime));
                assert(sum_counter(s.update(i, x), Counter::Requests) == sum_counter(s, Counter::Requests) + counter(z, Counter::Requests));
                assert(sum_counter(s.update(i, x), Counter::FailedRequests) == sum_counter(s, Counter::FailedRequests) + counter(z, Counter::FailedRequests));
                assert(sum_counter(s.update(i, x), Counter::Errors) == sum_counter(s, Counter::Errors) + counter(z, Counter::Errors));
                assert(sum_counter(s.update(i, x), Counter::ResponseTime) == sum_counter(s, Counter::ResponseTime) + counter(z, Counter::ResponseTime));
                assert forall|j: int| 0 <= j < s.len() implies s.update(i, x)[j].0 == s[j].0 by {}
                assert(s[i].1.total_failed_requests <= s[i].1.total_requests);
                assert(self@.counts_ordered());
                assert(self@.distinct_keys());
                assert(self@.aggregate_consistent());
            },
            None => {
                let x = (k, z);
                lemma_sum_push(s, x, Counter::Requests);
                lemma_sum_push(s, x, Counter::FailedRequests);
                lemma_sum_push(s, x, Counter::Errors);
                lemma_sum_push(s, x, Counter::ResponseTime);
                assert(counter(f(before@.aggregated), Counter::Requests) == counter(before@.aggregated, Counter::Requests) + counter(z, Counter::Requests));
                assert(counter(f(before@.aggregated), Counter::FailedRequests) == counter(before@.aggregated, Counter::FailedRequests) + counter(z, Counter::FailedRequests));
                assert(counter(f(before@.aggregated), Counter::Errors) == counter(before@.aggregated, Counter::Errors) + counter(z, Counter::Errors));
                assert(counter(f(before@.aggregated), Counter::ResponseTime) == counter(before@.aggregated, Counter::ResponseTime) + counter(z, Counter::ResponseTime));
                assert(f(before@.aggregated).max_response_time == if z.max_response_time > before@.aggregated.max_response_time {
                    z.max_response_time
                } else {
                    before@.aggregated.max_response_time
                });
                assert(forall|j: int| 0 <= j < s.len() ==> s[j].0 != k);
                assert(ResultsView::empty().total_failed_requests <= ResultsView::empty().total_requests);
                assert(self@.counts_ordered());
                assert(self@.distinct_keys());
            },
        }
    }
}

impl AllResults {
    /// Records the update interval on the aggregate and on every endpoint.
    pub fn calculate_on_update_interval(&mut self, elapsed_micros: u64)
        requires
            old(self)@.wf(),
        ensures
            final(self)@.wf(),
            final(self)@ == old(self)@.update(elapsed_micros),
    {
        self.aggrigated_results.calculate_on_update_interval(elapsed_micros);
        let n = self.endpoint_results.len();
        let mut i: usize = 0;
        while i < n
            invariant
                n == self.endpoint_results@.len(),
                n == old(self)@.endpoints.len(),
                i <= n,
                self@.aggregated == old(self)@.aggregated.update(elapsed_micros),
                forall|j: int| 0 <= j < i ==> #[trigger] self@.endpoints[j] == (
                    old(self)@.endpoints[j].0,
                    old(self)@.endpoints[j].1.update(elapsed_micros),
                ),
                forall|j: int| i <= j < n ==> #[trigger] self@.endpoints[j] == old(self)@.endpoints[j],
            decreases n - i,
        {
            let ghost before = self@.endpoints;
            self.endpoint_results[i].1.calculate_on_update_interval(elapsed_micros);
            assert(self@.endpoints =~= before.update(i as int, (before[i as int].0, before[i as int].1.update(elapsed_micros))));
            i = i + 1;
        }
        let ghost s = old(self)@.endpoints;
        let ghost t = self@.endpoints;
        assert(t =~= s.map_values(|p: (EndpointKey, ResultsView)| (p.0, p.1.update(elapsed_micros))));
        proof {
            lemma_congruent(s, t, Counter::Requests);
            lemma_congruent(s, t, Counter::FailedRequests);
            lemma_congruent(s, t, Counter::Errors);
            lemma_congruent(s, t, Counter::ResponseTime);
            assert forall|a: int, b: int| 0 <= a < t.len() && 0 <= b < t.len() && a != b
                implies #[trigger] t[a].0 != #[trigger] t[b].0 by {
                assert(t[a].0 == s[a].0);
                assert(t[b].0 == s[b].0);
            }
            assert forall|a: int| 0 <= a < t.len() implies (#[trigger] t[a]).1.total_failed_requests
                <= t[a].1.total_requests by {
                assert(s[a].1.total_failed_requests <= s[a].1.total_requests);
            }
        }
    }

    /// The results of the endpoints of the given type, in the order the
    /// endpoints first appeared.
    pub fn get_by_type(&self, endpoint_type: &str) -> (res: Vec<&Results>)
        ensures
            res@.map_values(|r: &Results| r@) == self@.of_type(endpoint_type@),
    {
        let ghost p = |k: EndpointKey| k.0 == endpoint_type@;
        let mut res: Vec<&Results> = Vec::new();
        let n = self.endpoint_results.len();
        let mut i: usize = 0;
        while i < n
            invariant
                n == self.endpoint_results@.len(),
                n == self@.endpoints.len(),
                i <= n,
                p == (|k: EndpointKey| k.0 == endpoint_type@),
                res@.map_values(|r: &Results| r@) == results_where(self@.endpoints.take(i as int), p),
            decreases n - i,
        {
            let ghost s = self@.endpoints;
            assert(s.take(i + 1).drop_last() =~= s.take(i as int));
            assert(s.take(i + 1).last() == s[i as int]);
            let entry = &self.endpoint_results[i];
            assert(self@.endpoints[i as int] == entry_view(*entry));
            if str_equals(entry.0.endpoint_type.as_str(), endpoint_type) {
                res.push(&entry.1);
            }
            assert(res@.map_values(|r: &Results| r@) =~= results_where(s.take(i + 1), p));
            i = i + 1;
        }
        assert(self@.endpoints.take(n as int) =~= self@.endpoints);
        res
    }

    /// The results of the endpoints of the given name, in the order the
    /// endpoints first appeared.
    pub fn get_by_name(&self, name: &str) -> (res: Vec<&Results>)
        ensures
            res@.map_values(|r: &Results| r@) == self@.of_name(name@),
    {
        let ghost p = |k: EndpointKey| k.1 == name@;
        let mut res: Vec<&Results> = Vec::new();
        let n = self.endpoint_results.len();
        let mut i: usize = 0;
        while i < n
            invariant
                n == self.endpoint_results@.len(),
                n == self@.endpoints.len(),
                i <= n,
                p == (|k: EndpointKey| k.1 == name@),
                res@.map_values(|r: &Results| r@) == results_where(self@.endpoints.take(i as int), p),
            decreases n - i,
        {
            let ghost s = self@.endpoints;
            assert(s.take(i + 1).drop_last() =~= s.take(i as int));
            assert(s.take(i + 1).last() == s[i as int]);
            let entry = &self.endpoint_results[i];
            assert(self@.endpoints[i as int] == entry_view(*entry));
            if str_equals(entry.0.name.as_str(), name) {
                res.push(&entry.1);
            }
            assert(res@.map_values(|r: &Results| r@) =~= results_where(s.take(i + 1), p));
            i = i + 1;
        }
        assert(self@.endpoints.take(n as int) =~= self@.endpoints);
        res
    }

    /// The results of the endpoint with the given type and name, if it has any.
    pub fn get_by_type_and_name(&self, endpoint_type: &str, name: &str) -> (res: Option<&Results>)
        requires
            self@.wf(),
        ensures
            match self@.position((endpoint_type@, name@)) {
                Some(i) => res is Some && res.unwrap()@ == self@.endpoints[i].1,
                None => res is None,
            },
    {
        let ghost k = (endpoint_type@, name@);
        let n = self.endpoint_results.len();
        let mut i: usize = 0;
        while i < n
            invariant
                n == self.endpoint_results@.len(),
                n == self@.endpoints.len(),
                self@.wf(),
                k == (endpoint_type@, name@),
                i <= n,
                forall|j: int| 0 <= j < i ==> self@.endpoints[j].0 != k,
            decreases n - i,
        {
            let entry = &self.endpoint_results[i];
            assert(self@.endpoints[i as int] == entry_view(*entry));
            let same_type = str_equals(entry.0.endpoint_type.as_str(), endpoint_type);
            let same_name = str_equals(entry.0.name.as_str(), name);
            if same_type && same_name {
                assert(self@.endpoints[i as int].0 == k);
                proof {
                    let j = choose|j: int| 0 <= j < self@.endpoints.len() && self@.endpoints[j].0 == k;
                    if j != i as int {
                        assert(self@.endpoints[j].0 != self@.endpoints[i as int].0);
                    }
                }
                return Some(&entry.1);
            }
            i = i + 1;
        }
        None
    }

    /// The aggregate over all endpoints.
    pub fn get_aggrigated_results(&self) -> (res: &Results)
        ensures
            res@ == self@.aggregated,
    {
        &self.aggrigated_results
    }

    /// The results of every endpoint, in the order the endpoints first appeared.
    pub fn get_endpoint_results(&self) -> (res: &Vec<(EndpointTypeName, Results)>)
        ensures
            res@.map_values(|p: (EndpointTypeName, Results)| entry_view(p)) == self@.endpoints,
    {
        &self.endpoint_results
    }
}

impl Default for AllResults {
    fn default() -> (res: AllResults)
        ensures
            res@ == AllResultsView::empty(),
            res@.wf(),
    {
        AllResults::new()
    }
}

/// Whatever requests, failures, errors and update intervals an `AllResults`
/// has recorded, its aggregate counts exactly the requests, failures, errors
/// and response time of all endpoints together, its maximum response time is
/// the largest of the endpoints', no endpoint appears twice, and nothing
/// counts more failed requests than requests.
pub proof fn lemma_aggregate_is_sum_of_endpoints(all_results: &AllResults)
    requires
        all_results@.wf(),
    ensures
        all_results@.aggregated.total_requests == sum_counter(all_results@.endpoints, Counter::Requests),
        all_results@.aggregated.total_failed_requests == sum_counter(all_results@.endpoints, Counter::FailedRequests),
        all_results@.aggregated.total_errors == sum_counter(all_results@.endpoints, Counter::Errors),
        all_results@.aggregated.total_response_time == sum_counter(all_results@.endpoints, Counter::ResponseTime),
        all_results@.aggregated.max_response_time == max_response(all_results@.endpoints),
        all_results@.distinct_keys(),
        all_results@.aggregated.total_failed_requests <= all_results@.aggregated.total_requests,
{
}

/// The smaller of two response times where 0 stands for "none yet".
pub open spec fn min_nonzero(a: nat, b: nat) -> nat {
    if a == 0 {
        b
    } else if b == 0 {
        a
    } else if a <= b {
        a
    } else {
        b
    }
}

/// The smallest minimum response time over the endpoints that have one.
pub open spec fn min_response(s: Seq<(EndpointKey, ResultsView)>) -> nat
    decreases s.len(),
{
    if s.len() == 0 {
        0
    } else {
        min_nonzero(min_response(s.drop_last()), s.last().1.min_response_time)
    }
}

/// The aggregate's minimum response time is the smallest of the endpoints'.
pub open spec fn min_consistent(v: AllResultsView) -> bool {
    v.aggregated.min_response_time == min_response(v.endpoints)
}

proof fn lemma_min_update(s: Seq<(EndpointKey, ResultsView)>, i: int, x: (EndpointKey, ResultsView), rt: nat)
    requires
        0 <= i < s.len(),
        x.1.min_response_time == min_nonzero(s[i].1.min_response_time, rt),
    ensures
        min_response(s.update(i, x)) == min_nonzero(min_response(s), rt),
    decreases s.len(),
{
    if i == s.len() - 1 {
        assert(s.update(i, x).drop_last() =~= s.drop_last());
    } else {
        lemma_min_update(s.drop_last(), i, x, rt);
        assert(s.update(i, x).drop_last() =~= s.drop_last().update(i, x));
    }
}

proof fn lemma_min_congruent(s: Seq<(EndpointKey, ResultsView)>, t: Seq<(EndpointKey, ResultsView)>)
    requires
        s.len() == t.len(),
        forall|i: int| 0 <= i < s.len() ==> (#[trigger] s[i]).1.min_response_time == t[i].1.min_response_time,
    ensures
        min_response(s) == min_response(t),
    decreases s.len(),
{
    if s.len() > 0 {
        assert(s[s.len() - 1] == s.last());
        assert(t[t.len() - 1] == t.last());
        assert forall|i: int| 0 <= i < s.drop_last().len() implies (#[trigger] s.drop_last()[i]).1.min_response_time
            == t.drop_last()[i].1.min_response_time by {
            assert(s.drop_last()[i] == s[i]);
            assert(t.drop_last()[i] == t[i]);
        }
        lemma_min_congruent(s.drop_last(), t.drop_last());
    }
}

/// With no results, the aggregate's minimum response time is the smallest of
/// the endpoints' (there are none).
pub proof fn lemma_min_law_empty()
    ensures
        min_consistent(AllResultsView::empty()),
{
}

/// Recording a successful request with a positive response time keeps the
/// aggregate's minimum response time equal to the smallest of the endpoints'.
/// (With a response time of 0 it does not: 0 counts as "no minimum yet".)
pub proof fn lemma_min_law_success(v: AllResultsView, k: EndpointKey, response_time: nat)
    requires
        v.wf(),
        min_consistent(v),
        response_time > 0,
    ensures
        min_consistent(v.add_success(k, response_time)),
{
    let s = v.endpoints;
    let after = v.add_success(k, response_time);
    match v.position(k) {
        Some(i) => {
            let x = (k, s[i].1.add_success(response_time));
            assert(after.endpoints == s.update(i, x));
            lemma_min_update(s, i, x, response_time);
        },
        None => {
            let x = (k, ResultsView::empty().add_success(response_time));
            assert(after.endpoints == s.push(x));
            assert(s.push(x).drop_last() =~= s);
        },
    }
}

/// Recording a failed request or an error leaves every minimum response time
/// as it was, so the aggregate's stays the smallest of the endpoints'.
pub proof fn lemma_min_law_failure_and_error(v: AllResultsView, k: EndpointKey)
    requires
        v.wf(),
        min_consistent(v),
    ensures
        min_consistent(v.add_failure(k)),
        min_consistent(v.add_error(k)),
{
    let s = v.endpoints;
    match v.position(k) {
        Some(i) => {
            lemma_min_update(s, i, (k, s[i].1.add_failure()), 0);
            lemma_min_update(s, i, (k, s[i].1.add_error()), 0);
        },
        None => {
            assert(s.push((k, ResultsView::empty().add_failure())).drop_last() =~= s);
            assert(s.push((k, ResultsView::empty().add_error())).drop_last() =~= s);
        },
    }
}

/// An update interval leaves every minimum response time as it was.
pub proof fn lemma_min_law_update(v: AllResultsView, elapsed_micros: u64)
    requires
        min_consistent(v),
    ensures
        min_consistent(v.update(elapsed_micros)),
{
    lemma_min_congruent(v.endpoints, v.update(elapsed_micros).endpoints);
}

/// Each endpoint's counters are bounded by the aggregate's.
pub proof fn lemma_endpoint_bounded_by_aggregate(all_results: &AllResults, i: int)
    requires
        all_results@.wf(),
        0 <= i < all_results@.endpoints.len(),
    ensures
        all_results@.endpoints[i].1.total_requests <= all_results@.aggregated.total_requests,
        all_results@.endpoints[i].1.total_errors <= all_results@.aggregated.total_errors,
        all_results@.endpoints[i].1.total_response_time <= all_results@.aggregated.total_response_time,
        all_results@.endpoints[i].1.max_response_time <= all_results@.aggregated.max_response_time,
{
    let s = all_results@.endpoints;
    lemma_sum_update(s, i, s[i], Counter::Requests);
    lemma_sum_update(s, i, s[i], Counter::Errors);
    lemma_sum_update(s, i, s[i], Counter::ResponseTime);
    lemma_max_elem(s, i);
}

/// The statistics after the successful requests that took `times`, in order,
/// starting from none.
pub open spec fn after_successes(times: Seq<nat>) -> ResultsView
    decreases times.len(),
{
    if times.len() == 0 {
        ResultsView::empty()
    } else {
        after_successes(times.drop_last()).add_success(times.last())
    }
}

/// The sum of a sequence of times.
pub open spec fn time_sum(times: Seq<nat>) -> nat
    decreases times.len(),
{
    if times.len() == 0 {
        0
    } else {
        time_sum(times.drop_last()) + times.last()
    }
}

/// The least of a non-empty sequence of times.
pub open spec fn time_min(times: Seq<nat>) -> nat
    decreases times.len(),
{
    if times.len() <= 1 {
        times[0]
    } else if times.last() < time_min(times.drop_last()) {
        times.last()
    } else {
        time_min(times.drop_last())
    }
}

/// The greatest of a non-empty sequence of times.
pub open spec fn time_max(times: Seq<nat>) -> nat
    decreases times.len(),
{
    if times.len() <= 1 {
        times[0]
    } else if times.last() > time_max(times.drop_last()) {
        times.last()
    } else {
        time_max(times.drop_last())
    }
}

/// After one or more successful requests, each of positive duration, the
/// statistics count every request and no failure or error, and hold the
/// least, the greatest and the sum of the durations.
pub proof fn lemma_successes_summarise(times: Seq<nat>)
    requires
        times.len() >= 1,
        forall|i: int| 0 <= i < times.len() ==> #[trigger] times[i] > 0,
    ensures
        after_successes(times).total_requests == times.len(),
        after_successes(times).total_failed_requests == 0,
        after_successes(times).total_errors == 0,
        after_successes(times).total_response_time == time_sum(times),
        after_successes(times).min_response_time == time_min(times),
        after_successes(times).max_response_time == time_max(times),
        time_min(times) > 0,
    decreases times.len(),
{
    let rest = times.drop_last();
    assert(times.last() == times[times.len() - 1]);
    if times.len() == 1 {
        assert(rest =~= Seq::<nat>::empty());
        assert(time_sum(rest) == 0);
        assert(times[0] > 0);
    } else {
        assert forall|i: int| 0 <= i < rest.len() implies #[trigger] rest[i] > 0 by {
            assert(rest[i] == times[i]);
        }
        lemma_successes_summarise(rest);
    }
}

/// The statistics of endpoint `k`: empty where it has none yet.
pub open spec fn results_of(v: AllResultsView, k: EndpointKey) -> ResultsView {
    match v.position(k) {
        Some(i) => v.endpoints[i].1,
        None => ResultsView::empty(),
    }
}

/// Where the keys are distinct, the position of a key is its only index.
proof fn lemma_position_unique(v: AllResultsView, k: EndpointKey, i: int)
    requires
        v.distinct_keys(),
        0 <= i < v.endpoints.len(),
        v.endpoints[i].0 == k,
    ensures
        v.position(k) == Some(i),
{
    let j = choose|j: int| 0 <= j < v.endpoints.len() && v.endpoints[j].0 == k;
    if j != i {
        assert(v.endpoints[i].0 != v.endpoints[j].0);
    }
}

/// Recording on endpoint `k` keeps the keys distinct, applies `f` to the
/// statistics of `k` (starting from empty ones), and leaves every other
/// endpoint's statistics as they were.
#[verifier::spinoff_prover]
pub proof fn lemma_record_touches_one_endpoint(
    v: AllResultsView,
    k: EndpointKey,
    f: spec_fn(ResultsView) -> ResultsView,
    k2: EndpointKey,
)
    requires
        v.distinct_keys(),
    ensures
        v.record(k, f).distinct_keys(),
        results_of(v.record(k, f), k2) == if k2 == k {
            f(results_of(v, k))
        } else {
            results_of(v, k2)
        },
{
    let w = v.record(k, f);
    match v.position(k) {
        Some(i) => {
            assert(0 <= i < v.endpoints.len() && v.endpoints[i].0 == k);
            assert forall|a: int, b: int|
                0 <= a < w.endpoints.len() && 0 <= b < w.endpoints.len() && a != b implies #[trigger] w.endpoints[a].0
                != #[trigger] w.endpoints[b].0 by {
                assert(w.endpoints[a].0 == v.endpoints[a].0);
                assert(w.endpoints[b].0 == v.endpoints[b].0);
            }
            if k2 == k {
                lemma_position_unique(w, k, i);
            } else {
                match v.position(k2) {
                    Some(j) => {
                        assert(0 <= j < v.endpoints.len() && v.endpoints[j].0 == k2);
                        lemma_position_unique(w, k2, j);
                    },
                    None => {
                        if exists|j: int| 0 <= j < w.endpoints.len() && w.endpoints[j].0 == k2 {
                            let j = choose|j: int| 0 <= j < w.endpoints.len() && w.endpoints[j].0 == k2;
                            assert(v.endpoints[j].0 == k2);
                        }
                    },
                }
            }
        },
        None => {
            let n = v.endpoints.len() as int;
            assert forall|j: int| 0 <= j < n implies v.endpoints[j].0 != k by {
                if v.endpoints[j].0 == k {
                    assert(exists|i: int| 0 <= i < v.endpoints.len() && v.endpoints[i].0 == k);
                }
            }
            assert forall|a: int, b: int|
                0 <= a < w.endpoints.len() && 0 <= b < w.endpoints.len() && a != b implies #[trigger] w.endpoints[a].0
                != #[trigger] w.endpoints[b].0 by {
                if a < n && b < n {
                    assert(w.endpoints[a] == v.endpoints[a]);
                    assert(w.endpoints[b] == v.endpoints[b]);
                } else if a < n {
                    assert(w.endpoints[a] == v.endpoints[a]);
                } else if b < n {
                    assert(w.endpoints[b] == v.endpoints[b]);
                }
            }
            if k2 == k {
                lemma_position_unique(w, k, n);
            } else {
                match v.position(k2) {
                    Some(j) => {
                        assert(0 <= j < v.endpoints.len() && v.endpoints[j].0 == k2);
                        assert(w.endpoints[j] == v.endpoints[j]);
                        lemma_position_unique(w, k2, j);
                    },
                    None => {
                        if exists|j: int| 0 <= j < w.endpoints.len() && w.endpoints[j].0 == k2 {
                            let j = choose|j: int| 0 <= j < w.endpoints.len() && w.endpoints[j].0 == k2;
                            assert(j < n);
                            assert(w.endpoints[j] == v.endpoints[j]);
                        }
                    },
                }
            }
        },
    }
}

/// How many endpoints of `s` are of type `endpoint_type`.
pub open spec fn count_of_type(s: Seq<(EndpointKey, ResultsView)>, endpoint_type: Seq<char>) -> nat
    decreases s.len(),
{
    if s.len() == 0 {
        0
    } else {
        count_of_type(s.drop_last(), endpoint_type) + if s.last().0.0 == endpoint_type {
            1nat
        } else {
            0nat
        }
    }
}

/// How many endpoints of `s` have the name `name`.
pub open spec fn count_of_name(s: Seq<(EndpointKey, ResultsView)>, name: Seq<char>) -> nat
    decreases s.len(),
{
    if s.len() == 0 {
        0
    } else {
        count_of_name(s.drop_last(), name) + if s.last().0.1 == name {
            1nat
        } else {
            0nat
        }
    }
}

/// The results of the endpoints of type `endpoint_type` are listed once
/// each, in the order of the endpoints, whatever their counters: the
/// endpoint `j` of that type comes at the place given by how many endpoints
/// of that type come before it.
pub proof fn lemma_of_type_lists_every_endpoint_of_type(v: AllResultsView, endpoint_type: Seq<char>)
    ensures
        v.of_type(endpoint_type).len() == count_of_type(v.endpoints, endpoint_type),
        forall|j: int|
            0 <= j < v.endpoints.len() && (#[trigger] v.endpoints[j]).0.0 == endpoint_type ==> count_of_type(
                v.endpoints.take(j),
                endpoint_type,
            ) < count_of_type(v.endpoints, endpoint_type) && v.of_type(endpoint_type)[count_of_type(
                v.endpoints.take(j),
                endpoint_type,
            ) as int] == v.endpoints[j].1,
    decreases v.endpoints.len(),
{
    let s = v.endpoints;
    if s.len() > 0 {
        let w = AllResultsView { aggregated: v.aggregated, endpoints: s.drop_last() };
        lemma_of_type_lists_every_endpoint_of_type(w, endpoint_type);
        assert forall|j: int| 0 <= j < s.len() && (#[trigger] s[j]).0.0 == endpoint_type implies count_of_type(
            s.take(j),
            endpoint_type,
        ) < count_of_type(s, endpoint_type) && v.of_type(endpoint_type)[count_of_type(
            s.take(j),
            endpoint_type,
        ) as int] == s[j].1 by {
            if j < s.len() - 1 {
                assert(s.drop_last()[j] == s[j]);
                assert(s.drop_last().take(j) =~= s.take(j));
            } else {
                assert(s.take(j) =~= s.drop_last());
            }
        }
    }
}

/// The results of the endpoints named `name` are listed once each, in the
/// order of the endpoints, whatever their counters: the endpoint `j` of that
/// name comes at the place given by how many endpoints of that name come
/// before it.
pub proof fn lemma_of_name_lists_every_endpoint_of_name(v: AllResultsView, name: Seq<char>)
    ensures
        v.of_name(name).len() == count_of_name(v.endpoints, name),
        forall|j: int|
            0 <= j < v.endpoints.len() && (#[trigger] v.endpoints[j]).0.1 == name ==> count_of_name(
                v.endpoints.take(j),
                name,
            ) < count_of_name(v.endpoints, name) && v.of_name(name)[count_of_name(v.endpoints.take(j), name) as int]
                == v.endpoints[j].1,
    decreases v.endpoints.len(),
{
    let s = v.endpoints;
    if s.len() > 0 {
        let w = AllResultsView { aggregated: v.aggregated, endpoints: s.drop_last() };
        lemma_of_name_lists_every_endpoint_of_name(w, name);
        assert forall|j: int| 0 <= j < s.len() && (#[trigger] s[j]).0.1 == name implies count_of_name(
            s.take(j),
            name,
        ) < count_of_name(s, name) && v.of_name(name)[count_of_name(s.take(j), name) as int] == s[j].1 by {
            if j < s.len() - 1 {
                assert(s.drop_last()[j] == s[j]);
                assert(s.drop_last().take(j) =~= s.take(j));
            } else {
                assert(s.take(j) =~= s.drop_last());
            }
        }
    }
}

} // verus!
