//! The state that a running test keeps from the events it receives, and the
//! decision taken on each event: how the statistics change and which metrics
//! are to be exported.

use vstd::prelude::*;

use crate::messages::{
    ErrorResultMessage, FailureResultMessage, MainMessage, ResultMessage, SuccessResultMessage,
    TaskExecutedMessage, UserFinishedMessage, UserPanickedMessage, UserSelfStoppedMessage,
    UserSpawnedMessage, UserUnknownStatusMessage,
};
use crate::results::{
    lemma_record_touches_one_endpoint, results_of, AllResults, AllResultsView, EndpointKey,
    EndpointTypeName, ResultsView,
};
use crate::user::{
    can_add_error, can_add_failure, can_add_success, can_increment_total_tasks,
    fresh_user, spec_increment_total_tasks, spec_insert_user, spec_set_user_status,
    update_user_info, update_user_results, user_position, users_wf, EventsUserInfo,
    UserStatsCollection, UserStatsInfo, UserStatsView, UserStatus,
};

verus! {

/// A change to the exported metrics that an event calls for.
#[derive(Debug)]
pub enum MetricUpdate {
    /// Count a request and set its response time (microseconds).
    Success { endpoint_type_name: EndpointTypeName, user_info: EventsUserInfo, response_time: u64 },
    /// Count a request and a failure.
    Failure { endpoint_type_name: EndpointTypeName, user_info: EventsUserInfo },
    /// Count an error; as in the built-in results, an error is not counted
    /// as a request.
    Error { endpoint_type_name: EndpointTypeName, user_info: EventsUserInfo },
    /// One more running user of this name.
    AddUser { user_name: &'static str },
    /// One running user of this name less.
    RemoveUser { user_name: &'static str },
    /// Count a user that stopped itself.
    AddSuicide { user_info: EventsUserInfo },
    /// Count a user that panicked.
    AddPanic { user_info: EventsUserInfo },
    /// Count an executed task.
    AddTask { user_info: EventsUserInfo, task_name: &'static str },
}

/// The statistics a running test keeps.
pub struct TestState {
    total_users_spawned: u64,
    all_results: AllResults,
    user_stats_collection: UserStatsCollection,
}

/// The mathematical content of a `TestState`.
pub struct TestStateView {
    pub total_users_spawned: nat,
    pub all_results: AllResultsView,
    pub users: Seq<UserStatsView>,
}

impl View for TestState {
    type V = TestStateView;

    closed spec fn view(&self) -> TestStateView {
        TestStateView {
            total_users_spawned: self.total_users_spawned as nat,
            all_results: self.all_results@,
            users: self.user_stats_collection@,
        }
    }
}

impl TestStateView {
    /// The state before any event.
    pub open spec fn empty() -> TestStateView {
        TestStateView {
            total_users_spawned: 0,
            all_results: AllResultsView::empty(),
            users: Seq::empty(),
        }
    }

    /// The invariant of a test's state.
    pub open spec fn wf(self) -> bool {
        &&& self.all_results.wf()
        &&& users_wf(self.users)
        &&& self.total_users_spawned <= u64::MAX
    }

    /// Recording the event overflows no counter.
    pub open spec fn accepts(self, msg: MainMessage) -> bool {
        match msg {
            MainMessage::ResultMessage(ResultMessage::Success(m)) => {
                &&& self.all_results.aggregated.total_requests < u32::MAX
                &&& self.all_results.aggregated.total_response_time + m.response_time <= u64::MAX
                &&& can_add_success(self.users, m.user_info.id, m.response_time)
            },
            MainMessage::ResultMessage(ResultMessage::Failure(m)) => {
                &&& self.all_results.aggregated.total_requests < u32::MAX
                &&& can_add_failure(self.users, m.user_info.id)
            },
            MainMessage::ResultMessage(ResultMessage::Error(m)) => {
                &&& self.all_results.aggregated.total_errors < u32::MAX
                &&& can_add_error(self.users, m.user_info.id)
            },
            MainMessage::UserSpawned(_) => self.total_users_spawned < u64::MAX,
            MainMessage::TaskExecuted(m) => can_increment_total_tasks(self.users, m.user_info.id),
            _ => true,
        }
    }

    /// The state after the event: results are recorded for the test and for
    /// the user, a spawned user is counted and gets a fresh entry, executed
    /// tasks are counted for their user, and the end of a user sets its
    /// status (a user that stopped itself keeps that status).
    pub open spec fn apply(self, msg: MainMessage) -> TestStateView {
        match msg {
            MainMessage::ResultMessage(ResultMessage::Success(m)) => TestStateView {
                all_results: self.all_results.add_success(m.endpoint_type_name@, m.response_time as nat),
                users: update_user_results(
                    self.users,
                    m.user_info.id,
                    |r: AllResultsView| r.add_success(m.endpoint_type_name@, m.response_time as nat),
                ),
                ..self
            },
            MainMessage::ResultMessage(ResultMessage::Failure(m)) => TestStateView {
                all_results: self.all_results.add_failure(m.endpoint_type_name@),
                users: update_user_results(
                    self.users,
                    m.user_info.id,
                    |r: AllResultsView| r.add_failure(m.endpoint_type_name@),
                ),
                ..self
            },
            MainMessage::ResultMessage(ResultMessage::Error(m)) => TestStateView {
                all_results: self.all_results.add_error(m.endpoint_type_name@),
                users: update_user_results(
                    self.users,
                    m.user_info.id,
                    |r: AllResultsView| r.add_error(m.endpoint_type_name@),
                ),
                ..self
            },
            MainMessage::UserSpawned(m) => TestStateView {
                total_users_spawned: self.total_users_spawned + 1,
                users: spec_insert_user(self.users, m.user_info.id, m.user_info.name),
                ..self
            },
            MainMessage::UserSelfStopped(m) => TestStateView {
                users: spec_set_user_status(self.users, m.user_info.id, UserStatus::Cancelled),
                ..self
            },
            MainMessage::TaskExecuted(m) => TestStateView {
                users: spec_increment_total_tasks(self.users, m.user_info.id),
                ..self
            },
            MainMessage::UserFinished(m) => TestStateView {
                users: spec_set_user_status(self.users, m.user_info.id, UserStatus::Finished),
                ..self
            },
            MainMessage::UserPanicked(m) => TestStateView {
                users: spec_set_user_status(self.users, m.user_info.id, UserStatus::Panicked),
                ..self
            },
            MainMessage::UserUnknownStatus(m) => TestStateView {
                users: spec_set_user_status(self.users, m.user_info.id, UserStatus::Unknown),
                ..self
            },
        }
    }
}

/// The metric changes that an event calls for, in order.
pub open spec fn metric_updates(msg: MainMessage) -> Seq<MetricUpdate> {
    match msg {
        MainMessage::ResultMessage(ResultMessage::Success(m)) => seq![
            MetricUpdate::Success {
                endpoint_type_name: m.endpoint_type_name,
                user_info: m.user_info,
                response_time: m.response_time,
            },
        ],
        MainMessage::ResultMessage(ResultMessage::Failure(m)) => seq![
            MetricUpdate::Failure { endpoint_type_name: m.endpoint_type_name, user_info: m.user_info },
        ],
        MainMessage::ResultMessage(ResultMessage::Error(m)) => seq![
            MetricUpdate::Error { endpoint_type_name: m.endpoint_type_name, user_info: m.user_info },
        ],
        MainMessage::UserSpawned(m) => seq![MetricUpdate::AddUser { user_name: m.user_info.name }],
        MainMessage::UserSelfStopped(m) => seq![
            MetricUpdate::RemoveUser { user_name: m.user_info.name },
            MetricUpdate::AddSuicide { user_info: m.user_info },
        ],
        MainMessage::TaskExecuted(m) => seq![
            MetricUpdate::AddTask { user_info: m.user_info, task_name: m.task_info.name },
        ],
        MainMessage::UserFinished(_) => seq![],
        MainMessage::UserPanicked(m) => seq![
            MetricUpdate::RemoveUser { user_name: m.user_info.name },
            MetricUpdate::AddPanic { user_info: m.user_info },
        ],
        MainMessage::UserUnknownStatus(m) => seq![MetricUpdate::RemoveUser { user_name: m.user_info.name }],
    }
}

impl TestState {
    /// The state before any event.
    pub fn new() -> (res: Self)
        ensures
            res@ == TestStateView::empty(),
            res@.wf(),
    {
        TestState {
            total_users_spawned: 0,
            all_results: AllResults::new(),
            user_stats_collection: UserStatsCollection::new(),
        }
    }

    /// Whether the event can be recorded without overflowing a counter.
    pub fn accepts(&self, msg: &MainMessage) -> (res: bool)
        requires
            self@.wf(),
        ensures
            res == self@.accepts(*msg),
    {
        match msg {
            MainMessage::ResultMessage(ResultMessage::Success(m)) => {
                let agg = self.all_results.get_aggrigated_results();
                agg.get_total_requests() < u32::MAX && agg.get_total_response_time() <= u64::MAX
                    - m.response_time && self.user_stats_collection.can_add_success(
                    m.user_info.id,
                    m.response_time,
                )
            },
            MainMessage::ResultMessage(ResultMessage::Failure(m)) => {
                self.all_results.get_aggrigated_results().get_total_requests() < u32::MAX
                    && self.user_stats_collection.can_add_failure(m.user_info.id)
            },
            MainMessage::ResultMessage(ResultMessage::Error(m)) => {
                self.all_results.get_aggrigated_results().get_total_errors() < u32::MAX
                    && self.user_stats_collection.can_add_error(m.user_info.id)
            },
            MainMessage::UserSpawned(_) => self.total_users_spawned < u64::MAX,
            MainMessage::TaskExecuted(m) => self.user_stats_collection.can_increment_total_tasks(
                m.user_info.id,
            ),
            _ => true,
        }
    }

    /// Records an event and returns the metric changes it calls for.
    pub fn on_message(&mut self, msg: MainMessage) -> (updates: Vec<MetricUpdate>)
        requires
            old(self)@.wf(),
            old(self)@.accepts(msg),
        ensures
            final(self)@.wf(),
            final(self)@ == old(self)@.apply(msg),
            updates@ == metric_updates(msg),
    {
        match msg {
            MainMessage::ResultMessage(result_msg) => self.on_result_message(result_msg),
            MainMessage::UserSpawned(m) => self.on_user_spawned_message(m),
            MainMessage::TaskExecuted(m) => self.on_task_excuted_message(m),
            MainMessage::UserSelfStopped(m) => self.on_user_self_stopped_message(m),
            MainMessage::UserFinished(m) => self.on_user_finished_message(m),
            MainMessage::UserPanicked(m) => self.on_user_panicked_message(m),
            MainMessage::UserUnknownStatus(m) => self.on_user_unknown_status_message(m),
        }
    }

    fn on_result_message(&mut self, result_msg: ResultMessage) -> (updates: Vec<MetricUpdate>)
        requires
            old(self)@.wf(),
            old(self)@.accepts(MainMessage::ResultMessage(result_msg)),
        ensures
            final(self)@.wf(),
            final(self)@ == old(self)@.apply(MainMessage::ResultMessage(result_msg)),
            updates@ == metric_updates(MainMessage::ResultMessage(result_msg)),
    {
        let mut updates: Vec<MetricUpdate> = Vec::new();
        match result_msg {
            ResultMessage::Success(m) => {
                let SuccessResultMessage { user_info, endpoint_type_name, response_time } = m;
                self.all_results.add_success(&endpoint_type_name, response_time);
                self.user_stats_collection.add_success(&user_info.id, &endpoint_type_name, response_time);
                updates.push(MetricUpdate::Success { endpoint_type_name, user_info, response_time });
            },
            ResultMessage::Failure(m) => {
                let FailureResultMessage { user_info, endpoint_type_name } = m;
                self.all_results.add_failure(&endpoint_type_name);
                self.user_stats_collection.add_failure(&user_info.id, &endpoint_type_name);
                updates.push(MetricUpdate::Failure { endpoint_type_name, user_info });
            },
            ResultMessage::Error(m) => {
                let ErrorResultMessage { user_info, endpoint_type_name, error } = m;
                self.all_results.add_error(&endpoint_type_name, error.as_str());
                self.user_stats_collection.add_error(&user_info.id, &endpoint_type_name, error.as_str());
                updates.push(MetricUpdate::Error { endpoint_type_name, user_info });
            },
        }
        assert(updates@ =~= metric_updates(MainMessage::ResultMessage(result_msg)));
        updates
    }

    fn on_user_spawned_message(&mut self, user_spawned_msg: UserSpawnedMessage) -> (updates: Vec<
        MetricUpdate,
    >)
        requires
            old(self)@.wf(),
            old(self)@.accepts(MainMessage::UserSpawned(user_spawned_msg)),
        ensures
            final(self)@.wf(),
            final(self)@ == old(self)@.apply(MainMessage::UserSpawned(user_spawned_msg)),
            updates@ == metric_updates(MainMessage::UserSpawned(user_spawned_msg)),
    {
        self.total_users_spawned = self.total_users_spawned + 1;
        self.user_stats_collection.insert_user(user_spawned_msg.user_info.id, user_spawned_msg.user_info.name);
        let mut updates: Vec<MetricUpdate> = Vec::new();
        updates.push(MetricUpdate::AddUser { user_name: user_spawned_msg.user_info.name });
        assert(updates@ =~= metric_updates(MainMessage::UserSpawned(user_spawned_msg)));
        updates
    }

    fn on_user_self_stopped_message(&mut self, user_self_stopped_msg: UserSelfStoppedMessage) -> (updates:
        Vec<MetricUpdate>)
        requires
            old(self)@.wf(),
        ensures
            final(self)@.wf(),
            final(self)@ == old(self)@.apply(MainMessage::UserSelfStopped(user_self_stopped_msg)),
            updates@ == metric_updates(MainMessage::UserSelfStopped(user_self_stopped_msg)),
    {
        let user_info = user_self_stopped_msg.user_info;
        self.user_stats_collection.set_user_status(&user_info.id, UserStatus::Cancelled);
        let mut updates: Vec<MetricUpdate> = Vec::new();
        updates.push(MetricUpdate::RemoveUser { user_name: user_info.name });
        updates.push(MetricUpdate::AddSuicide { user_info });
        assert(updates@ =~= metric_updates(MainMessage::UserSelfStopped(user_self_stopped_msg)));
        updates
    }

    fn on_task_excuted_message(&mut self, user_fired_task_msg: TaskExecutedMessage) -> (updates: Vec<
        MetricUpdate,
    >)
        requires
            old(self)@.wf(),
            old(self)@.accepts(MainMessage::TaskExecuted(user_fired_task_msg)),
        ensures
            final(self)@.wf(),
            final(self)@ == old(self)@.apply(MainMessage::TaskExecuted(user_fired_task_msg)),
            updates@ == metric_updates(MainMessage::TaskExecuted(user_fired_task_msg)),
    {
        let user_info = user_fired_task_msg.user_info;
        self.user_stats_collection.increment_total_tasks(&user_info.id);
        let mut updates: Vec<MetricUpdate> = Vec::new();
        updates.push(MetricUpdate::AddTask { user_info, task_name: user_fired_task_msg.task_info.name });
        assert(updates@ =~= metric_updates(MainMessage::TaskExecuted(user_fired_task_msg)));
        updates
    }

    fn on_user_finished_message(&mut self, user_finished_msg: UserFinishedMessage) -> (updates: Vec<
        MetricUpdate,
    >)
        requires
            old(self)@.wf(),
        ensures
            final(self)@.wf(),
            final(self)@ == old(self)@.apply(MainMessage::UserFinished(user_finished_msg)),
            updates@ == metric_updates(MainMessage::UserFinished(user_finished_msg)),
    {
        self.user_stats_collection.set_user_status(&user_finished_msg.user_info.id, UserStatus::Finished);
        let updates: Vec<MetricUpdate> = Vec::new();
        assert(updates@ =~= metric_updates(MainMessage::UserFinished(user_finished_msg)));
        updates
    }

    fn on_user_panicked_message(&mut self, user_panicked_msg: UserPanickedMessage) -> (updates: Vec<
        MetricUpdate,
    >)
        requires
            old(self)@.wf(),
        ensures
            final(self)@.wf(),
            final(self)@ == old(self)@.apply(MainMessage::UserPanicked(user_panicked_msg)),
            updates@ == metric_updates(MainMessage::UserPanicked(user_panicked_msg)),
    {
        let user_info = user_panicked_msg.user_info;
        self.user_stats_collection.set_user_status(&user_info.id, UserStatus::Panicked);
        let mut updates: Vec<MetricUpdate> = Vec::new();
        updates.push(MetricUpdate::RemoveUser { user_name: user_info.name });
        updates.push(MetricUpdate::AddPanic { user_info });
        assert(updates@ =~= metric_updates(MainMessage::UserPanicked(user_panicked_msg)));
        updates
    }

    fn on_user_unknown_status_message(&mut self, user_unknown_status_msg: UserUnknownStatusMessage) -> (updates:
        Vec<MetricUpdate>)
        requires
            old(self)@.wf(),
        ensures
            final(self)@.wf(),
            final(self)@ == old(self)@.apply(MainMessage::UserUnknownStatus(user_unknown_status_msg)),
            updates@ == metric_updates(MainMessage::UserUnknownStatus(user_unknown_status_msg)),
    {
        let user_info = user_unknown_status_msg.user_info;
        self.user_stats_collection.set_user_status(&user_info.id, UserStatus::Unknown);
        let mut updates: Vec<MetricUpdate> = Vec::new();
        updates.push(MetricUpdate::RemoveUser { user_name: user_info.name });
        assert(updates@ =~= metric_updates(MainMessage::UserUnknownStatus(user_unknown_status_msg)));
        updates
    }

    /// Sets the status of a user whose supervisor could not be joined; a user
    /// that stopped itself keeps that status.
    pub fn set_user_status(&mut self, user_id: &u64, status: UserStatus)
        requires
            old(self)@.wf(),
        ensures
            final(self)@.wf(),
            final(self)@ == (TestStateView {
                users: spec_set_user_status(old(self)@.users, *user_id, status),
                ..old(self)@
            }),
    {
        self.user_stats_collection.set_user_status(user_id, status);
    }

    /// Records the update interval in the test's results.
    pub fn calculate_on_update_interval(&mut self, elapsed_micros: u64)
        requires
            old(self)@.wf(),
        ensures
            final(self)@.wf(),
            final(self)@ == (TestStateView {
                all_results: old(self)@.all_results.update(elapsed_micros),
                ..old(self)@
            }),
    {
        self.all_results.calculate_on_update_interval(elapsed_micros);
    }

    /// Records the update interval in every user's results, for the summary.
    pub fn calculate_user_stats_on_update_interval(&mut self, elapsed_micros: u64)
        requires
            old(self)@.wf(),
        ensures
            final(self)@.wf(),
            final(self)@.total_users_spawned == old(self)@.total_users_spawned,
            final(self)@.all_results == old(self)@.all_results,
            final(self)@.users.len() == old(self)@.users.len(),
            forall|i: int| 0 <= i < old(self)@.users.len() ==> (#[trigger] final(self)@.users[i]) == (UserStatsView {
                info: old(self)@.users[i].info,
                results: old(self)@.users[i].results.update(elapsed_micros),
            }),
    {
        self.user_stats_collection.calculate_on_update_interval(elapsed_micros);
    }

    pub fn get_total_users_spawned(&self) -> (res: u64)
        ensures
            res == self@.total_users_spawned,
    {
        self.total_users_spawned
    }

    pub fn get_all_results(&self) -> (res: &AllResults)
        ensures
            res@ == self@.all_results,
    {
        &self.all_results
    }

    pub fn get_user_stats_collection(&self) -> (res: &UserStatsCollection)
        ensures
            res@ == self@.users,
    {
        &self.user_stats_collection
    }
}

/// Whether the spawn progress is still reported at the next update interval:
/// it is until the spawned users reach the users that can be spawned.
pub fn keeps_reporting_spawns(reporting: bool, total_users_spawned: u64, total_spawnable: u64) -> (res: bool)
    ensures
        res == (reporting && total_users_spawned != total_spawnable),
{
    reporting && total_users_spawned != total_spawnable
}

/// The state after the events `msgs`, in order, starting from the empty
/// state.
pub open spec fn state_after(msgs: Seq<MainMessage>) -> TestStateView
    decreases msgs.len(),
{
    if msgs.len() == 0 {
        TestStateView::empty()
    } else {
        state_after(msgs.drop_last()).apply(msgs.last())
    }
}

/// The metric changes that the events `msgs` call for, in order.
pub open spec fn updates_after(msgs: Seq<MainMessage>) -> Seq<MetricUpdate>
    decreases msgs.len(),
{
    if msgs.len() == 0 {
        Seq::empty()
    } else {
        updates_after(msgs.drop_last()) + metric_updates(msgs.last())
    }
}

/// How much a metric change adds to the request, failure and error counters.
pub open spec fn counter_increments(u: MetricUpdate) -> (nat, nat, nat) {
    match u {
        MetricUpdate::Success { .. } => (1, 0, 0),
        MetricUpdate::Failure { .. } => (1, 1, 0),
        MetricUpdate::Error { .. } => (0, 0, 1),
        _ => (0, 0, 0),
    }
}

/// The request, failure and error counters summed over the metric changes
/// `us`, over all labels.
pub open spec fn counted(us: Seq<MetricUpdate>) -> (nat, nat, nat)
    decreases us.len(),
{
    if us.len() == 0 {
        (0, 0, 0)
    } else {
        let (r, f, e) = counted(us.drop_last());
        let (dr, df, de) = counter_increments(us.last());
        (r + dr, f + df, e + de)
    }
}

/// Counting over two runs of metric changes adds up.
proof fn lemma_counted_concat(a: Seq<MetricUpdate>, b: Seq<MetricUpdate>)
    ensures
        counted(a + b).0 == counted(a).0 + counted(b).0,
        counted(a + b).1 == counted(a).1 + counted(b).1,
        counted(a + b).2 == counted(a).2 + counted(b).2,
    decreases b.len(),
{
    if b.len() == 0 {
        assert(a + b =~= a);
    } else {
        lemma_counted_concat(a, b.drop_last());
        assert((a + b).drop_last() =~= a + b.drop_last());
        assert((a + b).last() == b.last());
    }
}

/// The exported request, failure and error counters, summed over all their
/// labels, equal the test's own aggregated totals after any run of events:
/// a success counts a request, a failure a request and a failure, an error
/// only an error.
pub proof fn lemma_metrics_match_totals(msgs: Seq<MainMessage>)
    ensures
        counted(updates_after(msgs)).0 == state_after(msgs).all_results.aggregated.total_requests,
        counted(updates_after(msgs)).1 == state_after(msgs).all_results.aggregated.total_failed_requests,
        counted(updates_after(msgs)).2 == state_after(msgs).all_results.aggregated.total_errors,
    decreases msgs.len(),
{
    if msgs.len() > 0 {
        let rest = msgs.drop_last();
        lemma_metrics_match_totals(rest);
        let us = metric_updates(msgs.last());
        lemma_counted_concat(updates_after(rest), us);
        reveal_with_fuel(counted, 3);
        assert(us.len() <= 2);
        if us.len() == 2 {
            assert(us.drop_last().drop_last() =~= Seq::<MetricUpdate>::empty());
        } else if us.len() == 1 {
            assert(us.drop_last() =~= Seq::<MetricUpdate>::empty());
        }
    }
}

/// How much a metric change adds to the request, failure and error counters
/// labelled with endpoint `k`.
pub open spec fn counter_increments_for(u: MetricUpdate, k: EndpointKey) -> (nat, nat, nat) {
    match u {
        MetricUpdate::Success { endpoint_type_name, .. } => if endpoint_type_name@ == k {
            (1, 0, 0)
        } else {
            (0, 0, 0)
        },
        MetricUpdate::Failure { endpoint_type_name, .. } => if endpoint_type_name@ == k {
            (1, 1, 0)
        } else {
            (0, 0, 0)
        },
        MetricUpdate::Error { endpoint_type_name, .. } => if endpoint_type_name@ == k {
            (0, 0, 1)
        } else {
            (0, 0, 0)
        },
        _ => (0, 0, 0),
    }
}

/// The request, failure and error counters labelled with endpoint `k`,
/// summed over the metric changes `us`.
pub open spec fn counted_for(us: Seq<MetricUpdate>, k: EndpointKey) -> (nat, nat, nat)
    decreases us.len(),
{
    if us.len() == 0 {
        (0, 0, 0)
    } else {
        let (r, f, e) = counted_for(us.drop_last(), k);
        let (dr, df, de) = counter_increments_for(us.last(), k);
        (r + dr, f + df, e + de)
    }
}

/// Counting an endpoint's changes over two runs adds up.
proof fn lemma_counted_for_concat(a: Seq<MetricUpdate>, b: Seq<MetricUpdate>, k: EndpointKey)
    ensures
        counted_for(a + b, k).0 == counted_for(a, k).0 + counted_for(b, k).0,
        counted_for(a + b, k).1 == counted_for(a, k).1 + counted_for(b, k).1,
        counted_for(a + b, k).2 == counted_for(a, k).2 + counted_for(b, k).2,
    decreases b.len(),
{
    if b.len() == 0 {
        assert(a + b =~= a);
    } else {
        lemma_counted_for_concat(a, b.drop_last(), k);
        assert((a + b).drop_last() =~= a + b.drop_last());
        assert((a + b).last() == b.last());
    }
}

/// One event changes an endpoint's counts by what its metric changes add to
/// the counters labelled with that endpoint.
#[verifier::spinoff_prover]
proof fn lemma_endpoint_step(prev: TestStateView, msg: MainMessage, k: EndpointKey)
    requires
        prev.all_results.distinct_keys(),
    ensures
        prev.apply(msg).all_results.distinct_keys(),
        results_of(prev.apply(msg).all_results, k).total_requests == results_of(prev.all_results, k).total_requests
            + counted_for(metric_updates(msg), k).0,
        results_of(prev.apply(msg).all_results, k).total_failed_requests == results_of(
            prev.all_results,
            k,
        ).total_failed_requests + counted_for(metric_updates(msg), k).1,
        results_of(prev.apply(msg).all_results, k).total_errors == results_of(prev.all_results, k).total_errors
            + counted_for(metric_updates(msg), k).2,
{
    let us = metric_updates(msg);
    reveal_with_fuel(counted_for, 3);
    if us.len() == 2 {
        assert(us.drop_last().drop_last() =~= Seq::<MetricUpdate>::empty());
    } else if us.len() == 1 {
        assert(us.drop_last() =~= Seq::<MetricUpdate>::empty());
    }
    let v = prev.all_results;
    match msg {
        MainMessage::ResultMessage(ResultMessage::Success(m)) => {
            lemma_record_touches_one_endpoint(
                v,
                m.endpoint_type_name@,
                |r: ResultsView| r.add_success(m.response_time as nat),
                k,
            );
        },
        MainMessage::ResultMessage(ResultMessage::Failure(m)) => {
            lemma_record_touches_one_endpoint(v, m.endpoint_type_name@, |r: ResultsView| r.add_failure(), k);
        },
        MainMessage::ResultMessage(ResultMessage::Error(m)) => {
            lemma_record_touches_one_endpoint(v, m.endpoint_type_name@, |r: ResultsView| r.add_error(), k);
        },
        _ => {},
    }
}

/// For each endpoint, the exported request, failure and error counters with
/// that endpoint's labels, summed over users, equal the test's own counts for
/// that endpoint after any run of events (zero for an endpoint never seen).
pub proof fn lemma_endpoint_metrics_match_results(msgs: Seq<MainMessage>, k: EndpointKey)
    ensures
        state_after(msgs).all_results.distinct_keys(),
        counted_for(updates_after(msgs), k).0 == results_of(state_after(msgs).all_results, k).total_requests,
        counted_for(updates_after(msgs), k).1 == results_of(
            state_after(msgs).all_results,
            k,
        ).total_failed_requests,
        counted_for(updates_after(msgs), k).2 == results_of(state_after(msgs).all_results, k).total_errors,
    decreases msgs.len(),
{
    if msgs.len() == 0 {
        let v = state_after(msgs).all_results;
        assert(v.endpoints.len() == 0);
        assert(v.position(k) is None);
    } else {
        let rest = msgs.drop_last();
        lemma_endpoint_metrics_match_results(rest, k);
        lemma_counted_for_concat(updates_after(rest), metric_updates(msgs.last()), k);
        lemma_endpoint_step(state_after(rest), msgs.last(), k);
    }
}

/// The results of the user with id `id`, if it is known.
pub open spec fn user_results(users: Seq<UserStatsView>, id: u64) -> Option<AllResultsView> {
    match user_position(users, id) {
        Some(i) => Some(users[i].results),
        None => None,
    }
}

/// No id occurs twice, and no user's results hold an endpoint twice.
pub open spec fn users_keyed(users: Seq<UserStatsView>) -> bool {
    &&& forall|i: int, j: int|
        0 <= i < users.len() && 0 <= j < users.len() && i != j ==> #[trigger] users[i].info.id
            != #[trigger] users[j].info.id
    &&& forall|i: int| 0 <= i < users.len() ==> (#[trigger] users[i]).results.distinct_keys()
}

/// The user that a metric change about a request is tagged with.
pub open spec fn result_user(u: MetricUpdate) -> Option<u64> {
    match u {
        MetricUpdate::Success { user_info, .. } => Some(user_info.id),
        MetricUpdate::Failure { user_info, .. } => Some(user_info.id),
        MetricUpdate::Error { user_info, .. } => Some(user_info.id),
        _ => None,
    }
}

/// The request, failure and error counters labelled with user `id` and
/// endpoint `k`, summed over the metric changes `us`.
pub open spec fn counted_for_user(us: Seq<MetricUpdate>, id: u64, k: EndpointKey) -> (nat, nat, nat)
    decreases us.len(),
{
    if us.len() == 0 {
        (0, 0, 0)
    } else {
        let (r, f, e) = counted_for_user(us.drop_last(), id, k);
        let (dr, df, de) = if result_user(us.last()) == Some(id) {
            counter_increments_for(us.last(), k)
        } else {
            (0, 0, 0)
        };
        (r + dr, f + df, e + de)
    }
}

/// Counting a user's changes over two runs adds up.
proof fn lemma_counted_for_user_concat(a: Seq<MetricUpdate>, b: Seq<MetricUpdate>, id: u64, k: EndpointKey)
    ensures
        counted_for_user(a + b, id, k).0 == counted_for_user(a, id, k).0 + counted_for_user(b, id, k).0,
        counted_for_user(a + b, id, k).1 == counted_for_user(a, id, k).1 + counted_for_user(b, id, k).1,
        counted_for_user(a + b, id, k).2 == counted_for_user(a, id, k).2 + counted_for_user(b, id, k).2,
    decreases b.len(),
{
    if b.len() == 0 {
        assert(a + b =~= a);
    } else {
        lemma_counted_for_user_concat(a, b.drop_last(), id, k);
        assert((a + b).drop_last() =~= a + b.drop_last());
        assert((a + b).last() == b.last());
    }
}

/// Whether `msg` spawns the user `id`.
pub open spec fn spawns(msg: MainMessage, id: u64) -> bool {
    msg matches MainMessage::UserSpawned(m) && m.user_info.id == id
}

/// The events after the last spawn of user `id` (all of them if it was never
/// spawned).
pub open spec fn events_since_spawn(msgs: Seq<MainMessage>, id: u64) -> Seq<MainMessage>
    decreases msgs.len(),
{
    if msgs.len() == 0 {
        Seq::empty()
    } else if spawns(msgs.last(), id) {
        Seq::empty()
    } else {
        events_since_spawn(msgs.drop_last(), id).push(msgs.last())
    }
}

/// Whether user `id` was spawned by one of the events `msgs`.
pub open spec fn ever_spawned(msgs: Seq<MainMessage>, id: u64) -> bool
    decreases msgs.len(),
{
    if msgs.len() == 0 {
        false
    } else {
        spawns(msgs.last(), id) || ever_spawned(msgs.drop_last(), id)
    }
}

/// With distinct ids, the position of an id is its only index.
proof fn lemma_user_position_unique(s: Seq<UserStatsView>, id: u64, i: int)
    requires
        users_keyed(s),
        0 <= i < s.len(),
        s[i].info.id == id,
    ensures
        user_position(s, id) == Some(i),
{
    let j = choose|j: int| 0 <= j < s.len() && s[j].info.id == id;
    if j != i {
        assert(s[i].info.id != s[j].info.id);
    }
}

/// Replacing the entry of a user by one with the same id changes only that
/// user's results.
proof fn lemma_users_update(s: Seq<UserStatsView>, i: int, e: UserStatsView, id: u64)
    requires
        users_keyed(s),
        0 <= i < s.len(),
        e.info.id == s[i].info.id,
        e.results.distinct_keys(),
    ensures
        users_keyed(s.update(i, e)),
        user_results(s.update(i, e), id) == if id == e.info.id {
            Some(e.results)
        } else {
            user_results(s, id)
        },
{
    let w = s.update(i, e);
    assert forall|a: int, b: int|
        0 <= a < w.len() && 0 <= b < w.len() && a != b implies #[trigger] w[a].info.id != #[trigger] w[b].info.id by {
        assert(w[a].info.id == s[a].info.id);
        assert(w[b].info.id == s[b].info.id);
    }
    assert forall|a: int| 0 <= a < w.len() implies (#[trigger] w[a]).results.distinct_keys() by {
        if a != i {
            assert(w[a] == s[a]);
        }
    }
    if id == e.info.id {
        lemma_user_position_unique(w, id, i);
    } else {
        match user_position(s, id) {
            Some(j) => {
                assert(0 <= j < s.len() && s[j].info.id == id);
                lemma_user_position_unique(w, id, j);
            },
            None => {
                if exists|j: int| 0 <= j < w.len() && w[j].info.id == id {
                    let j = choose|j: int| 0 <= j < w.len() && w[j].info.id == id;
                    assert(s[j].info.id == id);
                }
            },
        }
    }
}

/// Adding the entry of an unknown user changes only that user's results.
proof fn lemma_users_push(s: Seq<UserStatsView>, e: UserStatsView, id: u64)
    requires
        users_keyed(s),
        user_position(s, e.info.id) is None,
        e.results.distinct_keys(),
    ensures
        users_keyed(s.push(e)),
        user_results(s.push(e), id) == if id == e.info.id {
            Some(e.results)
        } else {
            user_results(s, id)
        },
{
    let w = s.push(e);
    let n = s.len() as int;
    assert forall|j: int| 0 <= j < n implies s[j].info.id != e.info.id by {
        if s[j].info.id == e.info.id {
            assert(exists|i: int| 0 <= i < s.len() && s[i].info.id == e.info.id);
        }
    }
    assert forall|a: int, b: int|
        0 <= a < w.len() && 0 <= b < w.len() && a != b implies #[trigger] w[a].info.id != #[trigger] w[b].info.id by {
        if a < n {
            assert(w[a] == s[a]);
        }
        if b < n {
            assert(w[b] == s[b]);
        }
    }
    assert forall|a: int| 0 <= a < w.len() implies (#[trigger] w[a]).results.distinct_keys() by {
        if a < n {
            assert(w[a] == s[a]);
        }
    }
    if id == e.info.id {
        lemma_user_position_unique(w, id, n);
    } else {
        match user_position(s, id) {
            Some(j) => {
                assert(0 <= j < s.len() && s[j].info.id == id);
                assert(w[j] == s[j]);
                lemma_user_position_unique(w, id, j);
            },
            None => {
                if exists|j: int| 0 <= j < w.len() && w[j].info.id == id {
                    let j = choose|j: int| 0 <= j < w.len() && w[j].info.id == id;
                    assert(j < n);
                    assert(w[j] == s[j]);
                }
            },
        }
    }
}

/// Changing a user's information leaves every user's results as they were.
proof fn lemma_users_info(s: Seq<UserStatsView>, uid: u64, f: spec_fn(UserStatsInfo) -> UserStatsInfo, id: u64)
    requires
        users_keyed(s),
        forall|info: UserStatsInfo| (#[trigger] f(info)).id == info.id,
    ensures
        users_keyed(update_user_info(s, uid, f)),
        user_results(update_user_info(s, uid, f), id) == user_results(s, id),
{
    match user_position(s, uid) {
        Some(i) => {
            assert(0 <= i < s.len() && s[i].info.id == uid);
            let e = UserStatsView { info: f(s[i].info), results: s[i].results };
            lemma_users_update(s, i, e, id);
            if id == uid {
                lemma_user_position_unique(s, id, i);
            }
        },
        None => {},
    }
}

/// Recording a request on a user's results changes only that user's counts
/// for the recorded endpoint, by what the event's metric change adds.
proof fn lemma_users_record(
    s: Seq<UserStatsView>,
    uid: u64,
    key: EndpointKey,
    f: spec_fn(ResultsView) -> ResultsView,
    id: u64,
)
    requires
        users_keyed(s),
    ensures
        users_keyed(update_user_results(s, uid, |r: AllResultsView| r.record(key, f))),
        user_results(update_user_results(s, uid, |r: AllResultsView| r.record(key, f)), id) is Some
            <==> user_results(s, id) is Some,
        id != uid ==> user_results(update_user_results(s, uid, |r: AllResultsView| r.record(key, f)), id)
            == user_results(s, id),
        id == uid && user_results(s, id) is Some ==> user_results(
            update_user_results(s, uid, |r: AllResultsView| r.record(key, f)),
            id,
        ) == Some(user_results(s, id)->0.record(key, f)),
{
    match user_position(s, uid) {
        Some(i) => {
            assert(0 <= i < s.len() && s[i].info.id == uid);
            let e = UserStatsView { info: s[i].info, results: s[i].results.record(key, f) };
            lemma_record_touches_one_endpoint(s[i].results, key, f, key);
            lemma_users_update(s, i, e, id);
            if id == uid {
                lemma_user_position_unique(s, id, i);
            }
        },
        None => {},
    }
}

/// How one event changes the results of user `id`: spawning it gives it
/// empty results; any other event changes its counts for endpoint `k` by
/// what the event's metric changes labelled with that user and endpoint add,
/// and never makes it known or unknown.
proof fn lemma_user_step(st: TestStateView, msg: MainMessage, id: u64, k: EndpointKey)
    requires
        users_keyed(st.users),
    ensures
        users_keyed(st.apply(msg).users),
        spawns(msg, id) ==> user_results(st.apply(msg).users, id) == Some(AllResultsView::empty()),
        !spawns(msg, id) ==> (user_results(st.apply(msg).users, id) is Some <==> user_results(st.users, id) is Some),
        !spawns(msg, id) && user_results(st.users, id) is Some ==> {
            let before = results_of(user_results(st.users, id)->0, k);
            let after = results_of(user_results(st.apply(msg).users, id)->0, k);
            &&& after.total_requests == before.total_requests + counted_for_user(metric_updates(msg), id, k).0
            &&& after.total_failed_requests == before.total_failed_requests + counted_for_user(
                metric_updates(msg),
                id,
                k,
            ).1
            &&& after.total_errors == before.total_errors + counted_for_user(metric_updates(msg), id, k).2
        },
{
    let us = metric_updates(msg);
    reveal_with_fuel(counted_for_user, 3);
    if us.len() == 2 {
        assert(us.drop_last().drop_last() =~= Seq::<MetricUpdate>::empty());
    } else if us.len() == 1 {
        assert(us.drop_last() =~= Seq::<MetricUpdate>::empty());
    }
    let s = st.users;
    match msg {
        MainMessage::ResultMessage(ResultMessage::Success(m)) => {
            let f = |v: ResultsView| v.add_success(m.response_time as nat);
            lemma_users_record(s, m.user_info.id, m.endpoint_type_name@, f, id);
            assert(st.apply(msg).users == update_user_results(
                s,
                m.user_info.id,
                |r: AllResultsView| r.record(m.endpoint_type_name@, f),
            ));
            if id == m.user_info.id && user_results(s, id) is Some {
                lemma_record_touches_one_endpoint(user_results(s, id)->0, m.endpoint_type_name@, f, k);
            }
        },
        MainMessage::ResultMessage(ResultMessage::Failure(m)) => {
            let f = |v: ResultsView| v.add_failure();
            lemma_users_record(s, m.user_info.id, m.endpoint_type_name@, f, id);
            assert(st.apply(msg).users == update_user_results(
                s,
                m.user_info.id,
                |r: AllResultsView| r.record(m.endpoint_type_name@, f),
            ));
            if id == m.user_info.id && user_results(s, id) is Some {
                lemma_record_touches_one_endpoint(user_results(s, id)->0, m.endpoint_type_name@, f, k);
            }
        },
        MainMessage::ResultMessage(ResultMessage::Error(m)) => {
            let f = |v: ResultsView| v.add_error();
            lemma_users_record(s, m.user_info.id, m.endpoint_type_name@, f, id);
            assert(st.apply(msg).users == update_user_results(
                s,
                m.user_info.id,
                |r: AllResultsView| r.record(m.endpoint_type_name@, f),
            ));
            if id == m.user_info.id && user_results(s, id) is Some {
                lemma_record_touches_one_endpoint(user_results(s, id)->0, m.endpoint_type_name@, f, k);
            }
        },
        MainMessage::UserSpawned(m) => {
            let e = fresh_user(m.user_info.id, m.user_info.name);
            assert(e.results.distinct_keys());
            match user_position(s, m.user_info.id) {
                Some(i) => {
                    assert(0 <= i < s.len() && s[i].info.id == m.user_info.id);
                    lemma_users_update(s, i, e, id);
                },
                None => {
                    lemma_users_push(s, e, id);
                },
            }
        },
        MainMessage::UserSelfStopped(m) => {
            lemma_users_info(
                s,
                m.user_info.id,
                |info: UserStatsInfo|
                    if info.status == UserStatus::Cancelled {
                        info
                    } else {
                        UserStatsInfo { status: UserStatus::Cancelled, ..info }
                    },
                id,
            );
        },
        MainMessage::TaskExecuted(m) => {
            lemma_users_info(
                s,
                m.user_info.id,
                |info: UserStatsInfo| UserStatsInfo { total_tasks: (info.total_tasks + 1) as u64, ..info },
                id,
            );
        },
        MainMessage::UserFinished(m) => {
            lemma_users_info(
                s,
                m.user_info.id,
                |info: UserStatsInfo|
                    if info.status == UserStatus::Cancelled {
                        info
                    } else {
                        UserStatsInfo { status: UserStatus::Finished, ..info }
                    },
                id,
            );
        },
        MainMessage::UserPanicked(m) => {
            lemma_users_info(
                s,
                m.user_info.id,
                |info: UserStatsInfo|
                    if info.status == UserStatus::Cancelled {
                        info
                    } else {
                        UserStatsInfo { status: UserStatus::Panicked, ..info }
                    },
                id,
            );
        },
        MainMessage::UserUnknownStatus(m) => {
            lemma_users_info(
                s,
                m.user_info.id,
                |info: UserStatsInfo|
                    if info.status == UserStatus::Cancelled {
                        info
                    } else {
                        UserStatsInfo { status: UserStatus::Unknown, ..info }
                    },
                id,
            );
        },
    }
}

/// Each user's results count exactly the requests that the events since its
/// last spawn report for it: for every endpoint, its request, failure and
/// error counts equal the metric changes labelled with that user and that
/// endpoint (a user is known exactly when it was spawned).
pub proof fn lemma_user_results_match_events(msgs: Seq<MainMessage>, id: u64, k: EndpointKey)
    ensures
        users_keyed(state_after(msgs).users),
        user_results(state_after(msgs).users, id) is Some <==> ever_spawned(msgs, id),
        user_results(state_after(msgs).users, id) matches Some(r) ==> {
            let counted = counted_for_user(updates_after(events_since_spawn(msgs, id)), id, k);
            &&& results_of(r, k).total_requests == counted.0
            &&& results_of(r, k).total_failed_requests == counted.1
            &&& results_of(r, k).total_errors == counted.2
        },
    decreases msgs.len(),
{
    if msgs.len() > 0 {
        let rest = msgs.drop_last();
        let msg = msgs.last();
        lemma_user_results_match_events(rest, id, k);
        lemma_user_step(state_after(rest), msg, id, k);
        if spawns(msg, id) {
            let e = AllResultsView::empty();
            assert(e.position(k) is None);
        } else {
            let since = events_since_spawn(rest, id);
            assert(since.push(msg).drop_last() =~= since);
            lemma_counted_for_user_concat(updates_after(since), metric_updates(msg), id, k);
        }
    }
}

} // verus!
