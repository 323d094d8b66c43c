//! The users of a test: who they are, their status, and the statistics of
//! the requests each of them made.

use vstd::prelude::*;

use crate::results::{AllResults, AllResultsView, EndpointKey, EndpointTypeName};

verus! {

/// How a user ended, or that it is still running.
#[derive(Debug, Clone, Copy, PartialEq, Eq, Structural)]
pub enum UserStatus {
    Finished,
    Spawned,
    Panicked,
    /// Stopped by itself.
    Cancelled,
    Unknown,
}

/// What happened in one turn of a user's loop.
#[derive(Debug, Clone, Copy, PartialEq, Eq, Structural)]
pub enum UserLoopEvent {
    /// The user type has no task to run.
    NoTasks,
    /// The user's own token was cancelled.
    UserStopped,
    /// The test's token was cancelled.
    TestStopped,
    /// A task ran to its end.
    TaskDone,
}

/// The status with which a user's loop ends after `event`, or `None` where it
/// goes on: a user with no task, or whose test stopped, has finished; one
/// whose own token was cancelled stopped itself.
pub fn user_loop_status(event: UserLoopEvent) -> (res: Option<UserStatus>)
    ensures
        res == match event {
            UserLoopEvent::NoTasks => Some(UserStatus::Finished),
            UserLoopEvent::UserStopped => Some(UserStatus::Cancelled),
            UserLoopEvent::TestStopped => Some(UserStatus::Finished),
            UserLoopEvent::TaskDone => None,
        },
{
    match event {
        UserLoopEvent::NoTasks => Some(UserStatus::Finished),
        UserLoopEvent::UserStopped => Some(UserStatus::Cancelled),
        UserLoopEvent::TestStopped => Some(UserStatus::Finished),
        UserLoopEvent::TaskDone => None,
    }
}

/// The identity, status and executed-task count of one user.
#[derive(Debug, Clone, Copy, PartialEq, Eq)]
pub struct UserStatsInfo {
    pub id: u64,
    pub name: &'static str,
    pub status: UserStatus,
    pub total_tasks: u64,
}

impl UserStatsInfo {
    /// A freshly spawned user with no executed task.
    pub fn new(id: u64, name: &'static str) -> (res: Self)
        ensures
            res == spec_new_user_info(id, name),
    {
        UserStatsInfo { id, name, status: UserStatus::Spawned, total_tasks: 0 }
    }
}

/// A freshly spawned user with no executed task.
pub open spec fn spec_new_user_info(id: u64, name: &'static str) -> UserStatsInfo {
    UserStatsInfo { id, name, status: UserStatus::Spawned, total_tasks: 0 }
}

/// The identity of the user that reports an event.
#[derive(Debug, Clone, Copy, PartialEq, Eq)]
pub struct EventsUserInfo {
    pub id: u64,
    pub name: &'static str,
}

impl EventsUserInfo {
    pub fn new(id: u64, name: &'static str) -> (res: Self)
        ensures
            res.id == id,
            res.name == name,
    {
        EventsUserInfo { id, name }
    }
}

/// One user's information and request statistics.
#[derive(Debug, Clone)]
pub struct UserStats {
    pub user_info: UserStatsInfo,
    pub all_results: AllResults,
}

/// The mathematical content of a `UserStats`.
pub struct UserStatsView {
    pub info: UserStatsInfo,
    pub results: AllResultsView,
}

impl View for UserStats {
    type V = UserStatsView;

    open spec fn view(&self) -> UserStatsView {
        UserStatsView { info: self.user_info, results: self.all_results@ }
    }
}

impl UserStats {
    pub fn new(user_info: UserStatsInfo, all_results: AllResults) -> (res: Self)
        ensures
            res.user_info == user_info,
            res.all_results == all_results,
    {
        UserStats { user_info, all_results }
    }
}

/// The statistics of every user that was spawned, one entry per user id, in
/// the order the ids were first spawned.
#[derive(Debug, Clone)]
pub struct UserStatsCollection {
    user_stats_vec: Vec<UserStats>,
}

/// A user's entry when it has just been spawned.
pub open spec fn fresh_user(id: u64, name: &'static str) -> UserStatsView {
    UserStatsView { info: spec_new_user_info(id, name), results: AllResultsView::empty() }
}

/// Where the user with the given id stands, if it is known.
pub open spec fn user_position(s: Seq<UserStatsView>, id: u64) -> Option<int> {
    if exists|i: int| 0 <= i < s.len() && s[i].info.id == id {
        Some(choose|i: int| 0 <= i < s.len() && s[i].info.id == id)
    } else {
        None
    }
}

/// No id occurs twice, and every user's results satisfy their invariant.
pub open spec fn users_wf(s: Seq<UserStatsView>) -> bool {
    &&& forall|i: int, j: int|
        0 <= i < s.len() && 0 <= j < s.len() && i != j ==> #[trigger] s[i].info.id != #[trigger] s[j].info.id
    &&& forall|i: int| 0 <= i < s.len() ==> (#[trigger] s[i]).results.wf()
}

/// Applies `f` to the results of the user with the given id; unknown users
/// are left alone.
pub open spec fn update_user_results(
    s: Seq<UserStatsView>,
    id: u64,
    f: spec_fn(AllResultsView) -> AllResultsView,
) -> Seq<UserStatsView> {
    match user_position(s, id) {
        Some(i) => s.update(i, UserStatsView { info: s[i].info, results: f(s[i].results) }),
        None => s,
    }
}

/// Applies `f` to the information of the user with the given id; unknown
/// users are left alone.
pub open spec fn update_user_info(
    s: Seq<UserStatsView>,
    id: u64,
    f: spec_fn(UserStatsInfo) -> UserStatsInfo,
) -> Seq<UserStatsView> {
    match user_position(s, id) {
        Some(i) => s.update(i, UserStatsView { info: f(s[i].info), results: s[i].results }),
        None => s,
    }
}

/// The collection after `insert_user`: the user gets a fresh entry, which
/// replaces any entry it had.
pub open spec fn spec_insert_user(s: Seq<UserStatsView>, id: u64, name: &'static str) -> Seq<UserStatsView> {
    match user_position(s, id) {
        Some(i) => s.update(i, fresh_user(id, name)),
        None => s.push(fresh_user(id, name)),
    }
}

/// The collection after `set_user_status`: a user that stopped itself keeps
/// that status; any other known user takes the new one.
pub open spec fn spec_set_user_status(s: Seq<UserStatsView>, id: u64, status: UserStatus) -> Seq<UserStatsView> {
    update_user_info(
        s,
        id,
        |info: UserStatsInfo|
            if info.status == UserStatus::Cancelled {
                info
            } else {
                UserStatsInfo { status, ..info }
            },
    )
}

/// The collection after `increment_total_tasks`.
pub open spec fn spec_increment_total_tasks(s: Seq<UserStatsView>, id: u64) -> Seq<UserStatsView> {
    update_user_info(s, id, |info: UserStatsInfo| UserStatsInfo { total_tasks: (info.total_tasks + 1) as u64, ..info })
}

/// Whether recording for the user `id` keeps `pred` of its results.
pub open spec fn user_results_allow(s: Seq<UserStatsView>, id: u64, pred: spec_fn(AllResultsView) -> bool) -> bool {
    match user_position(s, id) {
        Some(i) => pred(s[i].results),
        None => true,
    }
}

/// The counters of a user can take one more successful request of the given
/// response time without overflow.
pub open spec fn can_add_success(s: Seq<UserStatsView>, id: u64, response_time: u64) -> bool {
    user_results_allow(
        s,
        id,
        |r: AllResultsView|
            r.aggregated.total_requests < u32::MAX && r.aggregated.total_response_time + response_time
                <= u64::MAX,
    )
}

/// The counters of a user can take one more failed request without overflow.
pub open spec fn can_add_failure(s: Seq<UserStatsView>, id: u64) -> bool {
    user_results_allow(s, id, |r: AllResultsView| r.aggregated.total_requests < u32::MAX)
}

/// The counters of a user can take one more error without overflow.
pub open spec fn can_add_error(s: Seq<UserStatsView>, id: u64) -> bool {
    user_results_allow(s, id, |r: AllResultsView| r.aggregated.total_errors < u32::MAX)
}

/// The task count of a user can grow by one without overflow.
pub open spec fn can_increment_total_tasks(s: Seq<UserStatsView>, id: u64) -> bool {
    match user_position(s, id) {
        Some(i) => s[i].info.total_tasks < u64::MAX,
        None => true,
    }
}

impl View for UserStatsCollection {
    type V = Seq<UserStatsView>;

    closed spec fn view(&self) -> Seq<UserStatsView> {
        self.user_stats_vec@.map_values(|u: UserStats| u@)
    }
}

impl UserStatsCollection {
    /// No user yet.
    pub fn new() -> (res: Self)
        ensures
            res@ == Seq::<UserStatsView>::empty(),
    {
        let res = UserStatsCollection { user_stats_vec: Vec::new() };
        assert(res@ =~= Seq::<UserStatsView>::empty());
        res
    }

    /// Where the user with the given id stands, if it is known.
    fn position(&self, user_id: u64) -> (res: Option<usize>)
        requires
            users_wf(self@),
        ensures
            match res {
                Some(i) => user_position(self@, user_id) == Some(i as int),
                None => user_position(self@, user_id) is None,
            },
    {
        let n = self.user_stats_vec.len();
        let mut i: usize = 0;
        while i < n
            invariant
                n == self.user_stats_vec@.len(),
                n == self@.len(),
                users_wf(self@),
                i <= n,
                forall|j: int| 0 <= j < i ==> self@[j].info.id != user_id,
            decreases n - i,
        {
            assert(self@[i as int] == self.user_stats_vec@[i as int]@);
            if self.user_stats_vec[i].user_info.id == user_id {
                proof {
                    let j = choose|j: int| 0 <= j < self@.len() && self@[j].info.id == user_id;
                    if j != i as int {
                        assert(self@[j].info.id != self@[i as int].info.id);
                    }
                }
                return Some(i);
            }
            i = i + 1;
        }
        None
    }

    /// Gives the user a fresh entry (status spawned, no task, no result),
    /// replacing any entry it had.
    pub fn insert_user(&mut self, user_id: u64, user_name: &'static str)
        requires
            users_wf(old(self)@),
        ensures
            users_wf(final(self)@),
            final(self)@ == spec_insert_user(old(self)@, user_id, user_name),
    {
        let fresh = UserStats::new(UserStatsInfo::new(user_id, user_name), AllResults::new());
        match self.position(user_id) {
            Some(i) => {
                self.user_stats_vec.set(i, fresh);
                assert(self@ =~= old(self)@.update(i as int, fresh_user(user_id, user_name)));
            },
            None => {
                self.user_stats_vec.push(fresh);
                assert(self@ =~= old(self)@.push(fresh_user(user_id, user_name)));
            },
        }
        proof {
            let s = self@;
            assert forall|a: int, b: int| 0 <= a < s.len() && 0 <= b < s.len() && a != b
                implies #[trigger] s[a].info.id != #[trigger] s[b].info.id by {
                if a < old(self)@.len() && b < old(self)@.len() {
                    if s[a] != old(self)@[a] {
                        assert(old(self)@[b].info.id != user_id);
                    } else if s[b] != old(self)@[b] {
                        assert(old(self)@[a].info.id != user_id);
                    } else {
                        assert(old(self)@[a].info.id != old(self)@[b].info.id);
                    }
                }
            }
            assert forall|a: int| 0 <= a < s.len() implies (#[trigger] s[a]).results.wf() by {
                if a < old(self)@.len() && s[a] == old(self)@[a] {
                    assert(old(self)@[a].results.wf());
                }
            }
        }
    }

    /// Records a successful request of a known user; unknown users are ignored.
    pub fn add_success(&mut self, user_id: &u64, endpoint_type_name: &EndpointTypeName, response_time: u64)
        requires
            users_wf(old(self)@),
            can_add_success(old(self)@, *user_id, response_time),
        ensures
            users_wf(final(self)@),
            final(self)@ == update_user_results(
                old(self)@,
                *user_id,
                |r: AllResultsView| r.add_success(endpoint_type_name@, response_time as nat),
            ),
    {
        let ghost f = |r: AllResultsView| r.add_success(endpoint_type_name@, response_time as nat);
        match self.position(*user_id) {
            Some(i) => {
                assert(self@[i as int] == self.user_stats_vec@[i as int]@);
                self.user_stats_vec[i].all_results.add_success(endpoint_type_name, response_time);
                assert(self@ =~= old(self)@.update(
                    i as int,
                    UserStatsView { info: old(self)@[i as int].info, results: f(old(self)@[i as int].results) },
                ));
                proof { lemma_update_keeps_wf(old(self)@, self@, i as int); }
            },
            None => {},
        }
    }

    /// Records a failed request of a known user; unknown users are ignored.
    pub fn add_failure(&mut self, user_id: &u64, endpoint_type_name: &EndpointTypeName)
        requires
            users_wf(old(self)@),
            can_add_failure(old(self)@, *user_id),
        ensures
            users_wf(final(self)@),
            final(self)@ == update_user_results(
                old(self)@,
                *user_id,
                |r: AllResultsView| r.add_failure(endpoint_type_name@),
            ),
    {
        let ghost f = |r: AllResultsView| r.add_failure(endpoint_type_name@);
        match self.position(*user_id) {
            Some(i) => {
                assert(self@[i as int] == self.user_stats_vec@[i as int]@);
                self.user_stats_vec[i].all_results.add_failure(endpoint_type_name);
                assert(self@ =~= old(self)@.update(
                    i as int,
                    UserStatsView { info: old(self)@[i as int].info, results: f(old(self)@[i as int].results) },
                ));
                proof { lemma_update_keeps_wf(old(self)@, self@, i as int); }
            },
            None => {},
        }
    }

    /// Records an error of a known user; unknown users are ignored.
    pub fn add_error(&mut self, user_id: &u64, endpoint_type_name: &EndpointTypeName, error: &str)
        requires
            users_wf(old(self)@),
            can_add_error(old(self)@, *user_id),
        ensures
            users_wf(final(self)@),
            final(self)@ == update_user_results(
                old(self)@,
                *user_id,
                |r: AllResultsView| r.add_error(endpoint_type_name@),
            ),
    {
        let ghost f = |r: AllResultsView| r.add_error(endpoint_type_name@);
        match self.position(*user_id) {
            Some(i) => {
                assert(self@[i as int] == self.user_stats_vec@[i as int]@);
                self.user_stats_vec[i].all_results.add_error(endpoint_type_name, error);
                assert(self@ =~= old(self)@.update(
                    i as int,
                    UserStatsView { info: old(self)@[i as int].info, results: f(old(self)@[i as int].results) },
                ));
                proof { lemma_update_keeps_wf(old(self)@, self@, i as int); }
            },
            None => {},
        }
    }

    /// Records the update interval in every user's results.
    pub fn calculate_on_update_interval(&mut self, elapsed_micros: u64)
        requires
            users_wf(old(self)@),
        ensures
            users_wf(final(self)@),
            final(self)@.len() == old(self)@.len(),
            forall|i: int| 0 <= i < old(self)@.len() ==> (#[trigger] final(self)@[i]) == (UserStatsView {
                info: old(self)@[i].info,
                results: old(self)@[i].results.update(elapsed_micros),
            }),
    {
        let n = self.user_stats_vec.len();
        let mut i: usize = 0;
        while i < n
            invariant
                n == self.user_stats_vec@.len(),
                n == old(self)@.len(),
                i <= n,
                forall|j: int| 0 <= j < i ==> #[trigger] self@[j] == (UserStatsView {
                    info: old(self)@[j].info,
                    results: old(self)@[j].results.update(elapsed_micros),
                }),
                forall|j: int| i <= j < n ==> #[trigger] self@[j] == old(self)@[j],
                users_wf(old(self)@),
                forall|j: int| 0 <= j < n ==> (#[trigger] self@[j]).info == old(self)@[j].info,
                forall|j: int| 0 <= j < n ==> (#[trigger] self@[j]).results.wf(),
            decreases n - i,
        {
            let ghost before = self@;
            assert(self@[i as int] == self.user_stats_vec@[i as int]@);
            self.user_stats_vec[i].all_results.calculate_on_update_interval(elapsed_micros);
            assert(self@ =~= before.update(
                i as int,
                UserStatsView { info: before[i as int].info, results: before[i as int].results.update(elapsed_micros) },
            ));
            i = i + 1;
        }
        proof {
            let s = self@;
            assert forall|a: int, b: int| 0 <= a < s.len() && 0 <= b < s.len() && a != b
                implies #[trigger] s[a].info.id != #[trigger] s[b].info.id by {
                assert(old(self)@[a].info.id != old(self)@[b].info.id);
            }
        }
    }

    /// Sets the status of a known user, unless it stopped itself: that status
    /// is kept. Unknown users are ignored.
    pub fn set_user_status(&mut self, user_id: &u64, status: UserStatus)
        requires
            users_wf(old(self)@),
        ensures
            users_wf(final(self)@),
            final(self)@ == spec_set_user_status(old(self)@, *user_id, status),
    {
        match self.position(*user_id) {
            Some(i) => {
                assert(self@[i as int] == self.user_stats_vec@[i as int]@);
                if self.user_stats_vec[i].user_info.status == UserStatus::Cancelled {
                    return;
                }
                self.user_stats_vec[i].user_info.status = status;
                assert(self@ =~= old(self)@.update(
                    i as int,
                    UserStatsView {
                        info: UserStatsInfo { status, ..old(self)@[i as int].info },
                        results: old(self)@[i as int].results,
                    },
                ));
                proof { lemma_update_keeps_wf(old(self)@, self@, i as int); }
            },
            None => {},
        }
    }

    /// Counts one more executed task for a known user; unknown users are ignored.
    pub fn increment_total_tasks(&mut self, user_id: &u64)
        requires
            users_wf(old(self)@),
            can_increment_total_tasks(old(self)@, *user_id),
        ensures
            users_wf(final(self)@),
            final(self)@ == spec_increment_total_tasks(old(self)@, *user_id),
    {
        match self.position(*user_id) {
            Some(i) => {
                assert(self@[i as int] == self.user_stats_vec@[i as int]@);
                self.user_stats_vec[i].user_info.total_tasks = self.user_stats_vec[i].user_info.total_tasks + 1;
                assert(self@ =~= old(self)@.update(
                    i as int,
                    UserStatsView {
                        info: UserStatsInfo {
                            total_tasks: (old(self)@[i as int].info.total_tasks + 1) as u64,
                            ..old(self)@[i as int].info
                        },
                        results: old(self)@[i as int].results,
                    },
                ));
                proof { lemma_update_keeps_wf(old(self)@, self@, i as int); }
            },
            None => {},
        }
    }

    /// The entries of all users, in the order they were first spawned.
    pub fn get_user_stats(&self) -> (res: &Vec<UserStats>)
        ensures
            res@.map_values(|u: UserStats| u@) == self@,
    {
        &self.user_stats_vec
    }

    /// Whether a successful request of the user can be recorded without overflow.
    pub fn can_add_success(&self, user_id: u64, response_time: u64) -> (res: bool)
        requires
            users_wf(self@),
        ensures
            res == can_add_success(self@, user_id, response_time),
    {
        match self.position(user_id) {
            Some(i) => {
                assert(self@[i as int] == self.user_stats_vec@[i as int]@);
                let r = self.user_stats_vec[i].all_results.get_aggrigated_results();
                r.get_total_requests() < u32::MAX && r.get_total_response_time() <= u64::MAX - response_time
            },
            None => true,
        }
    }

    /// Whether a failed request of the user can be recorded without overflow.
    pub fn can_add_failure(&self, user_id: u64) -> (res: bool)
        requires
            users_wf(self@),
        ensures
            res == can_add_failure(self@, user_id),
    {
        match self.position(user_id) {
            Some(i) => {
                assert(self@[i as int] == self.user_stats_vec@[i as int]@);
                self.user_stats_vec[i].all_results.get_aggrigated_results().get_total_requests() < u32::MAX
            },
            None => true,
        }
    }

    /// Whether an error of the user can be recorded without overflow.
    pub fn can_add_error(&self, user_id: u64) -> (res: bool)
        requires
            users_wf(self@),
        ensures
            res == can_add_error(self@, user_id),
    {
        match self.position(user_id) {
            Some(i) => {
                assert(self@[i as int] == self.user_stats_vec@[i as int]@);
                self.user_stats_vec[i].all_results.get_aggrigated_results().get_total_errors() < u32::MAX
            },
            None => true,
        }
    }

    /// Whether the task count of the user can grow by one without overflow.
    pub fn can_increment_total_tasks(&self, user_id: u64) -> (res: bool)
        requires
            users_wf(self@),
        ensures
            res == can_increment_total_tasks(self@, user_id),
    {
        match self.position(user_id) {
            Some(i) => {
                assert(self@[i as int] == self.user_stats_vec@[i as int]@);
                self.user_stats_vec[i].user_info.total_tasks < u64::MAX
            },
            None => true,
        }
    }
}

impl Default for UserStatsCollection {
    fn default() -> (res: Self)
        ensures
            res@ == Seq::<UserStatsView>::empty(),
    {
        Self::new()
    }
}

/// Replacing the entry at `i` by one with the same id and well-formed results
/// keeps the collection well formed.
proof fn lemma_update_keeps_wf(before: Seq<UserStatsView>, after: Seq<UserStatsView>, i: int)
    requires
        users_wf(before),
        0 <= i < before.len(),
        after.len() == before.len(),
        after[i].info.id == before[i].info.id,
        after[i].results.wf(),
        forall|j: int| 0 <= j < before.len() && j != i ==> after[j] == before[j],
    ensures
        users_wf(after),
{
    assert forall|a: int, b: int| 0 <= a < after.len() && 0 <= b < after.len() && a != b
        implies #[trigger] after[a].info.id != #[trigger] after[b].info.id by {
        assert(before[a].info.id != before[b].info.id);
    }
    assert forall|a: int| 0 <= a < after.len() implies (#[trigger] after[a]).results.wf() by {
        if a != i {
            assert(before[a].results.wf());
        }
    }
}

/// A user that stopped itself keeps that status, whatever status is set.
pub proof fn lemma_cancelled_status_is_kept(s: Seq<UserStatsView>, id: u64, status: UserStatus, i: int)
    requires
        0 <= i < s.len(),
        s[i].info.id == id,
        s[i].info.status == UserStatus::Cancelled,
        users_wf(s),
    ensures
        spec_set_user_status(s, id, status)[i].info.status == UserStatus::Cancelled,
        spec_set_user_status(s, id, status) == s,
{
    let j = choose|j: int| 0 <= j < s.len() && s[j].info.id == id;
    if j != i {
        assert(s[j].info.id != s[i].info.id);
    }
}

} // verus!
