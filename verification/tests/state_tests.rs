use rocust::events::{end_message, EventsHandler, UserOutcome};
use rocust::messages::{
    ErrorResultMessage, EventsTaskInfo, FailureResultMessage, MainMessage, ResultMessage,
    SuccessResultMessage, TaskExecutedMessage, UserFinishedMessage, UserPanickedMessage,
    UserSelfStoppedMessage, UserSpawnedMessage, UserUnknownStatusMessage,
};
use rocust::results::EndpointTypeName;
use rocust::test_state::{MetricUpdate, TestState};
use rocust::user::{EventsUserInfo, UserStatsCollection, UserStatsInfo, UserStatus};

fn key(t: &str, n: &str) -> EndpointTypeName {
    EndpointTypeName::new(t.to_string(), n.to_string())
}

fn user(id: u64) -> EventsUserInfo {
    EventsUserInfo::new(id, "Google")
}

fn success(id: u64, rt: u64) -> MainMessage {
    MainMessage::ResultMessage(ResultMessage::Success(SuccessResultMessage {
        user_info: user(id),
        endpoint_type_name: key("GET", "/"),
        response_time: rt,
    }))
}

fn apply(state: &mut TestState, msg: MainMessage) -> Vec<MetricUpdate> {
    assert!(state.accepts(&msg));
    state.on_message(msg)
}

fn status_of(state: &TestState, id: u64) -> UserStatus {
    state
        .get_user_stats_collection()
        .get_user_stats()
        .iter()
        .find(|u| u.user_info.id == id)
        .unwrap()
        .user_info
        .status
}

#[test]
fn user_stats_info_starts_spawned() {
    let info = UserStatsInfo::new(7, "Facebook");
    assert_eq!(info.id, 7);
    assert_eq!(info.name, "Facebook");
    assert_eq!(info.status, UserStatus::Spawned);
    assert_eq!(info.total_tasks, 0);
    let e = EventsUserInfo::new(3, "x");
    assert_eq!((e.id, e.name), (3, "x"));
}

#[test]
fn cancelled_status_is_sticky() {
    let mut c = UserStatsCollection::new();
    c.insert_user(1, "u");
    c.set_user_status(&1, UserStatus::Cancelled);
    c.set_user_status(&1, UserStatus::Finished);
    c.set_user_status(&1, UserStatus::Panicked);
    assert_eq!(c.get_user_stats()[0].user_info.status, UserStatus::Cancelled);
    c.insert_user(2, "v");
    c.set_user_status(&2, UserStatus::Unknown);
    c.set_user_status(&2, UserStatus::Finished);
    assert_eq!(c.get_user_stats()[1].user_info.status, UserStatus::Finished);
}

#[test]
fn unknown_users_are_ignored() {
    let mut c = UserStatsCollection::new();
    c.add_success(&9, &key("GET", "/"), 10);
    c.set_user_status(&9, UserStatus::Finished);
    c.increment_total_tasks(&9);
    assert!(c.get_user_stats().is_empty());
}

#[test]
fn reinserting_a_user_resets_it() {
    let mut c = UserStatsCollection::new();
    c.insert_user(1, "u");
    c.add_success(&1, &key("GET", "/"), 10);
    c.increment_total_tasks(&1);
    c.insert_user(1, "u");
    let stats = c.get_user_stats();
    assert_eq!(stats.len(), 1);
    assert_eq!(stats[0].user_info.total_tasks, 0);
    assert_eq!(stats[0].all_results.get_aggrigated_results().get_total_requests(), 0);
}

#[test]
fn user_update_interval_reaches_every_user() {
    let mut c = UserStatsCollection::new();
    c.insert_user(1, "u");
    c.insert_user(2, "v");
    c.add_failure(&2, &key("GET", "/"));
    c.calculate_on_update_interval(9);
    for u in c.get_user_stats() {
        assert_eq!(u.all_results.get_aggrigated_results().get_last_update().unwrap().elapsed_micros, 9);
    }
}

#[test]
fn results_are_recorded_for_test_and_user() {
    let mut state = TestState::new();
    let ups = apply(&mut state, MainMessage::UserSpawned(UserSpawnedMessage { user_info: user(1) }));
    assert!(matches!(ups[..], [MetricUpdate::AddUser { user_name: "Google" }]));
    apply(&mut state, success(1, 250));
    apply(&mut state, success(2, 100));
    let ups = apply(
        &mut state,
        MainMessage::ResultMessage(ResultMessage::Failure(FailureResultMessage {
            user_info: user(1),
            endpoint_type_name: key("GET", "/x"),
        })),
    );
    assert!(matches!(ups[..], [MetricUpdate::Failure { .. }]));
    let ups = apply(
        &mut state,
        MainMessage::ResultMessage(ResultMessage::Error(ErrorResultMessage {
            user_info: user(1),
            endpoint_type_name: key("GET", "/x"),
            error: "timeout".to_string(),
        })),
    );
    assert!(matches!(ups[..], [MetricUpdate::Error { .. }]));
    let agg = state.get_all_results().get_aggrigated_results();
    assert_eq!(agg.get_total_requests(), 3);
    assert_eq!(agg.get_total_failed_requests(), 1);
    assert_eq!(agg.get_total_errors(), 1);
    assert_eq!(agg.get_total_response_time(), 350);
    let users = state.get_user_stats_collection().get_user_stats();
    assert_eq!(users.len(), 1);
    let mine = users[0].all_results.get_aggrigated_results();
    assert_eq!(mine.get_total_requests(), 2);
    assert_eq!(mine.get_total_response_time(), 250);
    assert_eq!(state.get_total_users_spawned(), 1);
}

#[test]
fn success_metric_carries_the_event() {
    let mut state = TestState::new();
    let ups = apply(&mut state, success(4, 77));
    match &ups[..] {
        [MetricUpdate::Success { endpoint_type_name, user_info, response_time }] => {
            assert_eq!(endpoint_type_name, &key("GET", "/"));
            assert_eq!(user_info.id, 4);
            assert_eq!(*response_time, 77);
        }
        _ => panic!("unexpected updates"),
    }
}

#[test]
fn user_lifecycle_statuses_and_metrics() {
    let mut state = TestState::new();
    for id in 1..=4 {
        apply(&mut state, MainMessage::UserSpawned(UserSpawnedMessage { user_info: user(id) }));
    }
    let ups = apply(
        &mut state,
        MainMessage::TaskExecuted(TaskExecutedMessage { user_info: user(1), task_info: EventsTaskInfo { name: "index" } }),
    );
    assert!(matches!(ups[..], [MetricUpdate::AddTask { task_name: "index", .. }]));
    let ups = apply(&mut state, MainMessage::UserSelfStopped(UserSelfStoppedMessage { user_info: user(1) }));
    assert!(matches!(ups[..], [MetricUpdate::RemoveUser { .. }, MetricUpdate::AddSuicide { .. }]));
    let ups = apply(&mut state, MainMessage::UserFinished(UserFinishedMessage { user_info: user(1) }));
    assert!(ups.is_empty());
    let ups = apply(&mut state, MainMessage::UserFinished(UserFinishedMessage { user_info: user(2) }));
    assert!(ups.is_empty());
    let ups = apply(
        &mut state,
        MainMessage::UserPanicked(UserPanickedMessage { user_info: user(3), _error: "boom".to_string() }),
    );
    assert!(matches!(ups[..], [MetricUpdate::RemoveUser { .. }, MetricUpdate::AddPanic { .. }]));
    let ups = apply(&mut state, MainMessage::UserUnknownStatus(UserUnknownStatusMessage { user_info: user(4) }));
    assert!(matches!(ups[..], [MetricUpdate::RemoveUser { .. }]));
    assert_eq!(status_of(&state, 1), UserStatus::Cancelled);
    assert_eq!(status_of(&state, 2), UserStatus::Finished);
    assert_eq!(status_of(&state, 3), UserStatus::Panicked);
    assert_eq!(status_of(&state, 4), UserStatus::Unknown);
    let users = state.get_user_stats_collection().get_user_stats();
    assert_eq!(users[0].user_info.total_tasks, 1);
    state.set_user_status(&2, UserStatus::Unknown);
    assert_eq!(status_of(&state, 2), UserStatus::Unknown);
    state.set_user_status(&1, UserStatus::Unknown);
    assert_eq!(status_of(&state, 1), UserStatus::Cancelled);
}

#[test]
fn state_update_intervals() {
    let mut state = TestState::new();
    apply(&mut state, MainMessage::UserSpawned(UserSpawnedMessage { user_info: user(1) }));
    apply(&mut state, success(1, 5));
    state.calculate_on_update_interval(1000);
    assert_eq!(state.get_all_results().get_aggrigated_results().get_last_update().unwrap().elapsed_micros, 1000);
    let users = state.get_user_stats_collection().get_user_stats();
    assert!(users[0].all_results.get_aggrigated_results().get_last_update().is_none());
    state.calculate_user_stats_on_update_interval(2000);
    let users = state.get_user_stats_collection().get_user_stats();
    assert_eq!(users[0].all_results.get_aggrigated_results().get_last_update().unwrap().elapsed_micros, 2000);
}

#[test]
fn overflowing_events_are_refused() {
    let mut state = TestState::new();
    apply(&mut state, success(1, u64::MAX - 1));
    assert!(!state.accepts(&success(1, 2)));
    assert!(state.accepts(&success(1, 1)));
    assert!(state.accepts(&MainMessage::UserFinished(UserFinishedMessage { user_info: user(1) })));
}

#[test]
fn end_of_user_events() {
    let u = user(5);
    assert!(matches!(end_message(u, UserOutcome::Returned(UserStatus::Finished)), Some(MainMessage::UserFinished(_))));
    assert!(matches!(end_message(u, UserOutcome::Returned(UserStatus::Cancelled)), Some(MainMessage::UserSelfStopped(_))));
    assert!(end_message(u, UserOutcome::Returned(UserStatus::Spawned)).is_none());
    match end_message(u, UserOutcome::Panicked("oops".to_string())) {
        Some(MainMessage::UserPanicked(m)) => assert_eq!(m._error, "oops"),
        _ => panic!("expected a panic event"),
    }
    assert!(matches!(end_message(u, UserOutcome::Failed), Some(MainMessage::UserUnknownStatus(_))));
}

#[test]
fn events_handler_sends_tagged_events() {
    let (tx, mut rx) = tokio::sync::mpsc::unbounded_channel();
    let handler = EventsHandler::new(user(11), tx);
    assert_eq!(handler.get_user_id(), 11);
    handler.add_success("GET".to_string(), "/".to_string(), 12);
    handler.add_user_spawned();
    handler.report_user_end(UserOutcome::Returned(UserStatus::Spawned));
    handler.report_user_end(UserOutcome::Failed);
    match rx.try_recv().unwrap() {
        MainMessage::ResultMessage(ResultMessage::Success(m)) => {
            assert_eq!(m.user_info.id, 11);
            assert_eq!(m.endpoint_type_name, key("GET", "/"));
            assert_eq!(m.response_time, 12);
        }
        _ => panic!("expected a success"),
    }
    assert!(matches!(rx.try_recv().unwrap(), MainMessage::UserSpawned(_)));
    assert!(matches!(rx.try_recv().unwrap(), MainMessage::UserUnknownStatus(_)));
    assert!(rx.try_recv().is_err());
}

#[test]
fn metric_counters_add_up_to_the_totals() {
    let mut state = TestState::new();
    let mut updates = vec![];
    let messages = vec![
        MainMessage::user_spawned(user(1)),
        MainMessage::success(user(1), "GET".to_string(), "/".to_string(), 10),
        MainMessage::failure(user(1), "POST".to_string(), "/login".to_string()),
        MainMessage::error(user(1), "GET".to_string(), "/".to_string(), "reset".to_string()),
        MainMessage::success(user(1), "POST".to_string(), "/login".to_string(), 30),
        MainMessage::task_executed(user(1), EventsTaskInfo { name: "t" }),
    ];
    for msg in messages {
        updates.extend(apply(&mut state, msg));
    }
    let (mut requests, mut failures, mut errors) = (0u32, 0u32, 0u32);
    let (mut login_requests, mut login_failures) = (0u32, 0u32);
    for u in &updates {
        match u {
            MetricUpdate::Success { endpoint_type_name, .. } => {
                requests += 1;
                if endpoint_type_name.name == "/login" {
                    login_requests += 1;
                }
            }
            MetricUpdate::Failure { endpoint_type_name, .. } => {
                requests += 1;
                failures += 1;
                if endpoint_type_name.name == "/login" {
                    login_requests += 1;
                    login_failures += 1;
                }
            }
            MetricUpdate::Error { .. } => errors += 1,
            _ => {}
        }
    }
    let agg = state.get_all_results().get_aggrigated_results();
    assert_eq!(requests, agg.get_total_requests());
    assert_eq!(failures, agg.get_total_failed_requests());
    assert_eq!(errors, agg.get_total_errors());
    let login = state.get_all_results().get_by_type_and_name("POST", "/login").unwrap();
    assert_eq!(login_requests, login.get_total_requests());
    assert_eq!(login_failures, login.get_total_failed_requests());
}
