use rocust::controller::{Context, TestController, UserController};
use rocust::events::{EventsHandler, UserOutcome};
use rocust::logging::{parse_log_level, LogLevel, LogLevelError};
use rocust::messages::{EventsTaskInfo, MainMessage, ResultMessage};
use rocust::spawn_coordinator::{checked_user_counts_by_weight, start_indices, user_counts_by_weight, SpawnCoordinator, UserSpawnController};
use rocust::traits::{prioritised_random, select_weighted_index, sleep_seconds_between, Prioritised, PrioritisedRandom};
use rocust::test_state::keeps_reporting_spawns;
use rocust::user::{user_loop_status, EventsUserInfo, UserLoopEvent, UserStatus};
use rocust::utils::{get_supported_summary_extension, get_timestamp_as_millis_as_string, millis_as_string, str_equals, SupportedExtension};
use std::sync::Arc;
use tokio::sync::mpsc::{unbounded_channel, UnboundedReceiver};
use tokio_util::sync::CancellationToken;

#[test]
fn log_levels_parse_ignoring_case() {
    assert_eq!(parse_log_level("TRACE").unwrap(), LogLevel::Trace);
    assert_eq!(parse_log_level("Debug").unwrap(), LogLevel::Debug);
    assert_eq!(parse_log_level("info").unwrap(), LogLevel::Info);
    assert_eq!(parse_log_level("wArN").unwrap(), LogLevel::Warn);
    assert_eq!(parse_log_level("error").unwrap(), LogLevel::Error);
    assert_eq!(parse_log_level("OFF").unwrap(), LogLevel::Off);
}

#[test]
fn unknown_log_level_reports_lowercased_name() {
    match parse_log_level("Verbose") {
        Err(LogLevelError::InvalidLogLevel(name)) => assert_eq!(name, "verbose"),
        _ => panic!("expected an error"),
    }
    assert!(parse_log_level("").is_err());
}

#[test]
fn strings_compare_by_characters() {
    assert!(str_equals("héllo", "héllo"));
    assert!(!str_equals("hello", "hell"));
    assert!(!str_equals("abc", "abd"));
}

#[test]
fn summary_extension_defaults_to_json() {
    assert_eq!(get_supported_summary_extension(Some("yaml")), SupportedExtension::Yaml);
    assert_eq!(get_supported_summary_extension(Some("json")), SupportedExtension::Json);
    assert_eq!(get_supported_summary_extension(Some("txt")), SupportedExtension::Json);
    assert_eq!(get_supported_summary_extension(None), SupportedExtension::Json);
}

#[test]
fn timestamp_string_is_decimal() {
    let s = get_timestamp_as_millis_as_string().unwrap();
    assert!(!s.is_empty());
    assert!(s.chars().all(|c| c.is_ascii_digit()));
    assert!(s.parse::<u128>().unwrap() > 1_600_000_000_000);
}

#[test]
fn weighted_choice_never_picks_zero_weight() {
    for _ in 0..200 {
        assert_eq!(select_weighted_index(&vec![0, 5, 0]).0, Some(1));
        let i = select_weighted_index(&vec![1, 0, 3]).0.unwrap();
        assert!(i == 0 || i == 2);
    }
    assert_eq!(select_weighted_index(&vec![]).0, None);
    assert_eq!(select_weighted_index(&vec![0, 0]).0, None);
}

struct Task(u64, &'static str);

impl Prioritised for Task {
    fn get_priority(&self) -> u64 {
        self.0
    }
}

#[test]
fn prioritised_random_picks_weighted_items() {
    let tasks = vec![Task(0, "never"), Task(3, "often")];
    for _ in 0..100 {
        assert_eq!(tasks.get_prioritised_random().unwrap().1, "often");
    }
    let none: Vec<Task> = vec![];
    assert!(none.get_prioritised_random().is_none());
    let zero = vec![Task(0, "a")];
    assert!(zero.get_prioritised_random().is_none());
    let overflow = vec![Task(u64::MAX, "a"), Task(1, "b")];
    assert!(overflow.get_prioritised_random().is_none());
}

#[test]
fn sleep_time_stays_in_range() {
    assert_eq!(sleep_seconds_between((3, 3)).0, 3);
    assert_eq!(sleep_seconds_between((5, 2)).0, 5);
    for _ in 0..100 {
        let s = sleep_seconds_between((1, 4)).0;
        assert!((1..=4).contains(&s));
    }
}

fn drain(rx: &mut UnboundedReceiver<u64>) -> Vec<u64> {
    let mut v = vec![];
    while let Ok(x) = rx.try_recv() {
        v.push(x);
    }
    v
}

#[test]
fn spawn_schedule_distributes_and_redistributes() {
    let (tx_a, mut rx_a) = unbounded_channel();
    let (tx_b, mut rx_b) = unbounded_channel();
    let controllers = vec![
        UserSpawnController::new("A", 1, tx_a),
        UserSpawnController::new("B", 10, tx_b),
    ];
    let mut coordinator = SpawnCoordinator::new(4, controllers, CancellationToken::new());
    assert!(coordinator.counters_fit());
    // 4 users per second over 2 types: 2 each; A only needs 1, so its
    // leftover 1 goes to B.
    assert_eq!(coordinator.spawn_step(), Some(1000));
    assert_eq!(drain(&mut rx_a), vec![1]);
    assert_eq!(drain(&mut rx_b), vec![2, 1]);
    let left = coordinator.get_user_spawn_controllers();
    assert_eq!(left.len(), 1);
    assert_eq!(left[0].get_user_name(), "B");
    assert_eq!(left[0].get_total_spawned(), 3);
    // B alone gets all 4 per step.
    assert_eq!(coordinator.spawn_step(), Some(1000));
    assert_eq!(drain(&mut rx_b), vec![4]);
    assert_eq!(coordinator.spawn_step(), Some(1000));
    assert_eq!(drain(&mut rx_b), vec![3]);
    assert_eq!(coordinator.spawn_step(), None);
    assert!(coordinator.get_user_spawn_controllers().is_empty());
}

#[test]
fn spawn_wait_time_keeps_users_per_second() {
    let (tx_a, _rx_a) = unbounded_channel();
    let (tx_b, _rx_b) = unbounded_channel();
    let (tx_c, _rx_c) = unbounded_channel();
    let controllers = vec![
        UserSpawnController::new("A", 100, tx_a),
        UserSpawnController::new("B", 100, tx_b),
        UserSpawnController::new("C", 100, tx_c),
    ];
    // 1 user per second over 3 types: one user each, so wait 3 s.
    let mut coordinator = SpawnCoordinator::new(1, controllers, CancellationToken::new());
    assert_eq!(coordinator.spawn_step(), Some(3000));
    let (tx_d, _rx_d) = unbounded_channel();
    let (tx_e, _rx_e) = unbounded_channel();
    let (tx_f, _rx_f) = unbounded_channel();
    let controllers = vec![
        UserSpawnController::new("D", 100, tx_d),
        UserSpawnController::new("E", 100, tx_e),
        UserSpawnController::new("F", 100, tx_f),
    ];
    // 5 users per second over 3 types: one user each, 3 users in 600 ms.
    let mut coordinator = SpawnCoordinator::new(5, controllers, CancellationToken::new());
    assert_eq!(coordinator.spawn_step(), Some(600));
    let (tx_g, _rx_g) = unbounded_channel();
    let (tx_h, _rx_h) = unbounded_channel();
    let controllers = vec![UserSpawnController::new("G", 100, tx_g), UserSpawnController::new("H", 100, tx_h)];
    // 5 users per second over 2 types: two users each, 4 users in 800 ms.
    let mut coordinator = SpawnCoordinator::new(5, controllers, CancellationToken::new());
    assert_eq!(coordinator.spawn_step(), Some(800));
    // No user per second: nothing to spawn, one second between steps.
    let (tx_i, mut rx_i) = unbounded_channel();
    let mut coordinator =
        SpawnCoordinator::new(0, vec![UserSpawnController::new("I", 2, tx_i)], CancellationToken::new());
    assert_eq!(coordinator.spawn_step(), Some(1000));
    assert_eq!(drain(&mut rx_i), vec![0]);
}

#[test]
fn spawn_round_sends_exact_counts() {
    let (tx_a, mut rx_a) = unbounded_channel();
    let (tx_b, mut rx_b) = unbounded_channel();
    let controllers = vec![UserSpawnController::new("A", 3, tx_a), UserSpawnController::new("B", 10, tx_b)];
    let mut coordinator = SpawnCoordinator::new(10, controllers, CancellationToken::new());
    assert!(coordinator.counters_fit());
    // 5 each: A needs only 3 and drops out, its 2 left over go to B.
    assert_eq!(coordinator.spawn_step(), Some(1000));
    assert_eq!(drain(&mut rx_a), vec![3]);
    assert_eq!(drain(&mut rx_b), vec![5, 2]);
    let left = coordinator.get_user_spawn_controllers();
    assert_eq!(left.len(), 1);
    assert_eq!(left[0].get_user_name(), "B");
    assert_eq!(left[0].get_count(), 10);
    assert_eq!(left[0].get_total_spawned(), 7);
    assert_eq!(coordinator.spawn_step(), Some(1000));
    assert_eq!(drain(&mut rx_b), vec![3]);
    assert_eq!(coordinator.spawn_step(), None);
}

#[test]
fn counters_that_would_overflow_are_refused() {
    let (tx_a, mut rx_a) = unbounded_channel();
    let (tx_b, mut rx_b) = unbounded_channel();
    let controllers = vec![UserSpawnController::new("A", 1, tx_a), UserSpawnController::new("B", u64::MAX, tx_b)];
    let mut coordinator = SpawnCoordinator::new(u64::MAX, controllers, CancellationToken::new());
    // Half of u64::MAX each; A takes 1 and leaves the rest to B.
    assert!(coordinator.counters_fit());
    assert_eq!(coordinator.spawn_step(), Some(999));
    let half = u64::MAX / 2;
    assert_eq!(drain(&mut rx_a), vec![1]);
    assert_eq!(drain(&mut rx_b), vec![half, half - 1]);
    // B alone would now get u64::MAX more, which its counter cannot hold.
    assert!(!coordinator.counters_fit());
}

#[test]
fn zero_count_controllers_are_dropped_at_once() {
    let (tx, mut rx) = unbounded_channel();
    let mut coordinator = SpawnCoordinator::new(2, vec![UserSpawnController::new("Z", 0, tx)], CancellationToken::new());
    assert_eq!(coordinator.spawn_step(), Some(1000));
    assert_eq!(drain(&mut rx), vec![0]);
    assert_eq!(coordinator.spawn_step(), None);
}

#[test]
fn weights_share_users_rounding_down() {
    assert_eq!(user_counts_by_weight(10, &vec![1, 1]), vec![5, 5]);
    assert_eq!(user_counts_by_weight(10, &vec![1, 2]), vec![3, 6]);
    assert_eq!(user_counts_by_weight(7, &vec![1, 1, 1]), vec![2, 2, 2]);
    let counts = user_counts_by_weight(10, &vec![1, 2]);
    assert!(counts.iter().sum::<u64>() <= 10);
}

#[test]
fn user_ids_are_consecutive_per_type() {
    assert_eq!(start_indices(&vec![3, 6, 1]), vec![0, 3, 9]);
    assert!(start_indices(&vec![]).is_empty());
}

#[test]
fn controllers_cancel_their_tokens() {
    let token = CancellationToken::new();
    let test_controller = TestController::new(token.clone());
    assert!(!token.is_cancelled());
    test_controller.stop();
    assert!(token.is_cancelled());

    let user_token = Arc::new(CancellationToken::new());
    let user_controller = UserController::new(user_token.clone());
    let (tx, mut rx) = unbounded_channel::<MainMessage>();
    let handler = EventsHandler::new(EventsUserInfo::new(8, "u"), tx);
    let test_token = CancellationToken::new();
    let context = Context::new(Arc::new(TestController::new(test_token.clone())), handler, user_controller);
    assert_eq!(context.get_id(), 8);
    assert_eq!(context.get_events_handler().get_user_id(), 8);
    context.add_failure("GET".to_string(), "/".to_string());
    context.add_error("GET".to_string(), "/".to_string(), "e".to_string());
    assert!(rx.try_recv().is_ok());
    assert!(rx.try_recv().is_ok());
    context.stop();
    assert!(user_token.is_cancelled());
    assert!(!test_token.is_cancelled());
    context.stop_test();
    assert!(test_token.is_cancelled());
}

#[test]
fn too_few_users_per_second_still_spawn() {
    let (tx_a, mut rx_a) = unbounded_channel();
    let (tx_b, mut rx_b) = unbounded_channel();
    let controllers = vec![UserSpawnController::new("A", 5, tx_a), UserSpawnController::new("B", 5, tx_b)];
    // 1 user per second over 2 types: one user each every 2 s.
    let mut coordinator = SpawnCoordinator::new(1, controllers, CancellationToken::new());
    for _ in 0..5 {
        assert!(coordinator.counters_fit());
        assert_eq!(coordinator.spawn_step(), Some(2000));
    }
    assert_eq!(drain(&mut rx_a), vec![1, 1, 1, 1, 1]);
    assert_eq!(drain(&mut rx_b), vec![1, 1, 1, 1, 1]);
    assert!(coordinator.get_user_spawn_controllers().is_empty());
    assert_eq!(coordinator.spawn_step(), None);
}

#[test]
fn every_step_spawns_at_most_users_per_second() {
    let mut receivers = vec![];
    let mut controllers = vec![];
    for (name, count) in [("A", 2u64), ("B", 7), ("C", 3)] {
        let (tx, rx) = unbounded_channel();
        receivers.push(rx);
        controllers.push(UserSpawnController::new(name, count, tx));
    }
    let mut coordinator = SpawnCoordinator::new(6, controllers, CancellationToken::new());
    let mut total = 0;
    while coordinator.spawn_step().is_some() {
        let step: u64 = receivers.iter_mut().map(|rx| drain(rx).iter().sum::<u64>()).sum();
        assert!(step <= 6);
        assert!(step >= 1);
        total += step;
    }
    assert_eq!(total, 12);
}

#[test]
fn user_loop_ends_with_the_right_status() {
    assert_eq!(user_loop_status(UserLoopEvent::NoTasks), Some(UserStatus::Finished));
    assert_eq!(user_loop_status(UserLoopEvent::UserStopped), Some(UserStatus::Cancelled));
    assert_eq!(user_loop_status(UserLoopEvent::TestStopped), Some(UserStatus::Finished));
    assert_eq!(user_loop_status(UserLoopEvent::TaskDone), None);
}

#[test]
fn events_carry_the_user_and_the_endpoint() {
    let info = EventsUserInfo::new(4, "Reader");
    match MainMessage::success(info, "GET".to_string(), "/items".to_string(), 250) {
        MainMessage::ResultMessage(ResultMessage::Success(m)) => {
            assert_eq!(m.user_info.id, 4);
            assert_eq!(m.endpoint_type_name.endpoint_type, "GET");
            assert_eq!(m.endpoint_type_name.name, "/items");
            assert_eq!(m.response_time, 250);
        }
        other => panic!("unexpected {:?}", other),
    }
    match MainMessage::failure(info, "POST".to_string(), "/login".to_string()) {
        MainMessage::ResultMessage(ResultMessage::Failure(m)) => {
            assert_eq!(m.endpoint_type_name.endpoint_type, "POST");
            assert_eq!(m.endpoint_type_name.name, "/login");
        }
        other => panic!("unexpected {:?}", other),
    }
    match MainMessage::error(info, "GET".to_string(), "/".to_string(), "timeout".to_string()) {
        MainMessage::ResultMessage(ResultMessage::Error(m)) => assert_eq!(m.error, "timeout"),
        other => panic!("unexpected {:?}", other),
    }
    assert!(matches!(MainMessage::user_spawned(info), MainMessage::UserSpawned(m) if m.user_info.id == 4));
    assert!(matches!(MainMessage::user_finished(info), MainMessage::UserFinished(_)));
    assert!(matches!(MainMessage::user_self_stopped(info), MainMessage::UserSelfStopped(_)));
    assert!(matches!(MainMessage::user_unknown_status(info), MainMessage::UserUnknownStatus(_)));
    assert!(matches!(
        MainMessage::task_executed(info, EventsTaskInfo { name: "browse" }),
        MainMessage::TaskExecuted(m) if m.task_info.name == "browse"
    ));
    match MainMessage::user_panicked(info, "boom".to_string()) {
        MainMessage::UserPanicked(m) => assert_eq!(m._error, "boom"),
        other => panic!("unexpected {:?}", other),
    }
}

#[test]
fn handlers_send_exactly_the_reported_event() {
    let (tx, mut rx) = unbounded_channel::<MainMessage>();
    let handler = EventsHandler::new(EventsUserInfo::new(3, "Writer"), tx);
    handler.add_success("POST".to_string(), "/orders".to_string(), 1200);
    match rx.try_recv().unwrap() {
        MainMessage::ResultMessage(ResultMessage::Success(m)) => {
            assert_eq!(m.user_info.id, 3);
            assert_eq!(m.endpoint_type_name.endpoint_type, "POST");
            assert_eq!(m.endpoint_type_name.name, "/orders");
            assert_eq!(m.response_time, 1200);
        }
        other => panic!("unexpected {:?}", other),
    }
    handler.report_user_end(UserOutcome::Returned(UserStatus::Cancelled));
    assert!(matches!(rx.try_recv().unwrap(), MainMessage::UserSelfStopped(m) if m.user_info.id == 3));
    handler.report_user_end(UserOutcome::Returned(UserStatus::Spawned));
    assert!(rx.try_recv().is_err());
    drop(rx);
    // With the receiver gone, reporting neither fails nor panics.
    handler.add_user_finished();
}

#[test]
fn weights_that_do_not_fit_are_refused() {
    assert_eq!(checked_user_counts_by_weight(10, &vec![1, 2]), Some(vec![3, 6]));
    assert_eq!(checked_user_counts_by_weight(10, &vec![0, 0]), None);
    assert_eq!(checked_user_counts_by_weight(10, &vec![]), None);
    assert_eq!(checked_user_counts_by_weight(10, &vec![u64::MAX, 1]), None);
    assert_eq!(checked_user_counts_by_weight(u64::MAX, &vec![2]), None);
    assert_eq!(checked_user_counts_by_weight(u64::MAX, &vec![1]), Some(vec![u64::MAX]));
}

#[test]
fn millisecond_readings_turn_into_decimal() {
    assert_eq!(millis_as_string(Ok(1_700_000_000_123)).unwrap(), "1700000000123");
    assert_eq!(millis_as_string(Ok(0)).unwrap(), "0");
}

#[test]
fn sleep_draws_cover_the_whole_range() {
    let mut seen_low = false;
    let mut seen_high = false;
    for _ in 0..1000 {
        let s = sleep_seconds_between((1, 4)).0;
        seen_low |= s == 1;
        seen_high |= s == 4;
    }
    assert!(seen_low && seen_high);
}

#[test]
fn weighted_draws_follow_every_weight() {
    let mut counts = [0u32; 3];
    for _ in 0..3000 {
        counts[select_weighted_index(&vec![1, 0, 2]).0.unwrap()] += 1;
    }
    assert_eq!(counts[1], 0);
    // Index 2 has twice the weight of index 0.
    assert!(counts[2] > counts[0]);
    assert!(counts[0] > 0);
}

#[test]
fn prioritised_draw_uses_every_priority() {
    let tasks = vec![Task(1, "rare"), Task(0, "never"), Task(5, "often")];
    let mut rare = 0;
    let mut often = 0;
    for _ in 0..3000 {
        match prioritised_random(&tasks).0.unwrap().1 {
            "rare" => rare += 1,
            "often" => often += 1,
            other => panic!("picked {}", other),
        }
    }
    assert!(rare > 0 && often > rare);
    assert!(prioritised_random(&vec![Task(0, "a")]).0.is_none());
}

#[test]
fn log_levels_ignore_ascii_case_only() {
    assert_eq!(parse_log_level("InFo").unwrap(), LogLevel::Info);
    assert_eq!(parse_log_level("OFF").unwrap(), LogLevel::Off);
    match parse_log_level("WARNING") {
        Err(LogLevelError::InvalidLogLevel(name)) => assert_eq!(name, "warning"),
        _ => panic!("accepted an unknown level"),
    }
}

#[test]
fn spawn_progress_is_reported_until_all_are_spawned() {
    assert!(keeps_reporting_spawns(true, 3, 10));
    assert!(!keeps_reporting_spawns(true, 10, 10));
    assert!(!keeps_reporting_spawns(false, 3, 10));
}
