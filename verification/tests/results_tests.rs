use rocust::results::{AllResults, EndpointTypeName, Results};

fn key(t: &str, n: &str) -> EndpointTypeName {
    EndpointTypeName::new(t.to_string(), n.to_string())
}

#[test]
fn results_start_empty() {
    let r = Results::new();
    assert_eq!(r.get_total_requests(), 0);
    assert_eq!(r.get_total_failed_requests(), 0);
    assert_eq!(r.get_total_errors(), 0);
    assert_eq!(r.get_total_response_time(), 0);
    assert_eq!(r.get_min_response_time(), 0);
    assert_eq!(r.get_max_response_time(), 0);
    assert!(r.get_last_update().is_none());
}

#[test]
fn success_updates_min_max_and_total() {
    let mut r = Results::new();
    r.add_success(500);
    r.add_success(200);
    r.add_success(900);
    assert_eq!(r.get_total_requests(), 3);
    assert_eq!(r.get_total_response_time(), 1600);
    assert_eq!(r.get_min_response_time(), 200);
    assert_eq!(r.get_max_response_time(), 900);
}

#[test]
fn zero_minimum_counts_as_unset() {
    let mut r = Results::new();
    r.add_success(5);
    r.add_success(0);
    assert_eq!(r.get_min_response_time(), 0);
    r.add_success(7);
    assert_eq!(r.get_min_response_time(), 7);
}

#[test]
fn failure_counts_request_and_failure_error_counts_error_only() {
    let mut r = Results::new();
    r.add_failure();
    r.add_error();
    assert_eq!(r.get_total_requests(), 1);
    assert_eq!(r.get_total_failed_requests(), 1);
    assert_eq!(r.get_total_errors(), 1);
    assert_eq!(r.get_total_response_time(), 0);
}

#[test]
fn update_interval_snapshots_counters() {
    let mut r = Results::new();
    r.add_success(100);
    r.add_failure();
    r.calculate_on_update_interval(2_000_000);
    let s = r.get_last_update().unwrap();
    assert_eq!(s.total_requests, 2);
    assert_eq!(s.total_failed_requests, 1);
    assert_eq!(s.total_response_time, 100);
    assert_eq!(s.elapsed_micros, 2_000_000);
    r.add_success(50);
    assert_eq!(r.get_last_update().unwrap().total_requests, 2);
}

#[test]
fn aggregate_is_sum_of_endpoints() {
    let mut all = AllResults::new();
    all.add_success(&key("GET", "/a"), 10);
    all.add_success(&key("GET", "/b"), 30);
    all.add_failure(&key("GET", "/a"));
    all.add_error(&key("POST", "/c"), "boom");
    all.add_success(&key("GET", "/a"), 20);
    let agg = all.get_aggrigated_results();
    assert_eq!(agg.get_total_requests(), 4);
    assert_eq!(agg.get_total_failed_requests(), 1);
    assert_eq!(agg.get_total_errors(), 1);
    assert_eq!(agg.get_total_response_time(), 60);
    assert_eq!(agg.get_max_response_time(), 30);
    let endpoints = all.get_endpoint_results();
    assert_eq!(endpoints.len(), 3);
    let sum: u32 = endpoints.iter().map(|(_, r)| r.get_total_requests()).sum();
    assert_eq!(sum, agg.get_total_requests());
    let sum_time: u64 = endpoints.iter().map(|(_, r)| r.get_total_response_time()).sum();
    assert_eq!(sum_time, agg.get_total_response_time());
    let max: u64 = endpoints.iter().map(|(_, r)| r.get_max_response_time()).max().unwrap();
    assert_eq!(max, agg.get_max_response_time());
}

#[test]
fn endpoints_keep_first_appearance_order_and_are_distinct() {
    let mut all = AllResults::new();
    all.add_success(&key("GET", "/b"), 1);
    all.add_success(&key("GET", "/a"), 1);
    all.add_success(&key("GET", "/b"), 1);
    all.add_success(&key("POST", "/b"), 1);
    let names: Vec<(String, String)> = all
        .get_endpoint_results()
        .iter()
        .map(|(k, _)| (k.endpoint_type.clone(), k.name.clone()))
        .collect();
    assert_eq!(
        names,
        vec![
            ("GET".to_string(), "/b".to_string()),
            ("GET".to_string(), "/a".to_string()),
            ("POST".to_string(), "/b".to_string()),
        ]
    );
}

#[test]
fn lookups_by_type_name_and_both() {
    let mut all = AllResults::new();
    all.add_success(&key("GET", "/a"), 1);
    all.add_success(&key("POST", "/a"), 2);
    all.add_success(&key("GET", "/b"), 3);
    let gets = all.get_by_type("GET");
    assert_eq!(gets.len(), 2);
    assert_eq!(gets[0].get_total_response_time(), 1);
    assert_eq!(gets[1].get_total_response_time(), 3);
    let a = all.get_by_name("/a");
    assert_eq!(a.len(), 2);
    assert_eq!(a[1].get_total_response_time(), 2);
    assert_eq!(all.get_by_type_and_name("POST", "/a").unwrap().get_total_response_time(), 2);
    assert!(all.get_by_type_and_name("POST", "/b").is_none());
    assert!(all.get_by_type("DELETE").is_empty());
}

#[test]
fn update_interval_reaches_every_endpoint() {
    let mut all = AllResults::new();
    all.add_success(&key("GET", "/a"), 1);
    all.add_failure(&key("GET", "/b"));
    all.calculate_on_update_interval(42);
    assert_eq!(all.get_aggrigated_results().get_last_update().unwrap().elapsed_micros, 42);
    for (_, r) in all.get_endpoint_results() {
        let s = r.get_last_update().unwrap();
        assert_eq!(s.elapsed_micros, 42);
        assert_eq!(s.total_requests, r.get_total_requests());
    }
    assert_eq!(all.get_aggrigated_results().get_total_requests(), 2);
}

#[test]
fn endpoint_type_name_equality() {
    assert!(key("GET", "/a").same_endpoint(&key("GET", "/a")));
    assert!(!key("GET", "/a").same_endpoint(&key("GET", "/b")));
    assert!(!key("GET", "/a").same_endpoint(&key("PUT", "/a")));
    assert_eq!(key("GET", "/a").clone(), key("GET", "/a"));
}

#[test]
fn aggregate_minimum_is_smallest_endpoint_minimum() {
    let mut all = AllResults::new();
    all.add_success(&key("GET", "/a"), 50);
    all.add_success(&key("GET", "/b"), 20);
    all.add_failure(&key("GET", "/c"));
    all.add_success(&key("GET", "/a"), 30);
    let smallest = all
        .get_endpoint_results()
        .iter()
        .map(|(_, r)| r.get_min_response_time())
        .filter(|m| *m > 0)
        .min()
        .unwrap();
    assert_eq!(smallest, 20);
    assert_eq!(all.get_aggrigated_results().get_min_response_time(), smallest);
}

#[test]
fn zero_response_time_breaks_the_minimum_law() {
    let mut all = AllResults::new();
    all.add_success(&key("GET", "/a"), 5);
    all.add_success(&key("GET", "/b"), 0);
    all.add_success(&key("GET", "/a"), 7);
    assert_eq!(all.get_aggrigated_results().get_min_response_time(), 7);
    assert_eq!(all.get_by_type_and_name("GET", "/a").unwrap().get_min_response_time(), 5);
    assert_eq!(all.get_by_type_and_name("GET", "/b").unwrap().get_min_response_time(), 0);
}

#[test]
fn successes_summarise_count_sum_min_and_max() {
    let mut r = Results::new();
    for t in [40u64, 15, 90, 15, 60] {
        r.add_success(t);
    }
    assert_eq!(r.get_total_requests(), 5);
    assert_eq!(r.get_total_failed_requests(), 0);
    assert_eq!(r.get_total_errors(), 0);
    assert_eq!(r.get_total_response_time(), 220);
    assert_eq!(r.get_min_response_time(), 15);
    assert_eq!(r.get_max_response_time(), 90);
}
