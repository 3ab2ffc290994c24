use flowt::storage::{cache_lookup, CacheLookup, CachedResponse};
use flowt::config::StringMap;
use flowt::engine::WorkflowRun;
use flowt::paths::{base_dir_in, db_path, default_cache_dir, default_workflows_dir, join_path, lock_file_path, parse_pid};
use flowt::storage::{api_cache_key, body_hash, cache_entry_expired, headers_hash, log_entry_id, logs_in_order, recent_runs};
use flowt::tui::{LogEntry, LogLevel};

fn run_at(name: &str, started_at: i64) -> WorkflowRun {
    WorkflowRun::new_at(name, started_at, started_at)
}

fn entry(timestamp: i64, message: &str) -> LogEntry {
    LogEntry { timestamp, level: LogLevel::Info, message: message.to_string() }
}

#[test]
fn recent_runs_are_newest_first_and_limited() {
    let runs = vec![run_at("a", 10), run_at("b", 30), run_at("c", 20), run_at("d", 30)];
    let listed = recent_runs(runs, Some(3));
    let names: Vec<&str> = listed.iter().map(|r| r.workflow_name.as_str()).collect();
    assert_eq!(names, vec!["b", "d", "c"]);
    let all = recent_runs(vec![run_at("x", 1), run_at("y", 2)], None);
    assert_eq!(all.len(), 2);
    assert_eq!(all[0].workflow_name, "y");
    assert_eq!(recent_runs(vec![run_at("x", 1)], Some(0)).len(), 0);
}

#[test]
fn logs_come_oldest_first_and_limited() {
    let logs = vec![entry(5, "late"), entry(1, "early"), entry(5, "late again"), entry(3, "middle")];
    let ordered = logs_in_order(logs, Some(3));
    let messages: Vec<&str> = ordered.iter().map(|l| l.message.as_str()).collect();
    assert_eq!(messages, vec!["early", "middle", "late"]);
}

#[test]
fn log_ids_join_time_and_workflow() {
    assert_eq!(log_entry_id(1700000000123, "test_workflow"), "1700000000123_test_workflow");
    assert_eq!(log_entry_id(-5, "w"), "-5_w");
}

#[test]
fn cached_responses_go_stale_after_their_ttl() {
    let minute: i64 = 60_000_000_000;
    assert!(!cache_entry_expired(10 * minute, 0, Some(10)));
    assert!(cache_entry_expired(11 * minute, 0, Some(10)));
    assert!(!cache_entry_expired(11 * minute - 1, 0, Some(10)));
    assert!(!cache_entry_expired(1_000 * minute, 0, None));
    // An entry stored in the future counts a negative age, which wraps as `as u32` does.
    assert!(cache_entry_expired(0, 2 * minute, Some(60)));
}

#[test]
fn cache_key_depends_on_the_request() {
    let headers = StringMap::from_pairs(vec![("Authorization".to_string(), "Bearer token".to_string())]);
    let get = api_cache_key("https://api.example.com/test", "GET", &headers, None);
    assert!(get.starts_with("api_get_"));
    assert_eq!(get, api_cache_key("https://api.example.com/test", "GET", &headers, None));
    let post_a = api_cache_key("https://api.example.com/test", "POST", &StringMap::new(), Some("{\"key\": \"value\"}"));
    let post_b = api_cache_key("https://api.example.com/test", "POST", &StringMap::new(), Some("{\"key\": \"different\"}"));
    assert!(post_a.starts_with("api_post_"));
    assert_ne!(post_a, post_b);
    assert_ne!(get, api_cache_key("https://api.example.com/other", "GET", &headers, None));
}

#[test]
fn header_order_does_not_change_the_hash() {
    let a = StringMap::from_pairs(vec![
        ("B".to_string(), "2".to_string()),
        ("A".to_string(), "1".to_string()),
    ]);
    let b = StringMap::from_pairs(vec![
        ("A".to_string(), "1".to_string()),
        ("B".to_string(), "2".to_string()),
    ]);
    assert_eq!(headers_hash(&a), headers_hash(&b));
    assert_ne!(body_hash("x"), body_hash("y"));
    assert!(body_hash("x").chars().all(|c| c.is_ascii_digit()));
}

#[test]
fn paths_follow_flowt_dir_then_home() {
    assert_eq!(join_path("/tmp/x", "service.lock"), "/tmp/x/service.lock");
    assert_eq!(join_path("/tmp/x/", "a"), "/tmp/x/a");
    assert_eq!(join_path("", "a"), "a");
    assert_eq!(join_path("/tmp", "/abs"), "/abs");
    assert_eq!(lock_file_path(Some("/srv/flowt")), "/srv/flowt/service.lock");
    assert_eq!(db_path(Some("/srv/flowt")), "/srv/flowt/flowt_storage.db");
    assert_eq!(default_workflows_dir(Some("/srv/flowt"), Some("/home/u")), "/srv/flowt/workflows");
    assert_eq!(default_workflows_dir(None, Some("/home/u")), "/home/u/.flowt/workflows");
    assert_eq!(default_cache_dir(None, None), "./.flowt/cache");
}

#[test]
fn lock_file_pids_are_trimmed_u32s() {
    assert_eq!(parse_pid("1234\n"), Some(1234));
    assert_eq!(parse_pid("  42  "), Some(42));
    assert_eq!(parse_pid("4294967295"), Some(u32::MAX));
    assert_eq!(parse_pid("4294967296"), None);
    assert_eq!(parse_pid("12a"), None);
    assert_eq!(parse_pid(""), None);
}

#[test]
fn cache_key_ignores_the_order_headers_were_given_in() {
    let mut a = StringMap::new();
    a.insert("Authorization".to_string(), "Bearer token".to_string());
    a.insert("Accept".to_string(), "application/json".to_string());
    let mut b = StringMap::new();
    b.insert("Accept".to_string(), "text/plain".to_string());
    b.insert("Authorization".to_string(), "Bearer token".to_string());
    b.insert("Accept".to_string(), "application/json".to_string());
    let url = "https://api.example.com/test";
    assert_eq!(api_cache_key(url, "GET", &a, None), api_cache_key(url, "GET", &b, None));
    b.insert("Accept".to_string(), "text/plain".to_string());
    assert_ne!(api_cache_key(url, "GET", &a, None), api_cache_key(url, "GET", &b, None));
}

#[test]
fn base_directory_follows_flowt_dir_then_home() {
    assert_eq!(base_dir_in(Some("/srv/flowt"), Some("/home/u")), "/srv/flowt");
    assert_eq!(base_dir_in(None, Some("/home/u")), "/home/u/.flowt");
    assert_eq!(base_dir_in(None, Some("/home/u/")), "/home/u/.flowt");
    assert_eq!(base_dir_in(None, None), ".");
    assert_eq!(flowt::paths::base_dir(Some("/x")), "/x");
}

#[test]
fn cache_lookup_follows_time_to_live() {
    let minute: i64 = 60_000_000_000;
    let entry = |ttl: Option<u32>| CachedResponse {
        response_data: "{}".to_string(),
        status_code: 200,
        stored_at: 0,
        ttl_minutes: ttl,
    };
    assert!(matches!(cache_lookup(None, 0), CacheLookup::Miss));
    assert!(matches!(cache_lookup(Some(entry(Some(5))), 6 * minute), CacheLookup::Expired));
    match cache_lookup(Some(entry(Some(5))), 5 * minute) {
        CacheLookup::Hit { response_data, status_code } => {
            assert_eq!(response_data, "{}");
            assert_eq!(status_code, 200);
        }
        other => panic!("expected a hit, got {:?}", other),
    }
    assert!(matches!(cache_lookup(Some(entry(None)), 1_000_000 * minute), CacheLookup::Hit { .. }));
}
