use detrack_proxy::shared_state::{copy_texts, SharedState, LOG_CAPACITY};
use detrack_proxy::tracker_blocker::TrackerBlocker;

fn hub(list: &str) -> SharedState {
    SharedState::new(TrackerBlocker::new(list))
}

fn entry(line: &str) -> &str {
    // "[HH:MM:SS] entry"
    assert_eq!(&line[0..1], "[");
    assert_eq!(&line[9..11], "] ");
    assert_eq!(&line[3..4], ":");
    &line[11..]
}

#[test]
fn new_hub_has_proxy_and_logging_on() {
    let s = hub("a.com\n");
    assert!(s.is_proxy_enabled());
    assert!(s.is_logging_enabled());
    assert!(s.is_ai_detection_enabled());
    assert_eq!(s.get_ai_confidence_threshold(), 650);
    assert!(s.get_logs().is_empty());
    assert!(s.get_stats().is_empty());
    assert_eq!(s.get_allowed_count(), 0);
    assert_eq!(s.get_blocked_count(), 0);
    assert_eq!(s.get_bandwidth_saved(), 0);
    assert!(s.get_ai_suggested_trackers().is_empty());
    assert_eq!(s.get_trackers(), vec!["a.com"]);
    assert_eq!(s.get_ai_stats(), (0, 0, 0));
}

#[test]
fn switches_are_logged() {
    let mut s = hub("");
    s.disable_proxy();
    assert!(!s.is_proxy_enabled());
    s.enable_proxy();
    assert!(s.is_proxy_enabled());
    s.disable_logging();
    assert!(!s.is_logging_enabled());
    s.enable_logging();
    assert!(s.is_logging_enabled());
    s.disable_ai_detection();
    assert!(!s.is_ai_detection_enabled());
    s.enable_ai_detection();
    assert!(s.is_ai_detection_enabled());
    let logs = s.get_logs();
    let entries: Vec<&str> = logs.iter().map(|l| entry(l)).collect();
    assert_eq!(
        entries,
        vec![
            "🛑 Proxy disabled",
            "▶️ Proxy enabled",
            "📴 Logging disabled",
            "📡 Logging enabled",
            "🤖 AI tracker detection disabled",
            "🤖 AI tracker detection enabled",
        ]
    );
}

#[test]
fn append_log_at_writes_stamp_and_entry() {
    let mut s = hub("");
    s.append_log_at("12:34:56", "GET example.com /");
    assert_eq!(s.get_logs(), vec!["[12:34:56] GET example.com /"]);
}

#[test]
fn append_log_stamps_with_the_time_of_day() {
    let mut s = hub("");
    s.append_log("hello".to_string());
    let logs = s.get_logs();
    assert_eq!(logs.len(), 1);
    assert_eq!(entry(&logs[0]), "hello");
    assert_eq!(logs[0].len(), "[00:00:00] hello".len());
}

#[test]
fn log_evicts_the_oldest_line_at_its_capacity() {
    let mut s = hub("");
    for i in 0..LOG_CAPACITY {
        s.append_log_at("00:00:00", &i.to_string());
    }
    assert_eq!(s.get_logs().len(), LOG_CAPACITY);
    assert_eq!(s.get_logs()[0], "[00:00:00] 0");
    s.append_log_at("00:00:01", "last");
    let logs = s.get_logs();
    assert_eq!(logs.len(), LOG_CAPACITY);
    assert_eq!(logs[0], "[00:00:00] 1");
    assert_eq!(logs[LOG_CAPACITY - 1], "[00:00:01] last");
    s.append_log("again".to_string());
    assert_eq!(s.get_logs().len(), LOG_CAPACITY);
    assert_eq!(s.get_logs()[0], "[00:00:00] 2");
}

#[test]
fn clear_logs_leaves_its_own_entry() {
    let mut s = hub("");
    s.append_log_at("00:00:00", "a");
    s.append_log_at("00:00:00", "b");
    s.clear_logs();
    let logs = s.get_logs();
    assert_eq!(logs.len(), 1);
    assert_eq!(entry(&logs[0]), "🧹 Logs cleared");
}

#[test]
fn bandwidth_counts_blocked_bytes_only() {
    let mut s = hub("");
    s.track_bandwidth(100, false);
    assert_eq!(s.get_bandwidth_saved(), 0);
    s.track_bandwidth(100, true);
    s.track_bandwidth(23, true);
    assert_eq!(s.get_bandwidth_saved(), 123);
    s.track_bandwidth(u64::MAX - 123, true);
    assert_eq!(s.get_bandwidth_saved(), u64::MAX);
}

#[test]
fn record_request_counts_per_host_and_in_total() {
    let mut s = hub("");
    assert!(s.can_record("a.com", false));
    s.record_request("a.com", false);
    s.record_request("b.com", true);
    s.record_request("a.com", true);
    s.record_request("a.com", false);
    assert_eq!(s.get_allowed_count(), 2);
    assert_eq!(s.get_blocked_count(), 2);
    let stats = s.get_stats();
    assert_eq!(stats.len(), 2);
    assert_eq!(stats[0].domain, "a.com");
    assert_eq!((stats[0].requests, stats[0].blocked), (3, 1));
    assert_eq!(stats[1].domain, "b.com");
    assert_eq!((stats[1].requests, stats[1].blocked), (1, 1));
    assert_eq!(stats[0].bandwidth_saved, 0);
    for stat in &stats {
        assert!(stat.blocked <= stat.requests);
        assert!(stat.last_seen > 1_600_000_000_000);
    }
}

#[test]
fn record_request_at_keeps_the_time() {
    let mut s = hub("");
    s.record_request_at("a.com", true, 1000);
    s.record_request_at("b.com", false, 2000);
    s.record_request_at("a.com", false, 3000);
    let stats = s.get_stats();
    assert_eq!((stats[0].requests, stats[0].blocked, stats[0].last_seen), (2, 1, 3000));
    assert_eq!((stats[1].requests, stats[1].blocked, stats[1].last_seen), (1, 0, 2000));
}

#[test]
fn can_record_sees_full_counters() {
    let mut s = hub("");
    s.allowed_count = usize::MAX;
    assert!(!s.can_record("a.com", false));
    assert!(s.can_record("a.com", true));
    s.allowed_count = 0;
    s.blocked_count = usize::MAX;
    assert!(s.can_record("a.com", false));
    assert!(!s.can_record("a.com", true));
    s.blocked_count = 0;
    s.record_request_at("a.com", false, 1);
    s.stats[0].requests = usize::MAX;
    assert!(!s.can_record("a.com", false));
    assert!(s.can_record("b.com", false));
}

#[test]
fn reset_stats_forgets_hosts_and_totals() {
    let mut s = hub("");
    s.record_request("a.com", false);
    s.record_request("b.com", true);
    s.reset_stats();
    assert!(s.get_stats().is_empty());
    assert_eq!(s.get_allowed_count(), 0);
    assert_eq!(s.get_blocked_count(), 0);
    assert_eq!(entry(s.get_logs().last().unwrap()), "📊 Statistics reset");
}

#[test]
fn add_tracker_then_finish_logs_the_addition() {
    let mut s = hub("");
    let text = s.add_tracker(" Ads.example.com ");
    assert!(text.unwrap().ends_with("\nads.example.com\n"));
    assert_eq!(s.finish_add_tracker(" Ads.example.com ", None), Ok(()));
    assert_eq!(s.get_trackers(), vec!["ads.example.com"]);
    assert_eq!(entry(&s.get_logs()[0]), "➕ Added tracker:  Ads.example.com ");
    assert!(s.add_tracker("ads.example.com").is_none());
}

#[test]
fn failed_save_is_reported_and_the_addition_stands() {
    let mut s = hub("");
    assert!(s.add_tracker("a.com").is_some());
    assert_eq!(
        s.finish_add_tracker("a.com", Some("disk full")),
        Err("Failed to add tracker: disk full".to_string())
    );
    assert!(s.get_logs().is_empty());
    assert_eq!(s.get_trackers(), vec!["a.com"]);
    s.remove_tracker("a.com");
    assert_eq!(
        s.finish_remove_tracker("a.com", Some("denied")),
        Err("Failed to remove tracker: denied".to_string())
    );
    assert!(s.get_trackers().is_empty());
}

#[test]
fn remove_tracker_then_finish_logs_the_removal() {
    let mut s = hub("a.com\nb.com\n");
    let text = s.remove_tracker("a.com");
    assert!(text.ends_with("\nb.com\n"));
    assert_eq!(s.finish_remove_tracker("a.com", None), Ok(()));
    assert_eq!(s.get_trackers(), vec!["b.com"]);
    assert_eq!(entry(&s.get_logs()[0]), "➖ Removed tracker: a.com");
}

#[test]
fn threshold_is_set_clamped_and_logged_with_two_decimals() {
    let mut s = hub("");
    s.set_ai_confidence_threshold(650);
    assert_eq!(s.get_ai_confidence_threshold(), 650);
    s.set_ai_confidence_threshold(5);
    s.set_ai_confidence_threshold(4);
    s.set_ai_confidence_threshold(1500);
    assert_eq!(s.get_ai_confidence_threshold(), 1000);
    s.set_ai_confidence_threshold(u32::MAX);
    let logs = s.get_logs();
    let entries: Vec<&str> = logs.iter().map(|l| entry(l)).collect();
    assert_eq!(
        entries,
        vec![
            "🤖 AI confidence threshold set to 0.65",
            "🤖 AI confidence threshold set to 0.01",
            "🤖 AI confidence threshold set to 0.00",
            "🤖 AI confidence threshold set to 1.50",
            "🤖 AI confidence threshold set to 4294967.30",
        ]
    );
}

#[test]
fn suggestions_are_unique_and_ordered() {
    let mut s = hub("");
    s.add_ai_suggested_tracker("b.com");
    s.add_ai_suggested_tracker("a.com");
    s.add_ai_suggested_tracker("b.com");
    assert_eq!(s.get_ai_suggested_trackers(), vec!["b.com", "a.com"]);
    assert_eq!(s.get_logs().len(), 2);
    assert_eq!(entry(&s.get_logs()[1]), "🤖 Added domain to AI suggestions: a.com");
    s.clear_ai_suggested_trackers();
    assert!(s.get_ai_suggested_trackers().is_empty());
    assert_eq!(entry(s.get_logs().last().unwrap()), "🤖 Cleared AI suggested trackers");
}

#[test]
fn approve_puts_the_host_on_the_blocklist_and_teaches_the_classifier() {
    let mut s = hub("");
    s.add_ai_suggested_tracker("t.com");
    s.add_ai_suggested_tracker("u.com");
    let text = s.add_tracker("t.com");
    assert!(text.is_some());
    assert_eq!(s.approve_ai_suggestion("t.com", None), Ok(()));
    assert_eq!(s.get_ai_suggested_trackers(), vec!["u.com"]);
    assert_eq!(s.get_trackers(), vec!["t.com"]);
    assert_eq!(s.get_ai_stats(), (0, 0, 1));
    let logs = s.get_logs();
    let n = logs.len();
    assert_eq!(entry(&logs[n - 2]), "➕ Added tracker: t.com");
    assert_eq!(entry(&logs[n - 1]), "✅ Approved AI-suggested tracker: t.com");
    assert!(s.ai_tracker.is_likely_tracker("http://t.com/", "t.com", None, 0));
}

#[test]
fn approve_after_a_failed_save_changes_nothing_more() {
    let mut s = hub("");
    s.add_ai_suggested_tracker("t.com");
    s.add_tracker("t.com");
    let logged = s.get_logs().len();
    assert_eq!(
        s.approve_ai_suggestion("t.com", Some("read-only file system")),
        Err("Failed to add tracker: read-only file system".to_string())
    );
    assert_eq!(s.get_ai_suggested_trackers(), vec!["t.com"]);
    assert_eq!(s.get_ai_stats(), (0, 0, 0));
    assert_eq!(s.get_logs().len(), logged);
}

#[test]
fn reject_takes_the_host_out_and_teaches_the_classifier() {
    let mut s = hub("");
    s.add_ai_suggested_tracker("t.com");
    s.reject_ai_suggestion("t.com");
    assert!(s.get_ai_suggested_trackers().is_empty());
    assert!(s.get_trackers().is_empty());
    assert_eq!(s.get_ai_stats(), (0, 1, 0));
    assert_eq!(entry(s.get_logs().last().unwrap()), "❌ Rejected AI-suggested tracker: t.com");
    assert!(!s.ai_tracker.is_likely_tracker(
        "http://t.com/pixel/track/123456789012?utm_source=a",
        "t.com",
        None,
        4500
    ));
}

#[test]
fn ai_stats_reset_and_model_stubs() {
    let mut s = hub("");
    s.reject_ai_suggestion("t.com");
    s.reset_ai_stats();
    assert_eq!(s.get_ai_stats(), (0, 0, 0));
    s.set_ai_confidence_threshold(100);
    s.save_ai_model();
    assert_eq!(s.get_ai_confidence_threshold(), 100);
    s.load_ai_model();
    assert_eq!(s.get_ai_confidence_threshold(), 650);
    let logs = s.get_logs();
    let n = logs.len();
    assert_eq!(entry(&logs[n - 2]), "💾 Saved AI model to file");
    assert_eq!(entry(&logs[n - 1]), "📂 Loaded AI model from file");
}

#[test]
fn copy_texts_copies() {
    let list = vec!["a".to_string(), "b".to_string()];
    assert_eq!(copy_texts(&list), list);
}
