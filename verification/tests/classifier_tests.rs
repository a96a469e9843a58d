use detrack_proxy::ai_tracker::{
    calculate_confidence, character_counts, extract_features, features_from_parts, has_any,
    segment_is_numeric_id, AITracker, FeatureWeights, RequestFeatures,
};
use detrack_proxy::text::chars_of;
use detrack_proxy::url_parts::UrlParts;

const TRACKING_URL: &str =
    "http://metrics.example.net/pixel/track/123456789012?utm_source=a&utm_medium=b&gclid=c";

fn quiet() -> RequestFeatures {
    RequestFeatures {
        has_tracking_params: false,
        has_suspicious_path: false,
        has_numeric_id: false,
        domain_entropy: 0,
        is_third_party: false,
        has_suspicious_keywords: false,
        path_depth: 0,
        query_param_count: 0,
    }
}

#[test]
fn default_weights_are_the_documented_ones() {
    let w = FeatureWeights::default();
    assert_eq!(
        w,
        FeatureWeights {
            tracking_param_weight: 700,
            suspicious_path_weight: 500,
            numeric_id_weight: 300,
            domain_entropy_weight: 400,
            third_party_weight: 600,
            suspicious_keywords_weight: 800,
            path_depth_weight: 200,
            query_count_weight: 300,
        }
    );
}

#[test]
fn confidence_of_no_features_is_zero() {
    assert_eq!(calculate_confidence(&quiet(), &FeatureWeights::default()), 0);
}

#[test]
fn confidence_is_a_third_of_the_weighted_sum() {
    let w = FeatureWeights::default();
    let f = RequestFeatures { has_tracking_params: true, ..quiet() };
    assert_eq!(calculate_confidence(&f, &w), 233);
    let f = RequestFeatures { has_suspicious_path: true, ..quiet() };
    assert_eq!(calculate_confidence(&f, &w), 166);
    let f = RequestFeatures { has_numeric_id: true, ..quiet() };
    assert_eq!(calculate_confidence(&f, &w), 100);
    let f = RequestFeatures { is_third_party: true, ..quiet() };
    assert_eq!(calculate_confidence(&f, &w), 200);
    let f = RequestFeatures { has_suspicious_keywords: true, ..quiet() };
    assert_eq!(calculate_confidence(&f, &w), 266);
}

#[test]
fn entropy_depth_and_count_earn_in_proportion_up_to_their_cap() {
    let w = FeatureWeights::default();
    let f = RequestFeatures { domain_entropy: 2250, ..quiet() };
    assert_eq!(calculate_confidence(&f, &w), 66);
    let f = RequestFeatures { domain_entropy: 4500, ..quiet() };
    assert_eq!(calculate_confidence(&f, &w), 133);
    let f = RequestFeatures { domain_entropy: 9000, ..quiet() };
    assert_eq!(calculate_confidence(&f, &w), 133);
    let f = RequestFeatures { path_depth: 5, ..quiet() };
    assert_eq!(calculate_confidence(&f, &w), 33);
    let f = RequestFeatures { path_depth: 10, ..quiet() };
    assert_eq!(calculate_confidence(&f, &w), 66);
    let f = RequestFeatures { path_depth: usize::MAX, ..quiet() };
    assert_eq!(calculate_confidence(&f, &w), 66);
    let f = RequestFeatures { query_param_count: 10, ..quiet() };
    assert_eq!(calculate_confidence(&f, &w), 50);
    let f = RequestFeatures { query_param_count: 400, ..quiet() };
    assert_eq!(calculate_confidence(&f, &w), 100);
}

#[test]
fn confidence_of_all_features_is_capped_at_one() {
    let f = RequestFeatures {
        has_tracking_params: true,
        has_suspicious_path: true,
        has_numeric_id: true,
        domain_entropy: 4500,
        is_third_party: true,
        has_suspicious_keywords: true,
        path_depth: 10,
        query_param_count: 20,
    };
    // 700 + 500 + 300 + 400 + 600 + 800 + 200 + 300 = 3800, a third of it is 1266
    assert_eq!(calculate_confidence(&f, &FeatureWeights::default()), 1000);
    let heavy = FeatureWeights {
        tracking_param_weight: u32::MAX,
        suspicious_path_weight: u32::MAX,
        numeric_id_weight: u32::MAX,
        domain_entropy_weight: u32::MAX,
        third_party_weight: u32::MAX,
        suspicious_keywords_weight: u32::MAX,
        path_depth_weight: u32::MAX,
        query_count_weight: u32::MAX,
    };
    assert_eq!(calculate_confidence(&f, &heavy), 1000);
}

#[test]
fn features_of_a_tracking_url() {
    let f = extract_features(TRACKING_URL, "metrics.example.net", None, 3200);
    assert_eq!(
        f,
        RequestFeatures {
            has_tracking_params: true,
            has_suspicious_path: true,
            has_numeric_id: true,
            domain_entropy: 3200,
            is_third_party: false,
            has_suspicious_keywords: true,
            path_depth: 3,
            query_param_count: 3,
        }
    );
    // 700 + 500 + 300 + 3200 * 400 / 4500 + 800 + 3 * 200 / 10 + 3 * 300 / 20 = 2689
    assert_eq!(calculate_confidence(&f, &FeatureWeights::default()), 896);
}

#[test]
fn features_of_a_plain_url() {
    let f = extract_features("https://example.org/a/b/?page=2", "example.org", None, 2800);
    assert_eq!(f, RequestFeatures { domain_entropy: 2800, path_depth: 2, query_param_count: 1, ..quiet() });
}

#[test]
fn features_of_what_is_no_url_are_none() {
    assert_eq!(extract_features("//example.org/pixel", "example.org", Some("nonsense"), 2800), quiet());
    assert_eq!(extract_features("/pixel/track?utm_source=1", "tracker.net", None, 2800), quiet());
    assert_eq!(extract_features("", "tracker.pixel.net", None, 4000), quiet());
}

#[test]
fn tracking_marks_are_found_inside_names_in_any_case() {
    let f = extract_features("http://a.com/?my_UTM_x=1", "a.com", None, 0);
    assert!(f.has_tracking_params);
    let f = extract_features("http://a.com/?prefer=1", "a.com", None, 0);
    assert!(f.has_tracking_params);
    let f = extract_features("http://a.com/?page=utm_source", "a.com", None, 0);
    assert!(!f.has_tracking_params);
}

#[test]
fn numeric_segment_needs_more_than_five_digits() {
    assert!(!extract_features("http://a.com/12345", "a.com", None, 0).has_numeric_id);
    assert!(extract_features("http://a.com/123456", "a.com", None, 0).has_numeric_id);
    assert!(!extract_features("http://a.com/12345a", "a.com", None, 0).has_numeric_id);
    assert!(extract_features("http://a.com/x/9876543210/y", "a.com", None, 0).has_numeric_id);
}

#[test]
fn suspicious_paths_and_keywords() {
    for path in ["/pixel", "/track", "/collect", "/beacon", "/1x1.gif", "/1x1.png", "/impression"] {
        let url = format!("http://a.com/x{path}/y");
        assert!(extract_features(&url, "a.com", None, 0).has_suspicious_path, "{path}");
    }
    assert!(!extract_features("http://a.com/pix/el", "a.com", None, 0).has_suspicious_path);
    for word in ["analytics", "tracker", "pixel", "stat", "metrics", "telemetry", "beacon", "counter"] {
        let url = format!("http://{}.a.com/", word.to_uppercase());
        assert!(extract_features(&url, "a.com", None, 0).has_suspicious_keywords, "{word}");
    }
    assert!(!extract_features("http://a.com/home", "a.com", None, 0).has_suspicious_keywords);
}

#[test]
fn third_party_is_judged_by_the_referrer() {
    let url = "http://cdn.shop.com/app.js";
    assert!(!extract_features(url, "cdn.shop.com", None, 0).is_third_party);
    assert!(!extract_features(url, "cdn.shop.com", Some("https://shop.com/cart"), 0).is_third_party);
    assert!(!extract_features(url, "shop.com", Some("https://www.shop.com/"), 0).is_third_party);
    assert!(extract_features(url, "cdn.shop.com", Some("https://news.org/"), 0).is_third_party);
    assert!(!extract_features(url, "cdn.shop.com", Some("no url"), 0).is_third_party);
    assert!(!extract_features(url, "cdn.shop.com", Some(""), 0).is_third_party);
    assert!(extract_features(url, "cdn.shop.com", Some("data:text/plain,x"), 0).is_third_party);
}

#[test]
fn features_from_parts_reads_the_given_parts() {
    let parts = UrlParts {
        path: "/a//123456/".to_string(),
        host: Some("h.com".to_string()),
        query_pairs: vec![("x".to_string(), "1".to_string()), ("GCLID".to_string(), "2".to_string())],
        text: "http://h.com/a//123456/?x=1&GCLID=2".to_string(),
    };
    let f = features_from_parts(&parts, "http://h.com/", "h.com", Some(Some("other.org")), 1234);
    assert_eq!(
        f,
        RequestFeatures {
            has_tracking_params: true,
            has_numeric_id: true,
            domain_entropy: 1234,
            is_third_party: true,
            path_depth: 2,
            query_param_count: 2,
            ..quiet()
        }
    );
    let f = features_from_parts(&parts, "http://h.com/", "h.com", Some(None), 0);
    assert!(f.is_third_party);
    let f = features_from_parts(&parts, "http://h.com/", "h.com", Some(Some("h.com")), 0);
    assert!(!f.is_third_party);
}

#[test]
fn new_classifier_is_on_with_threshold_650() {
    let t = AITracker::new();
    assert!(t.is_enabled());
    assert_eq!(t.get_confidence_threshold(), 650);
    assert_eq!(t.get_stats(), (0, 0, 0));
    assert!(t.get_detected_domains().is_empty());
    let d = AITracker::default();
    assert!(d.is_enabled());
    assert_eq!(d.get_confidence_threshold(), 650);
}

#[test]
fn threshold_is_clamped_to_one() {
    let mut t = AITracker::new();
    t.set_confidence_threshold(400);
    assert_eq!(t.get_confidence_threshold(), 400);
    t.set_confidence_threshold(0);
    assert_eq!(t.get_confidence_threshold(), 0);
    t.set_confidence_threshold(1000);
    assert_eq!(t.get_confidence_threshold(), 1000);
    t.set_confidence_threshold(1001);
    assert_eq!(t.get_confidence_threshold(), 1000);
    t.set_confidence_threshold(u32::MAX);
    assert_eq!(t.get_confidence_threshold(), 1000);
}

#[test]
fn disabled_classifier_says_no_and_remembers_nothing() {
    let mut t = AITracker::new();
    t.disable();
    assert!(!t.is_enabled());
    assert!(!t.is_likely_tracker(TRACKING_URL, "metrics.example.net", None, 3200));
    assert_eq!(t.get_stats(), (0, 0, 0));
    t.enable();
    assert!(t.is_likely_tracker(TRACKING_URL, "metrics.example.net", None, 3200));
    assert_eq!(t.get_stats(), (1, 0, 0));
}

#[test]
fn classify_flags_at_the_threshold() {
    let mut t = AITracker::new();
    t.set_confidence_threshold(896);
    assert!(t.is_likely_tracker(TRACKING_URL, "metrics.example.net", None, 3200));
    let mut t = AITracker::new();
    t.set_confidence_threshold(897);
    assert!(!t.is_likely_tracker(TRACKING_URL, "metrics.example.net", None, 3200));
    assert_eq!(t.get_stats(), (0, 0, 0));
}

#[test]
fn same_url_gets_the_same_verdict_and_counts_once() {
    let mut t = AITracker::new();
    assert!(t.is_likely_tracker(TRACKING_URL, "metrics.example.net", None, 3200));
    assert_eq!(t.get_stats().0, 1);
    assert!(t.is_likely_tracker(TRACKING_URL, "metrics.example.net", None, 3200));
    assert!(t.is_likely_tracker(TRACKING_URL, "other.host", Some("http://x.org/"), 0));
    assert_eq!(t.get_stats().0, 1);
    t.set_confidence_threshold(1000);
    assert!(t.is_likely_tracker(TRACKING_URL, "metrics.example.net", None, 3200));
    assert_eq!(t.get_stats().0, 1);
    assert!(!t.is_likely_tracker("http://example.org/", "example.org", None, 2000));
    assert!(!t.is_likely_tracker("http://example.org/", "example.org", None, 2000));
    assert_eq!(t.get_stats().0, 1);
}

#[test]
fn known_tracker_is_flagged_and_counted() {
    let mut t = AITracker::new();
    t.report_false_negative("quiet.example.org");
    assert_eq!(t.get_stats(), (0, 0, 1));
    assert!(t.is_likely_tracker("http://quiet.example.org/", "quiet.example.org", None, 0));
    assert_eq!(t.get_stats(), (1, 0, 1));
    assert_eq!(t.get_detected_domains(), vec!["http://quiet.example.org/"]);
}

#[test]
fn false_positive_makes_the_host_legitimate() {
    let mut t = AITracker::new();
    t.report_false_negative("metrics.example.net");
    t.report_false_positive("metrics.example.net");
    assert_eq!(t.get_stats(), (0, 1, 1));
    assert!(!t.is_likely_tracker(TRACKING_URL, "metrics.example.net", None, 3200));
    assert_eq!(t.get_stats(), (0, 1, 1));
    t.report_false_positive("metrics.example.net");
    assert_eq!(t.get_stats(), (0, 2, 1));
    t.report_false_negative("metrics.example.net");
    assert!(t.is_likely_tracker("http://metrics.example.net/other", "metrics.example.net", None, 0));
}

#[test]
fn feedback_drops_only_the_cache_entry_keyed_by_the_domain() {
    let mut t = AITracker::new();
    assert!(t.is_likely_tracker(TRACKING_URL, "metrics.example.net", None, 3200));
    t.report_false_positive("metrics.example.net");
    // the verdict for the URL stays cached
    assert!(t.is_likely_tracker(TRACKING_URL, "metrics.example.net", None, 3200));
    // a cache entry whose URL is the domain itself is dropped
    t.report_false_negative("bare.host");
    assert!(t.is_likely_tracker("bare.host", "bare.host", None, 0));
    assert_eq!(t.get_detected_domains(), vec![TRACKING_URL, "bare.host"]);
    t.report_false_positive("bare.host");
    assert_eq!(t.get_detected_domains(), vec![TRACKING_URL]);
    assert!(!t.is_likely_tracker("bare.host", "bare.host", None, 0));
}

#[test]
fn detected_domains_are_the_urls_flagged() {
    let mut t = AITracker::new();
    t.is_likely_tracker("http://example.org/", "example.org", None, 2000);
    t.is_likely_tracker(TRACKING_URL, "metrics.example.net", None, 3200);
    assert_eq!(t.get_detected_domains(), vec![TRACKING_URL]);
}

#[test]
fn clear_cache_and_reset_stats_are_independent() {
    let mut t = AITracker::new();
    t.is_likely_tracker(TRACKING_URL, "metrics.example.net", None, 3200);
    t.report_false_positive("a.com");
    t.reset_stats();
    assert_eq!(t.get_stats(), (0, 0, 0));
    assert_eq!(t.get_detected_domains(), vec![TRACKING_URL]);
    assert!(!t.is_likely_tracker("http://a.com/pixel/track/123456789012?utm_source=1", "a.com", None, 4500));
    t.clear_cache();
    assert!(t.get_detected_domains().is_empty());
    t.is_likely_tracker(TRACKING_URL, "metrics.example.net", None, 3200);
    assert_eq!(t.get_stats(), (1, 0, 0));
}

#[test]
fn settle_and_conclude_make_up_a_classification() {
    let mut t = AITracker::new();
    assert_eq!(t.settle(TRACKING_URL, "metrics.example.net"), None);
    let f = extract_features(TRACKING_URL, "metrics.example.net", None, 3200);
    assert!(t.conclude(TRACKING_URL, "metrics.example.net", &f));
    assert_eq!(t.settle(TRACKING_URL, "metrics.example.net"), Some(true));
    assert_eq!(t.get_stats().0, 1);
    t.disable();
    assert_eq!(t.settle("http://new.example/", "new.example"), Some(false));
}

fn entropy(text: &str) -> f64 {
    let counts = character_counts(text);
    let total: usize = counts.iter().map(|(_, n)| *n).sum();
    let mut bits = 0.0;
    for (_, n) in counts {
        let p = n as f64 / total as f64;
        bits -= p * p.log2();
    }
    bits
}

#[test]
fn character_counts_are_taken_of_the_lower_case_text() {
    assert_eq!(character_counts("aAbA"), vec![('a', 3), ('b', 1)]);
    assert_eq!(character_counts("a.b.a"), vec![('a', 2), ('.', 2), ('b', 1)]);
    assert_eq!(character_counts(""), Vec::<(char, usize)>::new());
}

#[test]
fn entropy_of_character_counts() {
    assert_eq!(entropy("aaaa"), 0.0);
    assert_eq!(entropy(""), 0.0);
    assert!((entropy("ab") - 1.0).abs() < 1e-9);
    assert!((entropy("AaBb") - 1.0).abs() < 1e-9);
    assert!((entropy("abcd") - 2.0).abs() < 1e-9);
}

#[test]
fn has_any_finds_one_of_the_marks() {
    let marks = vec![chars_of("utm_"), chars_of("ref")];
    assert!(has_any(&chars_of("my_utm_x"), &marks));
    assert!(has_any(&chars_of("prefer"), &marks));
    assert!(!has_any(&chars_of("utm"), &marks));
    assert!(!has_any(&chars_of("anything"), &Vec::new()));
}

#[test]
fn segment_is_numeric_id_wants_six_numeric_characters() {
    assert!(segment_is_numeric_id(&chars_of("123456")));
    assert!(!segment_is_numeric_id(&chars_of("12345")));
    assert!(!segment_is_numeric_id(&chars_of("123x456")));
    assert!(!segment_is_numeric_id(&chars_of("")));
    assert!(segment_is_numeric_id(&chars_of("１２３４５６")));
}

#[test]
fn known_legitimate_host_is_passed_and_not_counted() {
    let mut t = AITracker::new();
    t.report_false_positive("metrics.example.net");
    assert!(!t.is_likely_tracker(TRACKING_URL, "metrics.example.net", None, 4500));
    assert_eq!(t.get_stats(), (0, 1, 0));
    assert!(t.get_detected_domains().is_empty());
    // the verdict stays cached when the host becomes a known tracker
    t.report_false_negative("metrics.example.net");
    assert!(!t.is_likely_tracker(TRACKING_URL, "metrics.example.net", None, 4500));
    assert!(t.is_likely_tracker("http://metrics.example.net/", "metrics.example.net", None, 0));
    assert_eq!(t.get_stats(), (1, 1, 1));
}

#[test]
fn known_lists_are_matched_exactly() {
    let mut t = AITracker::new();
    t.report_false_negative("tracker.net");
    assert!(!t.is_likely_tracker("http://sub.tracker.net/", "sub.tracker.net", None, 0));
    assert!(!t.is_likely_tracker("http://TRACKER.net/", "TRACKER.net", None, 0));
    assert!(t.is_likely_tracker("http://tracker.net/", "tracker.net", None, 0));
}

#[test]
fn can_count_wants_room_only_where_a_detection_can_be_counted() {
    let mut t = AITracker::new();
    assert!(t.can_count(TRACKING_URL));
    assert!(t.is_likely_tracker(TRACKING_URL, "metrics.example.net", None, 3200));
    assert!(t.can_count(TRACKING_URL));
    t.disable();
    assert!(t.can_count("http://new.example/"));
}
