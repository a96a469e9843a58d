use detrack_proxy::text::chars_of;
use detrack_proxy::tracker_blocker::{is_persistable, query_string, same_pairs, TrackerBlocker};

fn pairs(list: &[(&str, &str)]) -> Vec<(String, String)> {
    list.iter().map(|(k, v)| (k.to_string(), v.to_string())).collect()
}

#[test]
fn new_reads_domains_and_skips_comments_and_blank_lines() {
    let b = TrackerBlocker::new("# header\n\nAds.Example.com\n  tracker.net  \r\n#x.com\n   \nads.example.com\n");
    assert_eq!(b.get_trackers(), vec!["ads.example.com", "tracker.net"]);
    assert_eq!(b.tracker_count(), 2);
}

#[test]
fn new_of_an_empty_file_is_an_empty_list() {
    let b = TrackerBlocker::new("");
    assert_eq!(b.tracker_count(), 0);
    assert!(b.get_trackers().is_empty());
}

#[test]
fn empty_list_blocks_nothing() {
    let b = TrackerBlocker::new("");
    assert!(!b.is_blocked("ads.example.com"));
    assert!(!b.is_blocked(""));
}

#[test]
fn exact_match_is_blocked() {
    let b = TrackerBlocker::new("ads.example.com\n");
    assert!(b.is_blocked("ads.example.com"));
    assert!(!b.is_blocked("example.com"));
    assert!(!b.is_blocked("ds.example.com"));
}

#[test]
fn suffix_match_needs_the_dot() {
    let b = TrackerBlocker::new("example.com\n");
    assert!(b.is_blocked("example.com"));
    assert!(b.is_blocked("cdn.example.com"));
    assert!(b.is_blocked("a.b.example.com"));
    assert!(!b.is_blocked("notexample.com"));
    assert!(!b.is_blocked("example.com.evil.org"));
    assert!(!b.is_blocked("com"));
}

#[test]
fn match_ignores_the_case_of_the_host() {
    let b = TrackerBlocker::new("example.com\nädserver.de\n");
    assert!(b.is_blocked("EXAMPLE.com"));
    assert!(b.is_blocked("Cdn.Example.COM"));
    assert!(b.is_blocked("ÄDSERVER.DE"));
}

#[test]
fn match_does_not_depend_on_the_order_of_the_file() {
    let a = TrackerBlocker::new("b.com\na.com\nc.com\n");
    let b = TrackerBlocker::new("c.com\na.com\nb.com\n");
    for host in ["a.com", "x.b.com", "c.com", "d.com", "ac.com"] {
        assert_eq!(a.is_blocked(host), b.is_blocked(host));
    }
    assert_eq!(a.get_trackers(), b.get_trackers());
}

#[test]
fn add_tracker_normalises_and_asks_for_a_save() {
    let mut b = TrackerBlocker::new("");
    let saved = b.add_tracker("  Ads.Example.COM ");
    assert!(saved.is_some());
    assert_eq!(b.get_trackers(), vec!["ads.example.com"]);
    assert!(b.is_blocked("ads.example.com"));
    let text = saved.unwrap();
    assert!(text.starts_with("# Tracker list for DeTrack Proxy\n# Updated: "));
    assert!(text.ends_with("\n# Format: One domain per line\nads.example.com\n"));
}

#[test]
fn add_tracker_twice_is_as_once() {
    let mut b = TrackerBlocker::new("");
    assert!(b.add_tracker("ads.example.com").is_some());
    let once = b.get_trackers();
    assert!(b.add_tracker("ADS.example.com").is_none());
    assert_eq!(b.get_trackers(), once);
    assert_eq!(b.tracker_count(), 1);
}

#[test]
fn remove_tracker_of_an_absent_domain_changes_nothing() {
    let mut b = TrackerBlocker::new("a.com\n");
    let text = b.remove_tracker("zzz.com");
    assert_eq!(b.get_trackers(), vec!["a.com"]);
    assert!(text.ends_with("\na.com\n"));
}

#[test]
fn remove_tracker_takes_the_domain_out() {
    let mut b = TrackerBlocker::new("a.com\nb.com\nc.com\n");
    b.remove_tracker(" B.com ");
    assert_eq!(b.get_trackers(), vec!["a.com", "c.com"]);
    assert!(!b.is_blocked("b.com"));
    assert!(b.is_blocked("c.com"));
}

#[test]
fn get_trackers_is_sorted() {
    let mut b = TrackerBlocker::new("zeta.com\nalpha.com\n");
    b.add_tracker("mid.com");
    b.add_tracker("Beta.com");
    b.add_tracker("alpha.co");
    assert_eq!(
        b.get_trackers(),
        vec!["alpha.co", "alpha.com", "beta.com", "mid.com", "zeta.com"]
    );
    let mut sorted = b.get_trackers();
    sorted.sort();
    assert_eq!(b.get_trackers(), sorted);
}

#[test]
fn render_file_has_the_header_and_one_domain_per_line() {
    let b = TrackerBlocker::new("b.com\na.com\n");
    assert_eq!(
        b.render_file("2024-05-06 07:08:09"),
        "# Tracker list for DeTrack Proxy\n# Updated: 2024-05-06 07:08:09\n# Format: One domain per line\na.com\nb.com\n"
    );
    let empty = TrackerBlocker::new("");
    assert_eq!(
        empty.render_file("t"),
        "# Tracker list for DeTrack Proxy\n# Updated: t\n# Format: One domain per line\n\n"
    );
}

#[test]
fn render_export_names_the_count() {
    let b = TrackerBlocker::new("b.com\na.com\nc.com\n");
    assert_eq!(
        b.render_export("2024-05-06 07:08:09"),
        "# Exported tracker list from DeTrack Proxy\n# Exported: 2024-05-06 07:08:09\n# Total domains: 3\na.com\nb.com\nc.com\n"
    );
}

#[test]
fn export_trackers_gives_text_and_count_and_changes_nothing() {
    let b = TrackerBlocker::new("b.com\na.com\n");
    let (text, count) = b.export_trackers();
    assert_eq!(count, 2);
    assert!(text.starts_with("# Exported tracker list from DeTrack Proxy\n# Exported: "));
    assert!(text.ends_with("\n# Total domains: 2\na.com\nb.com\n"));
    assert_eq!(b.get_trackers(), vec!["a.com", "b.com"]);
}

#[test]
fn save_trackers_stamps_with_a_date_and_time() {
    let b = TrackerBlocker::new("a.com\n");
    let text = b.save_trackers();
    let lines: Vec<&str> = text.lines().collect();
    assert_eq!(lines.len(), 4);
    let stamp = lines[1].strip_prefix("# Updated: ").unwrap();
    assert_eq!(stamp.len(), 19);
    assert_eq!(&stamp[4..5], "-");
    assert_eq!(&stamp[10..11], " ");
    assert_eq!(&stamp[13..14], ":");
}

#[test]
fn saved_list_loads_back() {
    let mut b = TrackerBlocker::new("");
    b.add_tracker("Ads.Example.com");
    b.add_tracker("tracker.net");
    let text = b.save_trackers();
    let loaded = TrackerBlocker::new(&text);
    assert_eq!(loaded.get_trackers(), vec!["ads.example.com", "tracker.net"]);
    let text = b.remove_tracker("ads.example.com");
    let loaded = TrackerBlocker::new(&text);
    assert_eq!(loaded.get_trackers(), vec!["tracker.net"]);
}

#[test]
fn exported_list_loads_back() {
    let b = TrackerBlocker::new("x.org\ny.org\n");
    let (text, _) = b.export_trackers();
    assert_eq!(TrackerBlocker::new(&text).get_trackers(), b.get_trackers());
}

#[test]
fn import_counts_only_new_domains() {
    let mut b = TrackerBlocker::new("a.com\n");
    let (count, saved) = b.import_trackers("# other list\nA.com\nb.com\n\nc.com\nb.com\n");
    assert_eq!(count, 2);
    assert!(saved.unwrap().ends_with("\na.com\nb.com\nc.com\n"));
    assert_eq!(b.get_trackers(), vec!["a.com", "b.com", "c.com"]);
}

#[test]
fn import_without_new_domains_asks_for_no_save() {
    let mut b = TrackerBlocker::new("a.com\n");
    let (count, saved) = b.import_trackers("a.com\n# nothing else\n");
    assert_eq!(count, 0);
    assert!(saved.is_none());
    assert_eq!(b.get_trackers(), vec!["a.com"]);
}

#[test]
fn tracking_parameters_are_known_in_any_case() {
    let b = TrackerBlocker::new("");
    for name in [
        "utm_source", "utm_medium", "utm_campaign", "utm_term", "utm_content", "fbclid", "gclid",
        "msclkid", "dclid", "twclid", "_ga", "_hsenc", "_openstat", "ref", "referrer", "source",
        "mc_cid", "mc_eid", "wickedid", "yclid",
    ] {
        assert!(b.is_tracking_parameter(name), "{name}");
        assert!(b.is_tracking_parameter(&name.to_uppercase()), "{name}");
    }
    assert!(!b.is_tracking_parameter("page"));
    assert!(!b.is_tracking_parameter("utm"));
    assert!(!b.is_tracking_parameter("utm_source2"));
    assert!(!b.is_tracking_parameter(""));
}

#[test]
fn default_blocker_is_empty_with_the_basic_vocabulary() {
    let b = TrackerBlocker::default();
    assert_eq!(b.tracker_count(), 0);
    assert!(b.is_tracking_parameter("utm_source"));
    assert!(b.is_tracking_parameter("source"));
    assert!(!b.is_tracking_parameter("mc_cid"));
    assert!(!b.is_tracking_parameter("mc_eid"));
    assert!(!b.is_tracking_parameter("wickedid"));
    assert!(!b.is_tracking_parameter("yclid"));
}

#[test]
fn clean_url_strips_tracking_parameters_and_keeps_the_order() {
    let b = TrackerBlocker::new("");
    assert_eq!(
        b.clean_url("https://example.com/p?b=2&utm_source=x&a=1&FBCLID=y&c=3"),
        "https://example.com/p?b=2&a=1&c=3"
    );
}

#[test]
fn clean_url_drops_the_query_when_nothing_stays() {
    let b = TrackerBlocker::new("");
    assert_eq!(
        b.clean_url("https://example.com/p?utm_source=x&gclid=y"),
        "https://example.com/p"
    );
    assert_eq!(b.clean_url("https://example.com/p?ref=1#top"), "https://example.com/p#top");
}

#[test]
fn clean_url_returns_what_is_no_url_unchanged() {
    let b = TrackerBlocker::new("");
    assert_eq!(b.clean_url("not a url"), "not a url");
    assert_eq!(b.clean_url("/only/a/path?utm_source=x"), "/only/a/path?utm_source=x");
    assert_eq!(b.clean_url(""), "");
}

#[test]
fn clean_url_serialises_the_url() {
    let b = TrackerBlocker::new("");
    assert_eq!(b.clean_url("HTTP://Example.COM"), "http://example.com/");
    assert_eq!(b.clean_url("http://example.com/?q=a b"), "http://example.com/?q=a+b");
    assert_eq!(b.clean_url("http://example.com/?flag&x=%7e"), "http://example.com/?flag=&x=%7E");
}

#[test]
fn clean_url_twice_is_as_once() {
    let b = TrackerBlocker::new("");
    for url in [
        "https://example.com/p?b=2&utm_source=x&a=1",
        "https://example.com/?utm_medium=1",
        "http://example.com/a/b?x=1&y=2#frag",
        "not a url",
        "HTTP://Example.COM",
        "http://a.com/?x=1%26utm_source%3D2",
        "http://a.com/?q=a b&gclid=1&r=%C3%A4+%2B",
        "data:text/plain,hi  ?a=1&utm_source=x",
        "http://a.com/?=&&a",
    ] {
        let once = b.clean_url(url);
        assert_eq!(b.clean_url(&once), once, "{url}");
    }
}

#[test]
fn clean_url_with_works_on_given_pairs() {
    let b = TrackerBlocker::new("");
    let out = b.clean_url_with(
        "http://example.com/x?ignored=1",
        &pairs(&[("a", "1"), ("utm_term", "t"), ("b", "2")]),
    );
    assert_eq!(out, "http://example.com/x?a=1&b=2");
    let out = b.clean_url_with("http://example.com/x?ignored=1", &pairs(&[("gclid", "1")]));
    assert_eq!(out, "http://example.com/x");
    let out = b.clean_url_with("no url", &pairs(&[("a", "1")]));
    assert_eq!(out, "no url");
}

#[test]
fn strip_tracking_pairs_filters_by_lower_case_name() {
    let b = TrackerBlocker::new("");
    let kept = b.strip_tracking_pairs(&pairs(&[
        ("Utm_Source", "1"),
        ("page", "2"),
        ("REF", "3"),
        ("page", "4"),
    ]));
    assert_eq!(kept, pairs(&[("page", "2"), ("page", "4")]));
}

#[test]
fn query_string_joins_pairs() {
    assert_eq!(query_string(&pairs(&[("a", "1"), ("b", ""), ("", "3")])), "a=1&b=&=3");
    assert_eq!(query_string(&pairs(&[("a b", "x&y=z"), ("ä", "~")])), "a+b=x%26y%3Dz&%C3%A4=%7E");
    assert_eq!(query_string(&pairs(&[])), "");
}

#[test]
fn covers_host_compares_the_host_as_written() {
    let b = TrackerBlocker::new("example.com\n");
    assert!(b.covers_host("example.com"));
    assert!(b.covers_host("cdn.example.com"));
    assert!(!b.covers_host("CDN.EXAMPLE.COM"));
    assert!(!b.covers_host("notexample.com"));
    assert!(!b.covers_host(".com"));
    assert!(b.is_blocked("CDN.EXAMPLE.COM"));
}

#[test]
fn in_vocabulary_compares_the_name_as_written() {
    let b = TrackerBlocker::new("");
    assert!(b.in_vocabulary("gclid"));
    assert!(!b.in_vocabulary("GCLID"));
    assert!(!b.in_vocabulary("gclid "));
    assert!(b.is_tracking_parameter("GCLID"));
}

#[test]
fn loaded_trackers_report_lists_the_domains() {
    let b = TrackerBlocker::new("b.com\na.com\n");
    assert_eq!(
        b.loaded_trackers_report(),
        vec![
            "====== Loaded Trackers: ======",
            "Total trackers: 2",
            "  - a.com",
            "  - b.com",
            "==============================",
        ]
    );
    assert_eq!(
        TrackerBlocker::new("").loaded_trackers_report(),
        vec!["====== Loaded Trackers: ======", "Total trackers: 0", "=============================="]
    );
}

#[test]
fn domains_that_do_not_survive_a_file_are_stored_all_the_same() {
    // a comment, and a line break inside a domain
    let mut b = TrackerBlocker::new("");
    b.add_tracker("#x.com");
    b.add_tracker("a.com\nb.com");
    assert_eq!(b.get_trackers(), vec!["#x.com", "a.com\nb.com"]);
    let loaded = TrackerBlocker::new(&b.save_trackers());
    assert_eq!(loaded.get_trackers(), vec!["a.com", "b.com"]);
}

#[test]
fn clean_url_keeps_encoded_separators_encoded() {
    let b = TrackerBlocker::new("");
    let once = b.clean_url("http://a.com/?x=1%26utm_source%3D2");
    assert_eq!(once, "http://a.com/?x=1%26utm_source%3D2");
    assert_eq!(b.clean_url(&once), once);
    let once = b.clean_url("http://a.com/?x=1%26utm_source%3D2&utm_source=3");
    assert_eq!(once, "http://a.com/?x=1%26utm_source%3D2");
}

#[test]
fn clean_url_clears_the_query_before_it_sets_the_new_one() {
    let b = TrackerBlocker::new("");
    assert_eq!(b.clean_url("data:text/plain,hi  ?a=1&utm_source=x"), "data:text/plain,hi?a=1");
    assert_eq!(b.clean_url("data:text/plain,hi  ?utm_source=x"), "data:text/plain,hi");
}

#[test]
fn clean_url_cleans_a_very_long_url() {
    let b = TrackerBlocker::new("");
    let long = format!("http://a.com/?utm_source=1&x={}", "y".repeat(3_000_000));
    assert_eq!(b.clean_url(&long), long.replace("utm_source=1&", ""));
}

#[test]
fn same_pairs_compares_names_and_values_in_order() {
    let a = pairs(&[("a", "1"), ("b", "2")]);
    assert!(same_pairs(&a, &pairs(&[("a", "1"), ("b", "2")])));
    assert!(!same_pairs(&a, &pairs(&[("b", "2"), ("a", "1")])));
    assert!(!same_pairs(&a, &pairs(&[("a", "1")])));
    assert!(!same_pairs(&a, &pairs(&[("a", "1"), ("b", "3")])));
    assert!(same_pairs(&pairs(&[]), &pairs(&[])));
}

#[test]
fn is_persistable_tells_what_a_file_gives_back() {
    assert!(is_persistable(&chars_of("ads.example.com")));
    assert!(is_persistable(&chars_of("a b")));
    assert!(!is_persistable(&chars_of("")));
    assert!(!is_persistable(&chars_of("#x.com")));
    assert!(!is_persistable(&chars_of("a.com\nb.com")));
    assert!(!is_persistable(&chars_of(" a.com")));
    assert!(!is_persistable(&chars_of("a.com\r")));
    assert!(!is_persistable(&chars_of("A.com")));
    assert!(is_persistable(&chars_of("x#y")));
}

#[test]
fn survives_saving_holds_of_lists_that_load_back() {
    let mut b = TrackerBlocker::new("b.com\nA.com\n");
    assert!(b.survives_saving());
    assert_eq!(TrackerBlocker::new(&b.save_trackers()).get_trackers(), b.get_trackers());
    b.add_tracker("#x.com");
    assert!(!b.survives_saving());
    b.remove_tracker("#x.com");
    assert!(b.survives_saving());
    assert!(TrackerBlocker::new("").survives_saving());
}

#[test]
fn saved_stamp_breaks_no_line() {
    let b = TrackerBlocker::new("a.com\n");
    assert_eq!(b.save_trackers().lines().count(), 4);
    assert_eq!(b.export_trackers().0.lines().count(), 4);
}
