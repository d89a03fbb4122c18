use total5::types::{find_value, ClusterStats, Controller, PerformanceStats, Stats};

#[test]
fn cluster_stats_default_type() {
    assert_eq!(ClusterStats::default().stats_type, "stats");
}

#[test]
fn counters_start_at_zero() {
    let s = Stats::default();
    assert_eq!(s.error, 0);
    assert_eq!(s.performance, PerformanceStats::default());
    assert_eq!(s.performance.open, 0);
}

#[test]
fn lookup_takes_the_first_match() {
    let pairs = vec![
        ("a".to_string(), "1".to_string()),
        ("b".to_string(), "2".to_string()),
        ("a".to_string(), "3".to_string()),
    ];
    assert_eq!(find_value(&pairs, "a"), Some("1"));
    assert_eq!(find_value(&pairs, "b"), Some("2"));
    assert_eq!(find_value(&pairs, "A"), None);
    let c = Controller { ip: String::new(), headers: pairs.clone(), query: Vec::new() };
    assert_eq!(c.header("a"), Some("1"));
    assert_eq!(c.query_value("a"), None);
}
