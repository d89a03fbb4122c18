use total5::audit::{audit, audit_at, audit_file, audit_path, format_audit_line, AuditData};
use total5::paths::TPath;
use total5::types::PerformanceStats;

#[test]
fn audit_file_names() {
    assert_eq!(audit_file(Some("orders")), "orders.log");
    assert_eq!(audit_file(None), "audit.log");
    let paths = TPath::new("src".to_string());
    assert_eq!(audit_path(&paths, Some("orders")), "src/logs/orders.log");
    assert_eq!(audit_path(&paths, None), "src/logs/audit.log");
}

#[test]
fn audit_line_is_one_escaped_json_line() {
    let fields = vec![
        ("user".to_string(), "a\"b\nc".to_string()),
        ("ip".to_string(), "1.2.3.4".to_string()),
    ];
    let line = format_audit_line("2024-01-01T00:00:00.000Z", "audit", &fields);
    assert_eq!(
        line,
        "{\"createdAt\":\"2024-01-01T00:00:00.000Z\",\"name\":\"audit\",\"user\":\"a\\\"b\\nc\",\"ip\":\"1.2.3.4\"}\n"
    );
    assert_eq!(line.matches('\n').count(), 1);
    assert!(line.ends_with('\n'));
}

#[test]
fn audit_at_counts_and_stamps() {
    let mut perf = PerformanceStats::default();
    perf.open = i64::MAX;
    let paths0 = TPath::new("app".to_string());
    let mut data0 = AuditData { dtcreated: 0, fields: Vec::new() };
    audit_at(&mut perf, &paths0, None, &mut data0, 1, "T");
    assert_eq!(perf.open, i64::MAX);
    perf.open = 4;
    perf.mail = 2;
    let paths = TPath::new("app".to_string());
    let mut data = AuditData { dtcreated: 0, fields: vec![("k".to_string(), "v".to_string())] };
    let entry = audit_at(&mut perf, &paths, Some("login"), &mut data, 42, "T");
    assert_eq!(perf.open, 5);
    assert_eq!(perf.mail, 2);
    assert_eq!(data.dtcreated, 42);
    assert_eq!(entry.path, "app/logs/login.log");
    assert_eq!(entry.line, "{\"createdAt\":\"T\",\"name\":\"login\",\"k\":\"v\"}\n");
}

#[test]
fn audit_now_writes_an_iso_timestamp() {
    let mut perf = PerformanceStats::default();
    let paths = TPath::new("app".to_string());
    let mut data = AuditData { dtcreated: 0, fields: Vec::new() };
    let entry = audit(&mut perf, &paths, None, &mut data).unwrap();
    assert_eq!(perf.open, 1);
    assert!(data.dtcreated > 1_600_000_000_000);
    assert_eq!(entry.path, "app/logs/audit.log");
    let prefix = "{\"createdAt\":\"";
    assert!(entry.line.starts_with(prefix));
    let stamp: String = entry.line[prefix.len()..].chars().take(24).collect();
    assert_eq!(stamp.len(), 24);
    assert!(stamp.ends_with('Z'));
    assert_eq!(&stamp[4..5], "-");
    assert_eq!(&stamp[10..11], "T");
    assert!(entry.line.ends_with("\",\"name\":\"audit\"}\n"));
}

#[test]
fn audit_lines_parse_as_json_each() {
    let fields = vec![
        ("note".to_string(), "line one\nline two\r\t\u{1}".to_string()),
        ("quote".to_string(), "\"\\".to_string()),
    ];
    let mut file = String::new();
    for i in 0..100 {
        let name = format!("n{}", i);
        file.push_str(&format_audit_line("2024-01-01T00:00:00.000Z", &name, &fields));
    }
    let lines: Vec<&str> = file.lines().collect();
    assert_eq!(lines.len(), 100);
    for (i, line) in lines.iter().enumerate() {
        let v: serde_json::Value = serde_json::from_str(line).unwrap();
        assert_eq!(v["name"], serde_json::Value::String(format!("n{}", i)));
        assert_eq!(v["createdAt"], serde_json::Value::String("2024-01-01T00:00:00.000Z".to_string()));
        assert_eq!(v["note"], serde_json::Value::String("line one\nline two\r\t\u{1}".to_string()));
        assert_eq!(v["quote"], serde_json::Value::String("\"\\".to_string()));
    }
}

#[test]
fn control_characters_are_escaped_as_serde_json_does() {
    let fields = vec![("c".to_string(), "\u{1}\u{8}\u{c}\r\t\u{1f}\u{7f}é/".to_string())];
    let line = format_audit_line("T", "n", &fields);
    assert_eq!(
        line,
        "{\"createdAt\":\"T\",\"name\":\"n\",\"c\":\"\\u0001\\b\\f\\r\\t\\u001f\u{7f}é/\"}\n"
    );
}
