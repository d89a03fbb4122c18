use total5::errors::{ErrorInfo, ErrorRing, ERROR_RING_CAPACITY};

#[test]
fn ring_keeps_the_last_ten_in_order() {
    let mut ring = ErrorRing::new();
    for i in 0..11 {
        let msg = format!("error {}", i);
        ring.report_at(&msg, Some("worker"), None, 1_000 + i as i64, "2024-01-01 00:00:00");
    }
    assert_eq!(ring.count(), 11);
    let errors = ring.errors();
    assert_eq!(errors.len(), ERROR_RING_CAPACITY);
    for (k, e) in errors.iter().enumerate() {
        assert_eq!(e.error, format!("error {}", k + 1));
        assert_eq!(e.date, 1_000 + k as i64 + 1);
    }
}

#[test]
fn ring_below_capacity_keeps_everything() {
    let mut ring = ErrorRing::new();
    assert_eq!(ring.count(), 0);
    assert!(ring.errors().is_empty());
    for i in 0..3 {
        ring.push(ErrorInfo { error: format!("e{}", i), name: None, url: None, date: i });
    }
    assert_eq!(ring.count(), 3);
    let msgs: Vec<&str> = ring.errors().iter().map(|e| e.error.as_str()).collect();
    assert_eq!(msgs, vec!["e0", "e1", "e2"]);
}

#[test]
fn count_keeps_growing_past_capacity() {
    let mut ring = ErrorRing::new();
    for i in 0..25 {
        ring.push(ErrorInfo { error: format!("e{}", i), name: None, url: None, date: i });
    }
    assert_eq!(ring.count(), 25);
    assert_eq!(ring.errors().len(), 10);
    assert_eq!(ring.errors()[0].error, "e15");
    assert_eq!(ring.errors()[9].error, "e24");
}

#[test]
fn diagnostic_line_with_name_and_url() {
    let mut ring = ErrorRing::new();
    let line = ring.report_at("boom", Some("shop"), Some("/cart"), 5, "2024-01-01 10:00:00");
    assert_eq!(line, "2024-01-01 10:00:00, shop ---> boom (/cart)");
    let e = &ring.errors()[0];
    assert_eq!(e.error, "boom");
    assert_eq!(e.name.as_deref(), Some("shop"));
    assert_eq!(e.url.as_deref(), Some("/cart"));
    assert_eq!(e.date, 5);
}

#[test]
fn diagnostic_line_without_name() {
    let mut ring = ErrorRing::new();
    let line = ring.report_at("boom", None, None, 0, "D");
    assert_eq!(line, "D, boom");
    assert_eq!(ring.errors()[0].name, None);
    let line = ring.report_at("boom", Some(""), None, 0, "D");
    assert_eq!(line, "D, boom");
    assert_eq!(ring.errors()[1].name, None);
}

#[test]
fn report_stamps_the_current_date() {
    let mut ring = ErrorRing::new();
    let line = ring.report("disk full", Some("store"), None);
    let rest = line.as_str();
    let date: Vec<char> = rest.chars().take(19).collect();
    assert_eq!(date.len(), 19);
    for (i, c) in date.iter().enumerate() {
        match i {
            4 | 7 => assert_eq!(*c, '-'),
            10 => assert_eq!(*c, ' '),
            13 | 16 => assert_eq!(*c, ':'),
            _ => assert!(c.is_ascii_digit()),
        }
    }
    assert_eq!(&rest[19..], ", store ---> disk full");
    assert!(ring.errors()[0].date > 1_600_000_000_000);
    assert_eq!(ring.count(), 1);
}

