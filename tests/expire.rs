use total5::expire::{parse_lifetime, DEFAULT_LIFETIME_MS};

#[test]
fn lifetimes_in_each_unit() {
    assert_eq!(parse_lifetime("30 minutes"), Some(1_800_000));
    assert_eq!(parse_lifetime("1 minute"), Some(60_000));
    assert_eq!(parse_lifetime("45 seconds"), Some(45_000));
    assert_eq!(parse_lifetime("2 hours"), Some(7_200_000));
    assert_eq!(parse_lifetime("1 day"), Some(86_400_000));
    assert_eq!(parse_lifetime("3 weeks"), Some(1_814_400_000));
    assert_eq!(parse_lifetime("0 seconds"), Some(0));
    assert_eq!(DEFAULT_LIFETIME_MS, 1_800_000);
}

#[test]
fn malformed_lifetimes() {
    assert_eq!(parse_lifetime(""), None);
    assert_eq!(parse_lifetime("30"), None);
    assert_eq!(parse_lifetime("30minutes"), None);
    assert_eq!(parse_lifetime(" 30 minutes"), None);
    assert_eq!(parse_lifetime("30  minutes"), None);
    assert_eq!(parse_lifetime("3x minutes"), None);
    assert_eq!(parse_lifetime("30 fortnights"), None);
    assert_eq!(parse_lifetime("-5 minutes"), None);
}

#[test]
fn lifetime_overflow() {
    assert_eq!(parse_lifetime("18446744073709551 seconds"), Some(18_446_744_073_709_551_000));
    assert_eq!(parse_lifetime("18446744073709552 seconds"), None);
    assert_eq!(parse_lifetime("99999999999999999999999 seconds"), None);
}
