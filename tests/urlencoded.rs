use total5::urlencoded::parse_urlencoded;

fn pairs(v: &[(&str, &str)]) -> Vec<(String, String)> {
    v.iter().map(|(k, v)| (k.to_string(), v.to_string())).collect()
}

#[test]
fn pairs_in_order() {
    assert_eq!(parse_urlencoded("a=1&b=2"), pairs(&[("a", "1"), ("b", "2")]));
    assert_eq!(parse_urlencoded("a=1&a=2"), pairs(&[("a", "1"), ("a", "2")]));
}

#[test]
fn pieces_without_equals_are_skipped() {
    assert_eq!(parse_urlencoded("flag&x=&=y&&k=v=w"), pairs(&[("x", ""), ("", "y"), ("k", "v=w")]));
    assert_eq!(parse_urlencoded(""), pairs(&[]));
}
