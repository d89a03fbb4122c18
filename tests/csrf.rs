use total5::csrf::{
    csrf_lifetime_ms, csrf_status_for, csrf_token_for,
    check, check_at, csrf_check, csrf_check_at, csrf_create, csrf_create_at, hash_user_agent,
    issue, issue_at, request_fingerprint, request_token, validate, validate_at, CsrfStatus,
    RequestFingerprint,
};
use total5::types::Controller;

const SECRET: &str = "s3cr3t-key";
const T0: i64 = 1_700_000_000_000;
const TTL: u64 = 30 * 60 * 1000;

fn fp() -> RequestFingerprint {
    RequestFingerprint::new("10.0.0.1", "Mozilla/5.0")
}

#[test]
fn user_agent_hash_is_fnv1a() {
    assert_eq!(hash_user_agent(""), "811c9dc5");
    assert_eq!(hash_user_agent("a"), "e40c292c");
    assert_eq!(hash_user_agent("Mozilla/5.0"), "8e40a719");
    assert_eq!(fp().ua_hash, "8e40a719");
    assert_eq!(fp().ip, "10.0.0.1");
}

#[test]
fn issued_token_is_valid_until_expiry() {
    let token = issue_at(&fp(), SECRET, TTL, T0).unwrap();
    assert!(token.len() > 10);
    assert!(token.chars().all(|c| c.is_ascii_hexdigit() && !c.is_ascii_uppercase()));
    assert_eq!(check_at(&fp(), SECRET, &token, T0), CsrfStatus::Valid);
    assert!(validate_at(&fp(), SECRET, &token, T0));
    assert!(validate_at(&fp(), SECRET, &token, T0 + TTL as i64));
    assert!(!validate_at(&fp(), SECRET, &token, T0 + TTL as i64 + 1));
    assert_eq!(check_at(&fp(), SECRET, &token, T0 + TTL as i64 + 1), CsrfStatus::Invalid);
}

#[test]
fn issued_token_is_deterministic() {
    let a = issue_at(&fp(), SECRET, TTL, T0).unwrap();
    let b = issue_at(&fp(), SECRET, TTL, T0).unwrap();
    assert_eq!(a, b);
    let c = issue_at(&fp(), SECRET, TTL, T0 + 1).unwrap();
    assert_ne!(a, c);
}

#[test]
fn expiry_saturates_at_the_largest_instant() {
    let token = issue_at(&fp(), SECRET, u64::MAX, T0).unwrap();
    assert!(validate_at(&fp(), SECRET, &token, i64::MAX));
    let token = issue_at(&fp(), SECRET, 5, -10).unwrap();
    assert!(validate_at(&fp(), SECRET, &token, -5));
    assert!(!validate_at(&fp(), SECRET, &token, -4));
}

#[test]
fn altered_token_is_rejected() {
    let token = issue_at(&fp(), SECRET, TTL, T0).unwrap();
    let chars: Vec<char> = token.chars().collect();
    for p in 0..chars.len() {
        for replacement in ['0', '7', 'a', 'f', 'A', 'g', 'z', 'é'] {
            if chars[p] == replacement {
                continue;
            }
            let mut altered = chars.clone();
            altered[p] = replacement;
            let altered: String = altered.into_iter().collect();
            assert_eq!(check_at(&fp(), SECRET, &altered, T0), CsrfStatus::Invalid);
        }
    }
}

#[test]
fn token_is_bound_to_the_fingerprint_and_secret() {
    let token = issue_at(&fp(), SECRET, TTL, T0).unwrap();
    let other_ip = RequestFingerprint::new("10.0.0.2", "Mozilla/5.0");
    let other_ua = RequestFingerprint::new("10.0.0.1", "curl/8.0");
    assert!(!validate_at(&other_ip, SECRET, &token, T0));
    assert!(!validate_at(&other_ua, SECRET, &token, T0));
    assert!(!validate_at(&fp(), "another-secret", &token, T0));
}

#[test]
fn garbage_and_short_tokens_are_rejected() {
    assert_eq!(check_at(&fp(), SECRET, "", T0), CsrfStatus::Invalid);
    assert_eq!(check_at(&fp(), SECRET, "0123456789", T0), CsrfStatus::Invalid);
    assert_eq!(check_at(&fp(), SECRET, "0123456789abcdef", T0), CsrfStatus::Invalid);
    assert_eq!(check_at(&fp(), SECRET, "not a token at all", T0), CsrfStatus::Invalid);
    let token = issue_at(&fp(), SECRET, TTL, T0).unwrap();
    assert_eq!(check_at(&fp(), SECRET, &token[..token.len() - 8], T0), CsrfStatus::Invalid);
    assert_eq!(check_at(&fp(), SECRET, &format!("{}00000000", token), T0), CsrfStatus::Invalid);
}

#[test]
fn no_secret_disables_protection() {
    assert_eq!(issue_at(&fp(), "", TTL, T0), None);
    assert_eq!(issue(&fp(), "", TTL), Ok(None));
    assert_eq!(check_at(&fp(), "", "garbage", T0), CsrfStatus::Disabled);
    assert_eq!(check(&fp(), "", ""), CsrfStatus::Disabled);
    assert!(validate_at(&fp(), "", "x", T0));
    assert!(validate(&fp(), "", "x"));
    assert!(CsrfStatus::Disabled.passed());
    assert!(CsrfStatus::Valid.passed());
    assert!(!CsrfStatus::Invalid.passed());
}

#[test]
fn token_issued_now_validates_now() {
    let token = issue(&fp(), SECRET, TTL).unwrap().unwrap();
    assert!(validate(&fp(), SECRET, &token));
    assert_eq!(check(&fp(), SECRET, &token), CsrfStatus::Valid);
    let stale = issue_at(&fp(), SECRET, 0, 0).unwrap();
    assert!(!validate(&fp(), SECRET, &stale));
}

fn controller(headers: &[(&str, &str)], query: &[(&str, &str)]) -> Controller {
    Controller {
        ip: "192.168.1.5".to_string(),
        headers: headers.iter().map(|(k, v)| (k.to_string(), v.to_string())).collect(),
        query: query.iter().map(|(k, v)| (k.to_string(), v.to_string())).collect(),
    }
}

#[test]
fn request_fingerprint_and_token() {
    let c = controller(&[("user-agent", "a"), ("x-csrf-token", "h")], &[("csrf", "q")]);
    let f = request_fingerprint(&c);
    assert_eq!(f.ip, "192.168.1.5");
    assert_eq!(f.ua_hash, "e40c292c");
    assert_eq!(request_token(&c), Some("h"));
    let c = controller(&[], &[("csrf", "q")]);
    assert_eq!(request_fingerprint(&c).ua_hash, "811c9dc5");
    assert_eq!(request_token(&c), Some("q"));
    assert_eq!(request_token(&controller(&[], &[])), None);
}

#[test]
fn request_round_trip_through_header_and_query() {
    let base = controller(&[("user-agent", "Mozilla/5.0")], &[]);
    let token = csrf_create_at(&base, SECRET, TTL, T0).unwrap();
    let by_header = controller(&[("user-agent", "Mozilla/5.0"), ("x-csrf-token", &token)], &[]);
    assert_eq!(csrf_check_at(&by_header, SECRET, T0), CsrfStatus::Valid);
    let by_query = controller(&[("user-agent", "Mozilla/5.0")], &[("csrf", &token)]);
    assert_eq!(csrf_check_at(&by_query, SECRET, T0 + 1000), CsrfStatus::Valid);
    let other_agent = controller(&[("user-agent", "Other"), ("x-csrf-token", &token)], &[]);
    assert_eq!(csrf_check_at(&other_agent, SECRET, T0), CsrfStatus::Invalid);
    assert_eq!(csrf_check_at(&base, SECRET, T0), CsrfStatus::Invalid);
    assert_eq!(csrf_check_at(&base, "", T0), CsrfStatus::Disabled);
    assert_eq!(csrf_create_at(&base, "", TTL, T0), None);
}

#[test]
fn request_round_trip_now() {
    let base = controller(&[("user-agent", "Mozilla/5.0")], &[]);
    let token = csrf_create(&base, SECRET, TTL).unwrap().unwrap();
    let c = controller(&[("user-agent", "Mozilla/5.0")], &[("csrf", &token)]);
    assert_eq!(csrf_check(&c, SECRET), CsrfStatus::Valid);
    assert_eq!(csrf_check(&c, ""), CsrfStatus::Disabled);
    assert_eq!(csrf_create(&base, "", TTL), Ok(None));
}

#[test]
fn configured_lifetime_drives_token_expiry() {
    let mut config = mail_free_config();
    assert_eq!(csrf_lifetime_ms(&config), 1_800_000);
    config._csrfexpiration = "soon".to_string();
    assert_eq!(csrf_lifetime_ms(&config), 1_800_000);
    config._csrfexpiration = "2 hours".to_string();
    assert_eq!(csrf_lifetime_ms(&config), 7_200_000);
    let base = controller(&[("user-agent", "UA")], &[]);
    assert_eq!(csrf_token_for(&base, &config), Ok(None));
    assert_eq!(csrf_status_for(&base, &config), CsrfStatus::Disabled);
    config.secret_csrf = SECRET.to_string();
    let token = csrf_token_for(&base, &config).unwrap().unwrap();
    let c = controller(&[("user-agent", "UA"), ("x-csrf-token", &token)], &[]);
    assert_eq!(csrf_status_for(&c, &config), CsrfStatus::Valid);
    assert_eq!(csrf_status_for(&base, &config), CsrfStatus::Invalid);
}

fn mail_free_config() -> total5::types::Config {
    total5::types::Config {
        name: String::new(), version: String::new(), author: String::new(), secret: String::new(),
        secret_encryption: String::new(), secret_totalapi: String::new(), secret_csrf: String::new(),
        secret_tapi: String::new(), secret_tms: String::new(), _root: String::new(), _cors: String::new(),
        _api: String::new(), _sourcemap: false, _httpreqlimit: 0, _httpcompress: false,
        _httpetag: String::new(), _httpmaxsize: 0, _httprangebuffer: 0, _httptimeout: 0,
        _httpfiles: std::collections::HashMap::new(), _httpchecktypes: false, _httpmaxage: 0,
        _httpmaxkeys: 0, _httpmaxkey: 0, _blacklist: String::new(), _xpoweredby: String::new(),
        _maxopenfiles: 0, _minifyjs: false, _minifycss: false, _minifyhtml: false, _localize: false,
        _port: String::new(), _ip: String::new(), _unixsocket: String::new(), _timezone: String::new(),
        _insecure: false, _performance: false, _filtererrors: false, _cleartemp: false,
        _customtitles: false, _version: String::new(), _clearcache: 0, _imageconverter: String::new(),
        _imagememory: 0, _stats: false, _npmcache: String::new(), _python: String::new(), _wsmaxsize: 0,
        _wscompress: false, _wsencodedecode: false, _wsmaxlatency: 0, _proxytimeout: 0,
        _cookiesamesite: String::new(), _cookiesecure: false, _csrfexpiration: "30 minutes".to_string(),
        _tapi: false, _tapiurl: String::new(), _tapimail: false, _tapilogger: false, _imprint: false,
        _tms: false, _tmsmaxsize: 0, _tmsurl: String::new(), _tmsclearblocked: 0, mail_from: None,
        mail_from_name: None, mail_reply: None, mail_cc: None, mail_bcc: None,
        smtp: total5::types::SMTPConfig { from: None, name: None, user: None },
    }
}

fn words_of_hex(t: &str) -> Vec<u32> {
    (0..t.len() / 8).map(|i| u32::from_str_radix(&t[8 * i..8 * i + 8], 16).unwrap()).collect()
}

fn hex_of_words(ws: &[u32]) -> String {
    ws.iter().map(|w| format!("{:08x}", w)).collect()
}

#[test]
fn linear_changes_to_a_token_are_rejected() {
    let token = issue_at(&fp(), SECRET, TTL, T0).unwrap();
    let words = words_of_hex(&token);
    assert_eq!(hex_of_words(&words), token);
    let body_len = words.len() - 8;
    // The same change to the low expiry word and to the checksum keeps the
    // checksum consistent; the tag still refuses it.
    for delta in [1u32, 0x100, 0x8000_0000] {
        let mut forged = words.clone();
        forged[body_len - 2] ^= delta;
        forged[body_len - 1] ^= delta;
        assert_eq!(check_at(&fp(), SECRET, &hex_of_words(&forged), T0), CsrfStatus::Invalid);
    }
    // A token for another fingerprint cannot be turned into one for ours.
    let other = RequestFingerprint::new("10.0.0.9", "Mozilla/5.0");
    let theirs = words_of_hex(&issue_at(&other, SECRET, TTL, T0).unwrap());
    let mut forged = theirs.clone();
    let delta = ('9' as u32) ^ ('1' as u32);
    // Word 9 + 7 is the last character of the IP; the checksum sits just
    // before the eight tag words.
    forged[9 + 7] ^= delta;
    forged[theirs.len() - 9] ^= delta;
    assert_eq!(check_at(&fp(), SECRET, &hex_of_words(&forged), T0), CsrfStatus::Invalid);
}

#[test]
fn each_token_has_its_own_key_stream() {
    // Knowing the IP of one token gives that token's key stream only.
    let a = words_of_hex(&issue_at(&fp(), SECRET, TTL, T0).unwrap());
    let other = RequestFingerprint::new("10.0.0.2", "Mozilla/5.0");
    let b = words_of_hex(&issue_at(&other, SECRET, TTL, T0).unwrap());
    let ip_a: Vec<u32> = "10.0.0.1".chars().map(|c| c as u32).collect();
    let ip_b: Vec<u32> = "10.0.0.2".chars().map(|c| c as u32).collect();
    let stream_a: Vec<u32> = (0..8).map(|i| a[9 + i] ^ ip_a[i]).collect();
    let stream_b: Vec<u32> = (0..8).map(|i| b[9 + i] ^ ip_b[i]).collect();
    assert_ne!(stream_a, stream_b);
    assert_ne!(a[..8], b[..8]);
    let secret: Vec<u32> = SECRET.chars().map(|c| c as u32).collect();
    assert_ne!(stream_a[..secret.len().min(8)], secret[..secret.len().min(8)]);
    // The same payload gives the same token.
    assert_eq!(issue_at(&fp(), SECRET, TTL, T0), issue_at(&fp(), SECRET, TTL, T0));
}
