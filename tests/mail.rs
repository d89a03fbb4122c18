use std::collections::HashMap;
use total5::mail::{compose_message, split_recipients};
use total5::types::{Config, SMTPConfig};

fn config() -> Config {
    Config {
        name: "Total.js".to_string(),
        version: "1.0.0".to_string(),
        author: String::new(),
        secret: String::new(),
        secret_encryption: String::new(),
        secret_totalapi: String::new(),
        secret_csrf: String::new(),
        secret_tapi: String::new(),
        secret_tms: String::new(),
        _root: String::new(),
        _cors: String::new(),
        _api: "/api/".to_string(),
        _sourcemap: true,
        _httpreqlimit: 0,
        _httpcompress: true,
        _httpetag: String::new(),
        _httpmaxsize: 256,
        _httprangebuffer: 5120,
        _httptimeout: 5,
        _httpfiles: HashMap::new(),
        _httpchecktypes: true,
        _httpmaxage: 60,
        _httpmaxkeys: 33,
        _httpmaxkey: 25,
        _blacklist: String::new(),
        _xpoweredby: "Total.js".to_string(),
        _maxopenfiles: 100,
        _minifyjs: true,
        _minifycss: true,
        _minifyhtml: true,
        _localize: true,
        _port: "auto".to_string(),
        _ip: "0.0.0.0".to_string(),
        _unixsocket: String::new(),
        _timezone: "utc".to_string(),
        _insecure: false,
        _performance: false,
        _filtererrors: true,
        _cleartemp: true,
        _customtitles: false,
        _version: String::new(),
        _clearcache: 10,
        _imageconverter: "gm".to_string(),
        _imagememory: 0,
        _stats: true,
        _npmcache: "/var/www/.npm".to_string(),
        _python: "python3".to_string(),
        _wsmaxsize: 256,
        _wscompress: true,
        _wsencodedecode: false,
        _wsmaxlatency: 2000,
        _proxytimeout: 5,
        _cookiesamesite: "Lax".to_string(),
        _cookiesecure: false,
        _csrfexpiration: "30 minutes".to_string(),
        _tapi: true,
        _tapiurl: "eu".to_string(),
        _tapimail: false,
        _tapilogger: false,
        _imprint: true,
        _tms: false,
        _tmsmaxsize: 256,
        _tmsurl: "/$tms/".to_string(),
        _tmsclearblocked: 60,
        mail_from: None,
        mail_from_name: None,
        mail_reply: None,
        mail_cc: None,
        mail_bcc: None,
        smtp: SMTPConfig { from: None, name: None, user: None },
    }
}

#[test]
fn recipients_split_on_commas_and_trim() {
    assert_eq!(split_recipients("a@x.com, b@y.com ,, "), vec!["a@x.com", "b@y.com"]);
    assert_eq!(split_recipients(" solo@x.com "), vec![" solo@x.com "]);
    assert_eq!(split_recipients(","), Vec::<String>::new());
    assert_eq!(split_recipients(""), vec![""]);
    assert_eq!(
        split_recipients("\u{a0}a@x.com\u{3000},\tb@y.com\u{2028},\u{200b}c@z.com"),
        vec!["a@x.com", "b@y.com", "\u{200b}c@z.com"]
    );
}

#[test]
fn sender_falls_back_through_smtp_settings() {
    let mut c = config();
    let m = compose_message("a@x.com", "Hi", "Body", None, &c);
    assert_eq!(m.from_address.as_deref(), Some(""));
    assert_eq!(m.from_name.as_deref(), Some(""));
    c.smtp.user = Some("user@smtp".to_string());
    let m = compose_message("a@x.com", "Hi", "Body", None, &c);
    assert_eq!(m.from_address.as_deref(), Some("user@smtp"));
    c.smtp.from = Some("from@smtp".to_string());
    c.smtp.name = Some("SMTP".to_string());
    let m = compose_message("a@x.com", "Hi", "Body", None, &c);
    assert_eq!(m.from_address.as_deref(), Some("from@smtp"));
    assert_eq!(m.from_name.as_deref(), Some("SMTP"));
    c.mail_from = Some("me@site".to_string());
    c.mail_from_name = Some("Me".to_string());
    let m = compose_message("a@x.com", "Hi", "Body", None, &c);
    assert_eq!(m.from_address.as_deref(), Some("me@site"));
    assert_eq!(m.from_name.as_deref(), Some("Me"));
    assert_eq!(m.subject, "Hi");
    assert_eq!(m.body, "Body");
    assert_eq!(m.to_addresses, vec!["a@x.com"]);
    assert!(m._sending.is_some());
}

#[test]
fn reply_and_copies_from_configuration() {
    let mut c = config();
    c.mail_reply = Some("r@x.com".to_string());
    c.mail_cc = Some("abc".to_string());
    c.mail_bcc = Some("hidden@x.com".to_string());
    let m = compose_message("a@x.com,b@x.com", "S", "B", None, &c);
    assert_eq!(m.to_addresses, vec!["a@x.com", "b@x.com"]);
    assert_eq!(m.reply_to.as_deref(), Some("r@x.com"));
    assert!(m.cc.is_empty());
    assert_eq!(m.bcc, vec!["hidden@x.com"]);
    let m = compose_message("a@x.com", "S", "B", Some("direct@x.com"), &c);
    assert_eq!(m.reply_to.as_deref(), Some("direct@x.com"));
    c.mail_reply = Some("r@x".to_string());
    let m = compose_message("a@x.com", "S", "B", None, &c);
    assert_eq!(m.reply_to, None);
    // Two characters, four bytes: long enough.
    c.mail_reply = Some("éé".to_string());
    c.mail_cc = Some("é@".to_string());
    let m = compose_message("a@x.com", "S", "B", None, &c);
    assert_eq!(m.reply_to.as_deref(), Some("éé"));
    assert!(m.cc.is_empty());
}
