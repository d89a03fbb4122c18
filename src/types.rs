//! Counters and plain records of the framework's runtime state.

use vstd::prelude::*;
use vstd::string::*;
use std::collections::HashMap;
use crate::text::str_eq;

verus! {

/// Statistics sent between the processes of a cluster.
#[derive(Clone, Debug)]
pub struct ClusterStats {
    pub stats_type: String,
}

impl Default for ClusterStats {
    fn default() -> (r: Self)
        ensures
            r.stats_type@ == "stats"@,
    {
        ClusterStats { stats_type: String::from_str("stats") }
    }
}

/// Internal framework counters.
#[derive(Clone, Debug, Default)]
pub struct InternalStats {
    pub ticks: i64,
    pub counter: i64,
    pub uid: i64,
    pub interval: Option<i64>,
}

/// Performance statistics.
#[derive(Clone, Copy, Debug, Default, PartialEq, Eq, Structural)]
pub struct PerformanceStats {
    pub publish: i64,
    pub subscribe: i64,
    pub calls: i64,
    pub download: i64,
    pub upload: i64,
    pub request: i64,
    pub message: i64,
    pub file: i64,
    pub open: i64,
    pub online: i64,
    pub usage: i64,
    pub mail: i64,
    pub dbrm: i64,
    pub dbwm: i64,
    pub external: i64,
}

/// Other statistics.
#[derive(Clone, Copy, Debug, Default, PartialEq, Eq, Structural)]
pub struct OtherStats {
    pub websocketping: i64,
    pub websocketcleaner: i64,
    pub obsolete: i64,
    pub mail: i64,
}

/// Request statistics.
#[derive(Clone, Copy, Debug, Default, PartialEq, Eq, Structural)]
pub struct RequestStats {
    pub request: i64,
    pub external: i64,
    pub pending: i64,
    pub web: i64,
    pub xhr: i64,
    pub file: i64,
    pub websocket: i64,
    pub get: i64,
    pub options: i64,
    pub head: i64,
    pub post: i64,
    pub put: i64,
    pub patch: i64,
    pub upload: i64,
    pub schema: i64,
    pub operation: i64,
    pub blocked: i64,
    pub delete: i64,
    pub mobile: i64,
    pub desktop: i64,
    pub size: i64,
}

/// Response statistics.
#[derive(Clone, Copy, Debug, Default, PartialEq, Eq, Structural)]
pub struct ResponseStats {
    pub ddos: i64,
    pub html: i64,
    pub xml: i64,
    pub json: i64,
    pub websocket: i64,
    pub timeout: i64,
    pub custom: i64,
    pub binary: i64,
    pub pipe: i64,
    pub file: i64,
    pub image: i64,
    pub destroy: i64,
    pub stream: i64,
    pub streaming: i64,
    pub text: i64,
    pub empty: i64,
    pub redirect: i64,
    pub forward: i64,
    pub proxy: i64,
    pub notmodified: i64,
    pub sse: i64,
    pub errorbuilder: i64,
    pub error400: i64,
    pub error401: i64,
    pub error403: i64,
    pub error404: i64,
    pub error409: i64,
    pub error431: i64,
    pub error500: i64,
    pub error501: i64,
    pub error503: i64,
    pub size: i64,
}

/// Framework statistics.
#[derive(Clone, Copy, Debug, Default, PartialEq, Eq, Structural)]
pub struct Stats {
    pub compilation: i64,
    pub error: i64,
    pub performance: PerformanceStats,
    pub other: OtherStats,
    pub request: RequestStats,
    pub response: ResponseStats,
}

/// Service statistics.
#[derive(Clone, Copy, Debug, Default, PartialEq, Eq, Structural)]
pub struct ServiceStats {
    pub redirect: i64,
    pub request: i64,
    pub file: i64,
    pub usage: i64,
}

/// The framework's configuration. An empty `secret_csrf` turns CSRF protection off.
pub struct Config {
    pub name: String,
    pub version: String,
    pub author: String,
    pub secret: String,
    pub secret_encryption: String,
    pub secret_totalapi: String,
    pub secret_csrf: String,
    pub secret_tapi: String,
    pub secret_tms: String,
    pub _root: String,
    pub _cors: String,
    pub _api: String,
    pub _sourcemap: bool,
    pub _httpreqlimit: usize,
    pub _httpcompress: bool,
    pub _httpetag: String,
    pub _httpmaxsize: usize,
    pub _httprangebuffer: usize,
    pub _httptimeout: u64,
    pub _httpfiles: HashMap<String, bool>,
    pub _httpchecktypes: bool,
    pub _httpmaxage: u64,
    pub _httpmaxkeys: usize,
    pub _httpmaxkey: usize,
    pub _blacklist: String,
    pub _xpoweredby: String,
    pub _maxopenfiles: usize,
    pub _minifyjs: bool,
    pub _minifycss: bool,
    pub _minifyhtml: bool,
    pub _localize: bool,
    pub _port: String,
    pub _ip: String,
    pub _unixsocket: String,
    pub _timezone: String,
    pub _insecure: bool,
    pub _performance: bool,
    pub _filtererrors: bool,
    pub _cleartemp: bool,
    pub _customtitles: bool,
    pub _version: String,
    pub _clearcache: usize,
    pub _imageconverter: String,
    pub _imagememory: usize,
    pub _stats: bool,
    pub _npmcache: String,
    pub _python: String,
    pub _wsmaxsize: usize,
    pub _wscompress: bool,
    pub _wsencodedecode: bool,
    pub _wsmaxlatency: usize,
    pub _proxytimeout: u64,
    pub _cookiesamesite: String,
    pub _cookiesecure: bool,
    pub _csrfexpiration: String,
    pub _tapi: bool,
    pub _tapiurl: String,
    pub _tapimail: bool,
    pub _tapilogger: bool,
    pub _imprint: bool,
    pub _tms: bool,
    pub _tmsmaxsize: usize,
    pub _tmsurl: String,
    pub _tmsclearblocked: usize,
    pub mail_from: Option<String>,
    pub mail_from_name: Option<String>,
    pub mail_reply: Option<String>,
    pub mail_cc: Option<String>,
    pub mail_bcc: Option<String>,
    pub smtp: SMTPConfig,
}

/// A currency.
pub struct Currency {
    pub code: String,
    pub symbol: String,
}

/// The mail service.
pub struct TMail {
}

/// A mail message; `_sending` is when sending began, in milliseconds since the epoch.
pub struct Message {
    pub subject: String,
    pub body: String,
    pub to_addresses: Vec<String>,
    pub from_address: Option<String>,
    pub from_name: Option<String>,
    pub reply_to: Option<String>,
    pub cc: Vec<String>,
    pub bcc: Vec<String>,
    pub _sending: Option<i64>,
}

/// The directory names of a layout.
pub struct Path {
    pub root: String,
    pub logs: String,
    pub scripts: String,
    pub public: String,
    pub private: String,
    pub databases: String,
    pub plugins: String,
    pub templates: String,
    pub flowstreams: String,
    pub modules: String,
    pub tmp: String,
}

/// SMTP settings.
pub struct SMTPConfig {
    pub from: Option<String>,
    pub name: Option<String>,
    pub user: Option<String>,
}

/// Internal counters.
pub struct Internal {
    pub ticks: u64,
    pub counter: u64,
    pub uid: u64,
    pub interval: Option<std::time::Duration>,
}

/// A proxy route.
pub struct Proxy {
    pub source: String,
    pub target: String,
}

/// A cryptographic key.
pub struct CryptoKey {
    pub key: String,
}

/// Service counters.
pub struct Service {
    pub redirect: u64,
    pub request: u64,
    pub file: u64,
    pub usage: u64,
}

/// A date-time format.
pub struct DateTimeFormatter {
    pub format: String,
}

/// Performance counters.
pub struct Performance {
    pub publish: u64,
    pub subscribe: u64,
    pub calls: u64,
    pub download: u64,
    pub upload: u64,
    pub request: u64,
    pub message: u64,
    pub file: u64,
    pub open: u64,
    pub online: u64,
    pub usage: u64,
    pub mail: u64,
    pub dbrm: u64,
    pub dbwm: u64,
    pub external: u64,
}

/// A successful result and its value.
pub struct SuccessResult<T> {
    pub success: bool,
    pub value: T,
}

/// The value of the first pair whose key is `key`.
pub open spec fn lookup(pairs: Seq<(String, String)>, key: Seq<char>) -> Option<Seq<char>>
    decreases pairs.len(),
{
    if pairs.len() == 0 {
        None
    } else if pairs[0].0@ == key {
        Some(pairs[0].1@)
    } else {
        lookup(pairs.drop_first(), key)
    }
}

/// The value of the first pair whose key is `key`.
pub fn find_value<'a>(pairs: &'a Vec<(String, String)>, key: &str) -> (r: Option<&'a str>)
    ensures
        match r {
            Some(v) => lookup(pairs@, key@) == Some(v@),
            None => lookup(pairs@, key@) is None,
        },
{
    let mut i: usize = 0;
    assert(pairs@.subrange(0, pairs@.len() as int) =~= pairs@);
    while i < pairs.len()
        invariant
            i <= pairs@.len(),
            lookup(pairs@, key@) == lookup(pairs@.subrange(i as int, pairs@.len() as int), key@),
        decreases pairs@.len() - i,
    {
        let ghost rest = pairs@.subrange(i as int, pairs@.len() as int);
        assert(rest.drop_first() =~= pairs@.subrange(i + 1, pairs@.len() as int));
        if str_eq(pairs[i].0.as_str(), key) {
            return Some(pairs[i].1.as_str());
        }
        i = i + 1;
    }
    None
}

/// The request a controller serves: the client's IP, the headers and the
/// query, each as name and value in the order they came.
pub struct Controller {
    pub ip: String,
    pub headers: Vec<(String, String)>,
    pub query: Vec<(String, String)>,
}

impl Controller {
    /// The value of the first header named `name`.
    pub fn header(&self, name: &str) -> (r: Option<&str>)
        ensures
            match r {
                Some(v) => lookup(self.headers@, name@) == Some(v@),
                None => lookup(self.headers@, name@) is None,
            },
    {
        find_value(&self.headers, name)
    }

    /// The value of the first query parameter named `name`.
    pub fn query_value(&self, name: &str) -> (r: Option<&str>)
        ensures
            match r {
                Some(v) => lookup(self.query@, name@) == Some(v@),
                None => lookup(self.query@, name@) is None,
            },
    {
        find_value(&self.query, name)
    }
}

} // verus!
