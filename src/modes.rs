//! Request modes: which mode a name selects, which method a web request
//! uses, and the summary a mode reports.
use vstd::prelude::*;

use crate::task::Stats;
use crate::text::{lowercase_str, lowercased, str_eq, uppercase_str, uppercased};

verus! {

/// The settings a mode runs with.
#[derive(Debug, Clone)]
pub struct ModeConfig {
    pub mode: String,
    pub url_or_target: String,
    pub method: Option<String>,
    pub data: Option<String>,
    pub data_file: Option<String>,
    pub download_body: bool,
    pub mac: Option<Vec<String>>,
    pub ua: Option<Vec<String>>,
    pub no_dns: bool,
    pub timeout: u64,
    pub max_concurrent: usize,
    pub verbose: u8,
    pub quiet: bool,
    pub outdir: String,
    pub proxy: Option<String>,
}

/// What a mode reports once its batch is over.
#[derive(Debug, Clone)]
pub struct ModeResult {
    pub mode: String,
    pub total: usize,
    pub successful: usize,
    pub failed: usize,
    pub errors: Vec<String>,
    pub custom_data: Option<String>,
}

/// The request modes.
#[derive(Debug, Clone, Copy, PartialEq, Eq, Structural)]
pub enum Mode {
    Download,
    WebRequest,
    PortScan,
    /// ssh, ftp, telnet and the mail protocols.
    Network,
}

/// The mode a lowercased name selects.
pub open spec fn mode_of_name(n: Seq<char>) -> Option<Mode> {
    if n == "download"@ {
        Some(Mode::Download)
    } else if n == "webrequest"@ || n == "web"@ {
        Some(Mode::WebRequest)
    } else if n == "portscan"@ || n == "port"@ {
        Some(Mode::PortScan)
    } else if n == "ssh"@ || n == "ftp"@ || n == "telnet"@ || n == "mail"@ || n == "imap"@ || n
        == "pop3"@ || n == "smtp"@ {
        Some(Mode::Network)
    } else {
        None
    }
}

/// The mode a lowercased name selects, if any.
pub fn mode_of_lowered(name: &str) -> (r: Option<Mode>)
    ensures
        r == mode_of_name(name@),
{
    if str_eq(name, "download") {
        Some(Mode::Download)
    } else if str_eq(name, "webrequest") || str_eq(name, "web") {
        Some(Mode::WebRequest)
    } else if str_eq(name, "portscan") || str_eq(name, "port") {
        Some(Mode::PortScan)
    } else if str_eq(name, "ssh") || str_eq(name, "ftp") || str_eq(name, "telnet") || str_eq(
        name,
        "mail",
    ) || str_eq(name, "imap") || str_eq(name, "pop3") || str_eq(name, "smtp") {
        Some(Mode::Network)
    } else {
        None
    }
}

/// The mode a name selects, compared in lower case.
pub fn select_mode(name: &str) -> (r: Option<Mode>)
    ensures
        r == mode_of_name(lowercased(name@)),
{
    let lowered = lowercase_str(name);
    mode_of_lowered(lowered.as_str())
}

/// The methods of a web request.
#[derive(Debug, Clone, Copy, PartialEq, Eq, Structural)]
pub enum HttpMethod {
    Get,
    Post,
    Put,
    Delete,
    Patch,
    Head,
    Options,
}

/// The method an uppercased name selects.
pub open spec fn method_of_name(n: Seq<char>) -> Option<HttpMethod> {
    if n == "GET"@ {
        Some(HttpMethod::Get)
    } else if n == "POST"@ {
        Some(HttpMethod::Post)
    } else if n == "PUT"@ {
        Some(HttpMethod::Put)
    } else if n == "DELETE"@ {
        Some(HttpMethod::Delete)
    } else if n == "PATCH"@ {
        Some(HttpMethod::Patch)
    } else if n == "HEAD"@ {
        Some(HttpMethod::Head)
    } else if n == "OPTIONS"@ {
        Some(HttpMethod::Options)
    } else {
        None
    }
}

/// The method an uppercased name selects, if any.
pub fn method_of_uppercased(name: &str) -> (r: Option<HttpMethod>)
    ensures
        r == method_of_name(name@),
{
    if str_eq(name, "GET") {
        Some(HttpMethod::Get)
    } else if str_eq(name, "POST") {
        Some(HttpMethod::Post)
    } else if str_eq(name, "PUT") {
        Some(HttpMethod::Put)
    } else if str_eq(name, "DELETE") {
        Some(HttpMethod::Delete)
    } else if str_eq(name, "PATCH") {
        Some(HttpMethod::Patch)
    } else if str_eq(name, "HEAD") {
        Some(HttpMethod::Head)
    } else if str_eq(name, "OPTIONS") {
        Some(HttpMethod::Options)
    } else {
        None
    }
}

/// The method of a web request: GET when none is given, otherwise the
/// given name compared in upper case; `None` for an unknown method, whose
/// requests all fail.
pub fn select_http_method(method: Option<&str>) -> (r: Option<HttpMethod>)
    ensures
        method is None ==> r == Some(HttpMethod::Get),
        method matches Some(m) ==> r == method_of_name(uppercased(m@)),
{
    match method {
        None => Some(HttpMethod::Get),
        Some(m) => {
            let upper = uppercase_str(m);
            method_of_uppercased(upper.as_str())
        },
    }
}

/// A web request passes when it returned in time with a success status.
pub open spec fn web_passed(status: Option<u16>) -> bool {
    status matches Some(s) && 200 <= s <= 299
}

/// Whether a web request passed; `None` stands for a timeout, a transport
/// error or an unknown method.
pub fn web_unit_succeeded(status: Option<u16>) -> (r: bool)
    ensures
        r == web_passed(status),
{
    match status {
        Some(s) => 200 <= s && s <= 299,
        None => false,
    }
}

/// The number of `true` entries.
pub open spec fn count_true(v: Seq<bool>) -> nat
    decreases v.len(),
{
    if v.len() == 0 {
        0
    } else {
        count_true(v.drop_last()) + if v.last() {
            1nat
        } else {
            0nat
        }
    }
}

proof fn lemma_count_true_bound(v: Seq<bool>)
    ensures
        count_true(v) <= v.len(),
    decreases v.len(),
{
    if v.len() > 0 {
        lemma_count_true_bound(v.drop_last());
    }
}

impl ModeResult {
    /// The summary of a download batch: successes are downloads, failures
    /// are errors and missing targets.
    pub fn for_download(total: usize, stats: &Stats, custom_data: Option<String>) -> (r: ModeResult)
        requires
            stats.errors + stats.not_found <= usize::MAX,
        ensures
            r.mode@ == "download"@,
            r.total == total,
            r.successful == stats.downloaded,
            r.failed == stats.errors + stats.not_found,
            r.errors@.len() == 0,
            r.custom_data == custom_data,
    {
        ModeResult {
            mode: String::from_str("download"),
            total,
            successful: stats.downloaded,
            failed: stats.errors + stats.not_found,
            errors: Vec::new(),
            custom_data,
        }
    }

    /// The summary of a web batch from the pass or fail of each request.
    pub fn for_web(total: usize, passed: &Vec<bool>, custom_data: Option<String>) -> (r: ModeResult)
        ensures
            r.mode@ == "webrequest"@,
            r.total == total,
            r.successful == count_true(passed@),
            r.successful + r.failed == passed@.len(),
            r.errors@.len() == 0,
            r.custom_data == custom_data,
    {
        let mut successful: usize = 0;
        let mut i: usize = 0;
        while i < passed.len()
            invariant
                i <= passed@.len(),
                successful == count_true(passed@.take(i as int)),
            decreases passed@.len() - i,
        {
            assert(passed@.take(i + 1).drop_last() =~= passed@.take(i as int));
            proof {
                lemma_count_true_bound(passed@.take(i as int));
            }
            if passed[i] {
                successful = successful + 1;
            }
            i = i + 1;
        }
        assert(passed@.take(passed@.len() as int) =~= passed@);
        proof {
            lemma_count_true_bound(passed@);
        }
        ModeResult {
            mode: String::from_str("webrequest"),
            total,
            successful,
            failed: passed.len() - successful,
            errors: Vec::new(),
            custom_data,
        }
    }
}

} // verus!
