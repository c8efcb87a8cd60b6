use vstd::prelude::*;
use crate::config::{ActiveCheck, ActiveCheckType, HealthCheck};

verus! {

/// Protocol of a probe, fixed once when the plan is made.
#[derive(Clone, Copy, Debug, PartialEq, Eq, Structural)]
pub enum ProbeKind {
    Tcp,
    Http,
    Https,
}

/// Everything a prober needs to check the backends of one upstream,
/// resolved from the configuration with its defaults applied.
#[derive(Clone, Debug)]
pub struct ProbePlan {
    pub kind: ProbeKind,
    pub timeout_secs: u64,
    /// Expected `Host` of HTTP probes; empty when not configured.
    pub host: String,
    pub verify_cert: bool,
    /// Request path of HTTP probes; `None` when the configured path is not a
    /// valid URI path, in which case the probe keeps its default path.
    pub path: Option<String>,
    /// Request headers of HTTP probes as trimmed name and value.
    pub headers: Vec<(String, String)>,
    pub port_override: Option<u16>,
    pub consecutive_success: u64,
    pub consecutive_failure: u64,
    pub interval_secs: u64,
    /// Status codes that count as success; empty means any status.
    pub accepted_statuses: Vec<u16>,
}

/// Characters with the Unicode property White_Space.
pub open spec fn is_white_space(c: char) -> bool {
    let u = c as u32;
    (0x09 <= u && u <= 0x0D) || u == 0x20 || u == 0x85 || u == 0xA0 || u == 0x1680
        || (0x2000 <= u && u <= 0x200A) || u == 0x2028 || u == 0x2029 || u == 0x202F
        || u == 0x205F || u == 0x3000
}

/// `s` without its leading white space.
pub open spec fn trim_start_of(s: Seq<char>) -> Seq<char>
    decreases s.len(),
{
    if s.len() > 0 && is_white_space(s[0]) {
        trim_start_of(s.drop_first())
    } else {
        s
    }
}

/// `s` without its trailing white space.
pub open spec fn trim_end_of(s: Seq<char>) -> Seq<char>
    decreases s.len(),
{
    if s.len() > 0 && is_white_space(s.last()) {
        trim_end_of(s.drop_last())
    } else {
        s
    }
}

/// `s` without leading and trailing white space.
pub open spec fn trim_of(s: Seq<char>) -> Seq<char> {
    trim_end_of(trim_start_of(s))
}

/// Whether `http` accepts a string as the path and query of a URI.
pub uninterp spec fn uri_path_accepted(p: Seq<char>) -> bool;

/// Index of the first `:` in `s`, or -1 when there is none.
pub open spec fn first_colon(s: Seq<char>) -> int
    decreases s.len(),
{
    if s.len() == 0 {
        -1
    } else if s[0] == ':' {
        0
    } else {
        let r = first_colon(s.drop_first());
        if r < 0 {
            -1
        } else {
            r + 1
        }
    }
}

pub proof fn lemma_first_colon_bounds(s: Seq<char>)
    ensures
        -1 <= first_colon(s) < s.len(),
    decreases s.len(),
{
    if s.len() > 0 {
        lemma_first_colon_bounds(s.drop_first());
    }
}

/// A header line `name: value` split at its first colon and trimmed;
/// `None` for a line without a colon.
pub open spec fn header_of_line(line: Seq<char>) -> Option<(Seq<char>, Seq<char>)> {
    let i = first_colon(line);
    if i < 0 {
        None
    } else {
        Some((trim_of(line.subrange(0, i)), trim_of(line.subrange(i + 1, line.len() as int))))
    }
}

/// The headers given by a list of header lines, in order, skipping lines
/// without a colon.
pub open spec fn headers_of_lines(lines: Seq<Seq<char>>) -> Seq<(Seq<char>, Seq<char>)>
    decreases lines.len(),
{
    if lines.len() == 0 {
        Seq::empty()
    } else {
        let rest = headers_of_lines(lines.drop_last());
        match header_of_line(lines.last()) {
            Some(h) => rest.push(h),
            None => rest,
        }
    }
}

pub open spec fn pairs_view(v: Seq<(String, String)>) -> Seq<(Seq<char>, Seq<char>)> {
    v.map_values(|p: (String, String)| (p.0@, p.1@))
}

pub open spec fn strings_view(v: Seq<String>) -> Seq<Seq<char>> {
    v.map_values(|s: String| s@)
}

pub open spec fn kind_of(t: ActiveCheckType) -> ProbeKind {
    match t {
        ActiveCheckType::Tcp => ProbeKind::Tcp,
        ActiveCheckType::Http => ProbeKind::Http,
        ActiveCheckType::Https => ProbeKind::Https,
    }
}

/// Consecutive successes that make a backend healthy; 1 by default.
pub open spec fn success_threshold(c: ActiveCheck) -> u64 {
    match c.healthy {
        Some(h) => h.successes as u64,
        None => 1,
    }
}

/// Consecutive failures that make a backend unhealthy; TCP and HTTP
/// failures are configured apart, 1 by default.
pub open spec fn failure_threshold(c: ActiveCheck) -> u64 {
    match c.unhealthy {
        Some(u) => if c.check_type == ActiveCheckType::Tcp {
            u.tcp_failures as u64
        } else {
            u.http_failures as u64
        },
        None => 1,
    }
}

/// Seconds between two probe rounds; 1 by default.
pub open spec fn interval_of(c: ActiveCheck) -> u64 {
    match c.healthy {
        Some(h) => h.interval as u64,
        None => 1,
    }
}

/// Status codes accepted by HTTP probes; TCP probes read no status.
pub open spec fn statuses_of(c: ActiveCheck) -> Seq<u16> {
    match c.healthy {
        Some(h) => if c.check_type == ActiveCheckType::Tcp {
            Seq::empty()
        } else {
            h.http_statuses@
        },
        None => Seq::empty(),
    }
}

/// `r` is the probe plan of health check `c`: its kind, timeout, host,
/// certificate check, path (kept only when it is a valid URI path), parsed
/// headers, port override, thresholds, interval and accepted statuses.
pub open spec fn plan_of(c: HealthCheck, r: ProbePlan) -> bool {
    &&& r.kind == kind_of(c.active.check_type)
    &&& r.timeout_secs == c.active.timeout as u64
    &&& r.host@ == (match c.active.host {
        Some(h) => h@,
        None => Seq::<char>::empty(),
    })
    &&& r.verify_cert == c.active.https_verify_certificate
    &&& (uri_path_accepted(c.active.http_path@) ==> r.path.is_some() && r.path.unwrap()@
        == c.active.http_path@)
    &&& (!uri_path_accepted(c.active.http_path@) ==> r.path.is_none())
    &&& pairs_view(r.headers@) == headers_of_lines(strings_view(c.active.req_headers@))
    &&& r.port_override == c.active.port
    &&& r.consecutive_success == success_threshold(c.active)
    &&& r.consecutive_failure == failure_threshold(c.active)
    &&& r.interval_secs == interval_of(c.active)
    &&& r.accepted_statuses@ == statuses_of(c.active)
}

/// Relies on `str::split_once`: splits at the first occurrence of the
/// delimiter, or gives `None` when it does not occur.
#[verifier::external_body]
fn split_at_colon(s: &str) -> (r: Option<(&str, &str)>)
    ensures
        first_colon(s@) < 0 ==> r.is_none(),
        first_colon(s@) >= 0 ==> r.is_some() && r.unwrap().0@ == s@.subrange(0, first_colon(s@))
            && r.unwrap().1@ == s@.subrange(first_colon(s@) + 1, s@.len() as int),
{
    s.split_once(':')
}

/// Relies on `str::trim`: removes leading and trailing characters with the
/// Unicode White_Space property.
#[verifier::external_body]
fn trimmed(s: &str) -> (r: String)
    ensures
        r@ == trim_of(s@),
{
    s.trim().to_string()
}

/// Relies on `http::uri::Builder`: whether a URI with this path and query
/// builds without error.
#[verifier::external_body]
fn uri_path_ok(p: &str) -> (r: bool)
    ensures
        r == uri_path_accepted(p@),
{
    http::Uri::builder().path_and_query(p).build().is_ok()
}

/// Parses header lines of the form `name: value`, trimming both parts and
/// skipping lines without a colon.
pub fn parse_header_lines(lines: &Vec<String>) -> (r: Vec<(String, String)>)
    ensures
        pairs_view(r@) == headers_of_lines(strings_view(lines@)),
{
    let mut out: Vec<(String, String)> = Vec::new();
    let mut i: usize = 0;
    while i < lines.len()
        invariant
            i <= lines@.len(),
            pairs_view(out@) == headers_of_lines(strings_view(lines@.subrange(0, i as int))),
        decreases lines@.len() - i,
    {
        let line = lines[i].as_str();
        let ghost sub = strings_view(lines@.subrange(0, i as int + 1));
        assert(sub.drop_last() =~= strings_view(lines@.subrange(0, i as int)));
        assert(sub.last() == line@);
        proof {
            lemma_first_colon_bounds(line@);
        }
        match split_at_colon(line) {
            Some((k, v)) => {
                let name = trimmed(k);
                let value = trimmed(v);
                out.push((name, value));
                assert(pairs_view(out@) =~= headers_of_lines(sub));
            },
            None => {},
        }
        i = i + 1;
    }
    assert(lines@.subrange(0, lines@.len() as int) =~= lines@);
    out
}

impl ProbePlan {
    /// Resolves a health check configuration into a probe plan.
    pub fn from_config(check: &HealthCheck) -> (r: ProbePlan)
        ensures
            plan_of(*check, r),
    {
        let active = &check.active;
        let kind = match active.check_type {
            ActiveCheckType::Tcp => ProbeKind::Tcp,
            ActiveCheckType::Http => ProbeKind::Http,
            ActiveCheckType::Https => ProbeKind::Https,
        };
        let is_tcp = match active.check_type {
            ActiveCheckType::Tcp => true,
            _ => false,
        };
        let host = match &active.host {
            Some(h) => h.clone(),
            None => String::new(),
        };
        let path = if uri_path_ok(active.http_path.as_str()) {
            Some(active.http_path.clone())
        } else {
            None
        };
        let headers = parse_header_lines(&active.req_headers);
        let (consecutive_success, interval_secs, accepted_statuses) = match &active.healthy {
            Some(h) => {
                let statuses = if is_tcp {
                    Vec::new()
                } else {
                    h.http_statuses.clone()
                };
                (h.successes as u64, h.interval as u64, statuses)
            },
            None => (1u64, 1u64, Vec::new()),
        };
        let consecutive_failure: u64 = match &active.unhealthy {
            Some(u) => if is_tcp {
                u.tcp_failures as u64
            } else {
                u.http_failures as u64
            },
            None => 1,
        };
        ProbePlan {
            kind,
            timeout_secs: active.timeout as u64,
            host,
            verify_cert: active.https_verify_certificate,
            path,
            headers,
            port_override: active.port,
            consecutive_success,
            consecutive_failure,
            interval_secs,
            accepted_statuses,
        }
    }

    /// The port a probe connects to for a backend listening on `backend_port`.
    pub fn probe_port(&self, backend_port: u16) -> (r: u16)
        ensures
            r == match self.port_override {
                Some(p) => p,
                None => backend_port,
            },
    {
        match self.port_override {
            Some(p) => p,
            None => backend_port,
        }
    }

    /// Whether a probe response with this status counts as a success.
    pub fn status_accepted(&self, status: u16) -> (r: bool)
        ensures
            r == (self.accepted_statuses@.len() == 0 || self.accepted_statuses@.contains(status)),
    {
        if self.accepted_statuses.len() == 0 {
            return true;
        }
        let mut i: usize = 0;
        while i < self.accepted_statuses.len()
            invariant
                i <= self.accepted_statuses@.len(),
                forall|j: int| 0 <= j < i ==> self.accepted_statuses@[j] != status,
            decreases self.accepted_statuses@.len() - i,
        {
            if self.accepted_statuses[i] == status {
                return true;
            }
            i = i + 1;
        }
        false
    }
}

} // verus!
