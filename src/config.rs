use vstd::prelude::*;

verus! {

/// How a backend is picked among the healthy members of a pool.
#[derive(Clone, Copy, Debug, PartialEq, Eq, Structural)]
pub enum SelectionType {
    RoundRobin,
    Random,
    Fnv,
    Ketama,
}

/// Which request attribute feeds the selection key.
#[derive(Clone, Copy, Debug, PartialEq, Eq, Structural)]
pub enum HashOn {
    Vars,
    Head,
    Cookie,
}

/// Whether the client's `Host` header is passed through or rewritten.
#[derive(Clone, Copy, Debug, PartialEq, Eq, Structural)]
pub enum UpstreamPassHost {
    Pass,
    Rewrite,
}

/// Connection timeouts towards a backend, in seconds.
#[derive(Clone, Copy, Debug, PartialEq, Eq, Structural)]
pub struct Timeout {
    pub connect: u64,
    pub read: u64,
    pub send: u64,
}

/// One configured backend node.
#[derive(Clone, Debug)]
pub struct Node {
    pub addr: String,
    pub weight: u32,
}

/// Protocol of an active health probe.
#[derive(Clone, Copy, Debug, PartialEq, Eq, Structural)]
pub enum ActiveCheckType {
    Tcp,
    Http,
    Https,
}

/// Conditions under which a backend counts as healthy again.
#[derive(Clone, Debug)]
pub struct HealthyCheck {
    pub interval: u32,
    pub successes: u32,
    pub http_statuses: Vec<u16>,
}

/// Conditions under which a backend counts as unhealthy.
#[derive(Clone, Copy, Debug, PartialEq, Eq, Structural)]
pub struct UnhealthyCheck {
    pub tcp_failures: u32,
    pub http_failures: u32,
}

/// Parameters of the active probe of one upstream.
#[derive(Clone, Debug)]
pub struct ActiveCheck {
    pub check_type: ActiveCheckType,
    pub timeout: u32,
    pub http_path: String,
    pub host: Option<String>,
    pub port: Option<u16>,
    pub https_verify_certificate: bool,
    pub req_headers: Vec<String>,
    pub healthy: Option<HealthyCheck>,
    pub unhealthy: Option<UnhealthyCheck>,
}

/// Health checking configuration of one upstream.
#[derive(Clone, Debug)]
pub struct HealthCheck {
    pub active: ActiveCheck,
}

/// Configuration of one upstream: its backends and how requests reach them.
#[derive(Clone, Debug)]
pub struct Upstream {
    pub id: String,
    pub selection: SelectionType,
    pub hash_on: HashOn,
    pub key: String,
    pub nodes: Vec<Node>,
    pub pass_host: UpstreamPassHost,
    pub upstream_host: Option<String>,
    pub headers: Option<Vec<(String, String)>>,
    pub timeout: Option<Timeout>,
    pub retries: Option<u32>,
    pub retry_timeout: Option<u64>,
    pub checks: Option<HealthCheck>,
}

} // verus!

verus! {

/// Why a configuration cannot be loaded.
#[derive(Clone, Copy, Debug, PartialEq, Eq, Structural)]
pub enum ConfigError {
    /// An upstream lists no backend node.
    EmptyNodes,
    /// A backend node has weight zero.
    ZeroWeight,
    /// A backend address is not a socket address written as Rust prints one
    /// (`10.0.0.1:80`, `[::1]:80`).
    InvalidAddress,
    /// An upstream lists more nodes than a pool can index.
    TooManyNodes,
    /// The weights of an upstream's nodes add up to more than a hash ring can hold.
    TotalWeightTooLarge,
    /// Two upstreams share an identifier.
    DuplicateId,
}

} // verus!

verus! {

/// The part of the proxy configuration this library reads.
#[derive(Debug)]
pub struct Config {
    pub upstreams: Vec<Upstream>,
    pub work_stealing: bool,
}

} // verus!
