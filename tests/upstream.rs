use upstream_core::config::{
    ActiveCheck, ActiveCheckType, Config, ConfigError, HashOn, HealthCheck, HealthyCheck, Node,
    SelectionType, Timeout, UnhealthyCheck, Upstream, UpstreamPassHost,
};
use upstream_core::health::{BackendHealth, HealthStatus};
use upstream_core::probe::{parse_header_lines, ProbeKind, ProbePlan};
use upstream_core::registry::{load_static_upstreams, upstream_fetch, Registry};
use upstream_core::select::Pool;
use upstream_core::upstream::{set_header, ProxyUpstream};

fn nodes(addrs: &[&str], weights: &[u32]) -> Vec<Node> {
    addrs
        .iter()
        .zip(weights.iter())
        .map(|(a, w)| Node { addr: a.to_string(), weight: *w })
        .collect()
}

fn upstream(id: &str, selection: SelectionType, ns: Vec<Node>) -> Upstream {
    Upstream {
        id: id.to_string(),
        selection,
        hash_on: HashOn::Vars,
        key: "uri".to_string(),
        nodes: ns,
        pass_host: UpstreamPassHost::Pass,
        upstream_host: None,
        headers: None,
        timeout: None,
        retries: None,
        retry_timeout: None,
        checks: None,
    }
}

fn active(check_type: ActiveCheckType) -> ActiveCheck {
    ActiveCheck {
        check_type,
        timeout: 3,
        http_path: "/health".to_string(),
        host: None,
        port: None,
        https_verify_certificate: false,
        req_headers: vec![],
        healthy: None,
        unhealthy: None,
    }
}

fn ten_addrs() -> Vec<String> {
    (1..=10).map(|i| format!("10.0.0.{}:8080", i)).collect()
}

fn all_unhealthy(u: &mut ProxyUpstream) {
    for i in 0..u.pool.backends.len() {
        u.record_probe(i, false);
    }
}

#[test]
fn failures_below_threshold_keep_backend_healthy() {
    let mut h = BackendHealth::new();
    h.observe(true, 2, 3);
    assert_eq!(h.status, HealthStatus::Healthy);
    h.observe(false, 2, 3);
    h.observe(false, 2, 3);
    assert_eq!(h.status, HealthStatus::Healthy);
    assert!(h.is_selectable());
    h.observe(false, 2, 3);
    assert_eq!(h.status, HealthStatus::Unhealthy);
    assert!(!h.is_selectable());
    assert_eq!(h.consecutive_failure, 3);
}

#[test]
fn recovery_needs_healthy_threshold_successes() {
    let mut h = BackendHealth::new();
    h.observe(false, 2, 1);
    assert_eq!(h.status, HealthStatus::Unhealthy);
    h.observe(true, 2, 1);
    assert_eq!(h.status, HealthStatus::Unhealthy);
    h.observe(true, 2, 1);
    assert_eq!(h.status, HealthStatus::Healthy);
    assert_eq!(h.consecutive_success, 2);
    assert_eq!(h.consecutive_failure, 0);
}

#[test]
fn a_success_resets_the_failure_run() {
    let mut h = BackendHealth::new();
    h.observe(false, 1, 2);
    h.observe(true, 1, 2);
    h.observe(false, 1, 2);
    assert_eq!(h.status, HealthStatus::Healthy);
    h.observe(false, 1, 2);
    assert_eq!(h.status, HealthStatus::Unhealthy);
}

#[test]
fn unknown_backend_is_selectable_before_any_probe() {
    let h = BackendHealth::new();
    assert_eq!(h.status, HealthStatus::Unknown);
    assert!(h.is_selectable());
    let u = ProxyUpstream::new_with_health_check(
        upstream("u", SelectionType::RoundRobin, nodes(&["127.0.0.1:80"], &[1])),
        false,
    )
    .unwrap();
    let b = u.select_backend(b"k", 0, 0).unwrap();
    assert_eq!(b.addr, "127.0.0.1:80");
}

#[test]
fn ketama_removal_moves_only_keys_of_removed_backend() {
    let addrs = ten_addrs();
    let refs: Vec<&str> = addrs.iter().map(|s| s.as_str()).collect();
    let full = ProxyUpstream::new_with_health_check(
        upstream("k", SelectionType::Ketama, nodes(&refs, &[1; 10])),
        false,
    )
    .unwrap();
    let removed = "10.0.0.4:8080";
    let rest: Vec<&str> = refs.iter().copied().filter(|a| *a != removed).collect();
    let smaller = ProxyUpstream::new_with_health_check(
        upstream("k", SelectionType::Ketama, nodes(&rest, &[1; 9])),
        false,
    )
    .unwrap();
    let mut moved = 0;
    let mut on_removed = 0;
    for n in 0..10_000u32 {
        let key = format!("key-{}", n.wrapping_mul(2654435761));
        let before = full.select_backend(key.as_bytes(), 0, 0).unwrap().addr;
        let after = smaller.select_backend(key.as_bytes(), 0, 0).unwrap().addr;
        if before == removed {
            on_removed += 1;
        } else if before != after {
            moved += 1;
        }
    }
    assert_eq!(moved, 0);
    assert!(on_removed > 0);
}

#[test]
fn hash_selection_is_deterministic() {
    let addrs = ten_addrs();
    let refs: Vec<&str> = addrs.iter().map(|s| s.as_str()).collect();
    for kind in [SelectionType::Fnv, SelectionType::Ketama] {
        let u = ProxyUpstream::new_with_health_check(upstream("d", kind, nodes(&refs, &[1; 10])), false)
            .unwrap();
        let first = u.select_backend(b"session-42", 0, 0).unwrap().index;
        for t in 1..50u64 {
            assert_eq!(u.select_backend(b"session-42", t, t * 7919).unwrap().index, first);
        }
    }
}

#[test]
fn fnv_hash_picks_weighted_slot() {
    // FNV-1a of "a" is 0xaf63dc4c8601ec8c (even), of "b" 0xaf63df4c8601f1a5 (odd).
    let u = ProxyUpstream::new_with_health_check(
        upstream("f", SelectionType::Fnv, nodes(&["10.0.0.1:80", "10.0.0.2:80"], &[1, 1])),
        false,
    )
    .unwrap();
    assert_eq!(u.select_backend(b"a", 0, 0).unwrap().index, 0);
    assert_eq!(u.select_backend(b"b", 0, 0).unwrap().index, 1);
}

#[test]
fn round_robin_spreads_evenly() {
    let u = ProxyUpstream::new_with_health_check(
        upstream(
            "rr",
            SelectionType::RoundRobin,
            nodes(&["10.0.0.1:80", "10.0.0.2:80", "10.0.0.3:80"], &[1, 1, 1]),
        ),
        false,
    )
    .unwrap();
    let mut counts = [0u32; 3];
    for t in 0..300u64 {
        counts[u.select_backend(b"ignored", t, 0).unwrap().index] += 1;
    }
    for c in counts {
        assert!((95..=105).contains(&c));
    }
    assert_eq!(counts, [100, 100, 100]);
}

#[test]
fn round_robin_follows_weights() {
    let u = ProxyUpstream::new_with_health_check(
        upstream("w", SelectionType::RoundRobin, nodes(&["10.0.0.1:80", "10.0.0.2:80"], &[2, 1])),
        false,
    )
    .unwrap();
    let picks: Vec<usize> = (0..6u64).map(|t| u.select_backend(b"", t, 0).unwrap().index).collect();
    assert_eq!(picks, vec![0, 0, 1, 0, 0, 1]);
}

#[test]
fn random_uses_the_given_number() {
    let u = ProxyUpstream::new_with_health_check(
        upstream("r", SelectionType::Random, nodes(&["10.0.0.1:80", "10.0.0.2:80"], &[1, 3])),
        false,
    )
    .unwrap();
    assert_eq!(u.select_backend(b"", 0, 0).unwrap().index, 0);
    assert_eq!(u.select_backend(b"", 0, 1).unwrap().index, 1);
    assert_eq!(u.select_backend(b"", 0, 7).unwrap().index, 1);
    assert_eq!(u.select_backend(b"", 0, 8).unwrap().index, 0);
}

#[test]
fn unhealthy_backend_is_skipped() {
    let mut up = upstream(
        "s",
        SelectionType::RoundRobin,
        nodes(&["10.0.0.1:80", "10.0.0.2:80", "10.0.0.3:80"], &[1, 1, 1]),
    );
    up.checks = Some(HealthCheck { active: active(ActiveCheckType::Tcp) });
    let mut u = ProxyUpstream::new_with_health_check(up, false).unwrap();
    u.record_probe(0, false);
    assert_eq!(u.select_backend(b"", 0, 0).unwrap().index, 1);
    assert_eq!(u.select_backend(b"", 2, 0).unwrap().index, 2);
}

#[test]
fn all_backends_unhealthy_selects_nothing() {
    let addrs = ten_addrs();
    let refs: Vec<&str> = addrs.iter().map(|s| s.as_str()).collect();
    for kind in [
        SelectionType::RoundRobin,
        SelectionType::Random,
        SelectionType::Fnv,
        SelectionType::Ketama,
    ] {
        let mut up = upstream("x", kind, nodes(&refs, &[1; 10]));
        up.checks = Some(HealthCheck { active: active(ActiveCheckType::Http) });
        let mut u = ProxyUpstream::new_with_health_check(up, false).unwrap();
        all_unhealthy(&mut u);
        for t in 0..20u64 {
            assert!(u.select_backend(format!("k{}", t).as_bytes(), t, t).is_none());
        }
    }
}

#[test]
fn configured_header_overrides_request_header() {
    let mut up = upstream("h", SelectionType::RoundRobin, nodes(&["10.0.0.1:80"], &[1]));
    up.headers = Some(vec![("X-Env".to_string(), "prod".to_string())]);
    let u = ProxyUpstream::new_with_health_check(up, false).unwrap();
    let mut req = vec![
        ("Accept".to_string(), "*/*".to_string()),
        ("X-Env".to_string(), "staging".to_string()),
        ("x-env".to_string(), "dev".to_string()),
    ];
    u.upstream_header_rewrite(&mut req);
    assert_eq!(
        req,
        vec![
            ("Accept".to_string(), "*/*".to_string()),
            ("X-Env".to_string(), "prod".to_string()),
        ]
    );
}

#[test]
fn header_is_added_when_absent() {
    let mut req = vec![("Accept".to_string(), "*/*".to_string())];
    set_header(&mut req, &"X-Trace".to_string(), &"1".to_string());
    assert_eq!(req.len(), 2);
    assert_eq!(req[1], ("X-Trace".to_string(), "1".to_string()));
}

#[test]
fn host_rewrite_only_in_rewrite_mode() {
    let mut up = upstream("h", SelectionType::RoundRobin, nodes(&["10.0.0.1:80"], &[1]));
    up.upstream_host = Some("backend.internal".to_string());
    let pass = ProxyUpstream::new_with_health_check(up.clone(), false).unwrap();
    assert_eq!(pass.upstream_host_rewrite(), None);
    up.pass_host = UpstreamPassHost::Rewrite;
    let rewrite = ProxyUpstream::new_with_health_check(up.clone(), false).unwrap();
    assert_eq!(rewrite.upstream_host_rewrite(), Some("backend.internal".to_string()));
    up.upstream_host = None;
    let no_host = ProxyUpstream::new_with_health_check(up, false).unwrap();
    assert_eq!(no_host.upstream_host_rewrite(), None);
}

#[test]
fn retry_policy_and_timeouts_are_exposed() {
    let mut up = upstream("t", SelectionType::RoundRobin, nodes(&["10.0.0.1:80"], &[1]));
    up.retries = Some(3);
    up.retry_timeout = Some(15);
    up.timeout = Some(Timeout { connect: 1, read: 2, send: 3 });
    let u = ProxyUpstream::new_with_health_check(up, true).unwrap();
    assert_eq!(u.get_retries(), Some(3));
    assert_eq!(u.get_retry_timeout(), Some(15));
    assert_eq!(u.id(), "t");
    assert!(u.work_stealing);
    let b = u.select_backend(b"", 0, 0).unwrap();
    assert_eq!(b.timeout, Some(Timeout { connect: 1, read: 2, send: 3 }));
    let none = ProxyUpstream::new_with_health_check(
        upstream("n", SelectionType::RoundRobin, nodes(&["10.0.0.1:80"], &[1])),
        false,
    )
    .unwrap();
    assert_eq!(none.get_retries(), None);
    assert_eq!(none.get_retry_timeout(), None);
}

#[test]
fn empty_node_list_is_rejected() {
    let r = ProxyUpstream::new_with_health_check(upstream("e", SelectionType::RoundRobin, vec![]), false);
    assert_eq!(r.err(), Some(ConfigError::EmptyNodes));
    let mut reg = Registry::new();
    let ok = Config {
        upstreams: vec![upstream("a", SelectionType::Fnv, nodes(&["10.0.0.1:80"], &[1]))],
        work_stealing: false,
    };
    assert_eq!(load_static_upstreams(&mut reg, ok), Ok(()));
    let bad = Config {
        upstreams: vec![
            upstream("b", SelectionType::Fnv, nodes(&["10.0.0.2:80"], &[1])),
            upstream("c", SelectionType::Fnv, vec![]),
        ],
        work_stealing: false,
    };
    assert_eq!(load_static_upstreams(&mut reg, bad), Err(ConfigError::EmptyNodes));
    assert!(upstream_fetch(&reg, "a").is_some());
    assert!(upstream_fetch(&reg, "b").is_none());
}

#[test]
fn other_node_errors() {
    let zero = ProxyUpstream::new_with_health_check(
        upstream("z", SelectionType::RoundRobin, nodes(&["10.0.0.1:80", "10.0.0.2:80"], &[1, 0])),
        false,
    );
    assert_eq!(zero.err(), Some(ConfigError::ZeroWeight));
    let heavy = ProxyUpstream::new_with_health_check(
        upstream(
            "w",
            SelectionType::Ketama,
            nodes(&["10.0.0.1:80", "10.0.0.2:80"], &[20_000_000, 20_000_000]),
        ),
        false,
    );
    assert_eq!(heavy.err(), Some(ConfigError::TotalWeightTooLarge));
    let many: Vec<Node> = (0..65_536u32)
        .map(|i| Node { addr: format!("10.{}.{}.1:80", i / 256, i % 256), weight: 1 })
        .collect();
    let too_many = ProxyUpstream::new_with_health_check(upstream("m", SelectionType::Fnv, many), false);
    assert_eq!(too_many.err(), Some(ConfigError::TooManyNodes));
}

#[test]
fn duplicate_identifiers_are_rejected() {
    let mut reg = Registry::new();
    let cfg = Config {
        upstreams: vec![
            upstream("a", SelectionType::Fnv, nodes(&["10.0.0.1:80"], &[1])),
            upstream("a", SelectionType::Fnv, nodes(&["10.0.0.2:80"], &[1])),
        ],
        work_stealing: false,
    };
    assert_eq!(load_static_upstreams(&mut reg, cfg), Err(ConfigError::DuplicateId));
    assert!(reg.units.is_empty());
}

#[test]
fn reload_replaces_the_whole_registry() {
    let mut reg = Registry::new();
    let first = Config {
        upstreams: vec![
            upstream("a", SelectionType::Fnv, nodes(&["10.0.0.1:80"], &[1])),
            upstream("b", SelectionType::Fnv, nodes(&["10.0.0.2:80"], &[1])),
        ],
        work_stealing: false,
    };
    assert_eq!(load_static_upstreams(&mut reg, first), Ok(()));
    let second = Config {
        upstreams: vec![
            upstream("b", SelectionType::Fnv, nodes(&["10.0.0.9:80"], &[1])),
            upstream("c", SelectionType::Fnv, nodes(&["10.0.0.3:80"], &[1])),
        ],
        work_stealing: true,
    };
    assert_eq!(load_static_upstreams(&mut reg, second), Ok(()));
    assert!(upstream_fetch(&reg, "a").is_none());
    let b = upstream_fetch(&reg, "b").unwrap();
    assert_eq!(b.pool.backends[0].addr, "10.0.0.9:80");
    assert!(b.work_stealing);
    assert_eq!(upstream_fetch(&reg, "c").unwrap().id(), "c");
    assert!(upstream_fetch(&reg, "missing").is_none());
}

#[test]
fn tcp_probe_plan_defaults() {
    let plan = ProbePlan::from_config(&HealthCheck { active: active(ActiveCheckType::Tcp) });
    assert_eq!(plan.kind, ProbeKind::Tcp);
    assert_eq!(plan.timeout_secs, 3);
    assert_eq!(plan.consecutive_success, 1);
    assert_eq!(plan.consecutive_failure, 1);
    assert_eq!(plan.interval_secs, 1);
    assert!(plan.accepted_statuses.is_empty());
    assert_eq!(plan.host, "");
}

#[test]
fn tcp_and_http_failures_are_configured_apart() {
    let mut a = active(ActiveCheckType::Tcp);
    a.unhealthy = Some(UnhealthyCheck { tcp_failures: 4, http_failures: 6 });
    a.healthy = Some(HealthyCheck { interval: 5, successes: 2, http_statuses: vec![200] });
    let tcp = ProbePlan::from_config(&HealthCheck { active: a.clone() });
    assert_eq!(tcp.consecutive_failure, 4);
    assert_eq!(tcp.consecutive_success, 2);
    assert_eq!(tcp.interval_secs, 5);
    assert!(tcp.accepted_statuses.is_empty());
    a.check_type = ActiveCheckType::Https;
    a.https_verify_certificate = true;
    let https = ProbePlan::from_config(&HealthCheck { active: a });
    assert_eq!(https.kind, ProbeKind::Https);
    assert_eq!(https.consecutive_failure, 6);
    assert_eq!(https.accepted_statuses, vec![200]);
    assert!(https.verify_cert);
}

#[test]
fn http_probe_plan_reads_path_headers_and_host() {
    let mut a = active(ActiveCheckType::Http);
    a.host = Some("svc.local".to_string());
    a.port = Some(9000);
    a.req_headers = vec![
        " X-Probe : yes ".to_string(),
        "no-colon".to_string(),
        "Auth: a:b".to_string(),
    ];
    let plan = ProbePlan::from_config(&HealthCheck { active: a.clone() });
    assert_eq!(plan.host, "svc.local");
    assert_eq!(plan.port_override, Some(9000));
    assert_eq!(plan.path, Some("/health".to_string()));
    assert_eq!(
        plan.headers,
        vec![
            ("X-Probe".to_string(), "yes".to_string()),
            ("Auth".to_string(), "a:b".to_string()),
        ]
    );
    a.http_path = "/bad path".to_string();
    let bad = ProbePlan::from_config(&HealthCheck { active: a });
    assert_eq!(bad.path, None);
}

#[test]
fn header_lines_are_split_at_first_colon() {
    let parsed = parse_header_lines(&vec!["k:v".to_string(), ":x".to_string(), "a : ".to_string()]);
    assert_eq!(
        parsed,
        vec![
            ("k".to_string(), "v".to_string()),
            ("".to_string(), "x".to_string()),
            ("a".to_string(), "".to_string()),
        ]
    );
}

#[test]
fn status_allow_list() {
    let mut a = active(ActiveCheckType::Http);
    let any = ProbePlan::from_config(&HealthCheck { active: a.clone() });
    assert!(any.status_accepted(503));
    a.healthy = Some(HealthyCheck { interval: 1, successes: 1, http_statuses: vec![200, 204] });
    let listed = ProbePlan::from_config(&HealthCheck { active: a });
    assert!(listed.status_accepted(204));
    assert!(!listed.status_accepted(500));
}

#[test]
fn pool_total_weight_and_observe() {
    let mut pool = Pool::from_nodes(&nodes(&["10.0.0.1:80", "10.0.0.2:80"], &[3, 4])).unwrap();
    assert_eq!(pool.total_weight(), 7);
    pool.observe(1, false, 1, 1);
    assert_eq!(pool.backends[1].health.status, HealthStatus::Unhealthy);
    assert_eq!(pool.backends[0].health.status, HealthStatus::Unknown);
    assert_eq!(pool.select(SelectionType::RoundRobin, b"", 5, 0), Some(0));
}

#[test]
fn set_id_renames_only() {
    let mut u = ProxyUpstream::new_with_health_check(
        upstream("old", SelectionType::RoundRobin, nodes(&["10.0.0.1:80"], &[1])),
        false,
    )
    .unwrap();
    u.set_id("new".to_string());
    assert_eq!(u.id(), "new");
    assert_eq!(u.inner.selection, SelectionType::RoundRobin);
    assert_eq!(u.pool.backends.len(), 1);
}

#[test]
fn non_canonical_addresses_are_rejected() {
    for bad in ["localhost:8080", "127.0.0.1:080", "[0::1]:80", "10.0.0.1"] {
        let r = ProxyUpstream::new_with_health_check(
            upstream("a", SelectionType::Ketama, nodes(&[bad], &[1])),
            false,
        );
        assert_eq!(r.err(), Some(ConfigError::InvalidAddress));
    }
    let ok = ProxyUpstream::new_with_health_check(
        upstream("a", SelectionType::Ketama, nodes(&["[::1]:80"], &[1])),
        false,
    );
    assert!(ok.is_ok());
}

#[test]
fn fresh_ketama_upstream_selects_its_only_backend() {
    for addr in ["127.0.0.1:80", "[::1]:8443"] {
        let mut up = upstream("k1", SelectionType::Ketama, nodes(&[addr], &[1]));
        up.checks = Some(HealthCheck { active: active(ActiveCheckType::Tcp) });
        let mut u = ProxyUpstream::new_with_health_check(up, false).unwrap();
        assert_eq!(u.select_backend(b"any", 0, 0).unwrap().addr, addr);
        u.record_probe(0, false);
        assert!(u.select_backend(b"any", 0, 0).is_none());
    }
}

#[test]
fn configured_failure_threshold_applies() {
    let mut a = active(ActiveCheckType::Http);
    a.unhealthy = Some(UnhealthyCheck { tcp_failures: 1, http_failures: 3 });
    let mut up = upstream("f3", SelectionType::Fnv, nodes(&["10.0.0.1:80"], &[1]));
    up.checks = Some(HealthCheck { active: a });
    let mut u = ProxyUpstream::new_with_health_check(up, false).unwrap();
    u.record_probe(0, false);
    u.record_probe(0, false);
    assert!(u.select_backend(b"k", 0, 0).is_some());
    u.record_probe(0, false);
    assert!(u.select_backend(b"k", 0, 0).is_none());
}

#[test]
fn probe_port_override() {
    let mut a = active(ActiveCheckType::Tcp);
    let plain = ProbePlan::from_config(&HealthCheck { active: a.clone() });
    assert_eq!(plain.probe_port(8080), 8080);
    a.port = Some(9000);
    let over = ProbePlan::from_config(&HealthCheck { active: a });
    assert_eq!(over.probe_port(8080), 9000);
}

#[test]
fn header_trim_strips_unicode_white_space() {
    let parsed = parse_header_lines(&vec!["\u{3000}X-A\u{a0}:\t b \u{2028}".to_string()]);
    assert_eq!(parsed, vec![("X-A".to_string(), "b".to_string())]);
}
