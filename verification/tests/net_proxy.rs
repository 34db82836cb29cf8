use agent_bridle_core::{
    copy_step, guard_target, is_internal_ip, net_egress_proxy_hosts, open_session,
    parse_request_line, proxy_env, push_bounded_host, response_text, split_host_port, Admission,
    AuditSink, Caveats, CopyEvent, DialAddress, Evidence, HeaderBlock, HostPolicy, IpAddress,
    Lifecycle, NetAuditEvent, NetDecision, NetKind, NullSink, Opening, ProxyFinalizeError,
    ProxyLedger, Scope, SessionEnd, Target, WorkerExit, DEFAULT_WORKER_CAP, MAX_HEAD,
    MAX_REFUSED_HOSTS, MAX_REFUSED_HOST_BYTES,
};

fn only(items: &[&str]) -> Scope<String> {
    Scope::only(items.iter().map(|s| s.to_string()).collect())
}

#[test]
fn start_egress_proxy_is_none_for_non_proxy_grants() {
    let all = Caveats::top();
    assert!(net_egress_proxy_hosts(&all).is_none(), "net: All");
    let deny = Caveats {
        net: only(&[]),
        ..Caveats::top()
    };
    assert!(net_egress_proxy_hosts(&deny).is_none(), "deny-all");
    let loopback = Caveats {
        net: only(&["localhost"]),
        ..Caveats::top()
    };
    assert!(net_egress_proxy_hosts(&loopback).is_none(), "loopback-only");
}

#[test]
fn a_remote_host_grant_calls_for_the_proxy() {
    let granted = Caveats {
        net: only(&["b.example", "api.example.com"]),
        ..Caveats::top()
    };
    assert_eq!(
        net_egress_proxy_hosts(&granted),
        Some(vec!["api.example.com".to_string(), "b.example".to_string()])
    );
}

#[test]
fn guard_target_refuses_internal_permits_loopback_and_global() {
    let v6 = |first: u16, last: u16| IpAddress::V6([first, 0, 0, 0, 0, 0, 0, last]);
    let refused: [IpAddress; 7] = [
        IpAddress::V4([10, 0, 0, 5]),
        IpAddress::V4([172, 16, 9, 9]),
        IpAddress::V4([192, 168, 1, 1]),
        IpAddress::V4([169, 254, 169, 254]),
        IpAddress::V4([100, 64, 0, 1]),
        v6(0xfe80, 1),
        v6(0xfc00, 1),
    ];
    for ip in refused {
        assert!(is_internal_ip(&ip), "{ip:?} must classify as internal");
        assert!(
            guard_target(DialAddress { ip, port: 80 }).is_err(),
            "{ip:?} must be refused"
        );
    }
    let allowed = [
        IpAddress::V4([127, 0, 0, 1]),
        v6(0, 1),
        IpAddress::V4([8, 8, 8, 8]),
        IpAddress::V4([1, 1, 1, 1]),
        IpAddress::V6([0x2606, 0x4700, 0x4700, 0, 0, 0, 0, 0x1111]),
    ];
    for ip in allowed {
        assert!(!is_internal_ip(&ip), "{ip:?} must be permitted");
        assert!(
            guard_target(DialAddress { ip, port: 443 }).is_ok(),
            "{ip:?} must be permitted"
        );
    }
}

#[test]
fn the_edges_of_the_internal_ranges_are_exact() {
    let internal = |o: [u8; 4]| is_internal_ip(&IpAddress::V4(o));
    assert!(!internal([172, 15, 0, 1]) && internal([172, 31, 255, 255]));
    assert!(!internal([172, 32, 0, 1]));
    assert!(!internal([100, 63, 0, 1]) && internal([100, 127, 0, 1]));
    assert!(!internal([100, 128, 0, 1]));
    assert!(internal([0, 0, 0, 0]) && !internal([0, 0, 0, 1]));
    assert!(internal([255, 255, 255, 255]));
    let segment = |s: u16| is_internal_ip(&IpAddress::V6([s, 0, 0, 0, 0, 0, 0, 0]));
    assert!(segment(0) && segment(0xfdff) && segment(0xfebf));
    assert!(!segment(0xfbff) && !segment(0xfe00) && !segment(0xfec0));
    assert_eq!(
        guard_target(DialAddress {
            ip: IpAddress::V4([10, 0, 0, 1]),
            port: 1
        })
        .unwrap_err(),
        "SSRF-guard: refusing to proxy to an internal (non-loopback) address"
    );
}

#[test]
fn parses_connect() {
    assert_eq!(
        parse_request_line("CONNECT example.com:443 HTTP/1.1\r\n"),
        Some(Target::Connect {
            host: "example.com".to_string(),
            port: 443
        })
    );
    assert_eq!(
        parse_request_line("CONNECT example.com HTTP/1.1"),
        Some(Target::Connect {
            host: "example.com".to_string(),
            port: 443
        })
    );
}

#[test]
fn parses_http_absolute_form_and_rewrites_to_origin_form() {
    let t = parse_request_line("GET http://example.com/a/b?q=1 HTTP/1.1\r\n").unwrap();
    assert_eq!(
        t,
        Target::Http {
            host: "example.com".to_string(),
            port: 80,
            origin_line: "GET /a/b?q=1 HTTP/1.1\r\n".to_string(),
        }
    );
    let t = parse_request_line("HEAD http://h:8080 HTTP/1.0").unwrap();
    assert_eq!(
        t,
        Target::Http {
            host: "h".to_string(),
            port: 8080,
            origin_line: "HEAD / HTTP/1.0\r\n".to_string(),
        }
    );
}

#[test]
fn parses_ipv6_authority() {
    assert_eq!(
        parse_request_line("CONNECT [::1]:8443 HTTP/1.1"),
        Some(Target::Connect {
            host: "::1".to_string(),
            port: 8443
        })
    );
}

#[test]
fn rejects_malformed_and_unspoken_schemes() {
    assert!(parse_request_line("GET / HTTP/1.1").is_none());
    assert!(parse_request_line("GET https://x/ HTTP/1.1").is_none());
    assert!(parse_request_line("GET ftp://x/ HTTP/1.1").is_none());
    assert!(parse_request_line("garbage").is_none());
    assert!(parse_request_line("CONNECT x:notaport HTTP/1.1").is_none());
}

#[test]
fn ports_are_decimal_and_fit() {
    assert_eq!(split_host_port("h", 80), Some(("h".to_string(), 80)));
    assert_eq!(split_host_port("h:65535", 80), Some(("h".to_string(), 65535)));
    assert_eq!(split_host_port("h:65536", 80), None);
    assert_eq!(split_host_port("[::1]", 80), Some(("::1".to_string(), 80)));
}

// ── Whole connections, over memory ──────────────────────────────────────────

/// What a scripted connection came to.
struct Outcome {
    client: String,
    origin: String,
    audit: Vec<NetAuditEvent>,
    refused: Vec<String>,
}

fn lines_of(text: &str) -> Vec<String> {
    text.split_inclusive('\n').map(|l| l.to_string()).collect()
}

/// Runs one connection: `reply` is what the origin answers, or none where it
/// cannot be reached.
fn drive(request: &str, policy: &HostPolicy, ledger: &mut ProxyLedger, reply: Option<&str>) -> Outcome {
    let lines = lines_of(request);
    let mut client = String::new();
    let mut origin = String::new();
    let mut audit = Vec::new();
    match open_session(&lines[0], policy, ledger) {
        Opening::Malformed { response } => client.push_str(&response),
        Opening::Denied {
            requested,
            response,
        } => {
            audit.push(requested.audit(SessionEnd::Denied, 1, 0));
            client.push_str(&response);
        }
        Opening::Dial { requested } => {
            let mut block = HeaderBlock::new();
            let mut used = 1;
            while used < lines.len() && !block.is_closed() {
                block = block.with_line(lines[used].clone());
                used += 1;
            }
            let rest: String = lines[used..].concat();
            match reply {
                None => {
                    audit.push(requested.audit(SessionEnd::Unreachable, 1, 0));
                    client.push_str(&requested.unreachable());
                }
                Some(reply) => {
                    let preamble = requested.preamble(block.lines());
                    client.push_str(&preamble.to_client);
                    origin.push_str(&preamble.to_origin);
                    origin.push_str(&rest);
                    client.push_str(reply);
                    audit.push(requested.audit(
                        SessionEnd::Finished {
                            bytes_up: rest.len() as u64,
                            bytes_down: reply.len() as u64,
                        },
                        1,
                        2,
                    ));
                }
            }
        }
    }
    Outcome {
        client,
        origin,
        audit,
        refused: ledger.refused_hosts(),
    }
}

fn drive_with(request: &str, hosts: &[&str], reply: Option<&str>) -> Outcome {
    let policy = HostPolicy::new(hosts.iter().map(|h| h.to_string()).collect());
    let mut ledger = ProxyLedger::new(DEFAULT_WORKER_CAP);
    drive(request, &policy, &mut ledger, reply)
}

#[test]
fn allowed_http_host_is_forwarded_to_origin() {
    let out = drive_with(
        "GET http://allowed.test/x HTTP/1.1\r\nHost: ignored\r\nConnection: close\r\n\r\n",
        &["allowed.test"],
        Some("HTTP/1.1 200 OK\r\nContent-Length: 6\r\nConnection: close\r\n\r\norigin"),
    );
    assert!(out.client.contains("200"), "client saw: {}", out.client);
    assert!(
        out.client.contains("origin"),
        "the origin's body must reach the client: {}",
        out.client
    );
    assert!(
        out.origin.starts_with("GET /x HTTP/1.1"),
        "origin must receive the origin-form request: {}",
        out.origin
    );
    assert!(out.refused.is_empty(), "an allowed host is not refused");
}

#[test]
fn disallowed_http_host_is_refused_403_without_reaching_origin() {
    let out = drive_with(
        "GET http://evil.test/x HTTP/1.1\r\nHost: ignored\r\n\r\n",
        &["allowed.test"],
        None,
    );
    assert!(
        out.client.contains("403"),
        "denied host must get 403: {}",
        out.client
    );
    assert!(
        !out.client.contains("502"),
        "the origin must not be dialled for a denied host: {}",
        out.client
    );
    assert!(out.origin.is_empty(), "origin must see nothing");
}

#[test]
fn unreachable_allowed_origin_yields_502() {
    let out = drive_with(
        "GET http://allowed.test/x HTTP/1.1\r\nHost: ignored\r\n\r\n",
        &["allowed.test"],
        None,
    );
    assert!(
        out.client.contains("502"),
        "an unreachable allowed origin must get 502: {}",
        out.client
    );
    let ev = out.audit.iter().find(|e| e.host == "allowed.test").unwrap();
    assert_eq!(ev.decision, NetDecision::Error);
}

#[test]
fn malformed_request_yields_400_and_no_audit() {
    let out = drive_with("GET / HTTP/1.1\r\n\r\n", &["allowed.test"], None);
    assert!(out.client.contains("400"));
    assert!(
        out.audit.is_empty(),
        "a malformed request is not an egress event: {:?}",
        out.audit
    );
    assert!(out.refused.is_empty());
}

#[test]
fn refused_hosts_surfaces_denied_hosts_deduped_and_omits_allowed() {
    let policy = HostPolicy::new(vec!["allowed.test".to_string()]);
    let mut ledger = ProxyLedger::new(DEFAULT_WORKER_CAP);
    let ok = "HTTP/1.1 200 OK\r\nContent-Length: 0\r\n\r\n";
    for (request, reply) in [
        ("GET http://allowed.test/x HTTP/1.1\r\nHost: a\r\n\r\n", Some(ok)),
        ("GET http://evil.test/y HTTP/1.1\r\nHost: a\r\n\r\n", None),
        ("GET http://evil.test/z HTTP/1.1\r\nHost: a\r\n\r\n", None),
    ] {
        drive(request, &policy, &mut ledger, reply);
    }
    let got = ledger.refused_hosts();
    assert_eq!(
        got,
        vec!["evil.test".to_string()],
        "only the denied host, deduped; the allowed host must NOT appear: {got:?}"
    );
}

#[test]
fn audit_records_allowed_with_bytes_and_denied_attempts() {
    let allowed = drive_with(
        "GET http://allowed.test/x HTTP/1.1\r\nHost: ignored\r\n\r\n",
        &["allowed.test"],
        Some("HTTP/1.1 200 OK\r\nContent-Length: 6\r\nConnection: close\r\n\r\norigin"),
    );
    let ev = allowed
        .audit
        .iter()
        .find(|e| e.host == "allowed.test")
        .expect("an allowed event");
    assert_eq!(ev.decision, NetDecision::Allowed);
    assert_eq!(ev.kind, NetKind::Http);
    assert_eq!(ev.port, 80);
    assert!(
        ev.bytes_down > 0,
        "an allowed connection records response bytes: {ev:?}"
    );

    let denied = drive_with(
        "GET http://evil.test/y HTTP/1.1\r\nHost: ignored\r\n\r\n",
        &["allowed.test"],
        None,
    );
    let ev = denied
        .audit
        .iter()
        .find(|e| e.host == "evil.test")
        .expect("a denied event");
    assert_eq!(ev.decision, NetDecision::Denied);
    assert_eq!(ev.bytes_up, 0);
    assert_eq!(ev.bytes_down, 0);
    NullSink.record(ev);
}

#[test]
fn connect_allowed_host_tunnels_opaque_bytes() {
    let out = drive_with(
        "CONNECT allowed.test:443 HTTP/1.1\r\nHost: allowed.test:443\r\n\r\nPING",
        &["allowed.test"],
        Some("PING"),
    );
    assert!(
        out.client.starts_with("HTTP/1.1 200"),
        "CONNECT must be accepted with a bare 200: {:?}",
        out.client
    );
    assert!(
        out.client.contains("PING"),
        "the origin's bytes must tunnel back to the client: {:?}",
        out.client
    );
    assert_eq!(
        out.origin, "PING",
        "the client's pipelined bytes must reach the origin through the tunnel"
    );
}

#[test]
fn connect_disallowed_host_is_refused_403() {
    let out = drive_with(
        "CONNECT evil.test:443 HTTP/1.1\r\n\r\n",
        &["allowed.test"],
        None,
    );
    assert!(
        out.client.contains("403"),
        "a denied CONNECT must get 403, not a tunnel: {}",
        out.client
    );
}

#[test]
fn http_host_header_is_normalized_to_the_validated_authority() {
    let out = drive_with(
        "GET http://allowed.test/ HTTP/1.1\r\nHost: evil.test\r\nConnection: close\r\n\r\n",
        &["allowed.test"],
        Some("HTTP/1.1 200 OK\r\nContent-Length: 0\r\nConnection: close\r\n\r\n"),
    );
    assert!(
        out.origin.contains("Host: allowed.test\r\n"),
        "origin must receive the validated Host: {:?}",
        out.origin
    );
    assert!(
        !out.origin.contains("evil.test"),
        "the spoofed Host must not reach the origin: {:?}",
        out.origin
    );
}

#[test]
fn a_forwarded_head_is_exact() {
    let out = drive_with(
        "GET http://h:8080/p HTTP/1.1\r\nhOsT: x\r\nA: 1\r\nHost:y\r\nB: 2\r\n\r\nrest",
        &["h"],
        Some(""),
    );
    assert_eq!(
        out.origin,
        "GET /p HTTP/1.1\r\nHost: h:8080\r\nA: 1\r\nB: 2\r\n\r\nrest"
    );
    assert_eq!(
        response_text(403, "Forbidden"),
        "HTTP/1.1 403 Forbidden\r\nContent-Length: 14\r\nConnection: close\r\n\r\n403 Forbidden\n"
    );
}

#[test]
fn a_header_block_ends_at_its_bound() {
    let mut block = HeaderBlock::new();
    let line = format!("{}\r\n", "x".repeat(1022));
    for _ in 0..8 {
        block = block.with_line(line.clone());
    }
    assert_eq!(block.lines().len(), MAX_HEAD / 1024);
    assert!(!block.is_closed());
    block = block.with_line("y".to_string());
    assert!(block.is_closed());
    assert_eq!(block.lines().len(), 8);
}

#[test]
fn proxy_env_points_at_the_bound_loopback_addr() {
    let env = proxy_env("127.0.0.1:4711");
    let url = "http://127.0.0.1:4711";
    assert!(env.iter().any(|(k, v)| k == "https_proxy" && v == url));
    assert!(env.iter().any(|(k, v)| k == "HTTPS_PROXY" && v == url));
    assert!(env.iter().all(|(_, v)| v.starts_with("http://127.0.0.1:")));
}

#[test]
fn copied_bytes_stay_counted_whatever_ends_the_copy() {
    assert_eq!(
        copy_step(3, CopyEvent::Read { bytes: 4, written: true }),
        (7, true)
    );
    assert_eq!(
        copy_step(3, CopyEvent::Read { bytes: 4, written: false }),
        (3, false)
    );
    assert_eq!(copy_step(3, CopyEvent::Interrupted), (3, true));
    assert_eq!(copy_step(3, CopyEvent::End), (3, false));
    assert_eq!(copy_step(3, CopyEvent::Failed), (3, false));
}

// ── The books ───────────────────────────────────────────────────────────────

#[test]
fn worker_cap_bounds_active_workers_and_counts_excess_as_capacity_overload() {
    const CAP: usize = 2;
    let mut ledger = ProxyLedger::new(CAP);
    for _ in 0..CAP {
        assert_eq!(ledger.offer(), Admission::Serve);
        ledger.spawned();
    }
    let excess_attempts = CAP + 3;
    for _ in 0..excess_attempts {
        assert_eq!(ledger.offer(), Admission::Overloaded);
    }
    ledger.begin_shutdown();
    for _ in 0..CAP {
        ledger.joined(WorkerExit::Completed);
    }
    let evidence = ledger.finalize(false).expect("finalize");
    assert_eq!(
        evidence.high_water_workers, CAP,
        "high-water must equal the cap, never exceed it: {evidence:?}"
    );
    assert_eq!(
        evidence.capacity_rejects, excess_attempts as u64,
        "every excess connection must be counted: {evidence:?}"
    );
    assert!(evidence.refused_hosts.is_empty(), "overload is no refusal");
}

#[test]
fn finalize_force_closes_and_joins_an_idle_tunnel_connection() {
    let mut ledger = ProxyLedger::new(DEFAULT_WORKER_CAP);
    assert_eq!(ledger.offer(), Admission::Serve);
    assert_eq!(ledger.spawned(), 0);
    assert_eq!(ledger.active(), 1);
    ledger.begin_shutdown();
    ledger.joined(WorkerExit::Aborted);
    let evidence = ledger.finalize(false).unwrap();
    assert_eq!(
        evidence.shutdown_aborts, 1,
        "the idle tunnel must be accounted as a shutdown-abort, not left dangling: {evidence:?}"
    );
    assert_eq!(evidence.completed, evidence.accepted);
}

#[test]
fn finalize_leaves_zero_active_workers_and_an_unreachable_listener() {
    let mut ledger = ProxyLedger::new(DEFAULT_WORKER_CAP);
    assert_eq!(ledger.lifecycle(), Lifecycle::Running);
    ledger.begin_shutdown();
    assert_eq!(ledger.lifecycle(), Lifecycle::ShuttingDown);
    let evidence = ledger.finalize(false).expect("finalize");
    assert_eq!(ledger.active(), 0, "no worker may remain active after finalize");
    assert_eq!(evidence.completed, evidence.accepted);
    assert_eq!(ledger.lifecycle(), Lifecycle::Quiescent);
    assert_eq!(ledger.offer(), Admission::Stop, "a quiescent proxy must not serve requests");
    ledger.begin_shutdown();
    assert_eq!(ledger.lifecycle(), Lifecycle::Quiescent);
}

#[test]
fn injected_worker_spawn_failure_is_counted_and_fails_finalize() {
    let mut ledger = ProxyLedger::new(DEFAULT_WORKER_CAP);
    assert_eq!(ledger.offer(), Admission::Serve);
    ledger.spawn_failed();
    match ledger.finalize(false) {
        Err(ProxyFinalizeError::Incomplete { partial, .. }) => {
            assert_eq!(partial.worker_spawn_failures, 1);
        }
        other => panic!("expected Incomplete due to the injected spawn failure: {other:?}"),
    }
}

#[test]
fn injected_worker_panic_is_counted_and_fails_finalize() {
    let mut ledger = ProxyLedger::new(DEFAULT_WORKER_CAP);
    assert_eq!(ledger.offer(), Admission::Serve);
    ledger.spawned();
    ledger.joined(WorkerExit::Panicked);
    match ledger.finalize(false) {
        Err(ProxyFinalizeError::Incomplete { partial, .. }) => {
            assert_eq!(
                partial.worker_panics, 1,
                "the panic must be counted: {partial:?}"
            );
        }
        other => panic!("expected Incomplete due to the injected worker panic: {other:?}"),
    }
}

#[test]
fn a_panicked_supervisor_leaves_no_account() {
    let mut ledger = ProxyLedger::new(1);
    let err = ledger.finalize(true).unwrap_err();
    assert_eq!(
        err.message(),
        "egress proxy accept supervisor failed: accept supervisor thread panicked"
    );
}

#[test]
fn hostile_evidence_deserialization_rejects_too_many_and_oversized_hosts() {
    let mut hosts: Vec<String> = Vec::new();
    for i in 0..MAX_REFUSED_HOSTS {
        push_bounded_host(&mut hosts, format!("h{i}.test")).unwrap();
    }
    assert!(
        push_bounded_host(&mut hosts, "h64.test".to_string()).is_err(),
        "more than {MAX_REFUSED_HOSTS} refused hosts must be rejected"
    );
    assert_eq!(hosts.len(), MAX_REFUSED_HOSTS);
    let mut hosts: Vec<String> = Vec::new();
    assert!(
        push_bounded_host(&mut hosts, "x".repeat(MAX_REFUSED_HOST_BYTES + 1)).is_err(),
        "a host over {MAX_REFUSED_HOST_BYTES} bytes must be rejected"
    );
    assert!(hosts.is_empty());
}

#[test]
fn no_refusal_is_dropped_in_silence() {
    let mut evidence = Evidence::new();
    for i in 0..(MAX_REFUSED_HOSTS + 5) {
        evidence.record_refused(&format!("h{i:03}.test"));
    }
    evidence.record_refused("h000.test");
    evidence.record_refused(&"x".repeat(MAX_REFUSED_HOST_BYTES + 1));
    assert_eq!(evidence.refused_sorted().len(), MAX_REFUSED_HOSTS);
    assert!(evidence.has_room());
    let snapshot = evidence.snapshot(7, 3);
    assert_eq!(snapshot.omitted_refused_attempts, 6);
    assert_eq!(snapshot.worker_cap, 7);
    assert_eq!(snapshot.high_water_workers, 3);
}

#[test]
fn a_final_account_lists_its_hosts_in_order_and_within_bounds() {
    let mut ledger = ProxyLedger::new(2);
    for i in (0..(MAX_REFUSED_HOSTS + 3)).rev() {
        ledger.refuse_host(&format!("h{i:03}.test"));
        ledger.refuse_host(&format!("h{i:03}.test"));
    }
    ledger.refuse_host(&"y".repeat(MAX_REFUSED_HOST_BYTES + 1));
    ledger.begin_shutdown();
    let account = ledger.finalize(false).expect("nothing failed");
    assert_eq!(account.refused_hosts.len(), MAX_REFUSED_HOSTS);
    for pair in account.refused_hosts.windows(2) {
        assert!(pair[0] < pair[1]);
    }
    assert!(account.refused_hosts.iter().all(|h| h.len() <= MAX_REFUSED_HOST_BYTES));
    assert_eq!(account.refused_hosts[0], "h003.test");
    assert_eq!(account.omitted_refused_attempts, 7);
    assert_eq!(account.accepted, account.completed);
    assert_eq!(ledger.refused_hosts(), account.refused_hosts);
}
