use agent_bridle_core::{
    AxisEnforcement, BridleConfig, BridleMode, GatePolicy, LimitsPolicy, NetDefault, NetPolicy,
    PathList, RootfsPolicy, SandboxPolicy, ToolError, VmPolicy, WebPolicy, MAX_FRESHNESS_WINDOW,
};

fn to_vec(items: &[&str]) -> Vec<String> {
    items.iter().map(|s| s.to_string()).collect()
}

#[test]
fn mode_defaults_to_bridled() {
    assert_eq!(BridleMode::default(), BridleMode::Bridled);
    assert_eq!(BridleConfig::default().mode, BridleMode::Bridled);
}

#[test]
fn pathlist_extends_by_default_and_replaces_on_opt_in() {
    let mut p = PathList::from_defaults(&["/a", "/b"]);
    assert_eq!(p.resolve(), vec!["/a".to_string(), "/b".to_string()]);
    assert!(!p.widens());

    p.extra = vec!["/c".to_string(), "/a".to_string()];
    assert_eq!(
        p.resolve(),
        vec!["/a".to_string(), "/b".to_string(), "/c".to_string()],
        "extend dedups and preserves order"
    );
    assert!(p.widens(), "adding entries without replace is a widening");

    p.replace = true;
    assert_eq!(
        p.resolve(),
        vec!["/c".to_string(), "/a".to_string()],
        "replace uses only extra (the shrink opt-in)"
    );
    assert!(!p.widens(), "replace is not a widening");
}

#[test]
fn gate_policy_defaults_match_constants() {
    let g = GatePolicy::default();
    assert_eq!(g.default_strength_floor, AxisEnforcement::Advisory);
    assert_eq!(g.max_freshness_window, 4096);
}

#[test]
fn net_policy_defaults_to_deny_with_no_rules() {
    let n = NetPolicy::default();
    assert_eq!(n.default, NetDefault::Deny);
    assert!(n.rules.is_empty(), "empty rules ⇒ pure exact-host behavior");
}

#[test]
fn gate_defaults_match_source_constants() {
    let g = GatePolicy::default();
    assert_eq!(g.default_strength_floor, AxisEnforcement::Advisory);
    assert_eq!(g.max_freshness_window, MAX_FRESHNESS_WINDOW);
}

#[test]
fn sandbox_loopback_default_matches_constant() {
    assert_eq!(
        SandboxPolicy::default().loopback_hosts,
        to_vec(&["localhost", "127.0.0.1", "::1"])
    );
}

#[test]
fn sandbox_path_defaults_match_landlock_constants() {
    assert_eq!(
        SandboxPolicy::default().base_read_paths.resolve(),
        to_vec(&[
            "/lib",
            "/lib64",
            "/lib32",
            "/libx32",
            "/usr/lib",
            "/usr/lib64",
            "/usr/libexec",
            "/usr/share",
            "/etc/ld.so.cache",
            "/etc/ld.so.preload",
            "/etc/alternatives",
            "/etc/nsswitch.conf",
            "/etc/localtime",
            "/etc/resolv.conf",
            "/etc/ssl",
            "/etc/ca-certificates",
            "/proc/self",
            "/dev/null",
            "/dev/zero",
            "/dev/full",
            "/dev/urandom",
            "/dev/random",
        ])
    );
    assert_eq!(
        SandboxPolicy::default().bin_read_paths.resolve(),
        to_vec(&[
            "/usr/bin",
            "/bin",
            "/usr/sbin",
            "/sbin",
            "/usr/local/bin",
            "/usr/local/sbin",
            "/opt",
        ])
    );
    assert_eq!(
        SandboxPolicy::default().loader_paths.resolve(),
        to_vec(&[
            "/lib64/ld-linux-x86-64.so.2",
            "/lib/ld-linux-x86-64.so.2",
            "/lib/ld-linux.so.2",
            "/lib/x86_64-linux-gnu/ld-linux-x86-64.so.2",
            "/lib64/ld64.so.2",
            "/lib/ld-linux-aarch64.so.1",
            "/lib/aarch64-linux-gnu/ld-linux-aarch64.so.1",
            "/lib/ld-linux-armhf.so.3",
            "/lib/ld-musl-x86-64.so.1",
            "/lib/ld-musl-aarch64.so.1",
        ])
    );
}

#[test]
fn further_defaults_are_stated() {
    let config = BridleConfig::default();
    assert_eq!(config.sandbox, SandboxPolicy::default());
    assert_eq!(config.limits, LimitsPolicy::default());
    assert_eq!(config.web, WebPolicy::default());
    assert_eq!(config.vm, VmPolicy::default());
    assert_eq!(config.rootfs, RootfsPolicy::default());
    assert_eq!(WebPolicy::default().max_redirects, 10);
    assert_eq!(LimitsPolicy::default().proxy_max_head, 8192);
    assert!(SandboxPolicy::default().named_root_protected_roots.is_none());
}

#[test]
fn display_is_stable_and_safe() {
    assert_eq!(
        ToolError::denied("nope".to_string()).message(),
        "denied: nope".to_string()
    );
    assert_eq!(
        ToolError::Budget.message(),
        "denied: call budget (max_calls) exhausted"
    );
    assert!(ToolError::not_found("shell".to_string())
        .message()
        .contains("shell"));
}

#[test]
fn every_error_has_its_words() {
    let stale = ToolError::Generation.message();
    assert!(stale.starts_with("denied: grant is not valid for the "));
    assert!(stale.ends_with(" gate's generation"));
    assert_eq!(
        ToolError::not_found("x".to_string()).message(),
        "no such tool: x"
    );
    assert_eq!(
        ToolError::Exec("boom".to_string()).message(),
        "tool execution failed: boom"
    );
    assert_eq!(ToolError::Other("plain".to_string()).message(), "plain");
    assert!(ToolError::denied("n".to_string()).is_denied());
    assert!(!ToolError::Budget.is_denied());
}
