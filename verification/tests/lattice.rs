//! The lattice of authority and the sets it is made of.

use agent_bridle_core::{
    Caveats, ConfinedAxis, ConfinementMechanism, CountBound, Evidence, OrderedSet, SandboxKind,
    Scope, SessionId, AttestRequirement, Attestation, CallRequest, Challenge, Discharge, Gate,
    Grant, Presence, ToolError, enforcement_report, exec_fully_denied,
    exec_grant_pulls_launcher_variant, net_egress_proxy_hosts, net_fully_denied,
    net_loopback_full_interface, net_loopback_only, AxisEnforcement,
};

fn only(items: &[&str]) -> Scope<String> {
    Scope::only(items.iter().map(|s| s.to_string()).collect())
}

fn set(items: &[&str]) -> OrderedSet<String> {
    OrderedSet::from_vec(items.iter().map(|s| s.to_string()).collect())
}

// ── Sets ────────────────────────────────────────────────────────────────────

#[test]
fn a_set_is_ordered_and_holds_nothing_twice() {
    let s = set(&["b", "a", "b", "é", "B"]);
    assert_eq!(s.as_vec(), &vec!["B", "a", "b", "é"]);
    assert_eq!(s.len(), 4);
    assert!(s.contains(&"a".to_string()));
    assert!(!s.contains(&"c".to_string()));
    assert!(set(&["a"]).is_subset(&s));
    assert!(!s.is_subset(&set(&["a"])));
    assert!(set(&["b", "a"]).same(&set(&["a", "b", "a"])));
    let mut grown = set(&["x"]);
    grown.extend(&set(&["a", "x"]));
    grown.insert("m".to_string());
    assert_eq!(grown.as_vec(), &vec!["a", "m", "x"]);
    assert!(OrderedSet::<String>::new().is_empty());
}

// ── Scopes and bounds ───────────────────────────────────────────────────────

#[test]
fn a_scope_meets_to_what_both_allow() {
    let a = only(&["x", "y"]);
    let b = only(&["y", "z"]);
    assert!(a.meet(&b).same(&only(&["y"])));
    assert!(a.meet(&Scope::All).same(&a));
    assert!(Scope::<String>::All.meet(&a).same(&a));
    assert!(Scope::<String>::top().meet(&Scope::All).same(&Scope::All));
    assert!(a.meet(&b).leq(&a) && a.meet(&b).leq(&b));
    assert!(!Scope::<String>::All.leq(&a));
    assert!(a.leq(&Scope::All));
    assert!(Scope::<String>::none().leq(&a));
    assert!(a.allows(&"x".to_string()) && !a.allows(&"z".to_string()));
    assert!(a.is_restricted() && !Scope::<String>::All.is_restricted());
}

#[test]
fn generations_meet_like_names() {
    let a = Scope::only(vec![1u64, 2]);
    let b = Scope::only(vec![2u64, 3]);
    assert!(a.meet(&b).same(&Scope::only(vec![2u64])));
    assert!(!a.leq(&b));
    assert!(Scope::only(vec![2u64]).leq(&b));
    assert!(Scope::only(vec![2u64]).meet(&Scope::All).same(&Scope::only(vec![2u64])));
}

#[test]
fn a_count_meets_to_the_smaller() {
    assert_eq!(
        CountBound::AtMost(3).meet(&CountBound::AtMost(5)),
        CountBound::AtMost(3)
    );
    assert_eq!(
        CountBound::top().meet(&CountBound::AtMost(5)),
        CountBound::AtMost(5)
    );
    assert!(CountBound::AtMost(3).leq(&CountBound::AtMost(3)));
    assert!(!CountBound::AtMost(4).leq(&CountBound::AtMost(3)));
    assert!(!CountBound::Unlimited.leq(&CountBound::AtMost(3)));
    assert!(CountBound::AtMost(3).leq(&CountBound::Unlimited));
}

fn narrow() -> Caveats {
    Caveats {
        exec: only(&["git", "ls"]),
        fs_read: only(&["/work"]),
        max_calls: CountBound::AtMost(3),
        ..Caveats::top()
    }
}

fn other() -> Caveats {
    Caveats {
        exec: only(&["git"]),
        net: only(&["example.com"]),
        max_calls: CountBound::AtMost(9),
        ..Caveats::top()
    }
}

#[test]
fn the_meet_is_the_greatest_lower_bound() {
    let (a, b) = (narrow(), other());
    let m = a.meet(&b);
    assert!(m.leq(&a) && m.leq(&b));
    assert!(m.exec.same(&only(&["git"])));
    assert!(m.fs_read.same(&only(&["/work"])));
    assert!(m.net.same(&only(&["example.com"])));
    assert_eq!(m.max_calls, CountBound::AtMost(3));
    let below = Caveats {
        exec: Scope::none(),
        fs_read: Scope::none(),
        net: Scope::none(),
        max_calls: CountBound::AtMost(1),
        ..Caveats::top()
    };
    assert!(below.leq(&a) && below.leq(&b) && below.leq(&m));
}

#[test]
fn the_meet_is_commutative_associative_and_idempotent() {
    let (a, b) = (narrow(), other());
    let c = Caveats {
        fs_write: only(&["/tmp"]),
        ..Caveats::top()
    };
    assert!(a.meet(&b).same(&b.meet(&a)));
    assert!(a.meet(&b).meet(&c).same(&a.meet(&b.meet(&c))));
    assert!(a.meet(&a).same(&a));
    assert!(a.meet(&Caveats::top()).same(&a));
}

#[test]
fn authority_is_ordered_and_no_two_ways() {
    let (a, b) = (narrow(), other());
    assert!(a.leq(&a) && a.leq(&Caveats::top()));
    assert!(!a.leq(&b) && !b.leq(&a));
    let m = a.meet(&b);
    assert!(m.leq(&a) && !a.leq(&m));
}

// ── What a grant means to a mechanism ───────────────────────────────────────

fn net(hosts: &[&str]) -> Caveats {
    Caveats {
        net: only(hosts),
        ..Caveats::top()
    }
}

fn exec(programs: &[&str]) -> Caveats {
    Caveats {
        exec: only(programs),
        ..Caveats::top()
    }
}

#[test]
fn a_network_axis_is_denied_loopback_or_remote() {
    assert!(net_fully_denied(&net(&[])) && !net_fully_denied(&Caveats::top()));
    assert!(!net_fully_denied(&net(&["localhost"])));
    assert!(net_loopback_only(&net(&["localhost", "127.0.0.1", "::1"])));
    assert!(!net_loopback_only(&net(&["localhost", "example.com"])));
    assert!(!net_loopback_only(&Caveats::top()));
    assert!(net_loopback_full_interface(&net(&["localhost"])));
    assert!(net_loopback_full_interface(&net(&["127.0.0.1", "::1"])));
    assert!(!net_loopback_full_interface(&net(&["127.0.0.1"])));
    assert_eq!(
        net_egress_proxy_hosts(&net(&["b.test", "a.test"])),
        Some(vec!["a.test".to_string(), "b.test".to_string()])
    );
    assert_eq!(net_egress_proxy_hosts(&net(&["localhost"])), None);
    assert_eq!(net_egress_proxy_hosts(&Caveats::top()), None);
}

#[test]
fn an_exec_axis_is_denied_or_pulls_a_launcher() {
    assert!(exec_fully_denied(&exec(&[])) && !exec_fully_denied(&exec(&["ls"])));
    assert!(!exec_fully_denied(&Caveats::top()));
    assert!(exec_grant_pulls_launcher_variant(&exec(&["sh"])));
    assert!(exec_grant_pulls_launcher_variant(&exec(&["/bin/sh", "ls"])));
    assert!(!exec_grant_pulls_launcher_variant(&exec(&["bash"])));
    assert!(!exec_grant_pulls_launcher_variant(&Caveats::top()));
}

#[test]
fn a_report_has_an_entry_for_each_restricted_axis() {
    let caveats = narrow();
    let report = enforcement_report(&caveats, ConfinementMechanism::backend(SandboxKind::Landlock));
    for axis in [
        ConfinedAxis::FsRead,
        ConfinedAxis::FsWrite,
        ConfinedAxis::Net,
        ConfinedAxis::Exec,
    ] {
        assert_eq!(axis.witness_in(&report).is_some(), axis.restricted_in(&caveats));
    }
    assert_eq!(
        ConfinedAxis::FsRead.witness_in(&report),
        Some(AxisEnforcement::Kernel)
    );
}

// ── Budgets and gestures ────────────────────────────────────────────────────

#[test]
fn a_charge_that_admitted_nothing_is_given_back() {
    let mut grant = Grant::new(Caveats {
        max_calls: CountBound::AtMost(1),
        ..Caveats::top()
    });
    assert!(grant.charge().is_ok());
    assert!(matches!(grant.charge(), Err(ToolError::Budget)));
    grant.refund();
    assert!(grant.charge().is_ok());
}

fn act() -> CallRequest {
    CallRequest {
        tool: "deploy".to_string(),
        resource: "prod".to_string(),
        ..CallRequest::unspecified("deploy")
    }
}

fn owed(freshness_generations: u64) -> AttestRequirement {
    AttestRequirement {
        freshness_generations,
        ..AttestRequirement::passkey_recorded()
    }
}

#[test]
fn a_gesture_answers_a_challenge_of_its_window() {
    let session = SessionId::new([7; 32]);
    let gate = Gate::new(10).with_session(session);
    let content = act().content_id();
    let nonce = [3; 32];
    let at = |generation: u64| Challenge::bind(&session, &content, generation, &nonce);
    let recent = at(9);
    assert_eq!(
        gate.expected_challenge(&act(), &owed(2), &nonce, recent.as_bytes()).as_bytes(),
        recent.as_bytes()
    );
    let stale = at(7);
    assert_eq!(
        gate.expected_challenge(&act(), &owed(2), &nonce, stale.as_bytes()).as_bytes(),
        at(10).as_bytes(),
        "outside its window a gesture answers nothing that is expected"
    );
}

#[test]
fn a_settled_gesture_is_used_up_and_recorded() {
    let session = SessionId::new([7; 32]);
    let mut gate = Gate::new(10).with_session(session);
    let nonce = [3; 32];
    let expected = Challenge::bind(&session, &act().content_id(), 10, &nonce);
    let discharge = Discharge {
        challenge: *expected.as_bytes(),
        presence: Presence::Passkey,
        proof_bytes: vec![1],
    };
    let top = Caveats::top();
    let refused = gate.settle_discharge(
        &top,
        &top,
        &act(),
        &owed(0),
        &discharge,
        &expected,
        Err("bad proof".to_string()),
    );
    assert!(matches!(refused, Err(ToolError::Denied { reason }) if reason == "bad proof"));
    let (_context, record) = gate
        .settle_discharge(&top, &top, &act(), &owed(0), &discharge, &expected, Ok(()))
        .expect("a verified gesture admits");
    let record = record.expect("the requirement asks for a record");
    assert_eq!(record, Attestation::from_verified(&act(), &discharge, 10));
    assert_eq!(record.tool, "deploy");
    assert_eq!(record.resource, "prod");
    assert_eq!(record.generation, 10);
    let replay =
        gate.settle_discharge(&top, &top, &act(), &owed(0), &discharge, &expected, Ok(()));
    assert!(
        matches!(replay, Err(ToolError::Denied { reason }) if reason == "discharge already consumed (replay)")
    );
}

// ── The account of a proxy ──────────────────────────────────────────────────

#[test]
fn a_proxy_account_counts_each_thing_once() {
    let mut account = Evidence::new();
    assert!(account.has_room());
    account.count_accepted();
    account.count_accepted();
    account.count_completed();
    account.count_abort();
    account.count_overload();
    account.count_spawn_failure();
    account.count_panic();
    account.record_refused("b.test");
    account.record_refused("a.test");
    account.record_refused("b.test");
    let last = account.snapshot(4, 2);
    assert_eq!(last.accepted, 2);
    assert_eq!(last.completed, 1);
    assert_eq!(last.shutdown_aborts, 1);
    assert_eq!(last.capacity_rejects, 1);
    assert_eq!(last.worker_spawn_failures, 1);
    assert_eq!(last.worker_panics, 1);
    assert_eq!(last.refused_hosts, vec!["a.test", "b.test"]);
    assert_eq!(last.omitted_refused_attempts, 0);
    assert_eq!(last.worker_cap, 4);
    assert_eq!(last.high_water_workers, 2);
    assert_eq!(account.refused_sorted(), vec!["a.test", "b.test"]);
}
