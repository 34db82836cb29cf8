use agent_bridle_core::{
    closure_is_harness_disjoint, empty_closure, entry_reaches_harness_private,
    mechanism_caveats_for, AdmittedFence, AxisEnforcement, BackendProjection, Caveats,
    ChildNetworkPolicy, ConfinementMechanism, EnforcementFloor, ResolvedAuthority, ResolvedScope,
    RuntimeClosure, SandboxKind, Scope, ToolError,
};

fn only(items: &[&str]) -> Scope<String> {
    Scope::only(items.iter().map(|s| s.to_string()).collect())
}

fn exec_only(programs: &[&str]) -> Caveats {
    Caveats {
        exec: only(programs),
        ..Caveats::top()
    }
}

fn advisory_floor() -> EnforcementFloor {
    EnforcementFloor::from_scalar(AxisEnforcement::Advisory)
}

fn mechanism_none() -> ConfinementMechanism {
    ConfinementMechanism::new(SandboxKind::Unconfined, ChildNetworkPolicy::LandlockOnly)
}

fn exec_scope(programs: &[&str]) -> ResolvedScope {
    ResolvedScope::concrete(programs.iter().map(|s| s.to_string()).collect())
}

fn identity_projection(caveats: &Caveats) -> BackendProjection {
    BackendProjection {
        resolved: ResolvedAuthority::from_delegated(caveats),
        runtime_closure: empty_closure(),
    }
}

fn worker_projection(worker: &'static str) -> impl Fn(&Caveats) -> BackendProjection {
    move |caveats: &Caveats| BackendProjection {
        resolved: ResolvedAuthority::from_delegated(caveats),
        runtime_closure: ResolvedAuthority {
            exec: exec_scope(&[worker]),
            ..empty_closure()
        },
    }
}


#[test]
fn a_backend_widening_beyond_the_declared_closure_is_refused() {
    let delegated = exec_only(&["/usr/bin/git"]);
    let project = |caveats: &Caveats| BackendProjection {
        resolved: ResolvedAuthority {
            exec: exec_scope(&["/usr/bin/git", "/opt/extra"]),
            ..ResolvedAuthority::from_delegated(caveats)
        },
        runtime_closure: empty_closure(),
    };
    let err = AdmittedFence::try_admit(
        &delegated,
        RuntimeClosure::empty(),
        mechanism_none(),
        advisory_floor(),
        project,
    )
    .unwrap_err();
    let ToolError::Denied { reason } = err else {
        panic!("expected a denial")
    };
    assert!(
        reason.contains("Exec") && reason.contains("WIDENING"),
        "an undeclared ruleset widening must refuse as a Superset: {reason}"
    );
}

#[test]
fn the_same_widening_is_admitted_when_the_runtime_closure_declares_it() {
    let delegated = exec_only(&["/usr/bin/git"]);
    let project = |caveats: &Caveats| BackendProjection {
        resolved: ResolvedAuthority {
            exec: exec_scope(&["/usr/bin/git", "/opt/extra"]),
            ..ResolvedAuthority::from_delegated(caveats)
        },
        runtime_closure: ResolvedAuthority {
            exec: exec_scope(&["/opt/extra"]),
            ..empty_closure()
        },
    };
    assert!(AdmittedFence::try_admit(
        &delegated,
        RuntimeClosure::empty(),
        mechanism_none(),
        advisory_floor(),
        project,
    )
    .is_ok());
}

#[test]
fn an_unknown_resolved_axis_fails_closed_even_under_top_delegation() {
    let delegated = Caveats::top();
    let project = |caveats: &Caveats| BackendProjection {
        resolved: ResolvedAuthority {
            net: ResolvedScope::Unknown,
            ..ResolvedAuthority::from_delegated(caveats)
        },
        runtime_closure: empty_closure(),
    };
    assert!(AdmittedFence::try_admit(
        &delegated,
        RuntimeClosure::empty(),
        mechanism_none(),
        advisory_floor(),
        project,
    )
    .is_err());
}


#[test]
fn admitted_mechanism_caveats_are_the_grant_plus_exactly_the_declared_closure() {
    let delegated = exec_only(&["/usr/bin/git"]);
    let closure = RuntimeClosure::empty().with_exec("/opt/worker".to_string()).unwrap();
    let admitted = AdmittedFence::try_admit(
        &delegated,
        closure,
        mechanism_none(),
        advisory_floor(),
        worker_projection("/opt/worker"),
    )
    .unwrap();
    assert_eq!(
        admitted.mechanism_caveats().exec,
        only(&["/usr/bin/git", "/opt/worker"])
    );
    assert_eq!(admitted.mechanism_caveats().fs_read, delegated.fs_read);
    assert_eq!(admitted.mechanism_caveats().net, delegated.net);
}

#[test]
fn an_unrestricted_exec_axis_takes_no_closure_entries() {
    let delegated = Caveats::top();
    let closure = RuntimeClosure::empty().with_exec("/opt/worker".to_string()).unwrap();
    let admitted = AdmittedFence::try_admit(
        &delegated,
        closure,
        mechanism_none(),
        advisory_floor(),
        identity_projection,
    )
    .unwrap();
    assert_eq!(admitted.mechanism_caveats().exec, Scope::top());
}


#[test]
fn a_closure_entry_reaching_a_harness_private_store_is_refused() {
    for entry in [
        "/Users/u/.newt/ocap-store/worker",
        "/home/u/.ssh/helper",
        "/home/u/.gnupg/agent",
    ] {
        assert!(
            RuntimeClosure::empty().with_exec(entry.to_string()).is_err(),
            "{entry} must be refused"
        );
    }
    assert!(RuntimeClosure::empty()
        .with_exec("/opt/newt-tools/worker".to_string())
        .is_ok());
}

#[test]
fn a_backend_runtime_closure_reaching_a_harness_store_refuses_at_admission() {
    let delegated = exec_only(&["/usr/bin/git"]);
    let project = |_caveats: &Caveats| BackendProjection {
        resolved: ResolvedAuthority::from_delegated(&exec_only(&["/usr/bin/git"])),
        runtime_closure: ResolvedAuthority {
            fs_read: exec_scope(&["/home/u/.newt/ocap-store"]),
            ..empty_closure()
        },
    };
    let err = AdmittedFence::try_admit(
        &delegated,
        RuntimeClosure::empty(),
        mechanism_none(),
        advisory_floor(),
        project,
    )
    .unwrap_err();
    let ToolError::Denied { reason } = err else {
        panic!("expected a denial")
    };
    assert!(
        reason.contains("harness-private"),
        "a closure reaching the harness store must refuse: {reason}"
    );
}

#[test]
fn closure_is_harness_disjoint_flags_unbounded_and_private() {
    assert!(closure_is_harness_disjoint(&empty_closure()));
    let mut private = empty_closure();
    private.fs_read = exec_scope(&["/home/u/.ssh/id_ed25519"]);
    assert!(!closure_is_harness_disjoint(&private));
    let mut unbounded = empty_closure();
    unbounded.exec = ResolvedScope::Unbounded;
    assert!(!closure_is_harness_disjoint(&unbounded));
}

#[test]
fn harness_private_matcher_handles_multi_segment_markers_on_boundaries() {
    assert!(entry_reaches_harness_private(
        "/home/u/.config/gh/hosts.yml"
    ));
    assert!(entry_reaches_harness_private("/home/u/.config/gh"));
    assert!(entry_reaches_harness_private("/home/u/.ssh/id_ed25519"));
    assert!(entry_reaches_harness_private("/home/u/.newt/ocap"));
    assert!(!entry_reaches_harness_private("/opt/newt-tools/worker"));
    assert!(!entry_reaches_harness_private("/home/u/.sshfoo/x"));
    assert!(!entry_reaches_harness_private("/home/u/.config/ghi/x"));
}


#[test]
fn the_strength_floor_still_refuses_through_admit() {
    let delegated = Caveats {
        fs_read: only(&["/repo"]),
        ..Caveats::top()
    };
    let err = AdmittedFence::try_admit(
        &delegated,
        RuntimeClosure::empty(),
        mechanism_none(),
        EnforcementFloor::from_scalar(AxisEnforcement::Kernel),
        identity_projection,
    );
    assert!(err.is_err(), "kernel floor with no backend must refuse");
}

#[test]
fn the_applied_caveats_are_derived_once() {
    let delegated = exec_only(&["/usr/bin/git"]);
    let closure = RuntimeClosure::empty()
        .with_exec("/opt/worker".to_string())
        .unwrap();
    assert!(!closure.is_empty());
    assert_eq!(
        mechanism_caveats_for(&delegated, &closure).exec,
        only(&["/opt/worker", "/usr/bin/git"])
    );
    assert_eq!(mechanism_caveats_for(&Caveats::top(), &closure), Caveats::top());
}

#[test]
fn a_refused_closure_entry_is_named() {
    let err = RuntimeClosure::empty()
        .with_exec("/home/u/.ssh/helper".to_string())
        .unwrap_err();
    assert_eq!(
        err.message(),
        "denied: refusing closure entry \"/home/u/.ssh/helper\": it reaches a harness-private \
         store (the runtime closure must be harness-disjoint)"
    );
}
