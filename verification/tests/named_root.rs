//! Named roots: the recorded inventory, admission, application and evidence.

use std::sync::Arc;

use agent_bridle_core::{
    AdmittedFence, AdmittedFenceBody, AxisEnforcement, BackendProjection, Caveats,
    ChildNetworkPolicy, ConfinementMechanism, Denial, DenialKind, EnforcementFloor, ExecBoundary,
    ExecutionEvent, ExecutionEventKind, ExecutionId, FenceEvidence, OrderedSet, PrefixState,
    ResolvedAuthority, ResolvedRoot, ResolvedScope, SandboxKind, SandboxPolicy, Scope, ToolEnvelope,
    ToolError, ToolResult, canonical_path, canonicalize_protected_roots, check_closure_inventory,
    compose_terminal, empty_closure, enforcement_report, fence_id_of, settle_location,
    validate_named_root, DroppedEvidence, ExecutionTerminal, ExitDisposition,
};

const ROOT: &str = "/opt/tools/build";
const INHERIT: &str = " (widening or unknown scope cannot inherit)";

fn only(items: &[&str]) -> Scope<String> {
    Scope::only(items.iter().map(|s| s.to_string()).collect())
}

fn set(items: &[&str]) -> OrderedSet<String> {
    OrderedSet::from_vec(items.iter().map(|s| s.to_string()).collect())
}

fn at(entry: &str, canonical: &str) -> ResolvedRoot {
    ResolvedRoot {
        entry: entry.to_string(),
        canonical: Some(canonical.to_string()),
    }
}

fn known() -> Vec<ResolvedRoot> {
    vec![
        at("/home/u/.secrets", "/data/secrets"),
        at("/data/secrets", "/data/secrets"),
        at("/lib", "/usr/lib"),
        at("/data", "/data"),
        at("/work", "/work"),
        ResolvedRoot {
            entry: "/dangling".to_string(),
            canonical: None,
        },
    ]
}

fn inventory() -> OrderedSet<String> {
    set(&["/home/u/.secrets"])
}

fn reason<T>(result: ToolResult<T>) -> String {
    match result {
        Err(ToolError::Denied { reason }) => reason,
        _ => panic!("expected a denial"),
    }
}

fn grant() -> Caveats {
    Caveats {
        exec: only(&[ROOT]),
        fs_read: only(&["/work"]),
        fs_write: only(&["/work"]),
        ..Caveats::top()
    }
}

fn mechanism() -> ConfinementMechanism {
    ConfinementMechanism::new(SandboxKind::Landlock, ChildNetworkPolicy::LandlockOnly)
        .with_exec_boundary(ExecBoundary::NamedRoot)
}

fn floor() -> EnforcementFloor {
    EnforcementFloor::from_scalar(AxisEnforcement::Advisory)
}

fn concrete(items: &[&str]) -> ResolvedScope {
    ResolvedScope::concrete(items.iter().map(|s| s.to_string()).collect())
}

fn closure_reading(items: &[&str]) -> ResolvedAuthority {
    ResolvedAuthority {
        fs_read: concrete(items),
        ..empty_closure()
    }
}

fn projection(caveats: &Caveats) -> BackendProjection {
    BackendProjection {
        resolved: ResolvedAuthority {
            exec: ResolvedScope::Unbounded,
            fs_read: concrete(&["/work", "/lib"]),
            ..ResolvedAuthority::from_delegated(caveats)
        },
        runtime_closure: closure_reading(&["/lib"]),
    }
}

fn encode(body: &AdmittedFenceBody) -> Result<Vec<u8>, String> {
    Ok(format!("{body:?}").into_bytes())
}

fn admitted() -> AdmittedFence {
    AdmittedFence::admit_named_root(
        &grant(),
        ROOT,
        &inventory(),
        &known(),
        mechanism(),
        floor(),
        projection,
        encode,
    )
    .expect("a root within its bounds")
}

// ── The inventory ───────────────────────────────────────────────────────────

#[test]
fn only_located_absolute_paths_have_a_canonical_form() {
    let refusal = "protected inventory/closure path is relative, unresolved or ambiguous";
    assert_eq!(canonical_path("/home/u/.secrets", &known()).unwrap(), "/data/secrets");
    assert_eq!(reason(canonical_path("data", &known())), refusal);
    assert_eq!(reason(canonical_path("/data/../etc", &known())), refusal);
    assert_eq!(reason(canonical_path("/dangling", &known())), refusal);
    assert_eq!(reason(canonical_path("/unasked", &known())), refusal);
}

#[test]
fn a_dangling_link_is_not_a_missing_directory() {
    let walked = Some("/data/new/file".to_string());
    assert_eq!(
        settle_location(
            &vec![PrefixState::Missing, PrefixState::Missing, PrefixState::Link, PrefixState::Ordinary],
            walked.clone()
        ),
        walked
    );
    assert_eq!(
        settle_location(&vec![PrefixState::Missing, PrefixState::DanglingLink], walked.clone()),
        None
    );
    assert_eq!(settle_location(&vec![PrefixState::Unreadable], walked), None);
    assert_eq!(settle_location(&vec![PrefixState::Ordinary], None), None);
}

#[test]
fn an_inventory_is_explicit_nonempty_and_located() {
    let located = canonicalize_protected_roots(&set(&["/data", "/home/u/.secrets"]), &known());
    assert!(located.unwrap().same(&set(&["/data", "/data/secrets"])));
    assert_eq!(
        reason(canonicalize_protected_roots(&set(&[]), &known())),
        "NamedRoot requires a nonempty trusted protected-root inventory"
    );
    assert_eq!(
        reason(canonicalize_protected_roots(&set(&["/data", "/dangling"]), &known())),
        "protected inventory/closure path is relative, unresolved or ambiguous"
    );

    let none = SandboxPolicy::default();
    assert_eq!(
        reason(none.resolve_named_root_protected_roots(&known())),
        "NamedRoot requires an explicit trusted protected-root inventory"
    );
    let some = SandboxPolicy {
        named_root_protected_roots: Some(inventory()),
        ..SandboxPolicy::default()
    };
    assert!(some
        .resolve_named_root_protected_roots(&known())
        .unwrap()
        .same(&set(&["/data/secrets"])));
}

fn check(closure: ResolvedAuthority, delegated: &Caveats) -> ToolResult<()> {
    let offered = BackendProjection {
        resolved: ResolvedAuthority::from_delegated(delegated),
        runtime_closure: closure,
    };
    check_closure_inventory(&offered, &set(&["/data/secrets"]), delegated, &known())
}

#[test]
fn a_closure_reaches_a_protected_root_only_where_the_grant_does() {
    let refusal = "fs_read runtime closure adds access to a recorded trusted protected root";
    assert!(check(closure_reading(&["/lib"]), &grant()).is_ok());
    assert_eq!(reason(check(closure_reading(&["/home/u/.secrets"]), &grant())), refusal);
    assert_eq!(
        reason(check(closure_reading(&["/data"]), &grant())),
        refusal,
        "an ancestor reaches it as well"
    );
    let granted = Caveats {
        fs_read: only(&["/data"]),
        ..grant()
    };
    assert!(check(closure_reading(&["/home/u/.secrets"]), &granted).is_ok());
    let writing = ResolvedAuthority {
        fs_write: concrete(&["/data/secrets"]),
        ..empty_closure()
    };
    assert_eq!(
        reason(check(writing, &granted)),
        "fs_write runtime closure adds access to a recorded trusted protected root"
    );
}

#[test]
fn a_closure_is_concrete_and_adds_no_program_and_no_host() {
    let classes = ResolvedAuthority {
        fs_read: ResolvedScope::class("system-data".to_string()),
        ..empty_closure()
    };
    assert_eq!(
        reason(check(classes, &grant())),
        "runtime closure requires concrete finite paths/hosts; classes cannot prove inventory disjointness"
    );
    let program = ResolvedAuthority {
        exec: concrete(&["/bin/sh"]),
        ..empty_closure()
    };
    assert_eq!(
        reason(check(program, &grant())),
        "NamedRoot requires empty exec and net runtime closures"
    );
    assert_eq!(
        reason(check(closure_reading(&["/dangling"]), &grant())),
        "protected inventory/closure path is relative, unresolved or ambiguous"
    );
}

// ── Admission ───────────────────────────────────────────────────────────────

fn validate(
    delegated: &Caveats,
    root: &str,
    mechanism: ConfinementMechanism,
    offered: &BackendProjection,
    floor: EnforcementFloor,
) -> ToolResult<()> {
    validate_named_root(
        delegated,
        root,
        &set(&["/data/secrets"]),
        &known(),
        mechanism,
        offered,
        floor,
    )
}

#[test]
fn an_admitted_root_has_an_identity_and_is_what_was_delegated() {
    let fence = admitted();
    assert!(fence.mechanism_caveats().same(&grant()));
    assert_eq!(fence.mechanism(), mechanism());
    let again = admitted();
    assert_eq!(fence.fence_id().expect("an identity"), again.fence_id().expect("an identity"));
    let other = AdmittedFence::named_root_from_projection(
        &grant(),
        ROOT,
        &inventory(),
        &known(),
        mechanism(),
        floor(),
        BackendProjection {
            runtime_closure: empty_closure(),
            resolved: ResolvedAuthority {
                exec: ResolvedScope::Unbounded,
                ..ResolvedAuthority::from_delegated(&grant())
            },
        },
        encode,
    )
    .expect("admitted without a closure");
    assert_ne!(other.fence_id(), fence.fence_id());
}

#[test]
fn a_root_is_granted_by_its_exact_absolute_path() {
    let refusal = "named-root admission requires an exact absolute root in the effective exec Only grant, without parent traversal";
    let g = grant();
    assert!(validate(&g, ROOT, mechanism(), &projection(&g), floor()).is_ok());
    assert_eq!(reason(validate(&g, "build", mechanism(), &projection(&g), floor())), refusal);
    assert_eq!(
        reason(validate(&g, "/opt/tools/../tools/build", mechanism(), &projection(&g), floor())),
        refusal
    );
    assert_eq!(
        reason(validate(&g, "/opt/tools/other", mechanism(), &projection(&g), floor())),
        refusal
    );
    let ambient = Caveats {
        exec: Scope::All,
        ..grant()
    };
    assert_eq!(
        reason(validate(&ambient, ROOT, mechanism(), &projection(&ambient), floor())),
        refusal
    );
}

#[test]
fn a_root_needs_its_explicit_mechanism() {
    let g = grant();
    let refusal = "named-root admission requires its explicit supported native mechanism";
    let plain = ConfinementMechanism::new(SandboxKind::Landlock, ChildNetworkPolicy::LandlockOnly);
    assert_eq!(reason(validate(&g, ROOT, plain, &projection(&g), floor())), refusal);
    let elsewhere =
        ConfinementMechanism::new(SandboxKind::Seatbelt, ChildNetworkPolicy::LandlockOnly)
            .with_exec_boundary(ExecBoundary::NamedRoot);
    assert_eq!(reason(validate(&g, ROOT, elsewhere, &projection(&g), floor())), refusal);
}

#[test]
fn the_descendants_are_disclosed_and_no_inherited_axis_widens() {
    let g = grant();
    let bounded = BackendProjection {
        resolved: ResolvedAuthority::from_delegated(&g),
        runtime_closure: empty_closure(),
    };
    assert_eq!(
        reason(validate(&g, ROOT, mechanism(), &bounded, floor())),
        "named-root descendant exec projection must be explicitly Unbounded; bounded or unknown evidence refuses"
    );
    let wider = |axis: &str| -> BackendProjection {
        let mut offered = projection(&g);
        match axis {
            "fs_read" => offered.resolved.fs_read = concrete(&["/work", "/lib", "/etc"]),
            "fs_write" => offered.resolved.fs_write = ResolvedScope::Unknown,
            _ => offered.resolved.net = ResolvedScope::Unknown,
        }
        offered
    };
    assert_eq!(
        reason(validate(&g, ROOT, mechanism(), &wider("fs_read"), floor())),
        format!("named-root fs_read authority refuses: Superset{INHERIT}")
    );
    assert_eq!(
        reason(validate(&g, ROOT, mechanism(), &wider("fs_write"), floor())),
        format!("named-root fs_write authority refuses: Unknown{INHERIT}")
    );
    assert_eq!(
        reason(validate(&g, ROOT, mechanism(), &wider("net"), floor())),
        format!("named-root net authority refuses: Unknown{INHERIT}")
    );
}

#[test]
fn a_root_meets_the_floor_of_a_confined_executor() {
    let hosts = Caveats {
        net: only(&["example.com"]),
        ..grant()
    };
    let refused = reason(validate(&hosts, ROOT, mechanism(), &projection(&hosts), floor()));
    assert!(refused.starts_with("named-root admission refuses: "), "{refused}");
    let g = grant();
    let kernel = EnforcementFloor::from_scalar(AxisEnforcement::Kernel);
    assert!(validate(&g, ROOT, mechanism(), &projection(&g), kernel).is_err());
}

#[test]
fn a_body_without_an_encoding_is_refused() {
    let refused = AdmittedFence::admit_named_root(
        &grant(),
        ROOT,
        &inventory(),
        &known(),
        mechanism(),
        floor(),
        projection,
        |_| Err("no codec".to_string()),
    );
    assert_eq!(
        reason(refused),
        "cannot content-address the named-root fence: no codec"
    );
}

#[test]
fn an_identity_is_a_function_of_the_encoding() {
    let one = fence_id_of(Ok(b"one".to_vec())).unwrap();
    assert_eq!(one, fence_id_of(Ok(b"one".to_vec())).unwrap());
    assert_ne!(one, fence_id_of(Ok(b"two".to_vec())).unwrap());
    assert_ne!(one.cid, "one");
}

// ── Application ─────────────────────────────────────────────────────────────

fn apply(root: &str, applied: &Caveats, offered: BackendProjection) -> ToolResult<()> {
    admitted().verify_named_root_applied(
        applied,
        root,
        &inventory(),
        &known(),
        mechanism(),
        offered,
        encode,
    )
}

#[test]
fn a_launch_applies_exactly_what_was_admitted() {
    let g = grant();
    let mismatch =
        "named-root evidence does not match the invocation root and effective authority";
    assert!(apply(ROOT, &g, projection(&g)).is_ok());
    assert_eq!(reason(apply("/opt/tools/other", &g, projection(&g))), mismatch);
    assert_eq!(reason(apply(ROOT, &Caveats::top(), projection(&g))), mismatch);
    let narrower = BackendProjection {
        resolved: ResolvedAuthority {
            exec: ResolvedScope::Unbounded,
            ..ResolvedAuthority::from_delegated(&g)
        },
        runtime_closure: empty_closure(),
    };
    assert_eq!(
        reason(apply(ROOT, &g, narrower)),
        "actual named-root application differs from the admitted fence CID"
    );
    assert_eq!(
        reason(admitted().verify_named_root_applied(
            &g,
            ROOT,
            &set(&["/data"]),
            &known(),
            mechanism(),
            projection(&g),
            encode,
        )),
        mismatch,
        "another inventory"
    );
}

#[test]
fn an_ordinary_fence_verifies_no_named_root() {
    let g = grant();
    let ordinary = AdmittedFence::try_admit(
        &g,
        agent_bridle_core::RuntimeClosure::empty(),
        ConfinementMechanism::backend(SandboxKind::Landlock),
        floor(),
        |c: &Caveats| BackendProjection {
            resolved: ResolvedAuthority::from_delegated(c),
            runtime_closure: empty_closure(),
        },
    )
    .expect("admitted");
    assert!(ordinary.fence_id().is_none());
    assert_eq!(
        reason(ordinary.verify_named_root_applied(
            &g,
            ROOT,
            &inventory(),
            &known(),
            mechanism(),
            projection(&g),
            encode,
        )),
        "ordinary fence cannot verify a named-root application"
    );
}

// ── Evidence ────────────────────────────────────────────────────────────────

fn body() -> AdmittedFenceBody {
    AdmittedFenceBody {
        effective: grant(),
        mechanism_caveats: grant(),
        root: ROOT.to_string(),
        mechanism: mechanism(),
        projection: projection(&grant()),
        protected_roots: set(&["/data/secrets"]),
    }
}

fn fence() -> Arc<FenceEvidence> {
    Arc::new(FenceEvidence {
        fence_id: body().fence_id(encode).expect("an identity"),
        sandbox_kind: SandboxKind::Landlock,
        egress_proxied: false,
        named_root: Some(body()),
    })
}

fn event(sequence: u64, kind: ExecutionEventKind) -> ExecutionEvent {
    ExecutionEvent {
        execution: ExecutionId(1),
        sequence,
        kind,
    }
}

fn started() -> ExecutionEvent {
    event(
        1,
        ExecutionEventKind::Started {
            pid: 7,
            fence: fence(),
        },
    )
}

fn exited(fence: Arc<FenceEvidence>) -> ExecutionEvent {
    let terminal = compose_terminal(
        Ok((Some(0), None)),
        None,
        None,
        ExitDisposition::Natural,
        fence,
        DroppedEvidence::default(),
    );
    let ExecutionTerminal::Exited(evidence) = terminal else {
        panic!("an exit")
    };
    event(5, ExecutionEventKind::Exited(evidence))
}

fn envelope() -> ToolEnvelope {
    ToolEnvelope::new(SandboxKind::Landlock)
        .with_enforcement(enforcement_report(&grant(), mechanism()))
}

fn verify(envelope: &ToolEnvelope) -> ToolResult<bool> {
    envelope
        .verify_named_root_execution(ROOT, &grant(), &inventory(), &known(), encode)
        .map(|proof| proof.is_some())
}

#[test]
fn evidence_proves_the_root_it_carries() {
    let fence = fence();
    let proved = fence
        .verify_named_root(ROOT, &grant(), &inventory(), &known(), encode)
        .expect("evidence");
    assert!(proved.same(&body()));
    assert!(fence
        .verify_named_root("/opt/tools/other", &grant(), &inventory(), &known(), encode)
        .is_err());
    let forged = FenceEvidence {
        fence_id: fence_id_of(Ok(b"another body".to_vec())).unwrap(),
        sandbox_kind: SandboxKind::Landlock,
        egress_proxied: false,
        named_root: Some(body()),
    };
    assert!(forged
        .verify_named_root(ROOT, &grant(), &inventory(), &known(), encode)
        .is_err());
    let bare = FenceEvidence {
        fence_id: fence_id_of(Ok(b"another body".to_vec())).unwrap(),
        sandbox_kind: SandboxKind::Landlock,
        egress_proxied: false,
        named_root: None,
    };
    assert!(bare
        .verify_named_root(ROOT, &grant(), &inventory(), &known(), encode)
        .is_err());
}

#[test]
fn a_started_and_ended_pair_is_evidence() {
    let whole = envelope().with_execution(Some(started()), exited(fence()));
    assert_eq!(verify(&whole), Ok(true));
    let failed = envelope().with_execution(
        Some(started()),
        event(
            5,
            ExecutionEventKind::Failed {
                message: "lost".to_string(),
            },
        ),
    );
    assert_eq!(verify(&failed), Ok(true));
}

#[test]
fn a_pair_that_does_not_fit_is_no_evidence() {
    let refusal = "invalid named-root Started/terminal evidence pair";
    assert_eq!(reason(verify(&envelope())), refusal, "no end");
    let unfinished = envelope().with_execution(Some(started()), event(5, ExecutionEventKind::Accepted));
    assert_eq!(reason(verify(&unfinished)), refusal);
    let mut late = started();
    late.sequence = 5;
    assert_eq!(
        reason(verify(&envelope().with_execution(Some(late), exited(fence())))),
        refusal
    );
    let mut foreign = started();
    foreign.execution = ExecutionId(2);
    assert_eq!(
        reason(verify(&envelope().with_execution(Some(foreign), exited(fence())))),
        refusal
    );
    let denied = event(
        5,
        ExecutionEventKind::Denied {
            denial: Denial {
                kind: DenialKind::Exec,
                target: ROOT.to_string(),
                reason: "no".to_string(),
            },
        },
    );
    assert_eq!(
        reason(verify(&envelope().with_execution(Some(started()), denied))),
        refusal,
        "a started root cannot end as denied"
    );
    let claims_less =
        ToolEnvelope::new(SandboxKind::Landlock).with_execution(Some(started()), exited(fence()));
    assert_eq!(reason(verify(&claims_less)), refusal);
    let other = Arc::new(FenceEvidence {
        fence_id: fence().fence_id.clone(),
        sandbox_kind: SandboxKind::Landlock,
        egress_proxied: true,
        named_root: Some(body()),
    });
    assert_eq!(
        reason(verify(&envelope().with_execution(Some(started()), exited(other)))),
        refusal,
        "an exit names the fence of the start"
    );
}

#[test]
fn nothing_started_claims_nothing() {
    let refusal = "invalid named-root Started/terminal evidence pair";
    let denied = || {
        event(
            1,
            ExecutionEventKind::Denied {
                denial: Denial {
                    kind: DenialKind::Exec,
                    target: ROOT.to_string(),
                    reason: "no".to_string(),
                },
            },
        )
    };
    let honest = ToolEnvelope::new(SandboxKind::Unconfined).with_execution(None, denied());
    assert_eq!(verify(&honest), Ok(false));
    let boast = ToolEnvelope::new(SandboxKind::Landlock).with_execution(None, denied());
    assert_eq!(reason(verify(&boast)), refusal);
    let ghostly = ToolEnvelope::new(SandboxKind::Unconfined).with_execution(None, exited(fence()));
    assert_eq!(reason(verify(&ghostly)), refusal);
}
