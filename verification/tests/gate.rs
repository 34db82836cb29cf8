use agent_bridle_core::{
    AttestRequirement, AxisEnforcement, CallRequest, Caveats, Challenge, CountBound, Decision,
    Discharge, DischargeAttempt, DischargeProvider, DischargeVerifier, EnforcementFloor, Gate,
    Presence, Rule, SandboxKind, Scope, SessionId, StepUpPolicy, ToolError,
};

fn only(items: &[&str]) -> Scope<String> {
    Scope::only(items.iter().map(|s| s.to_string()).collect())
}

fn top() -> Caveats {
    Caveats::top()
}

#[test]
fn effective_is_meet_and_leq_granted() {
    let granted = Caveats {
        exec: only(&["echo", "ls"]),
        max_calls: CountBound::AtMost(5),
        ..Caveats::top()
    };
    let required = Caveats {
        exec: only(&["echo"]),
        ..Caveats::top()
    };
    let mut gate = Gate::new(0);
    let cx = gate.authorize(&required, &granted).unwrap();
    assert_eq!(*cx.caveats(), granted.meet(&required));
    assert!(cx.caveats().leq(&granted));
    assert_eq!(cx.caveats().exec, only(&["echo"]));
}

#[test]
fn effective_is_intersection_when_tool_declares_more_than_granted() {
    let required = Caveats {
        exec: only(&["rm"]),
        ..Caveats::top()
    };
    let granted = Caveats {
        exec: only(&["echo"]),
        ..Caveats::top()
    };
    let mut gate = Gate::new(0);
    let cx = gate
        .authorize(&required, &granted)
        .expect("authorize succeeds");
    assert_eq!(cx.caveats().exec, Scope::none());
    assert!(cx.check_exec("rm").is_err());
    assert!(cx.check_exec("echo").is_err());
    assert!(cx.caveats().leq(&granted));
}

#[test]
fn default_required_top_is_confined_by_grant() {
    let granted = Caveats {
        exec: only(&["echo"]),
        ..Caveats::top()
    };
    let mut gate = Gate::new(0);
    let cx = gate.authorize(&top(), &granted).expect("authorize");
    assert_eq!(*cx.caveats(), granted);
}

#[test]
fn budget_at_most_two_allows_two_then_denies() {
    let granted = Caveats::top();
    let mut gate = Gate::with_budget(0, CountBound::AtMost(2));
    assert!(gate.authorize(&top(), &granted).is_ok());
    assert!(gate.authorize(&top(), &granted).is_ok());
    let err = gate.authorize(&top(), &granted).unwrap_err();
    assert!(matches!(err, ToolError::Budget));
}

#[test]
fn grant_max_calls_zero_always_denied() {
    let granted = Caveats {
        max_calls: CountBound::AtMost(0),
        ..Caveats::top()
    };
    let mut gate = Gate::new(0);
    assert!(matches!(
        gate.authorize(&top(), &granted).unwrap_err(),
        ToolError::Budget
    ));
}

#[test]
fn generation_mismatch_denies() {
    let mut gate = Gate::new(7);
    let granted = Caveats {
        valid_for_generation: Scope::only(vec![3u64]),
        ..Caveats::top()
    };
    assert!(matches!(
        gate.authorize(&top(), &granted).unwrap_err(),
        ToolError::Generation
    ));
    let granted_ok = Caveats {
        valid_for_generation: Scope::only(vec![7u64]),
        ..Caveats::top()
    };
    assert!(gate.authorize(&top(), &granted_ok).is_ok());
}

#[test]
fn denied_request_does_not_charge_budget() {
    let mut gate = Gate::with_budget(7, CountBound::AtMost(1));
    let bad = Caveats {
        valid_for_generation: Scope::only(vec![3u64]),
        ..Caveats::top()
    };
    assert!(gate.authorize(&top(), &bad).is_err());
    let good = Caveats::top();
    assert!(gate.authorize(&top(), &good).is_ok());
}

#[test]
fn context_minted_only_by_gate_and_carries_meet() {
    let granted = Caveats {
        exec: only(&["echo"]),
        max_calls: CountBound::AtMost(3),
        ..Caveats::top()
    };
    let mut gate = Gate::new(0);
    let cx = gate.authorize(&top(), &granted).expect("authorize");
    assert!(cx.caveats().leq(&granted));
    assert_eq!(*cx.caveats(), granted);
}

#[test]
fn a_context_carries_the_boundary_and_the_floor_of_its_gate() {
    let mut gate = Gate::new(3)
        .with_sandbox(SandboxKind::Landlock)
        .with_enforcement_floor(EnforcementFloor::confined());
    assert_eq!(gate.generation(), 3);
    let cx = gate.authorize(&top(), &top()).unwrap();
    assert_eq!(cx.sandbox_kind(), SandboxKind::Landlock);
    assert_eq!(cx.strength_floor(), EnforcementFloor::confined());

    // A lower floor does not lower what this gate already demands.
    let mut gate = gate.with_enforcement_floor(EnforcementFloor::default());
    let cx = gate.authorize(&top(), &top()).unwrap();
    assert_eq!(cx.strength_floor().net(), AxisEnforcement::Kernel);
}

// ── Step-up ─────────────────────────────────────────────────────────────────

/// Accepts a proof exactly where it answers the expected challenge.
struct Binding;
impl DischargeVerifier for Binding {
    fn verify(
        &self,
        discharge: &Discharge,
        required: &AttestRequirement,
        expected: &Challenge,
    ) -> Result<(), String> {
        if discharge.presence != required.presence {
            return Err("the gesture is too weak".to_string());
        }
        if &discharge.challenge != expected.as_bytes() {
            return Err("the proof does not answer this challenge".to_string());
        }
        Ok(())
    }
}

/// Answers whatever it is asked.
struct Willing;
impl DischargeProvider for Willing {
    fn obtain(
        &self,
        session: &SessionId,
        request: &CallRequest,
        required: &AttestRequirement,
        generation: u64,
        nonce: &[u8; 32],
    ) -> Result<Discharge, String> {
        let challenge = Challenge::bind(session, &request.content_id(), generation, nonce);
        Ok(Discharge {
            challenge: *challenge.as_bytes(),
            presence: required.presence,
            proof_bytes: Vec::new(),
        })
    }
}

/// Never has a gesture.
struct Absent;
impl DischargeProvider for Absent {
    fn obtain(
        &self,
        _session: &SessionId,
        _request: &CallRequest,
        _required: &AttestRequirement,
        _generation: u64,
        _nonce: &[u8; 32],
    ) -> Result<Discharge, String> {
        Err("nobody is there".to_string())
    }
}

fn demanding(freshness: u64) -> StepUpPolicy {
    StepUpPolicy::new(
        vec![Rule {
            selector: "deploy".to_string(),
            requirement: AttestRequirement {
                presence: Presence::Passkey,
                freshness_generations: freshness,
                record: true,
            },
        }],
        AttestRequirement::none(),
    )
}

fn answer(session: &SessionId, request: &CallRequest, generation: u64, nonce: &[u8; 32]) -> Discharge {
    Discharge {
        challenge: *Challenge::bind(session, &request.content_id(), generation, nonce).as_bytes(),
        presence: Presence::Passkey,
        proof_bytes: vec![1, 2, 3],
    }
}

#[test]
fn evaluate_asks_for_the_gesture_before_it_charges() {
    let mut gate = Gate::with_budget(0, CountBound::AtMost(1));
    let policy = demanding(0);
    let deploy = CallRequest::unspecified("deploy");
    let decision = gate.evaluate(&top(), &top(), &deploy, &policy);
    assert!(matches!(decision, Decision::NeedsDischarge(r) if r.record));
    // Nothing was charged: a call that owes nothing is still admitted.
    let other = CallRequest::unspecified("read");
    assert!(matches!(
        gate.evaluate(&top(), &top(), &other, &policy),
        Decision::Allow(_)
    ));
    assert!(matches!(
        gate.evaluate(&top(), &top(), &other, &policy),
        Decision::Deny(ToolError::Budget)
    ));
    let stale = Caveats {
        valid_for_generation: Scope::only(vec![9u64]),
        ..Caveats::top()
    };
    assert!(matches!(
        gate.evaluate(&top(), &stale, &deploy, &policy),
        Decision::Deny(ToolError::Generation)
    ));
}

#[test]
fn a_gesture_admits_one_act_and_is_recorded() {
    let session = SessionId::new([5u8; 32]);
    let mut gate = Gate::with_budget(4, CountBound::AtMost(2)).with_session(session);
    let request = CallRequest {
        tool: "deploy".to_string(),
        resource: "prod".to_string(),
    };
    let nonce = [9u8; 32];
    let discharge = answer(&session, &request, 4, &nonce);
    let policy = demanding(0);
    let attempt = DischargeAttempt {
        nonce,
        discharge: &discharge,
        verifier: &Binding,
    };
    let (_, record) = gate
        .authorize_with_discharge(&top(), &top(), &request, &policy, &attempt)
        .unwrap();
    let record = record.unwrap();
    assert_eq!(record.tool, "deploy");
    assert_eq!(record.resource, "prod");
    assert_eq!(record.challenge, discharge.challenge);
    assert_eq!(record.generation, 4);

    // The same proof once more is refused, and costs nothing.
    let err = gate
        .authorize_with_discharge(&top(), &top(), &request, &policy, &attempt)
        .unwrap_err();
    assert_eq!(err.message(), "denied: discharge already consumed (replay)");
    assert!(gate.authorize(&top(), &top()).is_ok());
    assert!(matches!(
        gate.authorize(&top(), &top()).unwrap_err(),
        ToolError::Budget
    ));
}

#[test]
fn a_gesture_may_reach_back_as_far_as_the_window() {
    let session = SessionId::new([1u8; 32]);
    let request = CallRequest::unspecified("deploy");
    let nonce = [3u8; 32];
    let old = answer(&session, &request, 7, &nonce);
    for (generation, admitted) in [(7, true), (9, true), (10, false)] {
        let mut gate = Gate::new(generation).with_session(session);
        let attempt = DischargeAttempt {
            nonce,
            discharge: &old,
            verifier: &Binding,
        };
        let r = gate.authorize_with_discharge(&top(), &top(), &request, &demanding(2), &attempt);
        assert_eq!(r.is_ok(), admitted, "generation {generation}");
    }
    // A window is never wider than this gate allows.
    let ancient = answer(&session, &request, 0, &nonce);
    let mut gate = Gate::new(4097).with_session(session);
    let attempt = DischargeAttempt {
        nonce,
        discharge: &ancient,
        verifier: &Binding,
    };
    assert!(gate
        .authorize_with_discharge(&top(), &top(), &request, &demanding(u64::MAX), &attempt)
        .is_err());
}

#[test]
fn a_gesture_for_another_act_or_session_is_refused() {
    let session = SessionId::new([1u8; 32]);
    let request = CallRequest::unspecified("deploy");
    let nonce = [3u8; 32];
    let elsewhere = answer(&SessionId::new([2u8; 32]), &request, 0, &nonce);
    let other = answer(
        &session,
        &CallRequest {
            tool: "deploy".to_string(),
            resource: "x".to_string(),
        },
        0,
        &nonce,
    );
    let nonced = answer(&session, &request, 0, &[4u8; 32]);
    for wrong in [elsewhere, other, nonced] {
        let mut gate = Gate::with_budget(0, CountBound::AtMost(1)).with_session(session);
        let attempt = DischargeAttempt {
            nonce,
            discharge: &wrong,
            verifier: &Binding,
        };
        let err = gate
            .authorize_with_discharge(&top(), &top(), &request, &demanding(0), &attempt)
            .unwrap_err();
        assert_eq!(
            err.message(),
            "denied: the proof does not answer this challenge"
        );
        assert!(gate.authorize(&top(), &top()).is_ok(), "nothing was charged");
    }
}

#[test]
fn the_whole_sequence_obtains_and_presents_the_gesture() {
    let mut gate = Gate::with_budget(0, CountBound::AtMost(1));
    let deploy = CallRequest::unspecified("deploy");
    let err = gate
        .authorize_step_up(&top(), &top(), &deploy, &demanding(0), &Absent, &Binding, [0u8; 32])
        .unwrap_err();
    assert_eq!(err.message(), "denied: nobody is there");
    let (_, record) = gate
        .authorize_step_up(&top(), &top(), &deploy, &demanding(0), &Willing, &Binding, [0u8; 32])
        .unwrap();
    assert!(record.is_some());
    // The budget is spent, and a call that owes nothing is charged like any other.
    let read = CallRequest::unspecified("read");
    assert!(matches!(
        gate.authorize_step_up(&top(), &top(), &read, &demanding(0), &Absent, &Binding, [1u8; 32])
            .unwrap_err(),
        ToolError::Budget
    ));
}

#[test]
fn the_first_rule_for_a_tool_decides() {
    let policy = StepUpPolicy::new(
        vec![
            Rule {
                selector: "a".to_string(),
                requirement: AttestRequirement::none(),
            },
            Rule {
                selector: "a".to_string(),
                requirement: AttestRequirement::passkey_recorded(),
            },
        ],
        AttestRequirement::passkey_recorded(),
    );
    assert!(!policy.required_for(&CallRequest::unspecified("a")).demands_gesture());
    assert!(policy.required_for(&CallRequest::unspecified("b")).demands_gesture());
}

#[test]
fn challenges_differ_in_every_part() {
    let a = SessionId::new([1u8; 32]);
    let b = SessionId::new([2u8; 32]);
    assert_eq!(a.as_bytes(), &[1u8; 32]);
    let x = CallRequest::unspecified("x").content_id();
    let y = CallRequest::unspecified("y").content_id();
    assert_ne!(x, y);
    let base = *Challenge::bind(&a, &x, 1, &[0u8; 32]).as_bytes();
    assert_ne!(base, *Challenge::bind(&b, &x, 1, &[0u8; 32]).as_bytes());
    assert_ne!(base, *Challenge::bind(&a, &y, 1, &[0u8; 32]).as_bytes());
    assert_ne!(base, *Challenge::bind(&a, &x, 2, &[0u8; 32]).as_bytes());
    assert_ne!(base, *Challenge::bind(&a, &x, 1, &[1u8; 32]).as_bytes());
    // Tool and resource do not run into each other.
    let left = CallRequest {
        tool: "ab".to_string(),
        resource: "c".to_string(),
    };
    let right = CallRequest {
        tool: "a".to_string(),
        resource: "bc".to_string(),
    };
    assert_ne!(left.content_id(), right.content_id());
}

#[test]
fn a_used_gesture_stays_used_whatever_is_admitted_in_between() {
    let session = SessionId::new([5u8; 32]);
    let mut gate = Gate::new(4).with_session(session);
    let policy = demanding(2);
    let request = CallRequest {
        tool: "deploy".to_string(),
        resource: "prod".to_string(),
    };
    let other = CallRequest {
        tool: "deploy".to_string(),
        resource: "stage".to_string(),
    };
    let nonce = [9u8; 32];
    let used = answer(&session, &request, 3, &nonce);
    let fresh = answer(&session, &other, 4, &nonce);
    let replay = DischargeAttempt {
        nonce,
        discharge: &used,
        verifier: &Binding,
    };
    let next = DischargeAttempt {
        nonce,
        discharge: &fresh,
        verifier: &Binding,
    };
    gate.authorize_with_discharge(&top(), &top(), &request, &policy, &replay)
        .unwrap();
    gate.authorize(&top(), &top()).unwrap();
    gate.authorize_with_discharge(&top(), &top(), &other, &policy, &next)
        .unwrap();
    let narrow = Caveats {
        exec: only(&["echo"]),
        ..Caveats::top()
    };
    let err = gate
        .authorize_with_discharge(&top(), &narrow, &request, &policy, &replay)
        .unwrap_err();
    assert_eq!(err.message(), "denied: discharge already consumed (replay)");
    // What a gesture admits is confined like anything else.
    let again = answer(&session, &request, 4, &nonce);
    let attempt = DischargeAttempt {
        nonce,
        discharge: &again,
        verifier: &Binding,
    };
    let (cx, _) = gate
        .authorize_with_discharge(&top(), &narrow, &request, &policy, &attempt)
        .unwrap();
    assert!(cx.check_exec("echo").is_ok());
    assert!(cx.check_exec("rm").is_err());
}
