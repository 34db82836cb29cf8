use agent_bridle_core::{
    AttestRequirement, AxisEnforcement, BlockingTool, CallRequest, Caveats, Challenge,
    ConfinementMechanism, CountBound, Discharge, DischargeProvider, DischargeVerifier,
    EnforcementFloor, Grant, Invocation, NoStepUp, Registry, Rule, SandboxKind, Scope, SessionId,
    StepUpPolicy, Tool, ToolContext, ToolError, ToolResult,
};

fn only(items: &[&str]) -> Scope<String> {
    Scope::only(items.iter().map(|s| s.to_string()).collect())
}

/// Echoes its argument, where the leash lets it execute that program.
struct ProbeTool;
impl Tool for ProbeTool {
    fn name(&self) -> String {
        "probe".to_string()
    }
    fn required(&self) -> Caveats {
        Caveats::top()
    }
}
impl BlockingTool for ProbeTool {
    type Args = String;
    type Output = String;
    fn invoke_accounted(
        &self,
        program: String,
        cx: &ToolContext,
    ) -> ToolResult<Invocation<String>> {
        cx.check_exec(&program)?;
        Ok(Invocation::Ran(program))
    }
}

/// Refuses to start anything that its boundary does not confine as strongly as
/// the context demands.
struct SpawnProbeTool;
impl Tool for SpawnProbeTool {
    fn name(&self) -> String {
        "spawn_probe".to_string()
    }
    fn required(&self) -> Caveats {
        Caveats::top()
    }
}
impl BlockingTool for SpawnProbeTool {
    type Args = String;
    type Output = String;
    fn invoke_accounted(&self, _args: String, cx: &ToolContext) -> ToolResult<Invocation<String>> {
        let mechanism = ConfinementMechanism::backend(SandboxKind::Unconfined);
        let unmet = agent_bridle_core::unenforceable_axis(
            cx.caveats(),
            mechanism,
            cx.strength_floor(),
        );
        match unmet {
            Some(u) => Err(ToolError::denied(u.message())),
            None => panic!("a backend downgrade must be refused before process creation"),
        }
    }
}

/// Has each kind of outcome, as its argument says.
struct BudgetProbe;
impl Tool for BudgetProbe {
    fn name(&self) -> String {
        "budget_probe".to_string()
    }
    fn required(&self) -> Caveats {
        Caveats::top()
    }
}
impl BlockingTool for BudgetProbe {
    type Args = String;
    type Output = &'static str;
    fn invoke_accounted(
        &self,
        action: String,
        _cx: &ToolContext,
    ) -> ToolResult<Invocation<&'static str>> {
        match action.as_str() {
            "ran_fail" => Err(ToolError::Exec("boom".to_string())),
            "hard_deny" => Err(ToolError::denied("hard leash refusal".to_string())),
            "inband_deny" => Ok(Invocation::Denied("denied")),
            _ => Ok(Invocation::Ran("ran")),
        }
    }
}

fn reg() -> Registry<ProbeTool, NoStepUp, NoStepUp> {
    Registry::builder().tool(ProbeTool).build()
}

fn budget_reg() -> Registry<BudgetProbe, NoStepUp, NoStepUp> {
    Registry::builder().tool(BudgetProbe).build()
}

fn budget_call(
    r: &mut Registry<BudgetProbe, NoStepUp, NoStepUp>,
    grant: &mut Grant,
    action: &str,
) -> ToolResult<&'static str> {
    r.dispatch("budget_probe", action.to_string(), grant)
}

fn at_most(n: u64) -> Caveats {
    Caveats {
        max_calls: CountBound::AtMost(n),
        ..Caveats::top()
    }
}

#[test]
fn dispatch_unknown_tool_is_not_found() {
    let mut r = reg();
    let mut grant = r.mint_grant(Caveats::top());
    let err = r.dispatch("nope", String::new(), &mut grant).unwrap_err();
    assert!(matches!(err, ToolError::NotFound { .. }));
}

#[test]
fn dispatch_runs_in_scope_and_denies_out_of_scope() {
    let mut r = reg();
    let mut grant = r.mint_grant(Caveats {
        exec: only(&["echo"]),
        ..Caveats::top()
    });
    let ok = r.dispatch("probe", "echo".to_string(), &mut grant).unwrap();
    assert_eq!(ok, "echo");
    let denied = r.dispatch("probe", "rm".to_string(), &mut grant).unwrap_err();
    assert!(matches!(denied, ToolError::Denied { .. }));
}

#[test]
fn explicit_dispatch_strength_floor_refuses_backend_downgrade() {
    let mut registry = Registry::builder().tool(SpawnProbeTool).build();
    let mut grant = registry.mint_grant(Caveats {
        net: only(&["example.invalid"]),
        ..Caveats::top()
    });
    let error = registry
        .dispatch_with_strength_floor(
            "spawn_probe",
            String::new(),
            &mut grant,
            AxisEnforcement::Kernel,
        )
        .unwrap_err();
    let ToolError::Denied { reason } = error else {
        panic!("backend downgrade returned the wrong error: {error:?}");
    };
    assert!(
        reason.contains("Net"),
        "denial must identify the unenforceable net axis: {reason}"
    );
}

#[test]
fn dispatch_with_axis_confined_floor_refuses_net_and_refunds() {
    let mut registry = Registry::builder().tool(SpawnProbeTool).build();
    let mut grant = registry.mint_grant(Caveats {
        net: only(&["example.invalid"]),
        max_calls: CountBound::AtMost(1),
        ..Caveats::top()
    });
    for _ in 0..2 {
        let err = registry
            .dispatch_with_enforcement_floor(
                "spawn_probe",
                String::new(),
                &mut grant,
                EnforcementFloor::confined(),
            )
            .unwrap_err();
        assert!(matches!(err, ToolError::Denied { .. }));
    }
}

#[test]
fn dispatch_budget_persists_across_dispatches() {
    let mut r = reg();
    let mut grant = r.mint_grant(at_most(2));
    let mut call = || r.dispatch("probe", "echo".to_string(), &mut grant);
    assert!(call().is_ok(), "first call within budget");
    assert!(call().is_ok(), "second call exhausts budget");
    assert!(
        matches!(call().unwrap_err(), ToolError::Budget),
        "third call must be denied: the AtMost(2) bound is spent"
    );
}

#[test]
fn two_grants_equal_caveats_have_independent_budgets() {
    let mut r = reg();
    let caveats = at_most(1);
    let mut a = r.mint_grant(caveats.clone());
    let mut b = r.mint_grant(caveats);
    let mut echo = |g: &mut Grant| r.dispatch("probe", "echo".to_string(), g);
    assert!(echo(&mut a).is_ok(), "grant A's single call");
    assert!(
        matches!(echo(&mut a).unwrap_err(), ToolError::Budget),
        "grant A now spent"
    );
    assert!(echo(&mut b).is_ok(), "grant B keeps its own independent budget");
}

#[test]
fn denied_dispatch_does_not_charge_budget() {
    let mut r = reg();
    let mut grant = r.mint_grant(Caveats {
        exec: only(&["echo"]),
        max_calls: CountBound::AtMost(1),
        ..Caveats::top()
    });
    let denied = r.dispatch("probe", "rm".to_string(), &mut grant).unwrap_err();
    assert!(
        matches!(denied, ToolError::Denied { .. }),
        "out-of-scope program denied"
    );
    assert!(
        r.dispatch("probe", "echo".to_string(), &mut grant).is_ok(),
        "denied admission must not have consumed the AtMost(1) budget"
    );
}

#[test]
fn inband_denial_does_not_charge_budget() {
    let mut r = budget_reg();
    let mut grant = r.mint_grant(at_most(1));
    let denied = budget_call(&mut r, &mut grant, "inband_deny").unwrap();
    assert_eq!(denied, "denied", "the in-band denial envelope surfaces");
    assert!(
        budget_call(&mut r, &mut grant, "ran_ok").is_ok(),
        "an in-band `Ok(Denied)` must not have consumed the single-call budget"
    );
}

#[test]
fn hard_tool_denial_does_not_charge_budget() {
    let mut r = budget_reg();
    let mut grant = r.mint_grant(at_most(1));
    assert!(matches!(
        budget_call(&mut r, &mut grant, "hard_deny").unwrap_err(),
        ToolError::Denied { .. }
    ));
    assert!(
        budget_call(&mut r, &mut grant, "ran_ok").is_ok(),
        "a hard tool denial must not have consumed the single-call budget"
    );
}

#[test]
fn gate_level_denial_does_not_charge_budget() {
    let mut r = Registry::builder().tool(SpawnProbeTool).build();
    let mut grant = r.mint_grant(Caveats {
        net: only(&["example.invalid"]),
        max_calls: CountBound::AtMost(1),
        ..Caveats::top()
    });
    for _ in 0..2 {
        let err = r
            .dispatch_with_strength_floor(
                "spawn_probe",
                String::new(),
                &mut grant,
                AxisEnforcement::Kernel,
            )
            .unwrap_err();
        assert!(matches!(err, ToolError::Denied { .. }));
    }
}

#[test]
fn ran_but_failed_consumes_budget() {
    let mut r = budget_reg();
    let mut grant = r.mint_grant(at_most(1));
    assert!(matches!(
        budget_call(&mut r, &mut grant, "ran_fail").unwrap_err(),
        ToolError::Exec(_)
    ));
    assert!(
        matches!(
            budget_call(&mut r, &mut grant, "ran_ok").unwrap_err(),
            ToolError::Budget
        ),
        "a run that executed and failed still spent the single-call budget"
    );
}

#[test]
fn successful_run_consumes_budget() {
    let mut r = budget_reg();
    let mut grant = r.mint_grant(at_most(1));
    assert!(budget_call(&mut r, &mut grant, "ran_ok").is_ok());
    assert!(
        matches!(
            budget_call(&mut r, &mut grant, "ran_ok").unwrap_err(),
            ToolError::Budget
        ),
        "the single admitted call spent the budget"
    );
}

#[test]
fn oneshot_dispatch_keeps_no_per_call_state() {
    let mut r = budget_reg();
    for _ in 0..1000 {
        r.dispatch_oneshot("budget_probe", "ran_ok".to_string(), &Caveats::top())
            .unwrap();
    }
}

#[test]
fn oneshot_respects_max_calls() {
    let mut r = budget_reg();
    let zero = r
        .dispatch_oneshot("budget_probe", "ran_ok".to_string(), &at_most(0))
        .unwrap_err();
    assert!(
        matches!(zero, ToolError::Budget),
        "AtMost(0) denies one-shot"
    );
    assert!(
        r.dispatch_oneshot("budget_probe", "ran_ok".to_string(), &at_most(1))
            .is_ok(),
        "AtMost(1) admits the single one-shot call"
    );
}

#[test]
fn oneshot_inband_denial_surfaces_envelope() {
    let mut r = budget_reg();
    let out = r
        .dispatch_oneshot("budget_probe", "inband_deny".to_string(), &Caveats::top())
        .unwrap();
    assert_eq!(out, "denied");
}

#[test]
fn spent_grant_cannot_regenerate_budget_in_a_second_registry() {
    let mut reg_a = budget_reg();
    let mut reg_b = budget_reg();
    let mut grant = reg_a.mint_grant(at_most(1));
    assert!(budget_call(&mut reg_a, &mut grant, "ran_ok").is_ok());
    assert!(matches!(
        budget_call(&mut reg_a, &mut grant, "ran_ok").unwrap_err(),
        ToolError::Budget
    ));
    assert!(
        matches!(
            budget_call(&mut reg_b, &mut grant, "ran_ok").unwrap_err(),
            ToolError::Budget
        ),
        "a spent grant must not regenerate its budget by crossing to another Registry"
    );
}

#[test]
fn recreated_registry_does_not_resurrect_a_spent_grant() {
    let mut reg1 = budget_reg();
    let mut grant = reg1.mint_grant(at_most(1));
    assert!(budget_call(&mut reg1, &mut grant, "ran_ok").is_ok());
    drop(reg1);
    let mut reg2 = budget_reg();
    assert!(
        matches!(
            budget_call(&mut reg2, &mut grant, "ran_ok").unwrap_err(),
            ToolError::Budget
        ),
        "a spent grant carried across a session restart stays spent"
    );
}

struct FailingProvider;
impl DischargeProvider for FailingProvider {
    fn obtain(
        &self,
        _session: &SessionId,
        _request: &CallRequest,
        _required: &AttestRequirement,
        _generation: u64,
        _nonce: &[u8; 32],
    ) -> Result<Discharge, String> {
        Err("test: no authenticator present".into())
    }
}

struct StubVerifier;
impl DischargeVerifier for StubVerifier {
    fn verify(
        &self,
        _discharge: &Discharge,
        _required: &AttestRequirement,
        _expected: &Challenge,
    ) -> Result<(), String> {
        Ok(())
    }
}

fn passkey_for_probe() -> StepUpPolicy {
    StepUpPolicy::new(
        vec![Rule {
            selector: "probe".to_string(),
            requirement: AttestRequirement::passkey_recorded(),
        }],
        AttestRequirement::none(),
    )
}

#[test]
fn step_up_policy_demands_a_gesture_on_the_default_path() {
    let mut r = Registry::builder()
        .tool(ProbeTool)
        .step_up(
            SessionId::new([7u8; 32]),
            passkey_for_probe(),
            FailingProvider,
            StubVerifier,
        )
        .build();
    let mut grant = r.mint_grant(Caveats {
        exec: only(&["echo"]),
        ..Caveats::top()
    });
    let err = r.dispatch("probe", "echo".to_string(), &mut grant).unwrap_err();
    assert!(
        matches!(err, ToolError::Denied { .. }),
        "a demanded-but-refused gesture must fail closed: {err:?}"
    );
}

#[test]
fn step_up_holds_at_maximal_authority() {
    let mut r = Registry::builder()
        .tool(ProbeTool)
        .step_up(
            SessionId::new([7u8; 32]),
            passkey_for_probe(),
            FailingProvider,
            StubVerifier,
        )
        .build();
    let mut grant = r.mint_grant(Caveats::top());
    let err = r.dispatch("probe", "echo".to_string(), &mut grant).unwrap_err();
    assert!(
        matches!(err, ToolError::Denied { .. }),
        "maximal (top) authority must still owe the step-up gesture: {err:?}"
    );
}

/// Answers with the nonce that it was given, so that a test can see it.
struct Answering;
impl DischargeProvider for Answering {
    fn obtain(
        &self,
        session: &SessionId,
        request: &CallRequest,
        required: &AttestRequirement,
        generation: u64,
        nonce: &[u8; 32],
    ) -> Result<Discharge, String> {
        Ok(Discharge {
            challenge: *Challenge::bind(session, &request.content_id(), generation, nonce)
                .as_bytes(),
            presence: required.presence,
            proof_bytes: nonce.to_vec(),
        })
    }
}

/// Accepts the first two nonces of a registry, in their order.
struct Counting(std::cell::Cell<u64>);
impl DischargeVerifier for Counting {
    fn verify(
        &self,
        discharge: &Discharge,
        _required: &AttestRequirement,
        expected: &Challenge,
    ) -> Result<(), String> {
        let mut nonce = [0u8; 32];
        nonce[..8].copy_from_slice(&self.0.get().to_le_bytes());
        self.0.set(self.0.get() + 1);
        assert_eq!(discharge.proof_bytes, nonce.to_vec());
        assert_eq!(expected.as_bytes(), &discharge.challenge);
        Ok(())
    }
}

#[test]
fn every_ceremony_has_a_nonce_of_its_own() {
    let mut r = Registry::builder()
        .tool(ProbeTool)
        .generation(2)
        .step_up(
            SessionId::new([1u8; 32]),
            passkey_for_probe(),
            Answering,
            Counting(std::cell::Cell::new(0)),
        )
        .build();
    let mut grant = r.mint_grant(Caveats::top());
    for _ in 0..3 {
        assert!(r.dispatch("probe", "echo".to_string(), &mut grant).is_ok());
    }
}

#[test]
fn tools_are_found_by_name_and_listed_in_order() {
    let mut r = Registry::builder()
        .named("zeta".to_string(), ProbeTool)
        .tool(ProbeTool)
        .named("alpha".to_string(), ProbeTool)
        .named("zeta".to_string(), ProbeTool)
        .build();
    assert_eq!(r.tool_names(), vec!["alpha", "probe", "zeta"]);
    assert!(r.contains("probe"));
    assert!(!r.contains("beta"));
    assert!(r.get("alpha").is_some());
    assert!(r.get("beta").is_none());
    let mut grant = r.mint_grant(Caveats::top());
    assert_eq!(
        r.dispatch("zeta", "x".to_string(), &mut grant).unwrap(),
        "x"
    );
}

#[test]
fn a_stale_grant_is_refused_and_not_charged() {
    let mut r = Registry::builder().tool(BudgetProbe).generation(7).build();
    let mut grant = r.mint_grant(Caveats {
        valid_for_generation: Scope::only(vec![3u64]),
        ..at_most(1)
    });
    for _ in 0..2 {
        assert!(matches!(
            budget_call(&mut r, &mut grant, "ran_ok").unwrap_err(),
            ToolError::Generation
        ));
    }
    assert_eq!(grant.caveats().max_calls, CountBound::AtMost(1));
}

#[test]
fn a_call_may_be_brought_in_and_settled_apart() {
    let mut r = budget_reg();
    let mut grant = r.mint_grant(at_most(1));
    let cx = r
        .bring_in("budget_probe", &mut grant, EnforcementFloor::confined())
        .unwrap();
    assert_eq!(cx.strength_floor(), EnforcementFloor::confined());
    // The charge stands until the call is settled.
    assert!(matches!(
        r.bring_in("budget_probe", &mut grant, EnforcementFloor::default())
            .unwrap_err(),
        ToolError::Budget
    ));
    assert_eq!(grant.settle(Ok(Invocation::Denied(5))).unwrap(), 5);
    assert!(budget_call(&mut r, &mut grant, "ran_ok").is_ok());
    assert!(Invocation::Denied(1).is_denied());
    assert_eq!(Invocation::Ran(2).into_value(), 2);
}

#[test]
fn single_calls_keep_their_floor() {
    let mut r = Registry::builder().tool(SpawnProbeTool).build();
    let caveats = Caveats {
        net: only(&["example.invalid"]),
        ..Caveats::top()
    };
    let scalar = r.dispatch_oneshot_with_strength_floor(
        "spawn_probe",
        String::new(),
        &caveats,
        AxisEnforcement::Kernel,
    );
    assert!(matches!(scalar.unwrap_err(), ToolError::Denied { .. }));
    let each = r.dispatch_oneshot_with_enforcement_floor(
        "spawn_probe",
        String::new(),
        &caveats,
        EnforcementFloor::confined(),
    );
    assert!(matches!(each.unwrap_err(), ToolError::Denied { .. }));
    assert!(matches!(
        r.dispatch_oneshot("nope", String::new(), &caveats).unwrap_err(),
        ToolError::NotFound { .. }
    ));
}

#[test]
fn where_no_step_up_is_wired_no_gesture_counts() {
    let session = SessionId::new([0u8; 32]);
    let request = CallRequest::unspecified("x");
    let owed = AttestRequirement::passkey_recorded();
    assert!(NoStepUp
        .obtain(&session, &request, &owed, 0, &[0u8; 32])
        .is_err());
    let discharge = Discharge {
        challenge: [0u8; 32],
        presence: owed.presence,
        proof_bytes: vec![],
    };
    let expected = Challenge::bind(&session, &[0u8; 32], 0, &[0u8; 32]);
    assert!(NoStepUp.verify(&discharge, &owed, &expected).is_err());
}
