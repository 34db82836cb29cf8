//! What an admission gives and what it costs, said over the grant, the needs of
//! the tool, and a gate before and after.

use vstd::bytes::spec_u64_to_le_bytes;
use vstd::prelude::*;
use vstd::utf8::encode_utf8;

use crate::bytes::fingerprint;
use crate::caveats::{Caveats, CaveatsView, CountBound, ScopeView};
use crate::context::ToolContext;
use crate::error::{ToolError, ToolResult};
use crate::gate::{Gate, GateView};
use crate::report::{AxisEnforcement, EnforcementFloor};
use crate::sandbox::SandboxKind;
use crate::step_up::{
    demanded, AttestRequirement, Attestation, CallRequest, Challenge, Decision, Discharge,
    DischargeAttempt, DischargeProvider, DischargeVerifier, Presence, Rule, SessionId,
    StepUpPolicy,
};

verus! {

/// The scope allows the item: it is unrestricted, or lists it.
pub open spec fn can<A>(scope: ScopeView<A>, x: A) -> bool {
    scope is All || scope->Only_0.contains(x)
}

/// The authority allows exactly what the two others both allow.
pub open spec fn is_both(c: CaveatsView, a: CaveatsView, b: CaveatsView) -> bool {
    &&& forall|x: Seq<char>| #[trigger] can(c.fs_read, x) <==> can(a.fs_read, x) && can(b.fs_read, x)
    &&& forall|x: Seq<char>| #[trigger]
        can(c.fs_write, x) <==> can(a.fs_write, x) && can(b.fs_write, x)
    &&& forall|x: Seq<char>| #[trigger] can(c.exec, x) <==> can(a.exec, x) && can(b.exec, x)
    &&& forall|x: Seq<char>| #[trigger] can(c.net, x) <==> can(a.net, x) && can(b.net, x)
    &&& forall|g: u64| #[trigger]
        can(c.valid_for_generation, g) <==> can(a.valid_for_generation, g) && can(
            b.valid_for_generation,
            g,
        )
    &&& c.fs_read is All <==> a.fs_read is All && b.fs_read is All
    &&& c.fs_write is All <==> a.fs_write is All && b.fs_write is All
    &&& c.exec is All <==> a.exec is All && b.exec is All
    &&& c.net is All <==> a.net is All && b.net is All
    &&& c.max_calls is Unlimited <==> a.max_calls is Unlimited && b.max_calls is Unlimited
    &&& c.max_calls is AtMost ==> (a.max_calls is AtMost ==> c.max_calls->AtMost_0
        <= a.max_calls->AtMost_0) && (b.max_calls is AtMost ==> c.max_calls->AtMost_0
        <= b.max_calls->AtMost_0)
}

/// A gate is as it was but for one call less in its budget.
pub open spec fn one_call_less(before: GateView, after: GateView) -> bool {
    &&& before.remaining is None ==> after.remaining is None
    &&& before.remaining is Some ==> after.remaining is Some && after.remaining->0
        == before.remaining->0 - 1
    &&& after.generation == before.generation
    &&& after.sandbox_kind == before.sandbox_kind
    &&& after.floor == before.floor
    &&& after.session == before.session
}

/// No call is left: the grant allows none, or the budget of this gate is spent.
pub open spec fn spent(gate: GateView, granted: CaveatsView) -> bool {
    granted.max_calls == CountBound::AtMost(0) || gate.remaining == Some(0u64)
}

/// A call is refused where the grant is not valid for the generation of its
/// gate, and then where no call is left; and nothing changes. Otherwise its
/// context allows what the grant and the tool's needs both allow, carries the
/// boundary and the floor of that gate, and costs one call.
pub proof fn law_an_admission_is_the_meet_and_costs_one_call(
    gate: &mut Gate,
    required: &Caveats,
    granted: &Caveats,
    r: ToolResult<ToolContext>,
)
    requires
        call_ensures(Gate::authorize, (gate, required, granted), r),
    ensures
        ({
            let before = old(gate)@;
            let after = final(gate)@;
            let valid = can(granted@.valid_for_generation, before.generation);
            &&& r == Err::<ToolContext, ToolError>(ToolError::Generation) <==> !valid
            &&& r == Err::<ToolContext, ToolError>(ToolError::Budget) <==> valid && spent(
                before,
                granted@,
            )
            &&& r is Err ==> r->Err_0 == ToolError::Generation || r->Err_0 == ToolError::Budget
            &&& r is Err ==> after == before
            &&& r is Ok ==> {
                &&& is_both(r->Ok_0.spec_caveats(), granted@, required@)
                &&& r->Ok_0.spec_sandbox_kind() == before.sandbox_kind
                &&& r->Ok_0.spec_floor() == before.floor
                &&& one_call_less(before, after)
                &&& after.consumed == before.consumed
            }
        }),
{
    let before = old(gate)@;
    if r is Ok {
        let m = granted@.meet(required@);
        assert(is_both(m, granted@, required@));
    }
}

/// Before any gesture, a call that owes one is told so and changes nothing; any
/// other is refused or admitted as an ordinary one.
pub proof fn law_a_call_that_owes_a_gesture_is_told_so(
    gate: &mut Gate,
    required: &Caveats,
    granted: &Caveats,
    request: &CallRequest,
    policy: &StepUpPolicy,
    r: Decision,
    owed: AttestRequirement,
)
    requires
        call_ensures(Gate::evaluate, (gate, required, granted, request, policy), r),
        call_ensures(StepUpPolicy::required_for, (policy, request), owed),
    ensures
        ({
            let before = old(gate)@;
            let after = final(gate)@;
            let valid = can(granted@.valid_for_generation, before.generation);
            let gesture = owed.presence != Presence::Undemanded;
            &&& r is NeedsDischarge <==> valid && gesture
            &&& r is NeedsDischarge ==> r->NeedsDischarge_0 == owed
            &&& r is Deny <==> !valid || (!gesture && spent(before, granted@))
            &&& r is Deny ==> r->Deny_0 == (if valid {
                ToolError::Budget
            } else {
                ToolError::Generation
            })
            &&& !(r is Allow) ==> after == before
            &&& r is Allow ==> {
                &&& is_both(r->Allow_0.spec_caveats(), granted@, required@)
                &&& r->Allow_0.spec_sandbox_kind() == before.sandbox_kind
                &&& r->Allow_0.spec_floor() == before.floor
                &&& one_call_less(before, after)
                &&& after.consumed == before.consumed
            }
        }),
{
    if r is Allow {
        let m = granted@.meet(required@);
        assert(is_both(m, granted@, required@));
    }
}

/// What a call owes is what the first rule for exactly its tool demands; where
/// no rule names the tool, what the policy demands otherwise.
pub proof fn law_the_first_rule_for_a_tool_decides(
    policy: &StepUpPolicy,
    request: &CallRequest,
    r: AttestRequirement,
)
    requires
        call_ensures(StepUpPolicy::required_for, (policy, request), r),
    ensures
        forall|i: int|
            0 <= i < policy.rules@.len() && (#[trigger] policy.rules@[i]).selector@ == request.tool@
                && (forall|k: int|
                0 <= k < i ==> (#[trigger] policy.rules@[k]).selector@ != request.tool@) ==> r
                == policy.rules@[i].requirement,
        (forall|i: int|
            0 <= i < policy.rules@.len() ==> (#[trigger] policy.rules@[i]).selector@
                != request.tool@) ==> r == policy.otherwise,
{
    let all = policy.rules@;
    assert forall|i: int|
        0 <= i < all.len() && (#[trigger] all[i]).selector@ == request.tool@ && (forall|k: int|
            0 <= k < i ==> (#[trigger] all[k]).selector@ != request.tool@) implies r
        == all[i].requirement by {
        lemma_first_rule(all, policy.otherwise, request.tool@, i);
    }
    if forall|i: int| 0 <= i < all.len() ==> (#[trigger] all[i]).selector@ != request.tool@ {
        lemma_first_rule(all, policy.otherwise, request.tool@, all.len() as int);
    }
}

proof fn lemma_first_rule(
    rules: Seq<Rule>,
    otherwise: AttestRequirement,
    tool: Seq<char>,
    i: int,
)
    requires
        0 <= i <= rules.len(),
        i < rules.len() ==> rules[i].selector@ == tool,
        forall|k: int| 0 <= k < i ==> (#[trigger] rules[k]).selector@ != tool,
    ensures
        demanded(rules, otherwise, tool) == (if i < rules.len() {
            rules[i].requirement
        } else {
            otherwise
        }),
    decreases rules.len(),
{
    if i > 0 {
        let rest = rules.subrange(1, rules.len() as int);
        assert(rules[0].selector@ != tool);
        assert forall|k: int| 0 <= k < i - 1 implies (#[trigger] rest[k]).selector@ != tool by {
            assert(rest[k] == rules[k + 1]);
        }
        if i < rules.len() {
            assert(rest[i - 1] == rules[i]);
        }
        lemma_first_rule(rest, otherwise, tool, i - 1);
    }
}

/// The digest that a gesture answers: of the session, the digest of the act, the
/// generation and the nonce, one behind the other; an act is its tool and its
/// resource, each behind its length.
pub open spec fn answer_to(
    session: Seq<u8>,
    request: CallRequest,
    generation: u64,
    nonce: Seq<u8>,
) -> Seq<u8> {
    let tool = encode_utf8(request.tool@);
    let resource = encode_utf8(request.resource@);
    let act = fingerprint(
        spec_u64_to_le_bytes(tool.len() as u64) + tool + spec_u64_to_le_bytes(
            resource.len() as u64,
        ) + resource,
    );
    fingerprint(session + act + spec_u64_to_le_bytes(generation) + nonce)
}

/// A gesture is accepted for the generation of this gate and for as many before
/// it as are asked for, 4096 at the most: the challenge to answer is the one
/// that was answered where that is the challenge of the act at one of these
/// generations, and otherwise that of this gate's own generation.
pub proof fn law_a_gesture_is_for_one_act_and_a_few_generations(
    gate: &Gate,
    request: &CallRequest,
    owed: &AttestRequirement,
    nonce: &[u8; 32],
    answered: &[u8; 32],
    r: Challenge,
)
    requires
        call_ensures(Gate::expected_challenge, (gate, request, owed, nonce, answered), r),
    ensures
        forall|g: u64|
            g <= gate@.generation && gate@.generation - g <= owed.freshness_generations
                && gate@.generation - g <= 4096 && answered@ == #[trigger] answer_to(
                gate@.session,
                *request,
                g,
                nonce@,
            ) ==> r@ == answered@,
        r@ == answer_to(gate@.session, *request, gate@.generation, nonce@) || (r@ == answered@
            && exists|g: u64|
            g <= gate@.generation && gate@.generation - g <= owed.freshness_generations
                && gate@.generation - g <= 4096 && answered@ == #[trigger] answer_to(
                gate@.session,
                *request,
                g,
                nonce@,
            )),
{
    let content = request@.content_id();
    assert(request@.payload() =~= spec_u64_to_le_bytes(
        encode_utf8(request.tool@).len() as u64,
    ) + encode_utf8(request.tool@) + spec_u64_to_le_bytes(
        encode_utf8(request.resource@).len() as u64,
    ) + encode_utf8(request.resource@));
    assert forall|g: u64|
        #[trigger] answer_to(gate@.session, *request, g, nonce@) == gate@.challenge_at(
            content,
            nonce@,
            g,
        ) by {}
    assert forall|g: u64|
        g <= gate@.generation && gate@.generation - g <= owed.freshness_generations
            && gate@.generation - g <= 4096 && answered@ == #[trigger] answer_to(
            gate@.session,
            *request,
            g,
            nonce@,
        ) implies r@ == answered@ by {
        assert(gate@.challenge_at(content, nonce@, g) == answered@);
    }
    if exists|g: u64|
        gate@.oldest(owed.freshness_generations) <= g <= gate@.generation
            && #[trigger] gate@.challenge_at(content, nonce@, g) == answered@ {
        let g = choose|g: u64|
            gate@.oldest(owed.freshness_generations) <= g <= gate@.generation
                && #[trigger] gate@.challenge_at(content, nonce@, g) == answered@;
        assert(answered@ == answer_to(gate@.session, *request, g, nonce@));
    }
}

/// On a gesture: a refused proof is a refusal and changes nothing; a challenge
/// that was used before is refused, whatever the proof; any other is used up,
/// and then the call is admitted for one call, if one is left, with what the
/// grant and the tool's needs both allow, and is recorded where that is asked
/// for.
pub proof fn law_a_gesture_is_used_up_by_the_act_it_admits(
    gate: &mut Gate,
    required: &Caveats,
    granted: &Caveats,
    request: &CallRequest,
    owed: &AttestRequirement,
    discharge: &Discharge,
    expected: &Challenge,
    verdict: Result<(), String>,
    r: ToolResult<(ToolContext, Option<Attestation>)>,
)
    requires
        call_ensures(
            Gate::settle_discharge,
            (gate, required, granted, request, owed, discharge, expected, verdict),
            r,
        ),
    ensures
        ({
            let before = old(gate)@;
            let after = final(gate)@;
            let fresh = verdict is Ok && !before.consumed.contains(expected@);
            &&& r is Ok <==> fresh && !spent(before, granted@)
            &&& r is Err ==> (r->Err_0 is Denied <==> !fresh)
            &&& r is Err ==> (r->Err_0 == ToolError::Budget <==> fresh)
            &&& verdict is Err ==> r->Err_0->reason@ == verdict->Err_0@
            &&& !fresh ==> after == before
            &&& fresh ==> forall|c: Seq<u8>| #[trigger]
                after.consumed.contains(c) <==> before.consumed.contains(c) || c == expected@
            &&& fresh && r is Err ==> after.remaining == before.remaining
            &&& r is Ok ==> {
                &&& is_both((r->Ok_0).0.spec_caveats(), granted@, required@)
                &&& (r->Ok_0).0.spec_sandbox_kind() == before.sandbox_kind
                &&& (r->Ok_0).0.spec_floor() == before.floor
                &&& one_call_less(before, after)
                &&& (r->Ok_0).1 is Some <==> owed.record
                &&& (r->Ok_0).1 matches Some(a) ==> a.tool@ == request.tool@ && a.resource@
                    == request.resource@ && a.challenge@ == discharge.challenge@ && a.generation
                    == before.generation
            }
        }),
{
    if r is Ok {
        let m = granted@.meet(required@);
        assert(is_both(m, granted@, required@));
    }
}

/// With a proof at hand: the generation is judged first; a call that owes no
/// gesture is an ordinary one; and a call that owes one is admitted only where
/// the verifier accepted the proof against the challenge of that very act, which
/// was not used before and is used now.
pub proof fn law_an_owed_gesture_is_verified<V: DischargeVerifier>(
    gate: &mut Gate,
    required: &Caveats,
    granted: &Caveats,
    request: &CallRequest,
    policy: &StepUpPolicy,
    attempt: &DischargeAttempt<V>,
    r: ToolResult<(ToolContext, Option<Attestation>)>,
    owed: AttestRequirement,
)
    requires
        call_ensures(
            Gate::authorize_with_discharge::<V>,
            (gate, required, granted, request, policy, attempt),
            r,
        ),
        call_ensures(StepUpPolicy::required_for, (policy, request), owed),
    ensures
        ({
            let before = old(gate)@;
            let after = final(gate)@;
            let valid = can(granted@.valid_for_generation, before.generation);
            &&& !valid ==> r == Err::<(ToolContext, Option<Attestation>), ToolError>(
                ToolError::Generation,
            ) && after == before
            &&& valid && owed.presence == Presence::Undemanded ==> (r is Ok <==> !spent(
                before,
                granted@,
            )) && (r is Ok ==> (r->Ok_0).1 is None && one_call_less(before, after)) && (r is Err
                ==> after == before)
            &&& r is Ok ==> is_both((r->Ok_0).0.spec_caveats(), granted@, required@)
                && one_call_less(before, after)
            &&& r is Ok && owed.presence != Presence::Undemanded ==> exists|
                expected: Challenge,
                verdict: Result<(), String>,
            |
                #![trigger call_ensures(V::verify, (attempt.verifier, attempt.discharge, &owed, &expected), verdict)]
                {
                    &&& call_ensures(
                        V::verify,
                        (attempt.verifier, attempt.discharge, &owed, &expected),
                        verdict,
                    )
                    &&& verdict is Ok
                    &&& !before.consumed.contains(expected@)
                    &&& after.consumed.contains(expected@)
                    &&& expected@ == before.expects(
                        request@.content_id(),
                        owed.freshness_generations,
                        attempt.nonce@,
                        attempt.discharge.challenge@,
                    )
                }
        }),
{
    let m = granted@.meet(required@);
    assert(is_both(m, granted@, required@));
}

/// Where a gesture is owed and none can be had, the call is refused for that
/// reason and nothing changes; an admitted call got no more than the grant and
/// the tool's needs allow, for one call.
pub proof fn law_a_call_is_not_admitted_without_its_gesture<
    P: DischargeProvider,
    V: DischargeVerifier,
>(
    gate: &mut Gate,
    required: &Caveats,
    granted: &Caveats,
    request: &CallRequest,
    policy: &StepUpPolicy,
    provider: &P,
    verifier: &V,
    nonce: [u8; 32],
    r: ToolResult<(ToolContext, Option<Attestation>)>,
    owed: AttestRequirement,
)
    requires
        call_ensures(
            Gate::authorize_step_up::<P, V>,
            (gate, required, granted, request, policy, provider, verifier, nonce),
            r,
        ),
        call_ensures(StepUpPolicy::required_for, (policy, request), owed),
    ensures
        ({
            let before = old(gate)@;
            let after = final(gate)@;
            &&& r is Ok ==> can(granted@.valid_for_generation, before.generation) && is_both(
                (r->Ok_0).0.spec_caveats(),
                granted@,
                required@,
            ) && one_call_less(before, after)
            &&& r is Ok && owed.presence != Presence::Undemanded ==> exists|
                session: SessionId,
                obtained: Result<Discharge, String>,
            |
                #![trigger call_ensures(P::obtain, (provider, &session, request, &owed, before.generation, &nonce), obtained)]
                {
                    &&& session@ == before.session
                    &&& call_ensures(
                        P::obtain,
                        (provider, &session, request, &owed, before.generation, &nonce),
                        obtained,
                    )
                    &&& obtained is Ok
                }
            &&& (owed.presence != Presence::Undemanded && forall|
                session: SessionId,
                obtained: Result<Discharge, String>,
            |
                #![trigger call_ensures(P::obtain, (provider, &session, request, &owed, before.generation, &nonce), obtained)]
                call_ensures(
                    P::obtain,
                    (provider, &session, request, &owed, before.generation, &nonce),
                    obtained,
                ) ==> obtained is Err) ==> r is Err && r->Err_0 is Denied && after == before
        }),
{
    let m = granted@.meet(required@);
    assert(is_both(m, granted@, required@));
}

/// A gate starts at its generation with its budget, unconfined, with no session
/// and nothing used; each change to it changes that alone, and a floor is only
/// ever raised.
pub proof fn law_a_gate_is_what_it_was_made_as(
    generation: u64,
    bare: Gate,
    max_calls: CountBound,
    made: Gate,
    kind: SandboxKind,
    boxed: Gate,
    session: SessionId,
    bound: Gate,
    floor: EnforcementFloor,
    raised: Gate,
)
    requires
        call_ensures(Gate::new, (generation,), bare),
        call_ensures(Gate::with_budget, (generation, max_calls), made),
        call_ensures(Gate::with_sandbox, (made, kind), boxed),
        call_ensures(Gate::with_session, (made, session), bound),
        call_ensures(Gate::with_enforcement_floor, (made, floor), raised),
    ensures
        bare@.generation == generation && bare@.remaining is None,
        made@.generation == generation,
        made@.remaining is Some <==> max_calls is AtMost,
        made@.remaining is Some ==> made@.remaining->0 == max_calls->AtMost_0,
        made@.sandbox_kind == SandboxKind::Unconfined,
        made@.consumed == Set::<Seq<u8>>::empty(),
        made@.session.len() == 32 && forall|i: int|
            0 <= i < 32 ==> #[trigger] made@.session[i] == 0,
        made@.floor.exec == AxisEnforcement::Advisory && made@.floor.net
            == AxisEnforcement::Advisory && made@.floor.fs_read == AxisEnforcement::Kernel
            && made@.floor.fs_write == AxisEnforcement::Kernel,
        boxed@ == (GateView { sandbox_kind: kind, ..made@ }),
        bound@ == (GateView { session: session@, ..made@ }),
        raised@ == (GateView { floor: raised@.floor, ..made@ }),
        raised@.floor.exec == floor@.exec,
        raised@.floor.net == floor@.net,
        raised@.floor.fs_read == AxisEnforcement::Kernel,
        raised@.floor.fs_write == AxisEnforcement::Kernel,
{
}

} // verus!
