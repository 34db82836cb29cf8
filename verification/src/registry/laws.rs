//! What a call through the catalog comes to, said over the grant, the tool and
//! what the tool returned.

use vstd::bytes::spec_u64_to_le_bytes;
use vstd::prelude::*;

use crate::caveats::{Caveats, CaveatsView, CountBound};
use crate::context::ToolContext;
use crate::error::{ToolError, ToolResult};
use crate::gate::laws::{can, is_both};
use crate::registry::{
    admission, asked, dispatched, dispatched_once, fresh_grant, BlockingTool, Grant, GrantView,
    Invocation, NoStepUp, Registry, RegistryBuilder, RegistryView, Tool,
};
use crate::report::{AxisEnforcement, EnforcementFloor, FloorView};
use crate::sandbox::SandboxKind;
use crate::sets::views;
use crate::step_up::{
    AttestRequirement, CallRequest, Discharge, DischargeProvider, DischargeVerifier, Presence,
    SessionId, StepUpPolicy,
};

verus! {

/// A grant starts with the calls that its authority names. A charge takes one,
/// or is refused where none is left; a refund gives one back; the authority
/// never changes.
pub proof fn law_a_grant_counts_its_calls(
    caveats: Caveats,
    made: Grant,
    charged: &mut Grant,
    r: ToolResult<()>,
    refunded: &mut Grant,
)
    requires
        call_ensures(Grant::new, (caveats,), made),
        call_ensures(Grant::charge, (charged,), r),
        call_ensures(Grant::refund, (refunded,), ()),
        old(refunded)@.remaining != Some(u64::MAX),
    ensures
        made@.caveats == caveats@,
        made@.remaining is None <==> caveats@.max_calls is Unlimited,
        made@.remaining is Some ==> made@.remaining->0 == caveats@.max_calls->AtMost_0,
        r is Err <==> old(charged)@.remaining == Some(0u64),
        r is Err ==> r->Err_0 == ToolError::Budget && final(charged)@ == old(charged)@,
        final(charged)@.caveats == old(charged)@.caveats,
        old(charged)@.remaining is None ==> final(charged)@.remaining is None,
        r is Ok && old(charged)@.remaining is Some ==> final(charged)@.remaining is Some
            && final(charged)@.remaining->0 + 1 == old(charged)@.remaining->0,
        final(refunded)@.caveats == old(refunded)@.caveats,
        old(refunded)@.remaining is None ==> final(refunded)@.remaining is None,
        old(refunded)@.remaining is Some ==> final(refunded)@.remaining is Some
            && final(refunded)@.remaining->0 == old(refunded)@.remaining->0 + 1,
{
}

/// Settling hands on what the tool returned, and gives the charge back exactly
/// where the tool refused: with a refusal, or with a value that is one.
pub proof fn law_only_a_refusal_is_given_back<O>(
    grant: &mut Grant,
    outcome: ToolResult<Invocation<O>>,
    r: ToolResult<O>,
)
    requires
        call_ensures(Grant::settle::<O>, (grant, outcome), r),
        old(grant)@.remaining != Some(u64::MAX),
    ensures
        r is Ok <==> outcome is Ok,
        outcome matches Ok(Invocation::Ran(v)) ==> r == Ok::<O, ToolError>(v),
        outcome matches Ok(Invocation::Denied(v)) ==> r == Ok::<O, ToolError>(v),
        outcome matches Err(e) ==> r == Err::<O, ToolError>(e),
        final(grant)@.caveats == old(grant)@.caveats,
        (outcome matches Ok(Invocation::Denied(_)) || outcome matches Err(ToolError::Denied { .. }))
            && old(grant)@.remaining is Some ==> final(grant)@.remaining is Some
            && final(grant)@.remaining->0 == old(grant)@.remaining->0 + 1,
        !(outcome matches Ok(Invocation::Denied(_))) && !(outcome matches Err(
            ToolError::Denied { .. },
        )) ==> final(grant)@ == old(grant)@,
{
}

/// The context that a tool gets: the authority of the grant as far as the tool
/// declares to need it, no boundary yet, and the floor that was asked for.
pub open spec fn confined<T: Tool>(
    tool: T,
    granted: CaveatsView,
    floor: FloorView,
    cx: ToolContext,
) -> bool {
    &&& exists|required: Caveats| #[trigger]
        call_ensures(T::required, (&tool,), required) && is_both(
            cx.spec_caveats(),
            granted,
            required@,
        )
    &&& cx.spec_sandbox_kind() == SandboxKind::Unconfined
    &&& cx.spec_floor().exec == floor.exec
    &&& cx.spec_floor().net == floor.net
}

/// One call less is left in the grant.
pub open spec fn one_less(before: GrantView, after: GrantView) -> bool {
    &&& after.caveats == before.caveats
    &&& before.remaining is None ==> after.remaining is None
    &&& before.remaining is Some ==> after.remaining is Some && after.remaining->0 + 1
        == before.remaining->0
}

/// The call brought the registry to its gate: with gestures, one more nonce was
/// taken.
pub open spec fn came_to_its_gate<T, P, V>(
    before: RegistryView<T, P, V>,
    after: RegistryView<T, P, V>,
) -> bool {
    &&& after.tools == before.tools
    &&& after.generation == before.generation
    &&& after.step_up == before.step_up
    &&& before.step_up is None ==> after.next_nonce == before.next_nonce
    &&& before.step_up is Some ==> after.next_nonce != before.next_nonce && (before.next_nonce
        < u64::MAX ==> after.next_nonce == before.next_nonce + 1)
}

proof fn lemma_brought_in<T: Tool, P: DischargeProvider, V: DischargeVerifier>(
    registry: RegistryView<T, P, V>,
    name: Seq<char>,
    grant: GrantView,
    floor: FloorView,
    registry_after: RegistryView<T, P, V>,
    grant_after: GrantView,
    r: ToolResult<ToolContext>,
)
    requires
        admission(registry, name, grant, floor, registry_after, grant_after, r),
    ensures
        !registry.tools.dom().contains(name) ==> (r matches Err(ToolError::NotFound { name: n })
            && n@ == name) && registry_after == registry && grant_after == grant,
        registry.tools.dom().contains(name) && grant.remaining == Some(0u64) ==> r == Err::<
            ToolContext,
            ToolError,
        >(ToolError::Budget) && registry_after == registry && grant_after == grant,
        registry.tools.dom().contains(name) && grant.remaining != Some(0u64) ==> {
            &&& came_to_its_gate(registry, registry_after)
            &&& r is Err ==> grant_after == grant
            &&& r matches Ok(cx) ==> {
                &&& confined(registry.tools[name], grant.caveats, floor, cx)
                &&& can(grant.caveats.valid_for_generation, registry.generation)
                &&& one_less(grant, grant_after)
            }
            &&& registry.step_up is None ==> (r is Err <==> !can(
                grant.caveats.valid_for_generation,
                registry.generation,
            ) || grant.caveats.max_calls == CountBound::AtMost(0))
        },
{
    if registry.tools.dom().contains(name) && grant.remaining != Some(0u64) {
        let required = choose|required: Caveats| #[trigger]
            asked(registry, name, grant.caveats, floor, required, r);
        let m = grant.caveats.meet(required@);
        assert(is_both(m, grant.caveats, required@));
        if r is Ok {
            assert(r->Ok_0.spec_caveats() == m);
            assert(call_ensures(T::required, (&registry.tools[name],), required));
        }
    }
}

/// A call reaches its tool only where the tool is there, the grant has a call
/// left and is valid for the generation; then the context allows what the grant
/// and the tool's needs both allow, and the grant has one call less. A call that
/// does not reach its tool costs nothing. Without gestures, such a call always
/// reaches it.
pub proof fn law_a_call_reaches_its_tool_within_the_grant<
    T: Tool,
    P: DischargeProvider,
    V: DischargeVerifier,
>(
    registry: &mut Registry<T, P, V>,
    name: &str,
    grant: &mut Grant,
    floor: EnforcementFloor,
    r: ToolResult<ToolContext>,
)
    requires
        call_ensures(Registry::<T, P, V>::bring_in, (registry, name, grant, floor), r),
    ensures
        ({
            let before = old(registry)@;
            let there = before.tools.dom().contains(name@);
            let funded = old(grant)@.remaining != Some(0u64);
            let valid = can(old(grant)@.caveats.valid_for_generation, before.generation);
            &&& !there <==> r is Err && r->Err_0 is NotFound
            &&& !there ==> r->Err_0->name@ == name@
            &&& there && !funded ==> r == Err::<ToolContext, ToolError>(ToolError::Budget)
            &&& !there || !funded ==> final(registry)@ == before
            &&& r is Err ==> final(grant)@ == old(grant)@
            &&& r is Ok ==> there && funded && valid && confined(
                before.tools[name@],
                old(grant)@.caveats,
                floor@,
                r->Ok_0,
            ) && one_less(old(grant)@, final(grant)@)
            &&& there && funded ==> came_to_its_gate(before, final(registry)@)
            &&& there && funded && valid && before.step_up is None
                && old(grant)@.caveats.max_calls != CountBound::AtMost(0) ==> r is Ok
        }),
{
    lemma_brought_in(
        old(registry)@,
        name@,
        old(grant)@,
        floor@,
        final(registry)@,
        final(grant)@,
        r,
    );
    let before = old(registry)@;
    if before.tools.dom().contains(name@) && old(grant)@.remaining != Some(0u64) {
        lemma_gate_finds(before, name@, old(grant)@.caveats, floor@, r);
    }
}

/// What is refused at a gate is never a tool that is not there.
proof fn lemma_gate_finds<T: Tool, P: DischargeProvider, V: DischargeVerifier>(
    registry: RegistryView<T, P, V>,
    name: Seq<char>,
    granted: CaveatsView,
    floor: FloorView,
    r: ToolResult<ToolContext>,
)
    requires
        exists|required: Caveats| #[trigger] asked(registry, name, granted, floor, required, r),
    ensures
        !(r matches Err(ToolError::NotFound { .. })),
{
}

/// A call that a policy demands a gesture for reaches its tool only on a
/// gesture that was obtained for that tool, in the session of the registry, at
/// its generation, and with the number of its next nonce in eight bytes, the
/// lowest first, and zeros behind them.
pub proof fn law_an_owed_gesture_is_obtained_for_the_call<
    T: Tool,
    P: DischargeProvider,
    V: DischargeVerifier,
>(
    registry: &mut Registry<T, P, V>,
    name: &str,
    grant: &mut Grant,
    floor: EnforcementFloor,
    r: ToolResult<ToolContext>,
    policy: &StepUpPolicy,
    call: &CallRequest,
    owed: AttestRequirement,
)
    requires
        call_ensures(Registry::<T, P, V>::bring_in, (registry, name, grant, floor), r),
        old(registry)@.step_up is Some,
        *policy == old(registry)@.step_up->0.spec_policy(),
        call.tool@ == name@,
        call_ensures(StepUpPolicy::required_for, (policy, call), owed),
        owed.presence != Presence::Undemanded,
        r is Ok,
    ensures
        exists|
            session: SessionId,
            request: CallRequest,
            nonce: [u8; 32],
            obtained: Result<Discharge, String>,
        |
            {
                &&& #[trigger] call_ensures(
                    P::obtain,
                    (
                        &old(registry)@.step_up->0.spec_provider(),
                        &session,
                        &request,
                        &owed,
                        old(registry)@.generation,
                        &nonce,
                    ),
                    obtained,
                )
                &&& obtained is Ok
                &&& session@ == old(registry)@.step_up->0.spec_session()
                &&& request.tool@ == name@ && request.resource@.len() == 0
                &&& nonce@.take(8) == spec_u64_to_le_bytes(old(registry)@.next_nonce)
                &&& forall|k: int| 8 <= k < 32 ==> #[trigger] nonce@[k] == 0
            },
{
    let before = old(registry)@;
    let su = before.step_up->0;
    let required = choose|required: Caveats| #[trigger]
        asked(before, name@, old(grant)@.caveats, floor@, required, r);
    let gate = before.gate(floor@);
    let (request, nonce, after, full) = choose|
        request: CallRequest,
        nonce: [u8; 32],
        after: crate::gate::GateView,
        full: ToolResult<(ToolContext, Option<crate::step_up::Attestation>)>,
    |
        {
            &&& request@ == (crate::step_up::CallView { tool: name@, resource: Seq::empty() })
            &&& nonce@ == crate::registry::nonce_bytes(before.next_nonce)
            &&& #[trigger] gate.admits_step_up(
                required@,
                old(grant)@.caveats,
                request,
                su.spec_policy(),
                su.spec_provider(),
                su.spec_verifier(),
                nonce,
                after,
                full,
            )
            &&& match full {
                Ok((cx, _)) => r == Ok::<ToolContext, ToolError>(cx),
                Err(e) => r == Err::<ToolContext, ToolError>(e),
            }
        };
    assert(su.spec_policy().owed(request@) == owed);
    let (session, obtained) = choose|session: SessionId, obtained: Result<Discharge, String>|
        #![trigger call_ensures(P::obtain, (&su.spec_provider(), &session, &request, &owed, gate.generation, &nonce), obtained)]
        session@ == gate.session && call_ensures(
            P::obtain,
            (&su.spec_provider(), &session, &request, &owed, gate.generation, &nonce),
            obtained,
        ) && obtained is Ok;
    crate::bytes::lemma_number_bytes(before.next_nonce, before.next_nonce);
    assert(spec_u64_to_le_bytes(before.next_nonce).len() == 8);
    assert(nonce@.take(8) =~= spec_u64_to_le_bytes(before.next_nonce));
}

/// The tool was run on the arguments under a confined context, and this is what
/// came of it: the caller has what the tool returned, and the call was charged
/// unless the tool refused.
pub open spec fn was_run<T: BlockingTool>(
    tool: T,
    args: T::Args,
    before: GrantView,
    floor: FloorView,
    after: GrantView,
    r: ToolResult<T::Output>,
) -> bool {
    exists|cx: ToolContext, outcome: ToolResult<Invocation<T::Output>>|
        {
            &&& #[trigger] call_ensures(T::invoke_accounted, (&tool, args, &cx), outcome)
            &&& confined(tool, before.caveats, floor, cx)
            &&& match outcome {
                Ok(Invocation::Ran(v)) => r == Ok::<T::Output, ToolError>(v) && one_less(
                    before,
                    after,
                ),
                Ok(Invocation::Denied(v)) => r == Ok::<T::Output, ToolError>(v) && after == before,
                Err(e) => r == Err::<T::Output, ToolError>(e) && (if e is Denied {
                    after == before
                } else {
                    one_less(before, after)
                }),
            }
        }
}

/// What a call comes to.
pub open spec fn came_to<T: BlockingTool, P: DischargeProvider, V: DischargeVerifier>(
    registry: RegistryView<T, P, V>,
    name: Seq<char>,
    args: T::Args,
    before: GrantView,
    floor: FloorView,
    after: GrantView,
    r: ToolResult<T::Output>,
) -> bool {
    let there = registry.tools.dom().contains(name);
    let funded = before.remaining != Some(0u64);
    let valid = can(before.caveats.valid_for_generation, registry.generation);
    &&& !there ==> (r matches Err(ToolError::NotFound { name: n }) && n@ == name) && after == before
    &&& there && !funded ==> r == Err::<T::Output, ToolError>(ToolError::Budget) && after == before
    &&& there && funded ==> (r is Err && after == before) || was_run(
        registry.tools[name],
        args,
        before,
        floor,
        after,
        r,
    )
    &&& !valid ==> r is Err && after == before
    &&& there && funded && valid && registry.step_up is None && before.caveats.max_calls
        != CountBound::AtMost(0) ==> was_run(registry.tools[name], args, before, floor, after, r)
}

proof fn lemma_dispatched<T: BlockingTool, P: DischargeProvider, V: DischargeVerifier>(
    registry: RegistryView<T, P, V>,
    name: Seq<char>,
    args: T::Args,
    grant: GrantView,
    floor: FloorView,
    registry_after: RegistryView<T, P, V>,
    grant_after: GrantView,
    r: ToolResult<T::Output>,
)
    requires
        dispatched(registry, name, args, grant, floor, registry_after, grant_after, r),
    ensures
        came_to(registry, name, args, grant, floor, grant_after, r),
{
    let (charged, admitted) = choose|charged: GrantView, admitted: ToolResult<ToolContext>|
        {
            &&& #[trigger] admission(
                registry,
                name,
                grant,
                floor,
                registry_after,
                charged,
                admitted,
            )
            &&& match admitted {
                Err(e) => r == Err::<T::Output, ToolError>(e) && grant_after == charged,
                Ok(cx) => exists|outcome: ToolResult<Invocation<T::Output>>|
                    {
                        &&& #[trigger] call_ensures(
                            T::invoke_accounted,
                            (&registry.tools[name], args, &cx),
                            outcome,
                        )
                        &&& r == crate::registry::delivered(outcome)
                        &&& grant_after == (if crate::registry::is_refusal(outcome) {
                            grant
                        } else {
                            charged
                        })
                    },
            }
        };
    lemma_brought_in(registry, name, grant, floor, registry_after, charged, admitted);
    if let Ok(cx) = admitted {
        let outcome = choose|outcome: ToolResult<Invocation<T::Output>>|
            {
                &&& #[trigger] call_ensures(
                    T::invoke_accounted,
                    (&registry.tools[name], args, &cx),
                    outcome,
                )
                &&& r == crate::registry::delivered(outcome)
                &&& grant_after == (if crate::registry::is_refusal(outcome) {
                    grant
                } else {
                    charged
                })
            };
        assert(was_run(registry.tools[name], args, grant, floor, grant_after, r));
    }
}

/// A dispatched call is charged once where its tool was run, and not at all where
/// it was refused: before the tool, or by it. The tool acts under the grant as
/// far as it declares to need it, with the floor that was asked for, or the
/// lowest.
pub proof fn law_a_dispatched_call_is_charged_once<
    T: BlockingTool,
    P: DischargeProvider,
    V: DischargeVerifier,
>(
    registry: &mut Registry<T, P, V>,
    name: &str,
    args: T::Args,
    grant: &mut Grant,
    r: ToolResult<T::Output>,
    by_strength: &mut Registry<T, P, V>,
    by_strength_grant: &mut Grant,
    strength: AxisEnforcement,
    s: ToolResult<T::Output>,
    by_floor: &mut Registry<T, P, V>,
    by_floor_grant: &mut Grant,
    floor: EnforcementFloor,
    f: ToolResult<T::Output>,
)
    requires
        call_ensures(Registry::<T, P, V>::dispatch, (registry, name, args, grant), r),
        call_ensures(
            Registry::<T, P, V>::dispatch_with_strength_floor,
            (by_strength, name, args, by_strength_grant, strength),
            s,
        ),
        call_ensures(
            Registry::<T, P, V>::dispatch_with_enforcement_floor,
            (by_floor, name, args, by_floor_grant, floor),
            f,
        ),
    ensures
        exists|least: FloorView|
            least.exec == AxisEnforcement::Advisory && least.net == AxisEnforcement::Advisory
                && #[trigger] came_to(
                old(registry)@,
                name@,
                args,
                old(grant)@,
                least,
                final(grant)@,
                r,
            ),
        exists|even: FloorView|
            even.exec == strength && even.net == strength && #[trigger] came_to(
                old(by_strength)@,
                name@,
                args,
                old(by_strength_grant)@,
                even,
                final(by_strength_grant)@,
                s,
            ),
        came_to(
            old(by_floor)@,
            name@,
            args,
            old(by_floor_grant)@,
            floor@,
            final(by_floor_grant)@,
            f,
        ),
{
    let least = FloorView::pinned(AxisEnforcement::Advisory, AxisEnforcement::Advisory);
    let even = FloorView::pinned(strength, strength);
    lemma_dispatched(
        old(registry)@,
        name@,
        args,
        old(grant)@,
        least,
        final(registry)@,
        final(grant)@,
        r,
    );
    lemma_dispatched(
        old(by_strength)@,
        name@,
        args,
        old(by_strength_grant)@,
        even,
        final(by_strength)@,
        final(by_strength_grant)@,
        s,
    );
    lemma_dispatched(
        old(by_floor)@,
        name@,
        args,
        old(by_floor_grant)@,
        floor@,
        final(by_floor)@,
        final(by_floor_grant)@,
        f,
    );
}

/// A call came to its end as the first one on a grant of the given authority.
pub open spec fn came_to_alone<T: BlockingTool, P: DischargeProvider, V: DischargeVerifier>(
    start: RegistryView<T, P, V>,
    name: Seq<char>,
    args: T::Args,
    caveats: CaveatsView,
    floor: FloorView,
    r: ToolResult<T::Output>,
) -> bool {
    exists|before: GrantView, after: GrantView|
        before.caveats == caveats && (before.remaining is None <==> caveats.max_calls is Unlimited)
            && (before.remaining is Some ==> before.remaining->0 == caveats.max_calls->AtMost_0)
            && #[trigger] came_to(start, name, args, before, floor, after, r)
}

proof fn lemma_dispatched_once<T: BlockingTool, P: DischargeProvider, V: DischargeVerifier>(
    start: RegistryView<T, P, V>,
    name: Seq<char>,
    args: T::Args,
    caveats: CaveatsView,
    floor: FloorView,
    end: RegistryView<T, P, V>,
    r: ToolResult<T::Output>,
)
    requires
        dispatched_once(start, name, args, caveats, floor, end, r),
    ensures
        came_to_alone(start, name, args, caveats, floor, r),
{
    let before = fresh_grant(caveats);
    let (charged, admitted) = choose|charged: GrantView, admitted: ToolResult<ToolContext>|
        {
            &&& #[trigger] admission(
                start,
                name,
                before,
                floor,
                end,
                charged,
                admitted,
            )
            &&& match admitted {
                Err(e) => r == Err::<T::Output, ToolError>(e),
                Ok(cx) => exists|outcome: ToolResult<Invocation<T::Output>>|
                    {
                        &&& #[trigger] call_ensures(
                            T::invoke_accounted,
                            (&start.tools[name], args, &cx),
                            outcome,
                        )
                        &&& r == crate::registry::delivered(outcome)
                    },
            }
        };
    match admitted {
        Err(e) => {
            assert(dispatched(
                start,
                name,
                args,
                before,
                floor,
                end,
                charged,
                r,
            ));
            lemma_dispatched(
                start,
                name,
                args,
                before,
                floor,
                end,
                charged,
                r,
            );
        },
        Ok(cx) => {
            let outcome = choose|outcome: ToolResult<Invocation<T::Output>>|
                {
                    &&& #[trigger] call_ensures(
                        T::invoke_accounted,
                        (&start.tools[name], args, &cx),
                        outcome,
                    )
                    &&& r == crate::registry::delivered(outcome)
                };
            let after = if crate::registry::is_refusal(outcome) {
                before
            } else {
                charged
            };
            assert(dispatched(start, name, args, before, floor, end, after, r));
            lemma_dispatched(start, name, args, before, floor, end, after, r);
        },
    }
}

/// A single call is the first call on a grant of its own; without a floor of its
/// own it requires the kernel on the filesystem and nothing more, and with one
/// strength it requires that on the network and on programs.
pub proof fn law_a_single_call_is_the_first_on_its_own_grant<
    T: BlockingTool,
    P: DischargeProvider,
    V: DischargeVerifier,
>(
    registry: &mut Registry<T, P, V>,
    name: &str,
    args: T::Args,
    caveats: &Caveats,
    floor: EnforcementFloor,
    r: ToolResult<T::Output>,
    by_scalar: &mut Registry<T, P, V>,
    scalar: AxisEnforcement,
    s: ToolResult<T::Output>,
    plain: &mut Registry<T, P, V>,
    p: ToolResult<T::Output>,
)
    requires
        call_ensures(
            Registry::<T, P, V>::dispatch_oneshot_with_enforcement_floor,
            (registry, name, args, caveats, floor),
            r,
        ),
        call_ensures(
            Registry::<T, P, V>::dispatch_oneshot_with_strength_floor,
            (by_scalar, name, args, caveats, scalar),
            s,
        ),
        call_ensures(Registry::<T, P, V>::dispatch_oneshot, (plain, name, args, caveats), p),
    ensures
        came_to_alone(old(registry)@, name@, args, caveats@, floor@, r),
        came_to_alone(
            old(by_scalar)@,
            name@,
            args,
            caveats@,
            (FloorView {
                fs_read: AxisEnforcement::Kernel,
                fs_write: AxisEnforcement::Kernel,
                exec: scalar,
                net: scalar,
            }),
            s,
        ),
        came_to_alone(
            old(plain)@,
            name@,
            args,
            caveats@,
            (FloorView {
                fs_read: AxisEnforcement::Kernel,
                fs_write: AxisEnforcement::Kernel,
                exec: AxisEnforcement::Advisory,
                net: AxisEnforcement::Advisory,
            }),
            p,
        ),
{
    lemma_dispatched_once(
        old(registry)@,
        name@,
        args,
        caveats@,
        floor@,
        final(registry)@,
        r,
    );
    lemma_dispatched_once(
        old(by_scalar)@,
        name@,
        args,
        caveats@,
        FloorView::pinned(scalar, scalar),
        final(by_scalar)@,
        s,
    );
    lemma_dispatched_once(
        old(plain)@,
        name@,
        args,
        caveats@,
        FloorView::pinned(AxisEnforcement::Advisory, AxisEnforcement::Advisory),
        final(plain)@,
        p,
    );
}

/// A registry begins with no tool, and a tool is registered under the name that
/// it gives. A step-up configuration is kept as it was given and changes no
/// tool. A grant that a registry mints is a fresh one.
pub proof fn law_a_registry_begins_empty<
    T: Tool,
    P: DischargeProvider,
    V: DischargeVerifier,
>(
    start: RegistryBuilder<T, NoStepUp, NoStepUp>,
    tool: T,
    more: RegistryBuilder<T, NoStepUp, NoStepUp>,
    session: SessionId,
    policy: StepUpPolicy,
    provider: P,
    verifier: V,
    guarded: RegistryBuilder<T, P, V>,
    built: Registry<T, P, V>,
    asked_name: &str,
    found: Option<&T>,
    caveats: Caveats,
    grant: Grant,
)
    requires
        call_ensures(Registry::<T, NoStepUp, NoStepUp>::builder, (), start),
        call_ensures(RegistryBuilder::<T, NoStepUp, NoStepUp>::tool, (start, tool), more),
        call_ensures(
            RegistryBuilder::<T, NoStepUp, NoStepUp>::step_up::<P, V>,
            (more, session, policy, provider, verifier),
            guarded,
        ),
        call_ensures(RegistryBuilder::<T, P, V>::build, (guarded,), built),
        call_ensures(Registry::<T, P, V>::get, (&built, asked_name), found),
        call_ensures(Registry::<T, P, V>::mint_grant, (&built, caveats), grant),
    ensures
        exists|name: String| #[trigger]
            call_ensures(T::name, (&tool,), name) && (found is Some <==> asked_name@ == name@),
        found is Some ==> *found->0 == tool,
        built@.generation == 0,
        built@.step_up is Some,
        built@.step_up->0.spec_session() == session@ && built@.step_up->0.spec_policy() == policy
            && built@.step_up->0.spec_provider() == provider && built@.step_up->0.spec_verifier()
            == verifier,
        grant@.caveats == caveats@,
        grant@.remaining is None <==> caveats@.max_calls is Unlimited,
        grant@.remaining is Some ==> grant@.remaining->0 == caveats@.max_calls->AtMost_0,
{
}

/// A registry holds the tools that were registered, the last under each name,
/// and lists their names once each.
pub proof fn law_a_registry_holds_what_was_registered<
    T: Tool,
    P: DischargeProvider,
    V: DischargeVerifier,
>(
    start: RegistryBuilder<T, P, V>,
    name: String,
    tool: T,
    more: RegistryBuilder<T, P, V>,
    generation: u64,
    aged: RegistryBuilder<T, P, V>,
    built: Registry<T, P, V>,
    asked_name: &str,
    found: Option<&T>,
    known: bool,
    names: Vec<String>,
)
    requires
        call_ensures(RegistryBuilder::<T, P, V>::named, (start, name, tool), more),
        call_ensures(RegistryBuilder::<T, P, V>::generation, (more, generation), aged),
        call_ensures(RegistryBuilder::<T, P, V>::build, (aged,), built),
        call_ensures(Registry::<T, P, V>::get, (&built, asked_name), found),
        call_ensures(Registry::<T, P, V>::contains, (&built, asked_name), known),
        call_ensures(Registry::<T, P, V>::tool_names, (&built,), names),
    ensures
        asked_name@ == name@ ==> found == Some(&tool),
        asked_name@ != name@ ==> (found is Some <==> start@.tools.dom().contains(asked_name@)) && (
        found is Some ==> *found->0 == start@.tools[asked_name@]),
        known <==> found is Some,
        known <==> exists|i: int| 0 <= i < names@.len() && (#[trigger] names@[i])@ == asked_name@,
        built@.generation == generation,
        built@.step_up == start@.step_up,
{
    let all = views(names@);
    assert(all.len() == names@.len());
    assert(all.to_set().contains(asked_name@) == all.contains(asked_name@));
    if all.contains(asked_name@) {
        let i = choose|i: int| 0 <= i < all.len() && all[i] == asked_name@;
        assert(names@[i]@ == asked_name@);
    }
    if exists|i: int| 0 <= i < names@.len() && (#[trigger] names@[i])@ == asked_name@ {
        let i = choose|i: int| 0 <= i < names@.len() && (#[trigger] names@[i])@ == asked_name@;
        assert(all[i] == asked_name@);
    }
}

} // verus!
