//! The catalog of tools, the grants that calls are charged to, and the dispatch
//! of a call through the leash.
//!
//! A call is charged before it is admitted. The charge is given back where the
//! call was refused before the tool had any effect: by a gate, by the tool
//! with an error, or by the tool in the value that it returns.

use vstd::bytes::{spec_u64_to_le_bytes, u64_to_le_bytes};
use vstd::prelude::*;
use vstd::string::*;

pub mod laws;

use crate::caveats::{Caveats, CaveatsView, CountBound};
use crate::context::ToolContext;
use crate::error::{ToolError, ToolResult};
use crate::gate::{fresh_gate, Gate, GateView};
use crate::report::{AxisEnforcement, EnforcementFloor, FloorView};
use crate::sets::{in_order, views, OrderedSet};
use crate::step_up::{AttestRequirement, Attestation, CallRequest, CallView, Challenge};
use crate::step_up::{Discharge, DischargeProvider, DischargeVerifier, SessionId, StepUpPolicy};
use crate::text::str_equal;

verus! {

/// What a tool did with a call that it did not fail.
#[derive(Debug, Clone, PartialEq, Eq)]
pub enum Invocation<O> {
    /// It ran.
    Ran(O),
    /// It refused before it had any effect, and says so in what it returns.
    Denied(O),
}

impl<O> Invocation<O> {
    /// What the caller gets.
    pub open spec fn value(self) -> O {
        match self {
            Invocation::Ran(v) => v,
            Invocation::Denied(v) => v,
        }
    }

    /// Whether the tool refused.
    pub fn is_denied(&self) -> (r: bool)
        ensures
            r == (self is Denied),
    {
        match self {
            Invocation::Ran(_) => false,
            Invocation::Denied(_) => true,
        }
    }

    /// What the caller gets.
    pub fn into_value(self) -> (r: O)
        ensures
            r == self.value(),
    {
        match self {
            Invocation::Ran(v) => v,
            Invocation::Denied(v) => v,
        }
    }
}

/// What a tool tells the catalog about itself.
pub trait Tool {
    /// The name that it is called by.
    fn name(&self) -> String;

    /// The authority that it declares to need at most.
    fn required(&self) -> Caveats;
}

/// A tool that answers while the caller waits.
pub trait BlockingTool: Tool {
    /// What it is called with.
    type Args;

    /// What it returns.
    type Output;

    /// Acts under the authority of the context.
    fn invoke_accounted(&self, args: Self::Args, cx: &ToolContext) -> ToolResult<
        Invocation<Self::Output>,
    >;
}

/// The model of [`Grant`].
pub ghost struct GrantView {
    /// The authority.
    pub caveats: CaveatsView,
    /// The calls that may still be charged; none: no bound.
    pub remaining: Option<u64>,
}

impl GrantView {
    /// No call is left.
    pub open spec fn is_spent(self) -> bool {
        self.remaining == Some(0u64)
    }

    /// The grant after one more call.
    pub open spec fn charged(self) -> Self {
        GrantView {
            remaining: match self.remaining {
                None => None,
                Some(n) => Some((n - 1) as u64),
            },
            ..self
        }
    }

    /// The grant after a charge was given back.
    pub open spec fn refunded(self) -> Self {
        GrantView {
            remaining: match self.remaining {
                None => None,
                Some(n) => Some((n + 1) as u64),
            },
            ..self
        }
    }
}

/// Authority with the budget of calls that goes with it. The budget lies in the
/// grant: no other catalog renews it.
#[derive(Debug)]
pub struct Grant {
    caveats: Caveats,
    remaining: Option<u64>,
}

impl View for Grant {
    type V = GrantView;

    closed spec fn view(&self) -> GrantView {
        GrantView { caveats: self.caveats@, remaining: self.remaining }
    }
}

/// The model of a grant as it is made.
pub open spec fn fresh_grant(caveats: CaveatsView) -> GrantView {
    GrantView {
        caveats,
        remaining: match caveats.max_calls {
            CountBound::Unlimited => None,
            CountBound::AtMost(n) => Some(n),
        },
    }
}

impl Grant {
    /// A grant of this authority, with the whole budget that it names.
    pub fn new(caveats: Caveats) -> (r: Self)
        ensures
            r@ == fresh_grant(caveats@),
    {
        let remaining: Option<u64> = match caveats.max_calls {
            CountBound::Unlimited => None,
            CountBound::AtMost(n) => Some(n),
        };
        Grant { caveats, remaining }
    }

    /// The authority of the grant.
    pub fn caveats(&self) -> (r: &Caveats)
        ensures
            r@ == self@.caveats,
    {
        &self.caveats
    }

    /// Charges one call; refuses where none is left.
    pub fn charge(&mut self) -> (r: ToolResult<()>)
        ensures
            r == (if old(self)@.is_spent() {
                Err::<(), ToolError>(ToolError::Budget)
            } else {
                Ok(())
            }),
            final(self)@ == (if old(self)@.is_spent() {
                old(self)@
            } else {
                old(self)@.charged()
            }),
    {
        match self.remaining {
            None => Ok(()),
            Some(n) => {
                if n == 0 {
                    return Err(ToolError::Budget);
                }
                self.remaining = Some(n - 1);
                Ok(())
            },
        }
    }

    /// Gives back a charge that admitted no call.
    pub fn refund(&mut self)
        requires
            old(self)@.remaining != Some(u64::MAX),
        ensures
            final(self)@ == old(self)@.refunded(),
    {
        if let Some(n) = self.remaining {
            self.remaining = Some(n + 1);
        }
    }

    /// Closes the account of a call that was charged: gives the charge back
    /// where the tool refused, and hands on what the tool returned.
    pub fn settle<O>(&mut self, outcome: ToolResult<Invocation<O>>) -> (r: ToolResult<O>)
        requires
            old(self)@.remaining != Some(u64::MAX),
        ensures
            r == delivered(outcome),
            final(self)@ == (if is_refusal(outcome) {
                old(self)@.refunded()
            } else {
                old(self)@
            }),
    {
        match outcome {
            Ok(done) => {
                if done.is_denied() {
                    self.refund();
                }
                Ok(done.into_value())
            },
            Err(e) => {
                if e.is_denied() {
                    self.refund();
                }
                Err(e)
            },
        }
    }
}

/// What the caller gets of an outcome.
pub open spec fn delivered<O>(outcome: ToolResult<Invocation<O>>) -> ToolResult<O> {
    match outcome {
        Ok(done) => Ok(done.value()),
        Err(e) => Err(e),
    }
}

/// The tool refused before it had any effect.
pub open spec fn is_refusal<O>(outcome: ToolResult<Invocation<O>>) -> bool {
    match outcome {
        Ok(done) => done is Denied,
        Err(e) => e is Denied,
    }
}

/// Neither obtains a gesture nor accepts one: the place of both in a registry
/// that demands none.
#[derive(Debug, Clone, Copy)]
pub struct NoStepUp;

impl DischargeProvider for NoStepUp {
    fn obtain(
        &self,
        session: &SessionId,
        request: &CallRequest,
        required: &AttestRequirement,
        generation: u64,
        nonce: &[u8; 32],
    ) -> (r: Result<Discharge, String>)
        ensures
            r matches Err(e) && e@ == "no gesture can be had here"@,
    {
        Err("no gesture can be had here".to_owned())
    }
}

impl DischargeVerifier for NoStepUp {
    fn verify(
        &self,
        discharge: &Discharge,
        required: &AttestRequirement,
        expected: &Challenge,
    ) -> (r: Result<(), String>)
        ensures
            r matches Err(e) && e@ == "no gesture is accepted here"@,
    {
        Err("no gesture is accepted here".to_owned())
    }
}

/// How calls step up: the policy, who obtains gestures and who judges them, and
/// the session that challenges are bound to.
#[verifier::reject_recursive_types(P)]
#[verifier::reject_recursive_types(V)]
pub struct StepUp<P, V> {
    policy: StepUpPolicy,
    provider: P,
    verifier: V,
    session: SessionId,
}

impl<P, V> StepUp<P, V> {
    /// The policy.
    pub closed spec fn spec_policy(self) -> StepUpPolicy {
        self.policy
    }

    /// Who obtains gestures.
    pub closed spec fn spec_provider(self) -> P {
        self.provider
    }

    /// Who judges them.
    pub closed spec fn spec_verifier(self) -> V {
        self.verifier
    }

    /// The session.
    pub closed spec fn spec_session(self) -> Seq<u8> {
        self.session@
    }
}

spec fn listed<T>(entries: Seq<(String, T)>, name: Seq<char>) -> bool {
    exists|i: int| 0 <= i < entries.len() && #[trigger] entries[i].0@ == name
}

spec fn place<T>(entries: Seq<(String, T)>, name: Seq<char>) -> int {
    choose|i: int| 0 <= i < entries.len() && #[trigger] entries[i].0@ == name
}

spec fn distinct<T>(entries: Seq<(String, T)>) -> bool {
    forall|i: int, j: int|
        0 <= i < j < entries.len() ==> (#[trigger] entries[i]).0@ != (#[trigger] entries[j]).0@
}

spec fn by_name<T>(entries: Seq<(String, T)>) -> Map<Seq<char>, T> {
    Map::new(
        |name: Seq<char>| listed(entries, name),
        |name: Seq<char>| entries[place(entries, name)].1,
    )
}

/// Tools by name: a name stands for one tool, the one registered last.
#[verifier::reject_recursive_types(T)]
struct Catalog<T> {
    entries: Vec<(String, T)>,
}

impl<T> View for Catalog<T> {
    type V = Map<Seq<char>, T>;

    closed spec fn view(&self) -> Map<Seq<char>, T> {
        by_name(self.entries@)
    }
}

impl<T> Catalog<T> {
    #[verifier::type_invariant]
    spec fn well_formed(self) -> bool {
        distinct(self.entries@)
    }

    fn new() -> (r: Self)
        ensures
            r@ == Map::<Seq<char>, T>::empty(),
    {
        let r: Catalog<T> = Catalog { entries: Vec::new() };
        assert(r@ =~= Map::<Seq<char>, T>::empty());
        r
    }

    fn find(&self, name: &str) -> (r: Option<usize>)
        ensures
            match r {
                Some(i) => i < self.entries@.len() && self.entries@[i as int].0@ == name@,
                None => !listed(self.entries@, name@),
            },
    {
        let mut i: usize = 0;
        while i < self.entries.len()
            invariant
                i <= self.entries.len(),
                forall|k: int| 0 <= k < i ==> (#[trigger] self.entries@[k]).0@ != name@,
            decreases self.entries.len() - i,
        {
            if str_equal(self.entries[i].0.as_str(), name) {
                return Some(i);
            }
            i = i + 1;
        }
        None
    }

    fn get(&self, name: &str) -> (r: Option<&T>)
        ensures
            r == (if self@.dom().contains(name@) {
                Some(&self@[name@])
            } else {
                None
            }),
    {
        proof {
            use_type_invariant(self);
        }
        match self.find(name) {
            Some(i) => {
                proof {
                    let p = place(self.entries@, name@);
                    assert(self.entries@[i as int].0@ == name@);
                    assert(p == i) by {
                        if p < i {
                            assert(self.entries@[p].0@ != self.entries@[i as int].0@);
                        } else if i < p {
                            assert(self.entries@[i as int].0@ != self.entries@[p].0@);
                        }
                    }
                }
                Some(&self.entries[i].1)
            },
            None => None,
        }
    }

    fn insert(self, name: String, tool: T) -> (r: Self)
        ensures
            r@ == self@.insert(name@, tool),
    {
        proof {
            use_type_invariant(&self);
        }
        let found: Option<usize> = self.find(name.as_str());
        let ghost before = self.entries@;
        let mut entries: Vec<(String, T)> = self.entries;
        match found {
            Some(i) => {
                entries[i] = (name, tool);
            },
            None => {
                entries.push((name, tool));
            },
        }
        proof {
            let at: int = match found {
                Some(i) => i as int,
                None => before.len() as int,
            };
            let after = entries@;
            assert(after[at] == (name, tool));
            assert forall|i: int, j: int| 0 <= i < j < after.len() implies (
            #[trigger] after[i]).0@ != (#[trigger] after[j]).0@ by {
                if i == at {
                    if found is Some {
                        assert(before[i].0@ != before[j].0@);
                    }
                } else if j == at {
                    if found is Some {
                        assert(before[i].0@ != before[j].0@);
                    } else {
                        assert(before[i].0@ != name@);
                    }
                } else {
                    assert(before[i].0@ != before[j].0@);
                }
            }
            lemma_by_name(before, after, at, name, tool);
        }
        Catalog { entries }
    }

    fn names(&self) -> (r: Vec<String>)
        ensures
            views(r@) == in_order::<String>(self@.dom()),
            views(r@).to_set() == self@.dom(),
    {
        let mut set: OrderedSet<String> = OrderedSet::new();
        let mut i: usize = 0;
        while i < self.entries.len()
            invariant
                i <= self.entries.len(),
                forall|n: Seq<char>|
                    #[trigger] set@.contains(n) <==> exists|k: int|
                        0 <= k < i && #[trigger] self.entries@[k].0@ == n,
            decreases self.entries.len() - i,
        {
            let name: String = self.entries[i].0.clone();
            let ghost before = set@;
            set.insert(name);
            proof {
                assert forall|n: Seq<char>| #[trigger] set@.contains(n) <==> exists|k: int|
                    0 <= k < i + 1 && #[trigger] self.entries@[k].0@ == n by {
                    if before.contains(n) {
                        let k = choose|k: int| 0 <= k < i && #[trigger] self.entries@[k].0@ == n;
                        assert(self.entries@[k].0@ == n);
                    }
                    if n == self.entries@[i as int].0@ {
                        assert(0 <= i < i + 1 && self.entries@[i as int].0@ == n);
                    }
                    if exists|k: int| 0 <= k < i + 1 && #[trigger] self.entries@[k].0@ == n {
                        let k = choose|k: int|
                            0 <= k < i + 1 && #[trigger] self.entries@[k].0@ == n;
                        if k < i {
                            assert(before.contains(n));
                        }
                    }
                }
            }
            i = i + 1;
        }
        assert(set@ =~= self@.dom()) by {
            assert forall|n: Seq<char>| set@.contains(n) <==> self@.dom().contains(n) by {}
        }
        crate::context::copy_strings(set.as_vec())
    }
}

proof fn lemma_by_name<T>(
    before: Seq<(String, T)>,
    after: Seq<(String, T)>,
    at: int,
    name: String,
    tool: T,
)
    requires
        distinct(before),
        distinct(after),
        0 <= at < after.len(),
        after[at] == (name, tool),
        after == before.push((name, tool)) && at == before.len() || after == before.update(
            at,
            (name, tool),
        ) && at < before.len() && before[at].0@ == name@,
    ensures
        by_name(after) == by_name(before).insert(name@, tool),
{
    let wanted = by_name(before).insert(name@, tool);
    assert forall|n: Seq<char>| by_name(after).dom().contains(n) <==> wanted.dom().contains(n) by {
        if listed(after, n) {
            let i = choose|i: int| 0 <= i < after.len() && #[trigger] after[i].0@ == n;
            if i != at {
                assert(before[i].0@ == n);
            }
        }
        if listed(before, n) {
            let i = choose|i: int| 0 <= i < before.len() && #[trigger] before[i].0@ == n;
            assert(after[i].0@ == n);
        }
        if n == name@ {
            assert(after[at].0@ == n);
        }
    }
    assert forall|n: Seq<char>| by_name(after).dom().contains(n) implies #[trigger] by_name(after)[n]
        == wanted[n] by {
        let i = place(after, n);
        assert(after[i].0@ == n);
        if n == name@ {
            assert(i == at) by {
                if i < at {
                    assert(after[i].0@ != after[at].0@);
                } else if at < i {
                    assert(after[at].0@ != after[i].0@);
                }
            }
        } else {
            assert(before[i].0@ == n);
            let j = place(before, n);
            assert(before[j].0@ == n);
            assert(i == j) by {
                if i < j {
                    assert(before[i].0@ != before[j].0@);
                } else if j < i {
                    assert(before[j].0@ != before[i].0@);
                }
            }
        }
    }
    assert(by_name(after) =~= wanted);
}

/// The model of [`Registry`].
#[verifier::reject_recursive_types(T)]
#[verifier::reject_recursive_types(P)]
#[verifier::reject_recursive_types(V)]
pub ghost struct RegistryView<T, P, V> {
    /// The tools by name.
    pub tools: Map<Seq<char>, T>,
    /// The generation of the gates that calls pass.
    pub generation: u64,
    /// How calls step up, if they do.
    pub step_up: Option<StepUp<P, V>>,
    /// The number that the next nonce is made of.
    pub next_nonce: u64,
}

/// A nonce: a number in eight bytes, the lowest first, and zeros.
pub open spec fn nonce_bytes(n: u64) -> Seq<u8> {
    spec_u64_to_le_bytes(n) + Seq::new(24, |i: int| 0u8)
}

/// The number after this one; zero comes after the greatest.
pub open spec fn next_number(n: u64) -> u64 {
    if n == u64::MAX {
        0
    } else {
        (n + 1) as u64
    }
}

impl<T: Tool, P: DischargeProvider, V: DischargeVerifier> RegistryView<T, P, V> {
    /// A gate as a call with this floor passes it: without a budget.
    pub open spec fn gate(self, floor: FloorView) -> GateView {
        let fresh = fresh_gate(self.generation, None);
        GateView {
            floor: fresh.floor.join(floor),
            session: match self.step_up {
                Some(su) => su.spec_session(),
                None => fresh.session,
            },
            ..fresh
        }
    }

    /// The registry after a call came to its gate.
    pub open spec fn past_gate(self) -> Self {
        RegistryView {
            next_nonce: match self.step_up {
                Some(_) => next_number(self.next_nonce),
                None => self.next_nonce,
            },
            ..self
        }
    }

    /// What becomes of a call at its gate.
    pub open spec fn authorizes(
        self,
        required: CaveatsView,
        granted: CaveatsView,
        name: Seq<char>,
        floor: FloorView,
        r: ToolResult<ToolContext>,
    ) -> bool {
        let gate = self.gate(floor);
        match self.step_up {
            None => gate.admits(required, granted, gate, r),
            Some(su) => exists|
                request: CallRequest,
                nonce: [u8; 32],
                after: GateView,
                full: ToolResult<(ToolContext, Option<Attestation>)>,
            |
                {
                    &&& request@ == (CallView { tool: name, resource: Seq::empty() })
                    &&& nonce@ == nonce_bytes(self.next_nonce)
                    &&& #[trigger] gate.admits_step_up(
                        required,
                        granted,
                        request,
                        su.spec_policy(),
                        su.spec_provider(),
                        su.spec_verifier(),
                        nonce,
                        after,
                        full,
                    )
                    &&& match full {
                        Ok((cx, _)) => r == Ok::<ToolContext, ToolError>(cx),
                        Err(e) => r == Err::<ToolContext, ToolError>(e),
                    }
                },
        }
    }
}

/// A call of a tool for which its gate gave `authorized`, having asked the tool
/// what it needs.
pub open spec fn asked<T: Tool, P: DischargeProvider, V: DischargeVerifier>(
    registry: RegistryView<T, P, V>,
    name: Seq<char>,
    granted: CaveatsView,
    floor: FloorView,
    required: Caveats,
    authorized: ToolResult<ToolContext>,
) -> bool {
    &&& call_ensures(T::required, (&registry.tools[name],), required)
    &&& registry.authorizes(required@, granted, name, floor, authorized)
}

/// What becomes of a call before the tool is run: whether it reaches the tool,
/// with which context, and what it is charged.
pub open spec fn admission<T: Tool, P: DischargeProvider, V: DischargeVerifier>(
    registry: RegistryView<T, P, V>,
    name: Seq<char>,
    grant: GrantView,
    floor: FloorView,
    registry_after: RegistryView<T, P, V>,
    grant_after: GrantView,
    r: ToolResult<ToolContext>,
) -> bool {
    if !registry.tools.dom().contains(name) {
        &&& r matches Err(e) && e matches ToolError::NotFound { name: n } && n@ == name
        &&& registry_after == registry
        &&& grant_after == grant
    } else if grant.is_spent() {
        &&& r == Err::<ToolContext, ToolError>(ToolError::Budget)
        &&& registry_after == registry
        &&& grant_after == grant
    } else {
        &&& exists|required: Caveats| #[trigger]
            asked(registry, name, grant.caveats, floor, required, r)
        &&& registry_after == registry.past_gate()
        &&& grant_after == (if r is Ok {
            grant.charged()
        } else {
            grant
        })
    }
}

/// What becomes of a call of a tool that answers while the caller waits.
pub open spec fn dispatched<T: BlockingTool, P: DischargeProvider, V: DischargeVerifier>(
    registry: RegistryView<T, P, V>,
    name: Seq<char>,
    args: T::Args,
    grant: GrantView,
    floor: FloorView,
    registry_after: RegistryView<T, P, V>,
    grant_after: GrantView,
    r: ToolResult<T::Output>,
) -> bool {
    exists|charged: GrantView, admitted: ToolResult<ToolContext>|
        {
            &&& #[trigger] admission(
                registry,
                name,
                grant,
                floor,
                registry_after,
                charged,
                admitted,
            )
            &&& match admitted {
                Err(e) => r == Err::<T::Output, ToolError>(e) && grant_after == charged,
                Ok(cx) => exists|outcome: ToolResult<Invocation<T::Output>>|
                    {
                        &&& #[trigger] call_ensures(
                            T::invoke_accounted,
                            (&registry.tools[name], args, &cx),
                            outcome,
                        )
                        &&& r == delivered(outcome)
                        &&& grant_after == (if is_refusal(outcome) {
                            grant
                        } else {
                            charged
                        })
                    },
            }
        }
}

/// What becomes of a single call that is charged to no grant.
pub open spec fn dispatched_once<T: BlockingTool, P: DischargeProvider, V: DischargeVerifier>(
    registry: RegistryView<T, P, V>,
    name: Seq<char>,
    args: T::Args,
    granted: CaveatsView,
    floor: FloorView,
    registry_after: RegistryView<T, P, V>,
    r: ToolResult<T::Output>,
) -> bool {
    exists|charged: GrantView, admitted: ToolResult<ToolContext>|
        {
            &&& #[trigger] admission(
                registry,
                name,
                fresh_grant(granted),
                floor,
                registry_after,
                charged,
                admitted,
            )
            &&& match admitted {
                Err(e) => r == Err::<T::Output, ToolError>(e),
                Ok(cx) => exists|outcome: ToolResult<Invocation<T::Output>>|
                    {
                        &&& #[trigger] call_ensures(
                            T::invoke_accounted,
                            (&registry.tools[name], args, &cx),
                            outcome,
                        )
                        &&& r == delivered(outcome)
                    },
            }
        }
}

/// A catalog of tools that are called through the leash. It has no authority of
/// its own: all of it comes with the grant of each call.
#[verifier::reject_recursive_types(T)]
#[verifier::reject_recursive_types(P)]
#[verifier::reject_recursive_types(V)]
pub struct Registry<T, P, V> {
    tools: Catalog<T>,
    generation: u64,
    step_up: Option<StepUp<P, V>>,
    next_nonce: u64,
}

impl<T, P, V> View for Registry<T, P, V> {
    type V = RegistryView<T, P, V>;

    closed spec fn view(&self) -> RegistryView<T, P, V> {
        RegistryView {
            tools: self.tools@,
            generation: self.generation,
            step_up: self.step_up,
            next_nonce: self.next_nonce,
        }
    }
}

impl<T: Tool> Registry<T, NoStepUp, NoStepUp> {
    /// A registry with nothing in it yet.
    pub fn builder() -> (r: RegistryBuilder<T, NoStepUp, NoStepUp>)
        ensures
            r@ == (RegistryView::<T, NoStepUp, NoStepUp> {
                tools: Map::empty(),
                generation: 0,
                step_up: None,
                next_nonce: 0,
            }),
    {
        RegistryBuilder { tools: Catalog::new(), generation: 0, step_up: None }
    }
}

impl<T: Tool, P: DischargeProvider, V: DischargeVerifier> Registry<T, P, V> {
    /// The names of the tools, in ascending order.
    pub fn tool_names(&self) -> (r: Vec<String>)
        ensures
            views(r@) == in_order::<String>(self@.tools.dom()),
            views(r@).to_set() == self@.tools.dom(),
    {
        self.tools.names()
    }

    /// Whether a tool has this name.
    pub fn contains(&self, name: &str) -> (r: bool)
        ensures
            r == self@.tools.dom().contains(name@),
    {
        self.tools.get(name).is_some()
    }

    /// The tool of this name.
    pub fn get(&self, name: &str) -> (r: Option<&T>)
        ensures
            r == (if self@.tools.dom().contains(name@) {
                Some(&self@.tools[name@])
            } else {
                None
            }),
    {
        self.tools.get(name)
    }

    /// A grant of this authority, with a budget of its own.
    pub fn mint_grant(&self, caveats: Caveats) -> (r: Grant)
        ensures
            r@ == fresh_grant(caveats@),
    {
        Grant::new(caveats)
    }

    fn take_nonce(&mut self) -> (r: [u8; 32])
        ensures
            r@ == nonce_bytes(old(self)@.next_nonce),
            final(self)@ == (RegistryView {
                next_nonce: next_number(old(self)@.next_nonce),
                ..old(self)@
            }),
    {
        let number: Vec<u8> = u64_to_le_bytes(self.next_nonce);
        let mut nonce: [u8; 32] = [0u8; 32];
        let mut i: usize = 0;
        while i < 8
            invariant
                i <= 8,
                number@.len() == 8,
                nonce@.len() == 32,
                forall|k: int| 0 <= k < i ==> nonce@[k] == number@[k],
                forall|k: int| i <= k < 32 ==> nonce@[k] == 0u8,
            decreases 8 - i,
        {
            nonce[i] = number[i];
            i = i + 1;
        }
        assert(nonce@ =~= nonce_bytes(self.next_nonce));
        self.next_nonce = self.next_nonce.wrapping_add(1);
        nonce
    }

    /// Passes a call through a gate of its own: plainly, or with the gesture
    /// that the policy demands. Such a gate has no budget; that of the grant is
    /// kept elsewhere.
    fn authorize_grant(
        &mut self,
        required: &Caveats,
        granted: &Caveats,
        name: &str,
        floor: EnforcementFloor,
    ) -> (r: ToolResult<ToolContext>)
        ensures
            old(self)@.authorizes(required@, granted@, name@, floor@, r),
            final(self)@ == old(self)@.past_gate(),
    {
        let gate: Gate = Gate::with_budget(
            self.generation,
            CountBound::Unlimited,
        ).with_enforcement_floor(floor);
        if self.step_up.is_none() {
            let mut gate: Gate = gate;
            return gate.authorize(required, granted);
        }
        let nonce: [u8; 32] = self.take_nonce();
        match &self.step_up {
            None => Err(ToolError::Budget),
            Some(su) => {
                let mut gate: Gate = gate.with_session(su.session);
                let request: CallRequest = CallRequest::unspecified(name);
                let ghost before = gate@;
                assert(before =~= old(self)@.gate(floor@));
                let full: ToolResult<(ToolContext, Option<Attestation>)> = gate.authorize_step_up(
                    required,
                    granted,
                    &request,
                    &su.policy,
                    &su.provider,
                    &su.verifier,
                    nonce,
                );
                assert(before.admits_step_up(
                    required@,
                    granted@,
                    request,
                    su.spec_policy(),
                    su.spec_provider(),
                    su.spec_verifier(),
                    nonce,
                    gate@,
                    full,
                ));
                match full {
                    Ok((cx, _)) => Ok(cx),
                    Err(e) => Err(e),
                }
            },
        }
    }

    /// Brings a call as far as the tool: finds the tool, charges the grant, and
    /// passes a gate. What a gate refuses is not charged. Where the call is
    /// admitted, the caller runs the tool and then settles the grant.
    pub fn bring_in(&mut self, name: &str, grant: &mut Grant, floor: EnforcementFloor) -> (r:
        ToolResult<ToolContext>)
        ensures
            admission(
                old(self)@,
                name@,
                old(grant)@,
                floor@,
                final(self)@,
                final(grant)@,
                r,
            ),
    {
        let required: Caveats = match self.tools.get(name) {
            None => {
                return Err(ToolError::not_found(name.to_owned()));
            },
            Some(tool) => {
                if let Err(e) = grant.charge() {
                    return Err(e);
                }
                tool.required()
            },
        };
        let r: ToolResult<ToolContext> = self.authorize_grant(
            &required,
            &grant.caveats,
            name,
            floor,
        );
        assert(asked(old(self)@, name@, old(grant)@.caveats, floor@, required, r));
        if r.is_err() {
            grant.refund();
        }
        r
    }
}

impl<T: BlockingTool, P: DischargeProvider, V: DischargeVerifier> Registry<T, P, V> {
    fn dispatch_axis(
        &mut self,
        name: &str,
        args: T::Args,
        grant: &mut Grant,
        floor: EnforcementFloor,
    ) -> (r: ToolResult<T::Output>)
        ensures
            dispatched(
                old(self)@,
                name@,
                args,
                old(grant)@,
                floor@,
                final(self)@,
                final(grant)@,
                r,
            ),
    {
        let admitted: ToolResult<ToolContext> = self.bring_in(name, grant, floor);
        let ghost charged = grant@;
        assert(admission(old(self)@, name@, old(grant)@, floor@, self@, charged, admitted));
        match admitted {
            Err(e) => Err(e),
            Ok(cx) => match self.tools.get(name) {
                None => Err(ToolError::not_found(name.to_owned())),
                Some(tool) => {
                    let outcome: ToolResult<Invocation<T::Output>> = tool.invoke_accounted(
                        args,
                        &cx,
                    );
                    grant.settle(outcome)
                },
            },
        }
    }

    /// Calls a tool through the leash and charges the grant.
    pub fn dispatch(&mut self, name: &str, args: T::Args, grant: &mut Grant) -> (r: ToolResult<
        T::Output,
    >)
        ensures
            dispatched(
                old(self)@,
                name@,
                args,
                old(grant)@,
                FloorView::pinned(AxisEnforcement::Advisory, AxisEnforcement::Advisory),
                final(self)@,
                final(grant)@,
                r,
            ),
    {
        self.dispatch_axis(name, args, grant, EnforcementFloor::default())
    }

    /// Calls a tool with one floor for exec and net.
    pub fn dispatch_with_strength_floor(
        &mut self,
        name: &str,
        args: T::Args,
        grant: &mut Grant,
        strength_floor: AxisEnforcement,
    ) -> (r: ToolResult<T::Output>)
        ensures
            dispatched(
                old(self)@,
                name@,
                args,
                old(grant)@,
                FloorView::pinned(strength_floor, strength_floor),
                final(self)@,
                final(grant)@,
                r,
            ),
    {
        self.dispatch_axis(name, args, grant, EnforcementFloor::from_scalar(strength_floor))
    }

    /// Calls a tool with a floor for each axis.
    pub fn dispatch_with_enforcement_floor(
        &mut self,
        name: &str,
        args: T::Args,
        grant: &mut Grant,
        floor: EnforcementFloor,
    ) -> (r: ToolResult<T::Output>)
        ensures
            dispatched(
                old(self)@,
                name@,
                args,
                old(grant)@,
                floor@,
                final(self)@,
                final(grant)@,
                r,
            ),
    {
        self.dispatch_axis(name, args, grant, floor)
    }

    /// Calls a tool once, under this authority and charged to no grant.
    pub fn dispatch_oneshot(&mut self, name: &str, args: T::Args, caveats: &Caveats) -> (r:
        ToolResult<T::Output>)
        ensures
            dispatched_once(
                old(self)@,
                name@,
                args,
                caveats@,
                FloorView::pinned(AxisEnforcement::Advisory, AxisEnforcement::Advisory),
                final(self)@,
                r,
            ),
    {
        self.dispatch_oneshot_with_enforcement_floor(
            name,
            args,
            caveats,
            EnforcementFloor::default(),
        )
    }

    /// Calls a tool once, with one floor for exec and net.
    pub fn dispatch_oneshot_with_strength_floor(
        &mut self,
        name: &str,
        args: T::Args,
        caveats: &Caveats,
        strength_floor: AxisEnforcement,
    ) -> (r: ToolResult<T::Output>)
        ensures
            dispatched_once(
                old(self)@,
                name@,
                args,
                caveats@,
                FloorView::pinned(strength_floor, strength_floor),
                final(self)@,
                r,
            ),
    {
        self.dispatch_oneshot_with_enforcement_floor(
            name,
            args,
            caveats,
            EnforcementFloor::from_scalar(strength_floor),
        )
    }

    /// Calls a tool once, with a floor for each axis.
    pub fn dispatch_oneshot_with_enforcement_floor(
        &mut self,
        name: &str,
        args: T::Args,
        caveats: &Caveats,
        floor: EnforcementFloor,
    ) -> (r: ToolResult<T::Output>)
        ensures
            dispatched_once(old(self)@, name@, args, caveats@, floor@, final(self)@, r),
    {
        let mut grant: Grant = Grant::new(caveats.clone());
        let admitted: ToolResult<ToolContext> = self.bring_in(name, &mut grant, floor);
        assert(admission(
            old(self)@,
            name@,
            fresh_grant(caveats@),
            floor@,
            self@,
            grant@,
            admitted,
        ));
        match admitted {
            Err(e) => Err(e),
            Ok(cx) => match self.tools.get(name) {
                None => Err(ToolError::not_found(name.to_owned())),
                Some(tool) => match tool.invoke_accounted(args, &cx) {
                    Ok(done) => Ok(done.into_value()),
                    Err(e) => Err(e),
                },
            },
        }
    }
}

/// A registry in the making.
#[verifier::reject_recursive_types(T)]
#[verifier::reject_recursive_types(P)]
#[verifier::reject_recursive_types(V)]
pub struct RegistryBuilder<T, P, V> {
    tools: Catalog<T>,
    generation: u64,
    step_up: Option<StepUp<P, V>>,
}

impl<T, P, V> View for RegistryBuilder<T, P, V> {
    type V = RegistryView<T, P, V>;

    /// The registry that would be built now.
    closed spec fn view(&self) -> RegistryView<T, P, V> {
        RegistryView {
            tools: self.tools@,
            generation: self.generation,
            step_up: self.step_up,
            next_nonce: 0,
        }
    }
}

impl<T: Tool, P: DischargeProvider, V: DischargeVerifier> RegistryBuilder<T, P, V> {
    /// Registers a tool under a name; it takes the place of an earlier one of
    /// that name.
    pub fn named(self, name: String, tool: T) -> (r: Self)
        ensures
            r@ == (RegistryView { tools: self@.tools.insert(name@, tool), ..self@ }),
    {
        RegistryBuilder {
            tools: self.tools.insert(name, tool),
            generation: self.generation,
            step_up: self.step_up,
        }
    }

    /// Registers a tool under the name that it gives.
    pub fn tool(self, tool: T) -> (r: Self)
        ensures
            exists|name: String|
                {
                    &&& #[trigger] call_ensures(T::name, (&tool,), name)
                    &&& r@ == (RegistryView { tools: self@.tools.insert(name@, tool), ..self@ })
                },
    {
        let name: String = tool.name();
        self.named(name, tool)
    }

    /// Sets the generation of the gates that calls pass.
    pub fn generation(self, generation: u64) -> (r: Self)
        ensures
            r@ == (RegistryView { generation, ..self@ }),
    {
        RegistryBuilder { generation, ..self }
    }

    /// Makes calls step up: what the policy demands is obtained and judged
    /// before the tool is run.
    pub fn step_up<P2: DischargeProvider, V2: DischargeVerifier>(
        self,
        session: SessionId,
        policy: StepUpPolicy,
        provider: P2,
        verifier: V2,
    ) -> (r: RegistryBuilder<T, P2, V2>)
        ensures
            r@.tools == self@.tools,
            r@.generation == self@.generation,
            r@.next_nonce == self@.next_nonce,
            r@.step_up matches Some(su) && su.spec_session() == session@ && su.spec_policy()
                == policy && su.spec_provider() == provider && su.spec_verifier() == verifier,
    {
        RegistryBuilder {
            tools: self.tools,
            generation: self.generation,
            step_up: Some(StepUp { policy, provider, verifier, session }),
        }
    }

    /// The registry.
    pub fn build(self) -> (r: Registry<T, P, V>)
        ensures
            r@ == self@,
    {
        Registry {
            tools: self.tools,
            generation: self.generation,
            step_up: self.step_up,
            next_nonce: 0,
        }
    }
}

/// A call is charged once or not at all, and keeps the authority of the grant;
/// one that is refused costs nothing.
pub proof fn law_a_refused_call_costs_nothing<
    T: BlockingTool,
    P: DischargeProvider,
    V: DischargeVerifier,
>(
    registry: RegistryView<T, P, V>,
    name: Seq<char>,
    args: T::Args,
    grant: GrantView,
    floor: FloorView,
    registry_after: RegistryView<T, P, V>,
    grant_after: GrantView,
    r: ToolResult<T::Output>,
)
    requires
        dispatched(registry, name, args, grant, floor, registry_after, grant_after, r),
    ensures
        grant_after == grant || grant_after == grant.charged() && !grant.is_spent(),
        r matches Err(e) && e is Denied ==> grant_after == grant,
{
}

/// A spent grant stays spent, whichever registry it is taken to: no call is
/// admitted on it, and nothing renews it.
pub proof fn law_a_spent_grant_stays_spent<
    T: BlockingTool,
    P: DischargeProvider,
    V: DischargeVerifier,
>(
    registry: RegistryView<T, P, V>,
    name: Seq<char>,
    args: T::Args,
    grant: GrantView,
    floor: FloorView,
    registry_after: RegistryView<T, P, V>,
    grant_after: GrantView,
    r: ToolResult<T::Output>,
)
    requires
        grant.is_spent(),
        dispatched(registry, name, args, grant, floor, registry_after, grant_after, r),
    ensures
        grant_after == grant,
        r is Err,
        registry.tools.dom().contains(name) ==> r == Err::<T::Output, ToolError>(
            ToolError::Budget,
        ),
{
}

/// One call on a grant, in whichever registry.
#[verifier::reject_recursive_types(T)]
#[verifier::reject_recursive_types(P)]
#[verifier::reject_recursive_types(V)]
pub ghost struct GrantCall<T: BlockingTool, P: DischargeProvider, V: DischargeVerifier> {
    pub registry: RegistryView<T, P, V>,
    pub name: Seq<char>,
    pub args: T::Args,
    pub floor: FloorView,
    pub registry_after: RegistryView<T, P, V>,
    pub result: ToolResult<T::Output>,
}

/// A grant went through the calls, one after the other: `grants` is how it stood
/// before the first and after each.
pub open spec fn went_through<T: BlockingTool, P: DischargeProvider, V: DischargeVerifier>(
    calls: Seq<GrantCall<T, P, V>>,
    grants: Seq<GrantView>,
) -> bool {
    &&& grants.len() == calls.len() + 1
    &&& forall|i: int|
        0 <= i < calls.len() ==> {
            let call = #[trigger] calls[i];
            dispatched(
                call.registry,
                call.name,
                call.args,
                grants[i],
                call.floor,
                call.registry_after,
                grants[i + 1],
                call.result,
            )
        }
}

/// How many calls the grant was charged for.
pub open spec fn charges(grants: Seq<GrantView>) -> nat
    decreases grants.len(),
{
    if grants.len() <= 1 {
        0
    } else {
        charges(grants.drop_last()) + if grants[grants.len() - 2].remaining
            != grants.last().remaining {
            1nat
        } else {
            0
        }
    }
}

/// A grant has one budget, whoever holds it and in whichever registries it is
/// used: what was charged and what is left are together what it was made with,
/// so it is never charged for more calls than that. Its authority never
/// changes.
pub proof fn law_a_grant_has_one_budget<
    T: BlockingTool,
    P: DischargeProvider,
    V: DischargeVerifier,
>(caveats: CaveatsView, calls: Seq<GrantCall<T, P, V>>, grants: Seq<GrantView>)
    requires
        went_through(calls, grants),
        grants[0] == fresh_grant(caveats),
    ensures
        grants.last().caveats == caveats,
        match caveats.max_calls {
            CountBound::Unlimited => grants.last().remaining is None,
            CountBound::AtMost(n) => charges(grants) <= n && grants.last().remaining == Some(
                (n - charges(grants)) as u64,
            ),
        },
    decreases calls.len(),
{
    if calls.len() > 0 {
        let k = calls.len() - 1;
        let call = calls[k];
        let earlier = calls.drop_last();
        let before = grants.drop_last();
        assert forall|i: int| 0 <= i < earlier.len() implies {
            let c = #[trigger] earlier[i];
            dispatched(
                c.registry,
                c.name,
                c.args,
                before[i],
                c.floor,
                c.registry_after,
                before[i + 1],
                c.result,
            )
        } by {
            assert(earlier[i] == calls[i]);
            assert(before[i] == grants[i] && before[i + 1] == grants[i + 1]);
        }
        law_a_grant_has_one_budget(caveats, earlier, before);
        law_a_refused_call_costs_nothing(
            call.registry,
            call.name,
            call.args,
            grants[k],
            call.floor,
            call.registry_after,
            grants[k + 1],
            call.result,
        );
        assert(before.last() == grants[k]);
        assert(grants.last() == grants[k + 1]);
    }
}

/// The gesture is owed whatever the authority: where the policy demands one for
/// a tool and the provider never has one, no grant brings a call of the tool
/// past its gate.
pub proof fn law_no_authority_stands_in_for_a_gesture<
    T: Tool,
    P: DischargeProvider,
    V: DischargeVerifier,
>(
    registry: RegistryView<T, P, V>,
    required: CaveatsView,
    granted: CaveatsView,
    name: Seq<char>,
    floor: FloorView,
    r: ToolResult<ToolContext>,
)
    requires
        registry.authorizes(required, granted, name, floor, r),
        registry.step_up is Some,
        registry.step_up->0.spec_policy().owed(
            CallView { tool: name, resource: Seq::empty() },
        ).demands(),
        forall|
            session: SessionId,
            request: CallRequest,
            owed: AttestRequirement,
            generation: u64,
            nonce: [u8; 32],
            obtained: Result<Discharge, String>,
        | #[trigger]
            call_ensures(
                P::obtain,
                (
                    &registry.step_up->0.spec_provider(),
                    &session,
                    &request,
                    &owed,
                    generation,
                    &nonce,
                ),
                obtained,
            ) ==> obtained is Err,
    ensures
        r matches Err(e) && e is Denied,
{
}

/// An admitted call acts under no more than its grant, and under at least the
/// floor that was asked for.
pub proof fn law_an_admitted_context_is_confined<
    T: Tool,
    P: DischargeProvider,
    V: DischargeVerifier,
>(
    registry: RegistryView<T, P, V>,
    required: CaveatsView,
    granted: CaveatsView,
    name: Seq<char>,
    floor: FloorView,
    r: ToolResult<ToolContext>,
)
    requires
        registry.authorizes(required, granted, name, floor, r),
    ensures
        r matches Ok(cx) ==> cx.spec_caveats().leq(granted) && cx.spec_caveats().leq(required)
            && cx.spec_floor().at_least(floor),
{
    crate::caveats::law_meet_is_the_greatest_lower_bound(granted, required, required);
}

} // verus!
