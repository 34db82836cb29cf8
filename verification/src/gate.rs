//! Gates: the single place where a [`ToolContext`] comes into being.
//!
//! A call is confined to the meet of what was granted and what the tool
//! declares to need. A gate refuses on the generation before it charges the
//! budget, so a refused call costs nothing.

use vstd::prelude::*;
use vstd::string::*;

pub mod laws;

use crate::caveats::{Caveats, CaveatsView, CountBound};
use crate::context::ToolContext;
use crate::error::{ToolError, ToolResult};
use crate::report::{EnforcementFloor, FloorView};
use crate::sandbox::SandboxKind;
use crate::step_up::challenge_of;
use crate::step_up::{AttestRequirement, Attestation, CallRequest, CallView, Challenge, Decision};
use crate::step_up::{Discharge, DischargeAttempt, DischargeProvider, DischargeVerifier};
use crate::step_up::{SessionId, StepUpPolicy};
use crate::text::bytes_equal;

verus! {

/// The most generations that a gesture may reach back, whatever a policy says.
pub const MAX_FRESHNESS_WINDOW: u64 = 4096;

/// The model of [`Gate`].
#[verifier::ext_equal]
pub ghost struct GateView {
    /// The calls that may still be charged; none: no bound.
    pub remaining: Option<u64>,
    /// The generation that this gate embodies.
    pub generation: u64,
    /// The boundary stamped into every context.
    pub sandbox_kind: SandboxKind,
    /// The floor stamped into every context.
    pub floor: FloorView,
    /// The session that challenges are bound to.
    pub session: Seq<u8>,
    /// The challenges whose gesture has been used.
    pub consumed: Set<Seq<u8>>,
}

impl GateView {
    /// The grant is valid for the generation of this gate.
    pub open spec fn in_generation(self, granted: CaveatsView) -> bool {
        granted.valid_for_generation.allows(self.generation)
    }

    /// One more call fits in the grant and in the budget of this gate.
    pub open spec fn affords(self, granted: CaveatsView) -> bool {
        granted.max_calls != CountBound::AtMost(0) && self.remaining != Some(0u64)
    }

    /// This gate after one more call.
    pub open spec fn charged(self) -> Self {
        GateView {
            remaining: match self.remaining {
                None => None,
                Some(n) => Some((n - 1) as u64),
            },
            ..self
        }
    }

    /// This gate after the gesture for a challenge was used.
    pub open spec fn used(self, challenge: Seq<u8>) -> Self {
        GateView { consumed: self.consumed.insert(challenge), ..self }
    }

    /// The context carries this authority, and the boundary and the floor of
    /// this gate.
    pub open spec fn mints(self, effective: CaveatsView, cx: ToolContext) -> bool {
        &&& cx.spec_caveats() == effective
        &&& cx.spec_sandbox_kind() == self.sandbox_kind
        &&& cx.spec_floor() == self.floor
    }

    /// The oldest generation that a gesture may have been made in.
    pub open spec fn oldest(self, freshness: u64) -> int {
        let window = if freshness <= MAX_FRESHNESS_WINDOW {
            freshness as int
        } else {
            MAX_FRESHNESS_WINDOW as int
        };
        if self.generation <= window {
            0
        } else {
            self.generation - window
        }
    }

    /// The challenge for an act at the generation `g`.
    pub open spec fn challenge_at(self, content_id: Seq<u8>, nonce: Seq<u8>, g: u64) -> Seq<u8> {
        challenge_of(self.session, content_id, g, nonce)
    }

    /// The challenge that a gesture for an act has to answer: the one it did
    /// answer, where that is the challenge of the act at a generation within
    /// the window, and otherwise the challenge at the generation of this gate.
    pub open spec fn expects(
        self,
        content_id: Seq<u8>,
        freshness: u64,
        nonce: Seq<u8>,
        answered: Seq<u8>,
    ) -> Seq<u8> {
        if exists|g: u64|
            self.oldest(freshness) <= g <= self.generation && #[trigger] self.challenge_at(
                content_id,
                nonce,
                g,
            ) == answered {
            answered
        } else {
            self.challenge_at(content_id, nonce, self.generation)
        }
    }

    /// What becomes of a plain admission.
    pub open spec fn admits(
        self,
        required: CaveatsView,
        granted: CaveatsView,
        after: GateView,
        r: ToolResult<ToolContext>,
    ) -> bool {
        if !self.in_generation(granted) {
            r == Err::<ToolContext, ToolError>(ToolError::Generation) && after == self
        } else if !self.affords(granted) {
            r == Err::<ToolContext, ToolError>(ToolError::Budget) && after == self
        } else {
            &&& r matches Ok(cx) && self.mints(granted.meet(required), cx)
            &&& after == self.charged()
        }
    }

    /// What becomes of an admission for which no gesture is owed.
    pub open spec fn admits_unattested(
        self,
        required: CaveatsView,
        granted: CaveatsView,
        after: GateView,
        r: ToolResult<(ToolContext, Option<Attestation>)>,
    ) -> bool {
        match r {
            Ok((cx, attestation)) => attestation is None && self.admits(
                required,
                granted,
                after,
                Ok(cx),
            ),
            Err(e) => self.admits(required, granted, after, Err(e)),
        }
    }

    /// What becomes of an admission on a gesture, once the verifier has judged
    /// the proof against the challenge `expected`.
    pub open spec fn settles(
        self,
        required: CaveatsView,
        granted: CaveatsView,
        call: CallView,
        owed: AttestRequirement,
        answered: Seq<u8>,
        expected: Seq<u8>,
        verdict: Result<(), String>,
        after: GateView,
        r: ToolResult<(ToolContext, Option<Attestation>)>,
    ) -> bool {
        match verdict {
            Err(reason) => {
                &&& r matches Err(e) && e.is_denial(reason@)
                &&& after == self
            },
            Ok(_) => if self.consumed.contains(expected) {
                &&& r matches Err(e) && e.is_denial("discharge already consumed (replay)"@)
                &&& after == self
            } else if !self.affords(granted) {
                &&& r == Err::<(ToolContext, Option<Attestation>), ToolError>(ToolError::Budget)
                &&& after == self.used(expected)
            } else {
                &&& r matches Ok((cx, attestation)) && self.mints(granted.meet(required), cx) && (
                match attestation {
                    Some(a) => owed.record && a.records(call, answered, self.generation),
                    None => !owed.record,
                })
                &&& after == self.used(expected).charged()
            },
        }
    }

    /// What becomes of an admission with a proof, for every verdict that the
    /// verifier may give on it.
    pub open spec fn admits_with<V: DischargeVerifier>(
        self,
        required: CaveatsView,
        granted: CaveatsView,
        call: CallView,
        owed: AttestRequirement,
        nonce: Seq<u8>,
        discharge: Discharge,
        verifier: V,
        after: GateView,
        r: ToolResult<(ToolContext, Option<Attestation>)>,
    ) -> bool {
        if !self.in_generation(granted) {
            &&& r == Err::<(ToolContext, Option<Attestation>), ToolError>(ToolError::Generation)
            &&& after == self
        } else if !owed.demands() {
            self.admits_unattested(required, granted, after, r)
        } else {
            exists|expected: Challenge, verdict: Result<(), String>|
                #![trigger call_ensures(V::verify, (&verifier, &discharge, &owed, &expected), verdict)]
                {
                    &&& expected@ == self.expects(
                        call.content_id(),
                        owed.freshness_generations,
                        nonce,
                        discharge.challenge@,
                    )
                    &&& call_ensures(V::verify, (&verifier, &discharge, &owed, &expected), verdict)
                    &&& self.settles(
                        required,
                        granted,
                        call,
                        owed,
                        discharge.challenge@,
                        expected@,
                        verdict,
                        after,
                        r,
                    )
                }
        }
    }

    /// What becomes of an admission for which a gesture is first obtained where
    /// one is owed, for everything that the provider may hand over and every
    /// verdict that the verifier may give on it.
    pub open spec fn admits_step_up<P: DischargeProvider, V: DischargeVerifier>(
        self,
        required: CaveatsView,
        granted: CaveatsView,
        request: CallRequest,
        policy: StepUpPolicy,
        provider: P,
        verifier: V,
        nonce: [u8; 32],
        after: GateView,
        r: ToolResult<(ToolContext, Option<Attestation>)>,
    ) -> bool {
        let owed = policy.owed(request@);
        if !owed.demands() {
            self.admits_unattested(required, granted, after, r)
        } else {
            exists|session: SessionId, obtained: Result<Discharge, String>|
                #![trigger call_ensures(
                    P::obtain,
                    (&provider, &session, &request, &owed, self.generation, &nonce),
                    obtained,
                )]
                {
                    &&& session@ == self.session
                    &&& call_ensures(
                        P::obtain,
                        (&provider, &session, &request, &owed, self.generation, &nonce),
                        obtained,
                    )
                    &&& match obtained {
                        Err(reason) => {
                            &&& r matches Err(e) && e.is_denial(reason@)
                            &&& after == self
                        },
                        Ok(discharge) => self.admits_with(
                            required,
                            granted,
                            request@,
                            owed,
                            nonce@,
                            discharge,
                            verifier,
                            after,
                            r,
                        ),
                    }
                }
        }
    }
}

/// The enforcer of the leash for one session, or for a delegation below it.
#[derive(Debug)]
pub struct Gate {
    remaining: Option<u64>,
    generation: u64,
    sandbox_kind: SandboxKind,
    floor: EnforcementFloor,
    session: SessionId,
    consumed: Vec<[u8; 32]>,
}

/// The challenges in a list.
spec fn challenges(list: Seq<[u8; 32]>) -> Set<Seq<u8>> {
    Set::new(|c: Seq<u8>| exists|i: int| 0 <= i < list.len() && #[trigger] list[i]@ == c)
}

impl View for Gate {
    type V = GateView;

    closed spec fn view(&self) -> GateView {
        GateView {
            remaining: self.remaining,
            generation: self.generation,
            sandbox_kind: self.sandbox_kind,
            floor: self.floor@,
            session: self.session@,
            consumed: challenges(self.consumed@),
        }
    }
}

/// A session of thirty-two zero bytes: that of a gate which was given none.
pub open spec fn no_session() -> Seq<u8> {
    Seq::new(32, |i: int| 0u8)
}

/// The model of a gate with a budget, as it is made.
pub open spec fn fresh_gate(generation: u64, remaining: Option<u64>) -> GateView {
    GateView {
        remaining,
        generation,
        sandbox_kind: SandboxKind::Unconfined,
        floor: FloorView::pinned(
            crate::report::AxisEnforcement::Advisory,
            crate::report::AxisEnforcement::Advisory,
        ),
        session: no_session(),
        consumed: Set::empty(),
    }
}

impl Gate {
    /// A gate at a generation, with no budget of its own: the bound of the
    /// grant still holds for each call.
    pub fn new(generation: u64) -> (r: Self)
        ensures
            r@ == fresh_gate(generation, None),
    {
        Gate::with_budget(generation, CountBound::Unlimited)
    }

    /// A gate at a generation, whose budget lasts over its calls.
    pub fn with_budget(generation: u64, max_calls: CountBound) -> (r: Self)
        ensures
            r@ == fresh_gate(
                generation,
                match max_calls {
                    CountBound::Unlimited => None,
                    CountBound::AtMost(n) => Some(n),
                },
            ),
    {
        let remaining: Option<u64> = match max_calls {
            CountBound::Unlimited => None,
            CountBound::AtMost(n) => Some(n),
        };
        let session: SessionId = SessionId::new([0u8; 32]);
        let consumed: Vec<[u8; 32]> = Vec::new();
        assert(session@ =~= no_session());
        assert(challenges(consumed@) =~= Set::empty());
        Gate {
            remaining,
            generation,
            sandbox_kind: SandboxKind::Unconfined,
            floor: EnforcementFloor::default(),
            session,
            consumed,
        }
    }

    /// This gate, with the boundary that its contexts run under.
    pub fn with_sandbox(self, kind: SandboxKind) -> (r: Self)
        ensures
            r@ == (GateView { sandbox_kind: kind, ..self@ }),
    {
        Gate { sandbox_kind: kind, ..self }
    }

    /// This gate, with a floor raised to at least the given one on every axis.
    pub fn with_enforcement_floor(self, floor: EnforcementFloor) -> (r: Self)
        ensures
            r@ == (GateView { floor: self@.floor.join(floor@), ..self@ }),
    {
        let raised: EnforcementFloor = self.floor.join(floor);
        Gate { floor: raised, ..self }
    }

    /// This gate, with the session that its challenges are bound to.
    pub fn with_session(self, session: SessionId) -> (r: Self)
        ensures
            r@ == (GateView { session: session@, ..self@ }),
    {
        Gate { session, ..self }
    }

    /// The generation that this gate embodies.
    pub fn generation(&self) -> (r: u64)
        ensures
            r == self@.generation,
    {
        self.generation
    }

    /// The session that its challenges are bound to.
    pub fn session(&self) -> (r: SessionId)
        ensures
            r@ == self@.session,
    {
        self.session
    }

    fn check_generation(&self, granted: &Caveats) -> (r: ToolResult<()>)
        ensures
            r == (if self@.in_generation(granted@) {
                Ok::<(), ToolError>(())
            } else {
                Err(ToolError::Generation)
            }),
    {
        if granted.valid_for_generation.allows(&self.generation) {
            Ok(())
        } else {
            Err(ToolError::Generation)
        }
    }

    fn charge_one(&mut self, granted: &Caveats) -> (r: ToolResult<()>)
        ensures
            r == (if old(self)@.affords(granted@) {
                Ok::<(), ToolError>(())
            } else {
                Err(ToolError::Budget)
            }),
            final(self)@ == (if old(self)@.affords(granted@) {
                old(self)@.charged()
            } else {
                old(self)@
            }),
    {
        if let CountBound::AtMost(n) = granted.max_calls {
            if n == 0 {
                return Err(ToolError::Budget);
            }
        }
        match self.remaining {
            None => Ok(()),
            Some(n) => {
                if n == 0 {
                    return Err(ToolError::Budget);
                }
                self.remaining = Some(n - 1);
                Ok(())
            },
        }
    }

    fn mint(&self, effective: Caveats) -> (r: ToolContext)
        ensures
            self@.mints(effective@, r),
    {
        ToolContext::mint(effective, self.sandbox_kind, self.floor)
    }

    /// Admits a call of a tool that declares to need `required`: refuses a
    /// grant that is not valid for the generation, then charges one call, and
    /// mints the context with the meet of both authorities.
    pub fn authorize(&mut self, required: &Caveats, granted: &Caveats) -> (r: ToolResult<
        ToolContext,
    >)
        ensures
            old(self)@.admits(required@, granted@, final(self)@, r),
    {
        let effective: Caveats = granted.meet(required);
        if let Err(e) = self.check_generation(granted) {
            return Err(e);
        }
        if let Err(e) = self.charge_one(granted) {
            return Err(e);
        }
        Ok(self.mint(effective))
    }

    /// Judges a call under a policy without any gesture: refuses on the
    /// generation, asks for the gesture where one is owed, and otherwise
    /// admits and charges the call.
    pub fn evaluate(
        &mut self,
        required: &Caveats,
        granted: &Caveats,
        request: &CallRequest,
        policy: &StepUpPolicy,
    ) -> (r: Decision)
        ensures
            ({
                let before = old(self)@;
                let owed = policy.owed(request@);
                if !before.in_generation(granted@) {
                    r == Decision::Deny(ToolError::Generation) && final(self)@ == before
                } else if owed.demands() {
                    r == Decision::NeedsDischarge(owed) && final(self)@ == before
                } else if !before.affords(granted@) {
                    r == Decision::Deny(ToolError::Budget) && final(self)@ == before
                } else {
                    &&& r matches Decision::Allow(cx) && before.mints(granted@.meet(required@), cx)
                    &&& final(self)@ == before.charged()
                }
            }),
    {
        let effective: Caveats = granted.meet(required);
        if let Err(e) = self.check_generation(granted) {
            return Decision::Deny(e);
        }
        let owed: AttestRequirement = policy.required_for(request);
        if owed.demands_gesture() {
            return Decision::NeedsDischarge(owed);
        }
        match self.charge_one(granted) {
            Ok(()) => Decision::Allow(self.mint(effective)),
            Err(e) => Decision::Deny(e),
        }
    }

    /// The challenge that a gesture for an act has to answer.
    pub fn expected_challenge(
        &self,
        request: &CallRequest,
        owed: &AttestRequirement,
        nonce: &[u8; 32],
        answered: &[u8; 32],
    ) -> (r: Challenge)
        ensures
            r@ == self@.expects(
                request@.content_id(),
                owed.freshness_generations,
                nonce@,
                answered@,
            ),
    {
        let content_id: [u8; 32] = request.content_id();
        let window: u64 = if owed.freshness_generations <= MAX_FRESHNESS_WINDOW {
            owed.freshness_generations
        } else {
            MAX_FRESHNESS_WINDOW
        };
        let oldest: u64 = if self.generation <= window {
            0
        } else {
            self.generation - window
        };
        let current: Challenge = Challenge::bind(
            &self.session,
            &content_id,
            self.generation,
            nonce,
        );
        let mut g: u64 = self.generation;
        loop
            invariant
                oldest <= g <= self.generation,
                oldest == self@.oldest(owed.freshness_generations),
                content_id@ == request@.content_id(),
                current@ == self@.challenge_at(content_id@, nonce@, self.generation),
                forall|k: u64|
                    g < k <= self.generation ==> #[trigger] self@.challenge_at(
                        content_id@,
                        nonce@,
                        k,
                    ) != answered@,
            decreases g - oldest,
        {
            let bound: Challenge = Challenge::bind(&self.session, &content_id, g, nonce);
            assert(bound@ == self@.challenge_at(content_id@, nonce@, g));
            if bytes_equal(bound.as_bytes().as_slice(), answered.as_slice()) {
                return bound;
            }
            if g == oldest {
                return current;
            }
            g = g - 1;
        }
    }

    fn was_consumed(&self, challenge: &Challenge) -> (r: bool)
        ensures
            r == self@.consumed.contains(challenge@),
    {
        let mut i: usize = 0;
        while i < self.consumed.len()
            invariant
                i <= self.consumed.len(),
                forall|k: int| 0 <= k < i ==> #[trigger] self.consumed@[k]@ != challenge@,
            decreases self.consumed.len() - i,
        {
            if bytes_equal(self.consumed[i].as_slice(), challenge.as_bytes().as_slice()) {
                assert(self.consumed@[i as int]@ == challenge@);
                return true;
            }
            i = i + 1;
        }
        false
    }

    fn consume(&mut self, challenge: &Challenge)
        ensures
            final(self)@ == old(self)@.used(challenge@),
    {
        let ghost before = self.consumed@;
        self.consumed.push(*challenge.as_bytes());
        proof {
            let after = self.consumed@;
            assert(after.last()@ == challenge@);
            assert forall|c: Seq<u8>| #[trigger] challenges(after).contains(c) == challenges(
                before,
            ).insert(challenge@).contains(c) by {
                if challenges(before).contains(c) {
                    let i = choose|i: int| 0 <= i < before.len() && #[trigger] before[i]@ == c;
                    assert(after[i]@ == c);
                }
                if c == challenge@ {
                    assert(after[before.len() as int]@ == c);
                }
                if challenges(after).contains(c) {
                    let i = choose|i: int| 0 <= i < after.len() && #[trigger] after[i]@ == c;
                    if i < before.len() {
                        assert(before[i]@ == c);
                    }
                }
            }
            assert(challenges(after) =~= challenges(before).insert(challenge@));
        }
    }

    /// Admits a call on a gesture, given the verdict on its proof: refuses
    /// where the proof was refused or where its challenge has been used before,
    /// uses the challenge up, and then charges one call.
    pub fn settle_discharge(
        &mut self,
        required: &Caveats,
        granted: &Caveats,
        request: &CallRequest,
        owed: &AttestRequirement,
        discharge: &Discharge,
        expected: &Challenge,
        verdict: Result<(), String>,
    ) -> (r: ToolResult<(ToolContext, Option<Attestation>)>)
        ensures
            old(self)@.settles(
                required@,
                granted@,
                request@,
                *owed,
                discharge.challenge@,
                expected@,
                verdict,
                final(self)@,
                r,
            ),
    {
        if let Err(reason) = verdict {
            return Err(ToolError::denied(reason));
        }
        if self.was_consumed(expected) {
            return Err(ToolError::denied("discharge already consumed (replay)".to_owned()));
        }
        self.consume(expected);
        let attestation: Option<Attestation> = if owed.record {
            Some(Attestation::from_verified(request, discharge, self.generation))
        } else {
            None
        };
        if let Err(e) = self.charge_one(granted) {
            return Err(e);
        }
        let effective: Caveats = granted.meet(required);
        Ok((self.mint(effective), attestation))
    }

    /// Admits a call that owes a gesture, on the proof of one. Refuses on the
    /// generation and on the verdict before anything is charged; with no
    /// gesture owed, this is an ordinary admission.
    pub fn authorize_with_discharge<V: DischargeVerifier>(
        &mut self,
        required: &Caveats,
        granted: &Caveats,
        request: &CallRequest,
        policy: &StepUpPolicy,
        attempt: &DischargeAttempt<V>,
    ) -> (r: ToolResult<(ToolContext, Option<Attestation>)>)
        ensures
            old(self)@.admits_with(
                required@,
                granted@,
                request@,
                policy.owed(request@),
                attempt.nonce@,
                *attempt.discharge,
                *attempt.verifier,
                final(self)@,
                r,
            ),
    {
        if let Err(e) = self.check_generation(granted) {
            return Err(e);
        }
        let owed: AttestRequirement = policy.required_for(request);
        if !owed.demands_gesture() {
            return match self.authorize(required, granted) {
                Ok(cx) => Ok((cx, None)),
                Err(e) => Err(e),
            };
        }
        let expected: Challenge = self.expected_challenge(
            request,
            &owed,
            &attempt.nonce,
            &attempt.discharge.challenge,
        );
        let verdict: Result<(), String> = attempt.verifier.verify(
            attempt.discharge,
            &owed,
            &expected,
        );
        let ghost judged = verdict;
        assert(call_ensures(
            V::verify,
            (attempt.verifier, attempt.discharge, &owed, &expected),
            judged,
        ));
        self.settle_discharge(
            required,
            granted,
            request,
            &owed,
            attempt.discharge,
            &expected,
            verdict,
        )
    }

    /// Runs the whole sequence: where no gesture is owed, an ordinary
    /// admission; otherwise obtains the gesture and presents its proof. Where
    /// no gesture can be had, the call is refused and nothing is charged.
    pub fn authorize_step_up<P: DischargeProvider, V: DischargeVerifier>(
        &mut self,
        required: &Caveats,
        granted: &Caveats,
        request: &CallRequest,
        policy: &StepUpPolicy,
        provider: &P,
        verifier: &V,
        nonce: [u8; 32],
    ) -> (r: ToolResult<(ToolContext, Option<Attestation>)>)
        ensures
            old(self)@.admits_step_up(
                required@,
                granted@,
                *request,
                *policy,
                *provider,
                *verifier,
                nonce,
                final(self)@,
                r,
            ),
    {
        let owed: AttestRequirement = policy.required_for(request);
        if !owed.demands_gesture() {
            return match self.authorize(required, granted) {
                Ok(cx) => Ok((cx, None)),
                Err(e) => Err(e),
            };
        }
        let session: SessionId = self.session;
        let obtained: Result<Discharge, String> = provider.obtain(
            &session,
            request,
            &owed,
            self.generation,
            &nonce,
        );
        assert(call_ensures(
            P::obtain,
            (
                provider,
                &session,
                request,
                &policy.owed(request@),
                old(self)@.generation,
                &nonce,
            ),
            obtained,
        ));
        match obtained {
            Err(reason) => Err(ToolError::denied(reason)),
            Ok(discharge) => {
                let attempt: DischargeAttempt<V> = DischargeAttempt {
                    nonce,
                    discharge: &discharge,
                    verifier,
                };
                self.authorize_with_discharge(required, granted, request, policy, &attempt)
            },
        }
    }
}

/// An admitted call never gets more than was granted, nor more than the tool
/// declared to need.
pub proof fn law_an_admitted_call_is_confined(
    gate: GateView,
    required: CaveatsView,
    granted: CaveatsView,
    after: GateView,
    r: ToolResult<ToolContext>,
)
    requires
        gate.admits(required, granted, after, r),
    ensures
        r matches Ok(cx) ==> cx.spec_caveats().leq(granted) && cx.spec_caveats().leq(required),
{
    crate::caveats::law_meet_is_the_greatest_lower_bound(granted, required, required);
}

/// A gesture widens nothing: a call that is admitted on one never gets more than
/// was granted, nor more than the tool declared to need.
pub proof fn law_a_gesture_widens_nothing(
    gate: GateView,
    required: CaveatsView,
    granted: CaveatsView,
    call: CallView,
    owed: AttestRequirement,
    answered: Seq<u8>,
    expected: Seq<u8>,
    verdict: Result<(), String>,
    after: GateView,
    r: ToolResult<(ToolContext, Option<Attestation>)>,
)
    requires
        gate.settles(
            required,
            granted,
            call,
            owed,
            answered,
            expected,
            verdict,
            after,
            r,
        ),
    ensures
        r matches Ok((cx, _)) ==> verdict is Ok && cx.spec_caveats().leq(granted)
            && cx.spec_caveats().leq(required),
{
    crate::caveats::law_meet_is_the_greatest_lower_bound(granted, required, required);
}

/// A refused call costs nothing: afterwards everything is as it was.
pub proof fn law_a_refused_call_is_not_charged(
    gate: GateView,
    required: CaveatsView,
    granted: CaveatsView,
    after: GateView,
    r: ToolResult<ToolContext>,
)
    requires
        gate.admits(required, granted, after, r),
        r is Err,
    ensures
        after == gate,
{
}

/// The calls that a gate admits under one grant, one after another, and the
/// gates between them.
pub open spec fn admitted_run(
    gates: Seq<GateView>,
    required: CaveatsView,
    granted: CaveatsView,
    results: Seq<ToolResult<ToolContext>>,
) -> bool {
    &&& gates.len() == results.len() + 1
    &&& forall|i: int|
        0 <= i < results.len() ==> #[trigger] gates[i].admits(
            required,
            granted,
            gates[i + 1],
            results[i],
        )
}

/// The number of admissions in a run.
pub open spec fn admissions(results: Seq<ToolResult<ToolContext>>) -> nat
    decreases results.len(),
{
    if results.len() == 0 {
        0
    } else {
        admissions(results.drop_last()) + if results.last() is Ok {
            1nat
        } else {
            0nat
        }
    }
}

/// A budget is never overspent: over any run of calls, the admissions and what
/// remains add up to the budget that the run began with.
pub proof fn law_a_budget_is_never_overspent(
    gates: Seq<GateView>,
    required: CaveatsView,
    granted: CaveatsView,
    results: Seq<ToolResult<ToolContext>>,
    budget: u64,
)
    requires
        admitted_run(gates, required, granted, results),
        gates[0].remaining == Some(budget),
    ensures
        gates.last().remaining is Some,
        admissions(results) + gates.last().remaining->0 == budget,
    decreases results.len(),
{
    if results.len() > 0 {
        let n = results.len() - 1;
        let fewer = gates.drop_last();
        let earlier = results.drop_last();
        assert forall|i: int| 0 <= i < earlier.len() implies #[trigger] fewer[i].admits(
            required,
            granted,
            fewer[i + 1],
            earlier[i],
        ) by {
            assert(gates[i].admits(required, granted, gates[i + 1], results[i]));
        }
        law_a_budget_is_never_overspent(fewer, required, granted, earlier, budget);
        assert(gates[n].admits(required, granted, gates[n + 1], results[n]));
    }
}

/// A challenge that has been used stays used: no admission forgets one, and an
/// admission on a gesture adds at most the challenge of that gesture.
pub proof fn law_a_used_challenge_stays_used(
    gate: GateView,
    required: CaveatsView,
    granted: CaveatsView,
    call: CallView,
    owed: AttestRequirement,
    answered: Seq<u8>,
    expected: Seq<u8>,
    verdict: Result<(), String>,
    after_plain: GateView,
    plain: ToolResult<ToolContext>,
    after_gesture: GateView,
    attested: ToolResult<(ToolContext, Option<Attestation>)>,
)
    requires
        gate.admits(required, granted, after_plain, plain),
        gate.settles(
            required,
            granted,
            call,
            owed,
            answered,
            expected,
            verdict,
            after_gesture,
            attested,
        ),
    ensures
        after_plain.consumed == gate.consumed,
        gate.consumed.subset_of(after_gesture.consumed),
        after_gesture.consumed.subset_of(gate.consumed.insert(expected)),
{
}

/// One gesture admits one act: once a discharge has been accepted, a discharge
/// for the same challenge is refused from then on, whatever is admitted in
/// between, whatever call it is presented for, and whatever the verifier says
/// of it.
pub proof fn law_a_gesture_serves_once(
    gate: GateView,
    required: CaveatsView,
    granted: CaveatsView,
    call: CallView,
    owed: AttestRequirement,
    answered: Seq<u8>,
    expected: Seq<u8>,
    first: Result<(), String>,
    between: GateView,
    admitted: ToolResult<(ToolContext, Option<Attestation>)>,
    later: GateView,
    later_required: CaveatsView,
    later_granted: CaveatsView,
    later_call: CallView,
    later_owed: AttestRequirement,
    later_answered: Seq<u8>,
    second: Result<(), String>,
    after: GateView,
    replayed: ToolResult<(ToolContext, Option<Attestation>)>,
)
    requires
        gate.settles(
            required,
            granted,
            call,
            owed,
            answered,
            expected,
            first,
            between,
            admitted,
        ),
        admitted is Ok,
        between.consumed.subset_of(later.consumed),
        later.settles(
            later_required,
            later_granted,
            later_call,
            later_owed,
            later_answered,
            expected,
            second,
            after,
            replayed,
        ),
    ensures
        replayed matches Err(e) && e is Denied,
        after == later,
{
    assert(between.consumed.contains(expected));
}

/// A gesture that is too old, or was made for another act, another session or
/// another nonce, leaves a gate to expect the challenge of its own
/// generation.
pub proof fn law_a_stale_gesture_is_not_expected(
    gate: GateView,
    content_id: Seq<u8>,
    freshness: u64,
    nonce: Seq<u8>,
    answered: Seq<u8>,
)
    requires
        forall|g: u64|
            gate.oldest(freshness) <= g <= gate.generation ==> #[trigger] gate.challenge_at(
                content_id,
                nonce,
                g,
            ) != answered,
    ensures
        gate.expects(content_id, freshness, nonce, answered) == gate.challenge_at(
            content_id,
            nonce,
            gate.generation,
        ),
        gate.expects(content_id, freshness, nonce, answered) != answered,
        gate.generation - gate.oldest(freshness) <= MAX_FRESHNESS_WINDOW,
{
}

} // verus!
