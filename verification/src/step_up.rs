//! Step-up: which calls owe a human gesture, and the challenge that a gesture
//! answers.
//!
//! A challenge is bound to one session, one action, one generation and one
//! nonce, so the proof of a gesture serves for that act and no other.

use vstd::bytes::{spec_u64_to_le_bytes, u64_to_le_bytes};
use vstd::prelude::*;
use vstd::string::*;
use vstd::utf8::encode_utf8;

use crate::bytes::{digest_of, field, fingerprint, lemma_number_bytes, push_bytes, push_field};
use crate::context::ToolContext;
use crate::error::ToolError;
use crate::text::str_equal;

verus! {

/// The identity of one session: no two sessions of a host share one.
#[derive(Debug, Clone, Copy, PartialEq, Eq)]
pub struct SessionId {
    bytes: [u8; 32],
}

impl View for SessionId {
    type V = Seq<u8>;

    closed spec fn view(&self) -> Seq<u8> {
        self.bytes@
    }
}

impl SessionId {
    /// The session with the given identity.
    pub fn new(bytes: [u8; 32]) -> (r: Self)
        ensures
            r@ == bytes@,
    {
        SessionId { bytes }
    }

    /// The identity.
    pub fn as_bytes(&self) -> (r: &[u8; 32])
        ensures
            r@ == self@,
    {
        &self.bytes
    }
}

/// The gesture that an act demands of a human.
#[derive(Debug, Clone, Copy, PartialEq, Eq, Structural)]
pub enum Presence {
    /// No gesture.
    Undemanded,
    /// A gesture with a passkey.
    Passkey,
}

/// What an act owes before it is admitted.
#[derive(Debug, Clone, Copy, PartialEq, Eq, Structural)]
pub struct AttestRequirement {
    /// The gesture.
    pub presence: Presence,
    /// How many generations back a gesture may have been made.
    pub freshness_generations: u64,
    /// Whether an admitted act leaves an [`Attestation`].
    pub record: bool,
}

impl AttestRequirement {
    /// A gesture is owed.
    pub open spec fn demands(self) -> bool {
        self.presence != Presence::Undemanded
    }

    /// Nothing is owed.
    pub fn none() -> (r: Self)
        ensures
            r == (AttestRequirement {
                presence: Presence::Undemanded,
                freshness_generations: 0,
                record: false,
            }),
    {
        AttestRequirement {
            presence: Presence::Undemanded,
            freshness_generations: 0,
            record: false,
        }
    }

    /// A fresh passkey gesture for each act, on the record.
    pub fn passkey_recorded() -> (r: Self)
        ensures
            r == (AttestRequirement {
                presence: Presence::Passkey,
                freshness_generations: 0,
                record: true,
            }),
    {
        AttestRequirement { presence: Presence::Passkey, freshness_generations: 0, record: true }
    }

    /// Whether a gesture is owed.
    pub fn demands_gesture(&self) -> (r: bool)
        ensures
            r == self.demands(),
    {
        self.presence != Presence::Undemanded
    }
}

/// The model of [`CallRequest`].
pub ghost struct CallView {
    pub tool: Seq<char>,
    pub resource: Seq<char>,
}

impl CallView {
    /// The bytes that stand for the act.
    pub open spec fn payload(self) -> Seq<u8> {
        field(encode_utf8(self.tool)) + field(encode_utf8(self.resource))
    }

    /// The content address of the act.
    pub open spec fn content_id(self) -> Seq<u8> {
        fingerprint(self.payload())
    }
}

/// One act that a policy judges: a tool, and what it is pointed at.
#[derive(Debug, Clone, PartialEq, Eq)]
pub struct CallRequest {
    /// The name of the tool.
    pub tool: String,
    /// What the tool is pointed at; empty where the caller does not say.
    pub resource: String,
}

impl View for CallRequest {
    type V = CallView;

    open spec fn view(&self) -> CallView {
        CallView { tool: self.tool@, resource: self.resource@ }
    }
}

impl CallRequest {
    /// A call of a tool that does not say what it is pointed at.
    pub fn unspecified(tool: &str) -> (r: Self)
        ensures
            r@ == (CallView { tool: tool@, resource: Seq::empty() }),
    {
        let resource: String = String::new();
        assert(resource@ =~= Seq::<char>::empty());
        CallRequest { tool: tool.to_owned(), resource }
    }

    /// The content address of the act.
    pub fn content_id(&self) -> (r: [u8; 32])
        ensures
            r@ == self@.content_id(),
    {
        let mut payload: Vec<u8> = Vec::new();
        push_field(&mut payload, self.tool.as_str().as_bytes());
        push_field(&mut payload, self.resource.as_str().as_bytes());
        assert(payload@ =~= self@.payload());
        digest_of(payload.as_slice())
    }
}

/// The bytes that a challenge is the digest of.
pub open spec fn challenge_payload(
    session: Seq<u8>,
    content_id: Seq<u8>,
    generation: u64,
    nonce: Seq<u8>,
) -> Seq<u8> {
    session + content_id + spec_u64_to_le_bytes(generation) + nonce
}

/// The challenge for one act of one session, at a generation, with a nonce.
pub open spec fn challenge_of(
    session: Seq<u8>,
    content_id: Seq<u8>,
    generation: u64,
    nonce: Seq<u8>,
) -> Seq<u8> {
    fingerprint(challenge_payload(session, content_id, generation, nonce))
}

/// A challenge is bound to all four of its parts: two challenges have the same
/// bytes under their digest only where session, act, generation and nonce are
/// the same.
pub proof fn law_a_challenge_binds_every_part(
    session_a: Seq<u8>,
    content_a: Seq<u8>,
    generation_a: u64,
    nonce_a: Seq<u8>,
    session_b: Seq<u8>,
    content_b: Seq<u8>,
    generation_b: u64,
    nonce_b: Seq<u8>,
)
    requires
        session_a.len() == 32,
        session_b.len() == 32,
        content_a.len() == 32,
        content_b.len() == 32,
        challenge_payload(session_a, content_a, generation_a, nonce_a) == challenge_payload(
            session_b,
            content_b,
            generation_b,
            nonce_b,
        ),
    ensures
        session_a == session_b,
        content_a == content_b,
        generation_a == generation_b,
        nonce_a == nonce_b,
{
    let a = challenge_payload(session_a, content_a, generation_a, nonce_a);
    let b = challenge_payload(session_b, content_b, generation_b, nonce_b);
    lemma_number_bytes(generation_a, generation_b);
    lemma_number_bytes(generation_b, generation_a);
    assert(a.subrange(0, 32) =~= session_a);
    assert(b.subrange(0, 32) =~= session_b);
    assert(a.subrange(32, 64) =~= content_a);
    assert(b.subrange(32, 64) =~= content_b);
    assert(a.subrange(64, 72) =~= spec_u64_to_le_bytes(generation_a));
    assert(b.subrange(64, 72) =~= spec_u64_to_le_bytes(generation_b));
    assert(a.subrange(72, a.len() as int) =~= nonce_a);
    assert(b.subrange(72, b.len() as int) =~= nonce_b);
}

/// Two acts have the same bytes under their content address only where tool and
/// resource are the same.
pub proof fn law_a_content_address_binds_tool_and_resource(a: CallView, b: CallView)
    requires
        encode_utf8(a.tool).len() <= u64::MAX,
        encode_utf8(b.tool).len() <= u64::MAX,
        encode_utf8(a.resource).len() <= u64::MAX,
        encode_utf8(b.resource).len() <= u64::MAX,
        a.payload() == b.payload(),
    ensures
        a == b,
{
    crate::bytes::law_a_field_ends_where_it_says(
        encode_utf8(a.tool),
        encode_utf8(b.tool),
        field(encode_utf8(a.resource)),
        field(encode_utf8(b.resource)),
    );
    let none = Seq::<u8>::empty();
    assert(field(encode_utf8(a.resource)) + none =~= field(encode_utf8(b.resource)) + none);
    crate::bytes::law_a_field_ends_where_it_says(
        encode_utf8(a.resource),
        encode_utf8(b.resource),
        none,
        none,
    );
    crate::text::lemma_utf8_injective(a.tool, b.tool);
    crate::text::lemma_utf8_injective(a.resource, b.resource);
}

/// What a gesture has to answer.
#[derive(Debug, Clone, Copy, PartialEq, Eq)]
pub struct Challenge {
    bytes: [u8; 32],
}

impl View for Challenge {
    type V = Seq<u8>;

    closed spec fn view(&self) -> Seq<u8> {
        self.bytes@
    }
}

impl Challenge {
    /// The challenge for one act of one session, at a generation, with a nonce.
    pub fn bind(
        session: &SessionId,
        content_id: &[u8; 32],
        generation: u64,
        nonce: &[u8; 32],
    ) -> (r: Self)
        ensures
            r@ == challenge_of(session@, content_id@, generation, nonce@),
    {
        let mut payload: Vec<u8> = Vec::new();
        push_bytes(&mut payload, session.bytes.as_slice());
        push_bytes(&mut payload, content_id.as_slice());
        let number: Vec<u8> = u64_to_le_bytes(generation);
        push_bytes(&mut payload, number.as_slice());
        push_bytes(&mut payload, nonce.as_slice());
        assert(payload@ =~= challenge_payload(session@, content_id@, generation, nonce@));
        Challenge { bytes: digest_of(payload.as_slice()) }
    }

    /// The bytes of the challenge.
    pub fn as_bytes(&self) -> (r: &[u8; 32])
        ensures
            r@ == self@,
    {
        &self.bytes
    }
}

/// What a policy demands of the calls of one tool.
#[derive(Debug, Clone, PartialEq, Eq)]
pub struct Rule {
    /// The name of the tool.
    pub selector: String,
    /// What its calls owe.
    pub requirement: AttestRequirement,
}

/// Which calls owe which gesture.
#[derive(Debug, Clone, PartialEq, Eq)]
pub struct StepUpPolicy {
    /// The rules, the first that names a tool deciding for it.
    pub rules: Vec<Rule>,
    /// What a call owes that no rule names.
    pub otherwise: AttestRequirement,
}

/// What the first rule for a tool demands, or `otherwise`.
pub open spec fn demanded(rules: Seq<Rule>, otherwise: AttestRequirement, tool: Seq<char>) -> AttestRequirement
    decreases rules.len(),
{
    if rules.len() == 0 {
        otherwise
    } else if rules[0].selector@ == tool {
        rules[0].requirement
    } else {
        demanded(rules.subrange(1, rules.len() as int), otherwise, tool)
    }
}

impl StepUpPolicy {
    /// What a call owes.
    pub open spec fn owed(self, call: CallView) -> AttestRequirement {
        demanded(self.rules@, self.otherwise, call.tool)
    }

    /// A policy with these rules.
    pub fn new(rules: Vec<Rule>, otherwise: AttestRequirement) -> (r: Self)
        ensures
            r == (StepUpPolicy { rules, otherwise }),
    {
        StepUpPolicy { rules, otherwise }
    }

    /// What a call owes: what the first rule for its tool demands, or else what
    /// the policy demands of every other call.
    pub fn required_for(&self, request: &CallRequest) -> (r: AttestRequirement)
        ensures
            r == self.owed(request@),
    {
        let mut i: usize = 0;
        let ghost all = self.rules@;
        assert(all.subrange(0, all.len() as int) =~= all);
        while i < self.rules.len()
            invariant
                i <= self.rules.len(),
                all == self.rules@,
                self.owed(request@) == demanded(
                    all.subrange(i as int, all.len() as int),
                    self.otherwise,
                    request.tool@,
                ),
            decreases self.rules.len() - i,
        {
            let ghost rest = all.subrange(i as int, all.len() as int);
            assert(rest.subrange(1, rest.len() as int) =~= all.subrange(i + 1, all.len() as int));
            if str_equal(self.rules[i].selector.as_str(), request.tool.as_str()) {
                return self.rules[i].requirement;
            }
            i = i + 1;
        }
        self.otherwise
    }
}

/// The proof of a gesture.
#[derive(Debug, Clone, PartialEq, Eq)]
pub struct Discharge {
    /// The challenge that the gesture answered.
    pub challenge: [u8; 32],
    /// The gesture that was made.
    pub presence: Presence,
    /// What the authenticator gave for it.
    pub proof_bytes: Vec<u8>,
}

/// Checks the proof of a gesture against what was demanded and against the
/// challenge that it has to answer.
pub trait DischargeVerifier {
    /// Accepts the proof, or says why not.
    fn verify(
        &self,
        discharge: &Discharge,
        required: &AttestRequirement,
        expected: &Challenge,
    ) -> Result<(), String>;
}

/// Obtains the gesture from a human.
pub trait DischargeProvider {
    /// The proof of the gesture, or why there is none.
    fn obtain(
        &self,
        session: &SessionId,
        request: &CallRequest,
        required: &AttestRequirement,
        generation: u64,
        nonce: &[u8; 32],
    ) -> Result<Discharge, String>;
}

/// A proof that is presented to a gate, with the nonce of its challenge and
/// the verifier to judge it.
pub struct DischargeAttempt<'a, V: DischargeVerifier> {
    /// The nonce that the challenge was bound with.
    pub nonce: [u8; 32],
    /// The proof.
    pub discharge: &'a Discharge,
    /// Who judges it.
    pub verifier: &'a V,
}

/// The record of an act that a gesture admitted.
#[derive(Debug, Clone, PartialEq, Eq)]
pub struct Attestation {
    /// The tool.
    pub tool: String,
    /// What it was pointed at.
    pub resource: String,
    /// The challenge that the gesture answered.
    pub challenge: [u8; 32],
    /// The generation of the one that admitted the act.
    pub generation: u64,
}

impl Attestation {
    /// The record is that of this act.
    pub open spec fn records(self, call: CallView, challenge: Seq<u8>, generation: u64) -> bool {
        &&& self.tool@ == call.tool
        &&& self.resource@ == call.resource
        &&& self.challenge@ == challenge
        &&& self.generation == generation
    }

    /// The record of an act whose proof was accepted.
    pub fn from_verified(request: &CallRequest, discharge: &Discharge, generation: u64) -> (r: Self)
        ensures
            r.records(request@, discharge.challenge@, generation),
    {
        Attestation {
            tool: request.tool.clone(),
            resource: request.resource.clone(),
            challenge: discharge.challenge,
            generation,
        }
    }
}

/// What a gate says of a call before any gesture.
#[derive(Debug)]
pub enum Decision {
    /// The call is admitted and charged.
    Allow(ToolContext),
    /// The call owes this first; nothing was charged.
    NeedsDischarge(AttestRequirement),
    /// The call is refused; nothing was charged.
    Deny(ToolError),
}

/// A challenge is the digest of a hundred and four bytes: the session, the
/// address of the act, the generation with its lowest byte first, and the nonce.
pub proof fn law_a_challenge_is_the_digest_of_its_parts(
    session: &SessionId,
    content_id: &[u8; 32],
    generation: u64,
    nonce: &[u8; 32],
    r: Challenge,
    payload: Seq<u8>,
)
    requires
        call_ensures(Challenge::bind, (session, content_id, generation, nonce), r),
        session@.len() == 32,
        payload.len() == 104,
        payload.subrange(0, 32) == session@,
        payload.subrange(32, 64) == content_id@,
        payload.subrange(64, 72) == spec_u64_to_le_bytes(generation),
        payload.subrange(72, 104) == nonce@,
    ensures
        r@ == fingerprint(payload),
{
    let parts = challenge_payload(session@, content_id@, generation, nonce@);
    assert(payload =~= payload.subrange(0, 32) + payload.subrange(32, 64) + payload.subrange(64, 72)
        + payload.subrange(72, 104));
    assert(payload == parts);
}

/// The address of an act is the digest of the name of its tool and of what it is
/// pointed at, each behind its length in eight bytes with the lowest first. A
/// call that does not say what it is pointed at is pointed at nothing.
pub proof fn law_an_act_is_addressed_by_tool_and_resource(
    request: &CallRequest,
    r: [u8; 32],
    tool: &str,
    bare: CallRequest,
)
    requires
        call_ensures(CallRequest::content_id, (request,), r),
        call_ensures(CallRequest::unspecified, (tool,), bare),
    ensures
        r@ == fingerprint(
            spec_u64_to_le_bytes(encode_utf8(request.tool@).len() as u64) + encode_utf8(
                request.tool@,
            ) + spec_u64_to_le_bytes(encode_utf8(request.resource@).len() as u64) + encode_utf8(
                request.resource@,
            ),
        ),
        bare.tool@ == tool@ && bare.resource@.len() == 0,
{
    let t = encode_utf8(request.tool@);
    let s = encode_utf8(request.resource@);
    assert(request@.payload() =~= spec_u64_to_le_bytes(t.len() as u64) + t + spec_u64_to_le_bytes(
        s.len() as u64,
    ) + s);
}

/// A requirement demands a gesture exactly where it names one. Nothing is owed
/// by the empty one; the strictest asks for a passkey of the same generation and
/// leaves a record. A record is that of the act, the challenge and the
/// generation.
pub proof fn law_requirements_and_records_say_what_they_name(
    requirement: &AttestRequirement,
    demands: bool,
    none: AttestRequirement,
    strict: AttestRequirement,
    request: &CallRequest,
    discharge: &Discharge,
    generation: u64,
    record: Attestation,
)
    requires
        call_ensures(AttestRequirement::demands_gesture, (requirement,), demands),
        call_ensures(AttestRequirement::none, (), none),
        call_ensures(AttestRequirement::passkey_recorded, (), strict),
        call_ensures(Attestation::from_verified, (request, discharge, generation), record),
    ensures
        demands <==> requirement.presence is Passkey,
        none.presence is Undemanded && !none.record,
        strict.presence is Passkey && strict.freshness_generations == 0 && strict.record,
        record.tool@ == request.tool@ && record.resource@ == request.resource@,
        record.challenge@ == discharge.challenge@ && record.generation == generation,
{
}

} // verus!
