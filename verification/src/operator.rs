//! Operators: the human who answers for an agent, the signed request for a
//! decision, and the decision itself.
//!
//! A request and the bond between a human and an agent are signed over payloads
//! whose fields carry their length, so no value can pass for two fields.
//! Nothing here reads a clock: whoever asks about expiry says what time it is.

use vstd::bytes::{spec_u64_to_le_bytes, u64_to_le_bytes};
use vstd::prelude::*;
use vstd::string::*;
use vstd::utf8::encode_utf8;

pub mod laws;

use crate::bytes::{field, fingerprint, hex_decode, hex_decoded, hex_encode, hex_of, push_bytes};
use crate::bytes::{law_a_field_ends_where_it_says, lemma_number_bytes, push_field, Fingerprint};
use crate::policy::{
    exec_payload, fs_payload, net_payload, text_in, ApproveVerifier, CapabilityClass, Verdict,
};
use crate::text::{lemma_utf8_injective, str_equal};

verus! {

/// The tag in front of the payload of a [`PrincipalBinding`].
pub const BINDING_DOMAIN: &'static str = "agent-bridle:operator:principal-binding:v1";

/// The tag in front of the payload of a [`PermissionChallenge`].
pub const CHALLENGE_DOMAIN: &'static str = "agent-bridle:operator:permission-challenge:v1";

/// Why a signature in hexadecimal is not accepted: there is none, it is not
/// hexadecimal, or the verifier refuses it.
pub open spec fn sig_refusal<V: ApproveVerifier>(
    verifier: V,
    payload: Seq<u8>,
    sig: Option<Seq<char>>,
) -> Option<Seq<char>> {
    match sig {
        None => Some("unsigned"@),
        Some(text) => match hex_decoded(encode_utf8(text)) {
            Err(reason) => Some(reason),
            Ok(raw) => verifier.refusal(payload, raw),
        },
    }
}

fn verify_hex_sig<V: ApproveVerifier>(payload: &Vec<u8>, sig: &Option<String>, verifier: &V) -> (r:
    Result<(), String>)
    ensures
        match sig_refusal(*verifier, payload@, text_in(*sig)) {
            None => r is Ok,
            Some(reason) => r matches Err(e) && e@ == reason,
        },
{
    match sig {
        None => Err("unsigned".to_owned()),
        Some(text) => match hex_decode(text.as_str()) {
            Err(e) => Err(e),
            Ok(raw) => verifier.verify(payload.as_slice(), raw.as_slice()),
        },
    }
}

/// A human whom an identity provider has authenticated. The identity is the
/// issuer with the subject; an address may change and identifies nobody.
#[derive(Debug, Clone, PartialEq, Eq)]
pub struct HumanPrincipal {
    /// The identity provider.
    pub issuer: String,
    /// The account, as the provider knows it.
    pub subject: String,
    /// An address to show.
    pub email: Option<String>,
    /// The groups that the provider asserts.
    pub groups: Vec<String>,
}

impl HumanPrincipal {
    /// The identity: issuer and subject.
    pub fn key(&self) -> (r: (&str, &str))
        ensures
            r.0@ == self.issuer@,
            r.1@ == self.subject@,
    {
        (self.issuer.as_str(), self.subject.as_str())
    }

    /// Whether the provider asserts membership in a group.
    pub fn is_member_of(&self, group: &str) -> (r: bool)
        ensures
            r == exists|i: int|
                0 <= i < self.groups@.len() && #[trigger] self.groups@[i]@ == group@,
    {
        let mut i: usize = 0;
        while i < self.groups.len()
            invariant
                i <= self.groups.len(),
                forall|k: int| 0 <= k < i ==> #[trigger] self.groups@[k]@ != group@,
            decreases self.groups.len() - i,
        {
            if str_equal(self.groups[i].as_str(), group) {
                assert(self.groups@[i as int]@ == group@);
                return true;
            }
            i = i + 1;
        }
        false
    }
}

/// The bytes that the signature of a binding covers.
pub open spec fn binding_payload(
    issuer: Seq<char>,
    subject: Seq<char>,
    agent: Seq<u8>,
    generation: u64,
) -> Seq<u8> {
    encode_utf8("agent-bridle:operator:principal-binding:v1"@) + field(encode_utf8(issuer)) + field(
        encode_utf8(subject),
    ) + field(agent) + spec_u64_to_le_bytes(generation)
}

/// The signed bond between a human and the agent that the human controls.
#[derive(Debug, Clone, PartialEq, Eq)]
pub struct PrincipalBinding {
    /// The human.
    pub human: HumanPrincipal,
    /// The agent.
    pub mesh_agent_fingerprint: Fingerprint,
    /// The generation at which the bond was issued.
    pub issued_generation: u64,
    /// The signature over the payload, in hexadecimal.
    pub sig: Option<String>,
}

impl PrincipalBinding {
    /// The bytes that the signature covers.
    pub open spec fn payload(self) -> Seq<u8> {
        binding_payload(
            self.human.issuer@,
            self.human.subject@,
            self.mesh_agent_fingerprint@,
            self.issued_generation,
        )
    }

    /// A bond that is not signed yet.
    pub fn new(
        human: HumanPrincipal,
        mesh_agent_fingerprint: Fingerprint,
        issued_generation: u64,
    ) -> (r: Self)
        ensures
            r == (PrincipalBinding { human, mesh_agent_fingerprint, issued_generation, sig: None }),
    {
        PrincipalBinding { human, mesh_agent_fingerprint, issued_generation, sig: None }
    }

    /// The bytes that the agent signs: the domain, issuer and subject, the
    /// agent and the generation. Address and groups are left out.
    pub fn signing_payload(&self) -> (r: Vec<u8>)
        ensures
            r@ == self.payload(),
    {
        let mut p: Vec<u8> = Vec::new();
        push_bytes(&mut p, BINDING_DOMAIN.as_bytes());
        push_field(&mut p, self.human.issuer.as_str().as_bytes());
        push_field(&mut p, self.human.subject.as_str().as_bytes());
        push_field(&mut p, self.mesh_agent_fingerprint.0.as_slice());
        let number: Vec<u8> = u64_to_le_bytes(self.issued_generation);
        push_bytes(&mut p, number.as_slice());
        assert(p@ =~= self.payload());
        p
    }

    /// The bond, with a signature.
    pub fn signed(self, sig: [u8; 64]) -> (r: Self)
        ensures
            text_in(r.sig) == Some(hex_of(sig@)),
            r == (PrincipalBinding { sig: r.sig, ..self }),
    {
        PrincipalBinding { sig: Some(hex_encode(sig.as_slice())), ..self }
    }

    /// Whether the signature is accepted, and if not, why.
    pub fn verify<V: ApproveVerifier>(&self, verifier: &V) -> (r: Result<(), String>)
        ensures
            match sig_refusal(*verifier, self.payload(), text_in(self.sig)) {
                None => r is Ok,
                Some(reason) => r matches Err(e) && e@ == reason,
            },
    {
        verify_hex_sig(&self.signing_payload(), &self.sig, verifier)
    }
}

/// The capability that an agent asks for.
#[derive(Debug, Clone, Copy, PartialEq, Eq, Structural)]
pub enum RequestedCapability {
    /// To execute a command.
    Exec,
    /// To read a path.
    FsRead,
    /// To write a path.
    FsWrite,
    /// To reach a host.
    Net,
    /// To call a remote tool.
    RemoteTool,
    /// To write to a local repository.
    GitWrite,
}

impl RequestedCapability {
    /// The tag of the capability.
    pub open spec fn tag(self) -> Seq<char> {
        match self {
            RequestedCapability::Exec => "exec"@,
            RequestedCapability::FsRead => "fs_read"@,
            RequestedCapability::FsWrite => "fs_write"@,
            RequestedCapability::Net => "net"@,
            RequestedCapability::RemoteTool => "remote_tool"@,
            RequestedCapability::GitWrite => "git_write"@,
        }
    }

    /// The tag of the capability.
    pub fn as_str(self) -> (r: &'static str)
        ensures
            r@ == self.tag(),
    {
        match self {
            RequestedCapability::Exec => "exec",
            RequestedCapability::FsRead => "fs_read",
            RequestedCapability::FsWrite => "fs_write",
            RequestedCapability::Net => "net",
            RequestedCapability::RemoteTool => "remote_tool",
            RequestedCapability::GitWrite => "git_write",
        }
    }

    /// The class of durable policy that covers the capability; none covers a
    /// remote tool or a write to a repository.
    pub fn to_capability_class(self) -> (r: Option<CapabilityClass>)
        ensures
            r == (match self {
                RequestedCapability::Exec => Some(CapabilityClass::Exec),
                RequestedCapability::FsRead => Some(CapabilityClass::Fs),
                RequestedCapability::FsWrite => Some(CapabilityClass::Fs),
                RequestedCapability::Net => Some(CapabilityClass::Net),
                RequestedCapability::RemoteTool => None,
                RequestedCapability::GitWrite => None,
            }),
    {
        match self {
            RequestedCapability::Exec => Some(CapabilityClass::Exec),
            RequestedCapability::FsRead | RequestedCapability::FsWrite => Some(CapabilityClass::Fs),
            RequestedCapability::Net => Some(CapabilityClass::Net),
            RequestedCapability::RemoteTool | RequestedCapability::GitWrite => None,
        }
    }
}

/// How dangerous a target is. The agent says; who shows it does not judge.
#[derive(Debug, Clone, Copy, PartialEq, Eq, Structural)]
pub enum DangerTier {
    /// Routine.
    Low,
    /// Notable.
    Medium,
    /// Never to be allowed for good.
    High,
}

impl DangerTier {
    /// The tag of the tier.
    pub open spec fn tag(self) -> Seq<char> {
        match self {
            DangerTier::Low => "low"@,
            DangerTier::Medium => "medium"@,
            DangerTier::High => "high"@,
        }
    }
}

fn danger_tag(d: DangerTier) -> (r: &'static str)
    ensures
        r@ == d.tag(),
{
    match d {
        DangerTier::Low => "low",
        DangerTier::Medium => "medium",
        DangerTier::High => "high",
    }
}

/// The model of what a challenge asks.
pub ghost struct ChallengeView {
    pub request_id: Seq<char>,
    pub capability: RequestedCapability,
    pub target: Seq<char>,
    pub danger: DangerTier,
    pub agent: Seq<u8>,
    pub expires_at_unix: i64,
}

impl ChallengeView {
    /// What follows the domain in the payload of the challenge.
    pub open spec fn fields(self) -> Seq<u8> {
        field(encode_utf8(self.request_id)) + (field(encode_utf8(self.capability.tag())) + (field(
            encode_utf8(self.target),
        ) + (field(encode_utf8(self.danger.tag())) + (field(self.agent) + spec_u64_to_le_bytes(
            self.expires_at_unix as u64,
        )))))
    }

    /// The bytes that the signature of the challenge covers.
    pub open spec fn payload(self) -> Seq<u8> {
        encode_utf8("agent-bridle:operator:permission-challenge:v1"@) + self.fields()
    }

    /// The texts and the fingerprint are no longer than a machine can hold.
    pub open spec fn fits(self) -> bool {
        &&& encode_utf8(self.request_id).len() <= u64::MAX
        &&& encode_utf8(self.target).len() <= u64::MAX
        &&& self.agent.len() <= u64::MAX
    }
}

/// The signed request of an agent for a decision, which expires.
#[derive(Debug, Clone, PartialEq, Eq)]
pub struct PermissionChallenge {
    /// What the decision has to name; no two requests share one.
    pub request_id: String,
    /// The capability.
    pub capability: RequestedCapability,
    /// The command, path, host or tool.
    pub target: String,
    /// How dangerous the agent says it is.
    pub danger: DangerTier,
    /// The agent.
    pub mesh_agent_fingerprint: Fingerprint,
    /// When the request expires, in seconds since the epoch.
    pub expires_at_unix: i64,
    /// The signature over the payload, in hexadecimal.
    pub sig: Option<String>,
}

impl View for PermissionChallenge {
    type V = ChallengeView;

    open spec fn view(&self) -> ChallengeView {
        ChallengeView {
            request_id: self.request_id@,
            capability: self.capability,
            target: self.target@,
            danger: self.danger,
            agent: self.mesh_agent_fingerprint@,
            expires_at_unix: self.expires_at_unix,
        }
    }
}

impl PermissionChallenge {
    /// A request that is not signed yet.
    pub fn new(
        request_id: String,
        capability: RequestedCapability,
        target: String,
        danger: DangerTier,
        mesh_agent_fingerprint: Fingerprint,
        expires_at_unix: i64,
    ) -> (r: Self)
        ensures
            r == (PermissionChallenge {
                request_id,
                capability,
                target,
                danger,
                mesh_agent_fingerprint,
                expires_at_unix,
                sig: None,
            }),
    {
        PermissionChallenge {
            request_id,
            capability,
            target,
            danger,
            mesh_agent_fingerprint,
            expires_at_unix,
            sig: None,
        }
    }

    /// The bytes that the agent signs: the domain and every field but the
    /// signature.
    pub fn signing_payload(&self) -> (r: Vec<u8>)
        ensures
            r@ == self@.payload(),
    {
        let mut p: Vec<u8> = Vec::new();
        push_bytes(&mut p, CHALLENGE_DOMAIN.as_bytes());
        push_field(&mut p, self.request_id.as_str().as_bytes());
        push_field(&mut p, self.capability.as_str().as_bytes());
        push_field(&mut p, self.target.as_str().as_bytes());
        push_field(&mut p, danger_tag(self.danger).as_bytes());
        push_field(&mut p, self.mesh_agent_fingerprint.0.as_slice());
        let number: Vec<u8> = u64_to_le_bytes(self.expires_at_unix as u64);
        push_bytes(&mut p, number.as_slice());
        assert(p@ =~= self@.payload());
        p
    }

    /// The request, with a signature.
    pub fn signed(self, sig: [u8; 64]) -> (r: Self)
        ensures
            text_in(r.sig) == Some(hex_of(sig@)),
            r == (PermissionChallenge { sig: r.sig, ..self }),
    {
        PermissionChallenge { sig: Some(hex_encode(sig.as_slice())), ..self }
    }

    /// Whether the signature is accepted, and if not, why.
    pub fn verify<V: ApproveVerifier>(&self, verifier: &V) -> (r: Result<(), String>)
        ensures
            match sig_refusal(*verifier, self@.payload(), text_in(self.sig)) {
                None => r is Ok,
                Some(reason) => r matches Err(e) && e@ == reason,
            },
    {
        verify_hex_sig(&self.signing_payload(), &self.sig, verifier)
    }

    /// The content address of the request: the digest of its payload.
    pub fn digest(&self) -> (r: Fingerprint)
        ensures
            r@ == fingerprint(self@.payload()),
    {
        Fingerprint::of_bytes(self.signing_payload().as_slice())
    }

    /// Whether the request has expired: at its deadline it has.
    pub fn is_expired(&self, now_unix: i64) -> (r: bool)
        ensures
            r == (now_unix >= self.expires_at_unix),
    {
        now_unix >= self.expires_at_unix
    }
}

/// What an operator decides about one request.
#[derive(Debug, Clone, Copy, PartialEq, Eq, Structural)]
pub enum DecisionVerdict {
    /// Refused.
    Deny,
    /// Allowed for this request.
    AllowOnce,
    /// Allowed for the rest of the session.
    AllowSession,
    /// Allowed for good.
    ApproveDurable,
}

impl DecisionVerdict {
    /// The verdict of durable policy that the decision becomes, if it becomes
    /// one.
    pub fn durable_policy_verdict(self) -> (r: Option<Verdict>)
        ensures
            r == (if self == DecisionVerdict::ApproveDurable {
                Some(Verdict::Approve)
            } else {
                None
            }),
    {
        match self {
            DecisionVerdict::ApproveDurable => Some(Verdict::Approve),
            _ => None,
        }
    }

    /// Whether the decision becomes durable policy.
    pub fn is_durable(self) -> (r: bool)
        ensures
            r == (self == DecisionVerdict::ApproveDurable),
    {
        match self {
            DecisionVerdict::ApproveDurable => true,
            _ => false,
        }
    }
}

/// The answer of an operator to one request.
#[derive(Debug, Clone, PartialEq, Eq)]
pub struct OperatorDecision {
    /// The request.
    pub request_id: String,
    /// The content address of the request.
    pub challenge_digest: Fingerprint,
    /// The decision.
    pub verdict: DecisionVerdict,
    /// Whether a gesture is still owed before it takes effect.
    pub step_up_owed: bool,
    /// Who decided.
    pub decided_by: HumanPrincipal,
}

/// A decision with this request and this digest answers the challenge.
pub open spec fn is_answer_to(
    request_id: Seq<char>,
    digest: Seq<u8>,
    challenge: ChallengeView,
) -> bool {
    request_id == challenge.request_id && digest == fingerprint(challenge.payload())
}

impl OperatorDecision {
    /// The answer to a request; no gesture is owed.
    pub fn for_challenge(
        challenge: &PermissionChallenge,
        verdict: DecisionVerdict,
        decided_by: HumanPrincipal,
    ) -> (r: Self)
        ensures
            is_answer_to(r.request_id@, r.challenge_digest@, challenge@),
            r.verdict == verdict,
            !r.step_up_owed,
            r.decided_by == decided_by,
    {
        OperatorDecision {
            request_id: challenge.request_id.clone(),
            challenge_digest: challenge.digest(),
            verdict,
            step_up_owed: false,
            decided_by,
        }
    }

    /// The decision, with a gesture owed before it takes effect.
    pub fn requiring_step_up(self) -> (r: Self)
        ensures
            r == (OperatorDecision { step_up_owed: true, ..self }),
    {
        OperatorDecision { step_up_owed: true, ..self }
    }

    /// Whether the decision answers a request: it names the request, and has
    /// its content address.
    pub fn answers(&self, challenge: &PermissionChallenge) -> (r: bool)
        ensures
            r == is_answer_to(self.request_id@, self.challenge_digest@, challenge@),
    {
        str_equal(self.request_id.as_str(), challenge.request_id.as_str())
            && self.challenge_digest.same(&challenge.digest())
    }
}

proof fn lemma_same_tail(head: Seq<u8>, a: Seq<u8>, b: Seq<u8>)
    requires
        head + a == head + b,
    ensures
        a == b,
{
    let n = head.len() as int;
    assert((head + a).subrange(n, (head + a).len() as int) =~= a);
    assert((head + b).subrange(n, (head + b).len() as int) =~= b);
}

/// A binding is signed over its issuer, its subject, its agent and its
/// generation: two bindings have the same payload only where all four are the
/// same.
pub proof fn law_a_binding_binds_every_part(
    issuer_a: Seq<char>,
    subject_a: Seq<char>,
    agent_a: Seq<u8>,
    generation_a: u64,
    issuer_b: Seq<char>,
    subject_b: Seq<char>,
    agent_b: Seq<u8>,
    generation_b: u64,
)
    requires
        encode_utf8(issuer_a).len() <= u64::MAX,
        encode_utf8(issuer_b).len() <= u64::MAX,
        encode_utf8(subject_a).len() <= u64::MAX,
        encode_utf8(subject_b).len() <= u64::MAX,
        agent_a.len() <= u64::MAX,
        agent_b.len() <= u64::MAX,
        binding_payload(issuer_a, subject_a, agent_a, generation_a) == binding_payload(
            issuer_b,
            subject_b,
            agent_b,
            generation_b,
        ),
    ensures
        issuer_a == issuer_b,
        subject_a == subject_b,
        agent_a == agent_b,
        generation_a == generation_b,
{
    let head = encode_utf8("agent-bridle:operator:principal-binding:v1"@);
    let four_a = spec_u64_to_le_bytes(generation_a);
    let four_b = spec_u64_to_le_bytes(generation_b);
    let three_a = field(agent_a) + four_a;
    let three_b = field(agent_b) + four_b;
    let two_a = field(encode_utf8(subject_a)) + three_a;
    let two_b = field(encode_utf8(subject_b)) + three_b;
    let one_a = field(encode_utf8(issuer_a)) + two_a;
    let one_b = field(encode_utf8(issuer_b)) + two_b;
    assert(head + one_a =~= binding_payload(issuer_a, subject_a, agent_a, generation_a));
    assert(head + one_b =~= binding_payload(issuer_b, subject_b, agent_b, generation_b));
    lemma_same_tail(head, one_a, one_b);
    law_a_field_ends_where_it_says(encode_utf8(issuer_a), encode_utf8(issuer_b), two_a, two_b);
    law_a_field_ends_where_it_says(
        encode_utf8(subject_a),
        encode_utf8(subject_b),
        three_a,
        three_b,
    );
    law_a_field_ends_where_it_says(agent_a, agent_b, four_a, four_b);
    lemma_number_bytes(generation_a, generation_b);
    lemma_utf8_injective(issuer_a, issuer_b);
    lemma_utf8_injective(subject_a, subject_b);
}

proof fn lemma_capability_tags(a: RequestedCapability, b: RequestedCapability)
    ensures
        a.tag() == b.tag() ==> a == b,
        encode_utf8(a.tag()).len() <= 11,
{
    reveal_strlit("exec");
    reveal_strlit("fs_read");
    reveal_strlit("fs_write");
    reveal_strlit("net");
    reveal_strlit("remote_tool");
    reveal_strlit("git_write");
    if a.tag() == b.tag() {
        assert(a.tag().len() == b.tag().len());
        assert(a.tag()[0] == b.tag()[0]);
    }
    assert forall|i: int| 0 <= i < a.tag().len() implies (#[trigger] a.tag()[i] as int) < 0x80 by {}
    crate::bytes::lemma_ascii_bytes(a.tag());
}

proof fn lemma_danger_tags(a: DangerTier, b: DangerTier)
    ensures
        a.tag() == b.tag() ==> a == b,
        encode_utf8(a.tag()).len() <= 6,
{
    reveal_strlit("low");
    reveal_strlit("medium");
    reveal_strlit("high");
    if a.tag() == b.tag() {
        assert(a.tag().len() == b.tag().len());
    }
    assert forall|i: int| 0 <= i < a.tag().len() implies (#[trigger] a.tag()[i] as int) < 0x80 by {}
    crate::bytes::lemma_ascii_bytes(a.tag());
}

/// A challenge is signed over all that it asks: two challenges have the same
/// payload only where request, capability, target, danger, agent and expiry are
/// the same.
pub proof fn law_a_permission_challenge_binds_every_part(a: ChallengeView, b: ChallengeView)
    requires
        a.fits(),
        b.fits(),
        a.payload() == b.payload(),
    ensures
        a == b,
{
    let five_a = spec_u64_to_le_bytes(a.expires_at_unix as u64);
    let five_b = spec_u64_to_le_bytes(b.expires_at_unix as u64);
    let four_a = field(a.agent) + five_a;
    let four_b = field(b.agent) + five_b;
    let three_a = field(encode_utf8(a.danger.tag())) + four_a;
    let three_b = field(encode_utf8(b.danger.tag())) + four_b;
    let two_a = field(encode_utf8(a.target)) + three_a;
    let two_b = field(encode_utf8(b.target)) + three_b;
    let one_a = field(encode_utf8(a.capability.tag())) + two_a;
    let one_b = field(encode_utf8(b.capability.tag())) + two_b;
    lemma_capability_tags(a.capability, b.capability);
    lemma_capability_tags(b.capability, a.capability);
    lemma_danger_tags(a.danger, b.danger);
    lemma_danger_tags(b.danger, a.danger);
    lemma_same_tail(
        encode_utf8("agent-bridle:operator:permission-challenge:v1"@),
        a.fields(),
        b.fields(),
    );
    law_a_field_ends_where_it_says(
        encode_utf8(a.request_id),
        encode_utf8(b.request_id),
        one_a,
        one_b,
    );
    law_a_field_ends_where_it_says(
        encode_utf8(a.capability.tag()),
        encode_utf8(b.capability.tag()),
        two_a,
        two_b,
    );
    law_a_field_ends_where_it_says(encode_utf8(a.target), encode_utf8(b.target), three_a, three_b);
    law_a_field_ends_where_it_says(
        encode_utf8(a.danger.tag()),
        encode_utf8(b.danger.tag()),
        four_a,
        four_b,
    );
    law_a_field_ends_where_it_says(a.agent, b.agent, five_a, five_b);
    lemma_number_bytes(a.expires_at_unix as u64, b.expires_at_unix as u64);
    let x = a.expires_at_unix;
    let y = b.expires_at_unix;
    assert(x as u64 == y as u64 ==> x == y) by (bit_vector);
    lemma_utf8_injective(a.request_id, b.request_id);
    lemma_utf8_injective(a.target, b.target);
    lemma_utf8_injective(a.capability.tag(), b.capability.tag());
    lemma_utf8_injective(a.danger.tag(), b.danger.tag());
}

/// A signature of one kind is never one of another: the payloads of a binding,
/// of a challenge and of an approval all differ, whatever they say.
pub proof fn law_signatures_of_different_kinds_never_coincide(
    issuer: Seq<char>,
    subject: Seq<char>,
    agent: Seq<u8>,
    generation: u64,
    challenge: ChallengeView,
    target: Seq<char>,
    write: bool,
)
    ensures
        binding_payload(issuer, subject, agent, generation) != challenge.payload(),
        binding_payload(issuer, subject, agent, generation) != exec_payload(target),
        binding_payload(issuer, subject, agent, generation) != fs_payload(target, write),
        binding_payload(issuer, subject, agent, generation) != net_payload(target),
        challenge.payload() != exec_payload(target),
        challenge.payload() != fs_payload(target, write),
        challenge.payload() != net_payload(target),
{
    reveal_strlit("agent-bridle:operator:principal-binding:v1");
    reveal_strlit("agent-bridle:operator:permission-challenge:v1");
    reveal_strlit("agent-bridle:ocap-approve:v1");
    let bound = "agent-bridle:operator:principal-binding:v1"@;
    let asked = "agent-bridle:operator:permission-challenge:v1"@;
    let approved = "agent-bridle:ocap-approve:v1"@;
    crate::bytes::lemma_ascii_head(bound, 24);
    crate::bytes::lemma_ascii_head(asked, 24);
    assert(binding_payload(issuer, subject, agent, generation)[14] == encode_utf8(bound)[14]);
    assert(binding_payload(issuer, subject, agent, generation)[23] == encode_utf8(bound)[23]);
    assert(challenge.payload()[14] == encode_utf8(asked)[14]);
    assert(challenge.payload()[23] == encode_utf8(asked)[23]);
    assert(bound[14] == 'p' && bound[23] == 'r' && asked[14] == 'p' && asked[23] == 'e');
    let on_exec = approved + "\nexec\n"@ + target;
    let on_net = approved + "\nnet\n"@ + target;
    let on_fs = approved + "\nfs\n"@ + target + "\nwrite="@ + if write {
        "true"@
    } else {
        "false"@
    };
    assert(on_exec.take(28) =~= approved);
    assert(on_net.take(28) =~= approved);
    assert(on_fs.take(28) =~= approved);
    lemma_head_of_approval(on_exec);
    lemma_head_of_approval(on_net);
    lemma_head_of_approval(on_fs);
}

proof fn lemma_head_of_approval(text: Seq<char>)
    requires
        text.len() >= 28,
        text.take(28) == "agent-bridle:ocap-approve:v1"@,
    ensures
        encode_utf8(text).len() >= 28,
        encode_utf8(text)[14] as int == 'c' as int,
{
    reveal_strlit("agent-bridle:ocap-approve:v1");
    assert forall|i: int| 0 <= i < 28 implies (#[trigger] text[i] as int) < 0x80 by {
        assert(text[i] == text.take(28)[i]);
    }
    assert(text[14] == text.take(28)[14]);
    crate::bytes::lemma_ascii_head(text, 28);
}

/// A decision is lifted onto no other request: what answers one challenge
/// answers another only where both have the same request and the same digest.
pub proof fn law_a_decision_answers_one_challenge(
    request_id: Seq<char>,
    digest: Seq<u8>,
    a: ChallengeView,
    b: ChallengeView,
)
    requires
        is_answer_to(request_id, digest, a),
    ensures
        is_answer_to(request_id, digest, b) <==> a.request_id == b.request_id && fingerprint(
            a.payload(),
        ) == fingerprint(b.payload()),
{
}

} // verus!
