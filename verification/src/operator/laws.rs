//! What an operator's signatures and decisions cover, said over the values that
//! go in and come out.

use vstd::bytes::spec_u64_to_le_bytes;
use vstd::prelude::*;
use vstd::utf8::encode_utf8;

use crate::bytes::{fingerprint, hex_decode, Fingerprint};
use crate::operator::{
    DangerTier, DecisionVerdict, HumanPrincipal, OperatorDecision, PermissionChallenge,
    PrincipalBinding, RequestedCapability,
};
use crate::policy::laws::is_accepted;
use crate::policy::{ApproveVerifier, CapabilityClass, Verdict};

verus! {

/// Bytes behind their length, which stands in eight bytes, the lowest first.
pub open spec fn counted(data: Seq<u8>) -> Seq<u8> {
    spec_u64_to_le_bytes(data.len() as u64) + data
}

/// What an agent signs of a bond: a tag, issuer, subject and agent, each behind
/// its length, and the generation. A bond is accepted exactly where its
/// signature is accepted over that; address and groups play no part.
pub proof fn law_a_bond_is_signed_over_its_parties<V: ApproveVerifier>(
    binding: &PrincipalBinding,
    payload: Vec<u8>,
    verifier: &V,
    r: Result<(), String>,
)
    requires
        call_ensures(PrincipalBinding::signing_payload, (binding,), payload),
        call_ensures(PrincipalBinding::verify::<V>, (binding, verifier), r),
    ensures
        payload@ == encode_utf8("agent-bridle:operator:principal-binding:v1"@) + counted(
            encode_utf8(binding.human.issuer@),
        ) + counted(encode_utf8(binding.human.subject@)) + counted(
            binding.mesh_agent_fingerprint.0@,
        ) + spec_u64_to_le_bytes(binding.issued_generation),
        r is Ok <==> is_accepted(*verifier, payload@, binding.sig),
{
}

/// What an agent signs of a request: a tag, the request, the capability, the
/// target, the danger and the agent, each behind its length, and the expiry. A
/// request is accepted exactly where its signature is accepted over that, its
/// digest is that of these bytes, and it has expired from its deadline on.
pub proof fn law_a_request_is_signed_over_all_that_it_asks<V: ApproveVerifier>(
    challenge: &PermissionChallenge,
    payload: Vec<u8>,
    capability: &str,
    verifier: &V,
    r: Result<(), String>,
    digest: Fingerprint,
    now: i64,
    expired: bool,
)
    requires
        call_ensures(PermissionChallenge::signing_payload, (challenge,), payload),
        call_ensures(RequestedCapability::as_str, (challenge.capability,), capability),
        call_ensures(PermissionChallenge::verify::<V>, (challenge, verifier), r),
        call_ensures(PermissionChallenge::digest, (challenge,), digest),
        call_ensures(PermissionChallenge::is_expired, (challenge, now), expired),
    ensures
        payload@ == encode_utf8("agent-bridle:operator:permission-challenge:v1"@) + counted(
            encode_utf8(challenge.request_id@),
        ) + counted(encode_utf8(capability@)) + counted(encode_utf8(challenge.target@)) + counted(
            encode_utf8(
                match challenge.danger {
                    DangerTier::Low => "low"@,
                    DangerTier::Medium => "medium"@,
                    DangerTier::High => "high"@,
                },
            ),
        ) + counted(challenge.mesh_agent_fingerprint.0@) + spec_u64_to_le_bytes(
            challenge.expires_at_unix as u64,
        ),
        r is Ok <==> is_accepted(*verifier, payload@, challenge.sig),
        digest.0@ == fingerprint(payload@),
        expired <==> challenge.expires_at_unix <= now,
{
    let danger = match challenge.danger {
        DangerTier::Low => "low"@,
        DangerTier::Medium => "medium"@,
        DangerTier::High => "high"@,
    };
    assert(danger == challenge.danger.tag());
    assert(payload@ =~= encode_utf8("agent-bridle:operator:permission-challenge:v1"@) + counted(
        encode_utf8(challenge.request_id@),
    ) + counted(encode_utf8(capability@)) + counted(encode_utf8(challenge.target@)) + counted(
        encode_utf8(danger),
    ) + counted(challenge.mesh_agent_fingerprint.0@) + spec_u64_to_le_bytes(
        challenge.expires_at_unix as u64,
    ));
}

/// A signature in hexadecimal reads back as the bytes that were signed with; the
/// rest of what is signed stays as it was.
pub proof fn law_signing_adds_the_signature_alone(
    binding: PrincipalBinding,
    challenge: PermissionChallenge,
    sig: [u8; 64],
    signed_binding: PrincipalBinding,
    signed_challenge: PermissionChallenge,
    text: &str,
    read: Result<Vec<u8>, String>,
)
    requires
        call_ensures(PrincipalBinding::signed, (binding, sig), signed_binding),
        call_ensures(PermissionChallenge::signed, (challenge, sig), signed_challenge),
        signed_binding.sig is Some ==> text@ == signed_binding.sig->0@,
        call_ensures(hex_decode, (text,), read),
    ensures
        signed_binding == (PrincipalBinding { sig: signed_binding.sig, ..binding }),
        signed_challenge == (PermissionChallenge { sig: signed_challenge.sig, ..challenge }),
        signed_binding.sig is Some && signed_challenge.sig is Some && signed_binding.sig->0@
            == signed_challenge.sig->0@,
        read is Ok && read->Ok_0@ == sig@,
{
    crate::bytes::law_hex_reads_back(sig@);
}

/// A decision answers the request that it was made for, and any request with the
/// same name and the same digest, and no other. It says what was decided and by
/// whom, and owes a gesture only where that is asked for.
pub proof fn law_a_decision_answers_its_own_request(
    challenge: &PermissionChallenge,
    verdict: DecisionVerdict,
    by: HumanPrincipal,
    made: OperatorDecision,
    owing: OperatorDecision,
    own: bool,
    decision: &OperatorDecision,
    digest: Fingerprint,
    r: bool,
)
    requires
        call_ensures(OperatorDecision::for_challenge, (challenge, verdict, by), made),
        call_ensures(OperatorDecision::requiring_step_up, (made,), owing),
        call_ensures(OperatorDecision::answers, (&owing, challenge), own),
        call_ensures(PermissionChallenge::digest, (challenge,), digest),
        call_ensures(OperatorDecision::answers, (decision, challenge), r),
    ensures
        own,
        made.verdict == verdict && made.decided_by == by && !made.step_up_owed,
        owing.verdict == verdict && owing.decided_by == by && owing.step_up_owed,
        r <==> decision.request_id@ == challenge.request_id@ && decision.challenge_digest.0@
            == digest.0@,
{
}

/// Only an approval for good becomes durable policy, as an approval. Reading and
/// writing a path are covered by the policy on paths, commands and hosts each by
/// their own, and remote tools and repository writes by none.
pub proof fn law_only_an_approval_for_good_is_durable(
    v: DecisionVerdict,
    durable: bool,
    policy: Option<Verdict>,
    capability: RequestedCapability,
    class: Option<CapabilityClass>,
)
    requires
        call_ensures(DecisionVerdict::is_durable, (v,), durable),
        call_ensures(DecisionVerdict::durable_policy_verdict, (v,), policy),
        call_ensures(RequestedCapability::to_capability_class, (capability,), class),
    ensures
        durable <==> v == DecisionVerdict::ApproveDurable,
        policy is Some <==> durable,
        policy is Some ==> policy->0 == Verdict::Approve,
        class == Some(CapabilityClass::Fs) <==> capability == RequestedCapability::FsRead
            || capability == RequestedCapability::FsWrite,
        class == Some(CapabilityClass::Exec) <==> capability == RequestedCapability::Exec,
        class == Some(CapabilityClass::Net) <==> capability == RequestedCapability::Net,
{
}

} // verus!
