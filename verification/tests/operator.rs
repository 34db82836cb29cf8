use agent_bridle_core::{
    CapabilityClass, DangerTier, DecisionVerdict, Ed25519ApproveVerifier, ExecEntry, Fingerprint,
    FsEntry, HumanPrincipal, NetEntry, OperatorDecision, PermissionChallenge, PrincipalBinding, RequestedCapability,
    Verdict,
};
use agent_bridle_core::DecisionVerdict::{AllowOnce, AllowSession, ApproveDurable, Deny};
use agent_bridle_core::RequestedCapability::{Exec, FsRead, FsWrite, GitWrite, Net, RemoteTool};
use ed25519_dalek::{Signer, SigningKey};

fn fp(seed: u8) -> Fingerprint {
    Fingerprint::of_bytes(&[seed; 8])
}

fn a_human() -> HumanPrincipal {
    HumanPrincipal {
        issuer: "https://idp.example".into(),
        subject: "sub-123".into(),
        email: Some("op@example.com".into()),
        groups: vec!["newt-operators".into()],
    }
}

fn challenge(
    request_id: &str,
    capability: RequestedCapability,
    target: &str,
    danger: DangerTier,
    agent: Fingerprint,
    expires: i64,
) -> PermissionChallenge {
    PermissionChallenge::new(
        request_id.to_string(),
        capability,
        target.to_string(),
        danger,
        agent,
        expires,
    )
}

#[test]
fn human_principal_is_keyed_by_issuer_subject_never_email() {
    let h = a_human();
    assert_eq!(h.key(), ("https://idp.example", "sub-123"));
    assert!(h.is_member_of("newt-operators"));
    assert!(!h.is_member_of("admins"));
    let mut h2 = h.clone();
    h2.email = Some("changed@example.com".into());
    assert_eq!(h.key(), h2.key());
}

#[test]
fn requested_capability_maps_onto_the_durable_vocab() {
    assert_eq!(Exec.to_capability_class(), Some(CapabilityClass::Exec));
    assert_eq!(FsRead.to_capability_class(), Some(CapabilityClass::Fs));
    assert_eq!(FsWrite.to_capability_class(), Some(CapabilityClass::Fs));
    assert_eq!(Net.to_capability_class(), Some(CapabilityClass::Net));
    assert_eq!(RemoteTool.to_capability_class(), None);
    assert_eq!(GitWrite.to_capability_class(), None);
    assert_eq!(FsWrite.as_str(), "fs_write");
    assert_eq!(RemoteTool.as_str(), "remote_tool");
}

#[test]
fn signing_payloads_are_field_boundary_safe() {
    let a = PrincipalBinding::new(
        HumanPrincipal {
            issuer: "ab".into(),
            subject: "c".into(),
            email: None,
            groups: vec![],
        },
        fp(1),
        0,
    );
    let b = PrincipalBinding::new(
        HumanPrincipal {
            issuer: "a".into(),
            subject: "bc".into(),
            email: None,
            groups: vec![],
        },
        fp(1),
        0,
    );
    assert_ne!(a.signing_payload(), b.signing_payload());
    let mut c = a.clone();
    c.issued_generation = 1;
    assert_ne!(a.signing_payload(), c.signing_payload());
}

#[test]
fn challenge_expiry_is_fail_closed_at_the_boundary() {
    let c = challenge("r1", Exec, "bash", DangerTier::High, fp(2), 100);
    assert!(!c.is_expired(99), "before the deadline: live");
    assert!(c.is_expired(100), "AT the deadline: expired (fail-closed)");
    assert!(c.is_expired(101), "after: expired");
}

#[test]
fn decision_binds_to_exactly_its_challenge() {
    let c = challenge("r1", Exec, "bash", DangerTier::High, fp(3), 100);
    let d = OperatorDecision::for_challenge(&c, DecisionVerdict::AllowOnce, a_human());
    assert!(d.answers(&c), "answers its own challenge");
    let mut tampered = c.clone();
    tampered.target = "rm".into();
    assert_eq!(tampered.request_id, c.request_id);
    assert!(
        !d.answers(&tampered),
        "digest mismatch ⇒ not answered (no lift)"
    );
    let other = challenge("r2", Exec, "bash", DangerTier::High, fp(3), 100);
    assert!(!d.answers(&other));
}

#[test]
fn decision_verdict_only_approve_durable_is_durable() {
    assert_eq!(
        ApproveDurable.durable_policy_verdict(),
        Some(Verdict::Approve)
    );
    assert!(ApproveDurable.is_durable());
    for ephemeral in [Deny, AllowOnce, AllowSession] {
        assert_eq!(
            ephemeral.durable_policy_verdict(),
            None,
            "{ephemeral:?} is ephemeral"
        );
        assert!(!ephemeral.is_durable());
    }
}

#[test]
fn step_up_owed_is_off_by_default_and_opt_in() {
    let c = challenge("r1", Net, "example.com", DangerTier::Medium, fp(4), 100);
    let d = OperatorDecision::for_challenge(&c, DecisionVerdict::AllowSession, a_human());
    assert!(!d.step_up_owed);
    assert!(d.requiring_step_up().step_up_owed);
}

fn key() -> (SigningKey, Ed25519ApproveVerifier) {
    let sk = SigningKey::from_bytes(&[7u8; 32]);
    let verifier = Ed25519ApproveVerifier {
        verifying_key: sk.verifying_key().to_bytes(),
    };
    (sk, verifier)
}

#[test]
fn principal_binding_sign_verify_roundtrip_rejects_tamper() {
    let (sk, verifier) = key();
    let human = HumanPrincipal {
        issuer: "https://idp.example".into(),
        subject: "sub-1".into(),
        email: None,
        groups: vec![],
    };
    let binding = PrincipalBinding::new(human, Fingerprint::of_bytes(&[9u8; 8]), 3);
    let sig = sk.sign(&binding.signing_payload()).to_bytes();
    let signed = binding.clone().signed(sig);
    assert!(
        signed.verify(&verifier).is_ok(),
        "genuine signature verifies"
    );

    assert!(
        binding.verify(&verifier).is_err(),
        "unsigned is fail-closed"
    );
    let mut tampered = signed.clone();
    tampered.issued_generation = 4;
    assert!(
        tampered.verify(&verifier).is_err(),
        "tampered generation rejected"
    );
    let mut tampered2 = signed;
    tampered2.mesh_agent_fingerprint = Fingerprint::of_bytes(&[1u8; 8]);
    assert!(
        tampered2.verify(&verifier).is_err(),
        "tampered agent rejected"
    );
}

#[test]
fn challenge_sign_verify_roundtrip_rejects_tamper() {
    let (sk, verifier) = key();
    let c = challenge(
        "req-1",
        Exec,
        "bash",
        DangerTier::High,
        Fingerprint::of_bytes(&[9u8; 8]),
        100,
    );
    let sig = sk.sign(&c.signing_payload()).to_bytes();
    let signed = c.signed(sig);
    assert!(signed.verify(&verifier).is_ok());
    let mut swapped = signed.clone();
    swapped.target = "rm".into();
    assert!(
        swapped.verify(&verifier).is_err(),
        "target substitution rejected"
    );
    let other = Ed25519ApproveVerifier {
        verifying_key: SigningKey::from_bytes(&[8u8; 32])
            .verifying_key()
            .to_bytes(),
    };
    assert!(signed.verify(&other).is_err(), "wrong signer rejected");
}

#[test]
fn payloads_are_exact() {
    let agent = Fingerprint([3u8; 32]);
    let mut expected = b"agent-bridle:operator:permission-challenge:v1".to_vec();
    for field in [&b"r"[..], b"git_write", b"repo", b"low", &agent.0] {
        expected.extend_from_slice(&(field.len() as u64).to_le_bytes());
        expected.extend_from_slice(field);
    }
    expected.extend_from_slice(&(-2i64).to_le_bytes());
    let c = challenge("r", GitWrite, "repo", DangerTier::Low, agent, -2);
    assert_eq!(c.signing_payload(), expected);
    assert_eq!(c.digest(), Fingerprint::of_bytes(&expected));

    let mut expected = b"agent-bridle:operator:principal-binding:v1".to_vec();
    for field in [&b"i"[..], b"s", &agent.0] {
        expected.extend_from_slice(&(field.len() as u64).to_le_bytes());
        expected.extend_from_slice(field);
    }
    expected.extend_from_slice(&5u64.to_le_bytes());
    let human = HumanPrincipal {
        issuer: "i".into(),
        subject: "s".into(),
        email: None,
        groups: vec!["g".into()],
    };
    assert_eq!(PrincipalBinding::new(human, agent, 5).signing_payload(), expected);
}

#[test]
fn a_challenge_without_a_signature_is_refused() {
    let (_, verifier) = key();
    let c = challenge("r", Exec, "x", DangerTier::Low, fp(1), 0);
    assert_eq!(c.verify(&verifier).unwrap_err(), "unsigned");
    let garbled = PermissionChallenge {
        sig: Some("0".into()),
        ..c
    };
    assert_eq!(
        garbled.verify(&verifier).unwrap_err(),
        "hex string has odd length"
    );
}

#[test]
fn every_part_of_a_challenge_is_in_its_digest() {
    let c = || challenge("r", Exec, "x", DangerTier::Low, fp(1), 7);
    let changed = [
        challenge("q", Exec, "x", DangerTier::Low, fp(1), 7),
        challenge("r", Net, "x", DangerTier::Low, fp(1), 7),
        challenge("r", Exec, "y", DangerTier::Low, fp(1), 7),
        challenge("r", Exec, "x", DangerTier::Medium, fp(1), 7),
        challenge("r", Exec, "x", DangerTier::Low, fp(2), 7),
        challenge("r", Exec, "x", DangerTier::Low, fp(1), 8),
    ];
    for other in changed {
        assert_ne!(c().digest(), other.digest());
    }
    assert_eq!(c().digest(), c().digest());
}

#[test]
fn fingerprints_are_blake3() {
    // The digest of no bytes.
    assert_eq!(
        agent_bridle_core::hex_encode(&Fingerprint::of_bytes(&[]).0),
        "af1349b9f5f9a1a6a0404dea36dcc9499bcb25c9adc112b7cc9a93cae41f3262"
    );
    assert!(fp(1).same(&fp(1)));
    assert!(!fp(1).same(&fp(2)));
}

#[test]
fn payloads_of_different_kinds_never_coincide() {
    let binding = PrincipalBinding::new(a_human(), fp(1), 0).signing_payload();
    let asked = challenge("r", Exec, "cargo", DangerTier::Low, fp(1), 0).signing_payload();
    let approvals = [
        ExecEntry {
            target: "cargo".into(),
            ..ExecEntry::default()
        }
        .signing_payload(),
        FsEntry {
            path: "cargo".into(),
            ..FsEntry::default()
        }
        .signing_payload(),
        NetEntry {
            host: "cargo".into(),
            ..NetEntry::default()
        }
        .signing_payload(),
    ];
    assert_ne!(binding, asked);
    for approval in approvals {
        assert!(approval.starts_with(b"agent-bridle:ocap-approve:v1\n"));
        assert_ne!(binding, approval);
        assert_ne!(asked, approval);
    }
}
