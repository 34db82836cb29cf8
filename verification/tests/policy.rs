use agent_bridle_core::{
    hex_encode, ApproveVerifier, CapabilityClass, Ed25519ApproveVerifier, ExecEntry, FsEntry,
    NetEntry, PolicyFile, PolicySet, Verdict, SIGNING_DOMAIN,
};
use agent_bridle_core::bytes::hex_decode;
use ed25519_dalek::{Signer, SigningKey};

fn exec(target: &str) -> ExecEntry {
    ExecEntry {
        target: target.into(),
        ..Default::default()
    }
}

fn net(host: &str) -> NetEntry {
    NetEntry {
        host: host.into(),
        ..Default::default()
    }
}

fn exec_file(target: &str) -> PolicyFile {
    PolicyFile {
        exec: vec![exec(target)],
        ..Default::default()
    }
}

fn net_file(host: &str) -> PolicyFile {
    PolicyFile {
        net: vec![net(host)],
        ..Default::default()
    }
}

fn set_with(verdict: Verdict, file: PolicyFile) -> PolicySet {
    let mut s = PolicySet::default();
    s.files.insert(verdict, file);
    s
}

#[test]
fn verdict_files_and_precedence_are_canonical() {
    assert_eq!(Verdict::Deny.filename(), "deny.toml");
    assert_eq!(Verdict::Approve.filename(), "approve.toml");
    assert!(Verdict::Deny.precedence() < Verdict::Passkey.precedence());
    assert!(Verdict::Passkey.precedence() < Verdict::Ask.precedence());
    assert!(Verdict::Ask.precedence() < Verdict::Approve.precedence());
}

#[test]
fn deny_shadows_approve_and_passkey_outranks_ask() {
    let mut s = PolicySet::default();
    s.files.insert(Verdict::Approve, exec_file("rm"));
    s.files.insert(Verdict::Deny, exec_file("rm"));
    assert_eq!(s.evaluate(CapabilityClass::Exec, "rm"), Some(Verdict::Deny));

    let mut s = PolicySet::default();
    s.files.insert(Verdict::Ask, net_file("api.example"));
    s.files.insert(Verdict::Passkey, net_file("api.example"));
    assert_eq!(
        s.evaluate(CapabilityClass::Net, "api.example"),
        Some(Verdict::Passkey)
    );
}

#[test]
fn no_match_falls_through_to_the_interactive_floor() {
    let s = set_with(Verdict::Approve, exec_file("cargo"));
    assert_eq!(s.evaluate(CapabilityClass::Exec, "python3"), None);
    assert_eq!(
        s.evaluate(CapabilityClass::Fs, "cargo"),
        None,
        "class-scoped"
    );
}

#[test]
fn high_danger_targets_are_never_durably_approvable() {
    let judge = |class: CapabilityClass, target: &str| {
        class == CapabilityClass::Exec && (target == "bash" || target == "python3")
    };
    assert!(PolicySet::validate_approve(CapabilityClass::Exec, "bash", judge).is_err());
    assert!(PolicySet::validate_approve(CapabilityClass::Exec, "cargo", judge).is_ok());
    assert!(PolicySet::validate_approve(CapabilityClass::Net, "bash", judge).is_ok());
}

#[test]
fn signing_payloads_are_canonical_and_authority_scoped() {
    let e = ExecEntry {
        target: "cargo".into(),
        note: Some("anything".into()),
        ..Default::default()
    };
    assert_eq!(
        e.signing_payload(),
        b"agent-bridle:ocap-approve:v1\nexec\ncargo"
    );
    let noteless = ExecEntry {
        target: "cargo".into(),
        ..Default::default()
    };
    assert_eq!(e.signing_payload(), noteless.signing_payload());

    let read = FsEntry {
        path: "/ws".into(),
        ..Default::default()
    };
    let write = FsEntry {
        path: "/ws".into(),
        write: true,
        ..Default::default()
    };
    assert_ne!(
        read.signing_payload(),
        write.signing_payload(),
        "write is authority-bearing"
    );
    let net = NetEntry {
        host: "cargo".into(),
        ..Default::default()
    };
    assert_ne!(noteless.signing_payload(), net.signing_payload());
}

struct SigEquals(&'static [u8]);
impl ApproveVerifier for SigEquals {
    fn verify(&self, _payload: &[u8], sig: &[u8]) -> Result<(), String> {
        if sig == self.0 {
            Ok(())
        } else {
            Err("bad signature".into())
        }
    }
}

#[test]
fn verified_approves_drops_unsigned_and_invalid_fail_closed() {
    let file = PolicyFile {
        exec: vec![
            ExecEntry {
                sig: Some("0a0b".into()),
                ..exec("cargo")
            },
            exec("git"),
        ],
        fs: vec![],
        net: vec![NetEntry {
            sig: Some("ff".into()),
            ..net("crates.io")
        }],
    };
    let (kept, warnings) = file.verified_approves(&SigEquals(&[0x0a, 0x0b]));
    assert_eq!(kept.exec.len(), 1, "only the valid-sig entry survives");
    assert_eq!(kept.exec[0].target, "cargo");
    assert!(kept.net.is_empty(), "bad sig dropped");
    assert_eq!(warnings.len(), 2, "{warnings:?}");
    assert!(warnings
        .iter()
        .any(|w| w.contains("git") && w.contains("unsigned")));
    assert!(warnings.iter().any(|w| w.contains("crates.io")));
    assert_eq!(kept.exec[0].sig, Some("0a0b".to_string()));
}

#[test]
fn hex_codec_round_trips_and_rejects_odd_length() {
    assert_eq!(hex_encode(&[0x00, 0xff, 0x1a]), "00ff1a");
    assert_eq!(hex_decode("00ff1a").unwrap(), vec![0x00, 0xff, 0x1a]);
    assert_eq!(hex_decode("00FF1A").unwrap(), vec![0x00, 0xff, 0x1a]);
    assert!(hex_decode("abc").is_err());
    assert!(hex_decode("zz").is_err());
}

#[test]
fn ed25519_sign_and_verify_roundtrip_rejects_tamper() {
    let sk = SigningKey::from_bytes(&[7u8; 32]);
    let verifier = Ed25519ApproveVerifier {
        verifying_key: sk.verifying_key().to_bytes(),
    };

    let mut entry = ExecEntry {
        target: "cargo".into(),
        ..Default::default()
    };
    entry.sig = Some(hex_encode(&sk.sign(&entry.signing_payload()).to_bytes()));

    let file = PolicyFile {
        exec: vec![entry.clone()],
        ..Default::default()
    };
    let (kept, warnings) = file.verified_approves(&verifier);
    assert_eq!(kept.exec.len(), 1);
    assert!(warnings.is_empty(), "{warnings:?}");

    let mut forged = entry.clone();
    forged.target = "rm".into();
    let file = PolicyFile {
        exec: vec![forged],
        ..Default::default()
    };
    let (kept, warnings) = file.verified_approves(&verifier);
    assert!(
        kept.exec.is_empty(),
        "replayed sig must not carry to a new target"
    );
    assert_eq!(warnings.len(), 1);

    let other = SigningKey::from_bytes(&[9u8; 32]);
    let mut foreign = ExecEntry {
        target: "cargo".into(),
        ..Default::default()
    };
    foreign.sig = Some(hex_encode(
        &other.sign(&foreign.signing_payload()).to_bytes(),
    ));
    let file = PolicyFile {
        exec: vec![foreign],
        ..Default::default()
    };
    let (kept, _) = file.verified_approves(&verifier);
    assert!(kept.exec.is_empty());
}

#[test]
fn every_reason_to_drop_an_entry_is_told() {
    let sk = SigningKey::from_bytes(&[7u8; 32]);
    let verifier = Ed25519ApproveVerifier {
        verifying_key: sk.verifying_key().to_bytes(),
    };
    let signed = |sig: &str| PolicyFile {
        fs: vec![FsEntry {
            path: "/ws".into(),
            sig: Some(sig.into()),
            ..Default::default()
        }],
        ..Default::default()
    };
    let warning = |file: &PolicyFile| file.verified_approves(&verifier).1;
    assert_eq!(
        warning(&signed("abc")),
        vec!["approve entry `/ws` dropped: hex string has odd length"]
    );
    assert_eq!(
        warning(&signed("zz")),
        vec!["approve entry `/ws` dropped: invalid digit found in string"]
    );
    assert_eq!(
        warning(&signed("00")),
        vec!["approve entry `/ws` dropped: signature is not 64 bytes"]
    );
    assert_eq!(
        warning(&exec_file("x")),
        vec!["approve entry `x` dropped: missing `sig` (unsigned approve)"]
    );
    // Bytes that are no key refuse everything, before the signature is looked at.
    let none = Ed25519ApproveVerifier {
        verifying_key: [2u8; 32],
    };
    let refused = none.verify(b"", &[0u8; 64]);
    assert!(refused.is_err());
    assert_eq!(none.verify(b"", &[]), refused);
}

#[test]
fn the_refusal_of_a_dangerous_target_is_told() {
    let refused = PolicySet::validate_approve(CapabilityClass::Exec, "sh", |_, _| true);
    assert_eq!(
        refused.unwrap_err(),
        "`sh` is a high-danger target and cannot be durably approved \
         (offer passkey step-up instead)"
    );
}

#[test]
fn the_payload_of_a_path_and_of_a_host_are_exact() {
    let path = FsEntry {
        path: "/ws".into(),
        write: true,
        ..Default::default()
    };
    assert_eq!(
        path.signing_payload(),
        format!("{SIGNING_DOMAIN}\nfs\n/ws\nwrite=true").into_bytes()
    );
    assert_eq!(
        net("crates.io").signing_payload(),
        b"agent-bridle:ocap-approve:v1\nnet\ncrates.io"
    );
}

#[test]
fn the_files_of_a_set_are_found_by_verdict() {
    let mut s = set_with(Verdict::Ask, exec_file("a"));
    assert!(s.files.get(Verdict::Deny).is_none());
    assert!(s.files.get(Verdict::Ask).unwrap().has_entry(CapabilityClass::Exec, "a"));
    s.files.insert(Verdict::Ask, exec_file("b"));
    assert_eq!(s.evaluate(CapabilityClass::Exec, "a"), None);
    assert_eq!(s.evaluate(CapabilityClass::Exec, "b"), Some(Verdict::Ask));
    let paths = set_with(
        Verdict::Deny,
        PolicyFile {
            fs: vec![FsEntry {
                path: "/p".into(),
                ..Default::default()
            }],
            ..Default::default()
        },
    );
    assert_eq!(paths.evaluate(CapabilityClass::Fs, "/p"), Some(Verdict::Deny));
}

#[test]
fn hex_reads_what_it_wrote_and_takes_a_sign() {
    let all: Vec<u8> = (0..=255).collect();
    assert_eq!(hex_decode(&hex_encode(&all)).unwrap(), all);
    assert_eq!(hex_decode("+f").unwrap_err(), "invalid digit found in string");
    assert!(hex_decode("f+").is_err());
    assert_eq!(hex_decode("").unwrap(), Vec::<u8>::new());
    assert!(hex_decode("-f").is_err());
    assert!(hex_decode("é").is_err());
}
