//! What a tool call reports.

use agent_bridle_core::{
    enforcement_report, AxisEnforcement, Caveats, ConfinementMechanism, Denial, DenialKind,
    Disclosure, SandboxKind, Scope, ToolEnvelope,
};

fn writing() -> Caveats {
    Caveats {
        fs_write: Scope::only(vec!["/w".to_string()]),
        ..Caveats::top()
    }
}

#[test]
fn omits_absent_fields_keeps_sandbox_kind() {
    let v = ToolEnvelope::new(SandboxKind::Unconfined)
        .with_exit_code(0)
        .with_stdout("hi\n".to_string());
    assert_eq!(v.exit_code, Some(0));
    assert_eq!(v.stdout, Some("hi\n".to_string()));
    assert!(v.stderr.is_none());
    assert!(v.timed_out.is_none());
    assert_eq!(v.sandbox_kind, SandboxKind::Unconfined);
}

#[test]
fn no_denials_omits_denied_and_denials() {
    let v = ToolEnvelope::new(SandboxKind::Unconfined)
        .with_exit_code(0)
        .with_denials(Vec::new());
    assert!(!v.denied, "denied must be omitted: {v:?}");
    assert!(v.denials.is_empty(), "denials must be omitted: {v:?}");
}

#[test]
fn recorded_denials_set_denied_true_and_list() {
    let denials = vec![Denial {
        kind: DenialKind::Exec,
        target: "rm".to_string(),
        reason: "exec of \"rm\" is not within the granted authority".to_string(),
    }];
    let v = ToolEnvelope::new(SandboxKind::Unconfined)
        .with_exit_code(126)
        .with_denials(denials);
    assert!(v.denied);
    assert_eq!(v.denials[0].kind.name(), "exec");
    assert_eq!(v.denials[0].target, "rm");
    assert!(v.denials[0].reason.contains("not within the granted"));
}

#[test]
fn enforcement_report_is_threaded_and_omitted_when_empty() {
    let report = enforcement_report(
        &writing(),
        ConfinementMechanism::backend(SandboxKind::Landlock),
    );
    assert_eq!(report.fs_write, Some(AxisEnforcement::Kernel));
    let v = ToolEnvelope::new(SandboxKind::Landlock)
        .with_enforcement(report)
        .with_exit_code(0);
    assert_eq!(v.enforcement.fs_write, Some(AxisEnforcement::Kernel));
    assert!(v.enforcement.exec.is_none(), "unrestricted axis omitted");

    let empty = enforcement_report(
        &Caveats::top(),
        ConfinementMechanism::backend(SandboxKind::Unconfined),
    );
    let v2 = ToolEnvelope::new(SandboxKind::Unconfined).with_enforcement(empty);
    assert!(v2.enforcement.is_empty(), "empty report omitted: {v2:?}");
}

#[test]
fn disclosure_is_quiet_by_default_and_omitted() {
    let v = ToolEnvelope::new(SandboxKind::Landlock).with_exit_code(0);
    assert!(
        v.disclosure.is_quiet(),
        "a quiet disclosure must be omitted: {v:?}"
    );
    assert!(Disclosure::default().is_quiet());
}

#[test]
fn unbridled_disclosure_always_surfaces() {
    let v = ToolEnvelope::new(SandboxKind::Unconfined).with_disclosure(Disclosure {
        unbridled: true,
        ..Disclosure::default()
    });
    assert!(
        v.disclosure.unbridled && !v.disclosure.is_quiet(),
        "an unbridled run must never be quietly hidden: {v:?}"
    );
}

#[test]
fn disclosure_fields_surface_when_set() {
    let v = ToolEnvelope::new(SandboxKind::Seatbelt).with_disclosure(Disclosure {
        normalizations_disabled: vec!["ldd_closure".to_string()],
        net_over_delivery: true,
        backend_forced: Some("seatbelt".to_string()),
        ..Disclosure::default()
    });
    assert!(!v.disclosure.is_quiet());
    assert_eq!(v.disclosure.normalizations_disabled[0], "ldd_closure");
    assert!(v.disclosure.net_over_delivery);
    assert_eq!(v.disclosure.backend_forced, Some("seatbelt".to_string()));
    assert!(!v.disclosure.unbridled);
}

#[test]
fn disclosure_never_affects_the_enforcement_claim() {
    let report = enforcement_report(
        &writing(),
        ConfinementMechanism::backend(SandboxKind::Landlock),
    );
    let bare = ToolEnvelope::new(SandboxKind::Landlock).with_enforcement(report);
    let disclosed = ToolEnvelope::new(SandboxKind::Landlock)
        .with_enforcement(report)
        .with_disclosure(Disclosure {
            unbridled: true,
            net_over_delivery: true,
            ..Disclosure::default()
        });
    assert_eq!(bare.sandbox_kind, disclosed.sandbox_kind);
    assert_eq!(bare.enforcement, disclosed.enforcement);
}

#[test]
fn denial_kind_serializes_snake_case() {
    assert_eq!(DenialKind::Exec.name(), "exec");
    assert_eq!(DenialKind::Open.name(), "open");
}

#[test]
fn each_part_of_an_envelope_stands_for_itself() {
    let v = ToolEnvelope::new(SandboxKind::MicroVm)
        .with_stderr("oops".to_string())
        .with_timed_out(true)
        .with_truncation(true, false);
    assert_eq!(v.stderr, Some("oops".to_string()));
    assert_eq!(v.timed_out, Some(true));
    assert!(v.stdout_truncated && !v.stderr_truncated);
    assert_eq!(v.exit_code, None);
    assert!(v.execution.is_none() && v.execution_started.is_none());
}
