use agent_bridle_core::{
    axis_shortfall, fence_strength, unenforceable_axis_in_report, AxisEnforcement, Caveats,
    ChildNetworkPolicy, ConfinedAxis, ConfinementMechanism, CountBound, EnforcementFloor,
    EnforcementReport, ExecBoundary, SandboxKind, Scope, UnenforceableAxis,
};
use agent_bridle_core::AxisEnforcement::{Advisory, Interceptor, Kernel};
use agent_bridle_core::ChildNetworkPolicy::{DenyDirect, LandlockOnly};

fn only(items: &[&str]) -> Scope<String> {
    Scope::only(items.iter().map(|s| s.to_string()).collect())
}

/// A mechanism, or the plain backend of a kind.
trait Mechanism: Copy {
    fn mechanism(self) -> ConfinementMechanism;
}

impl Mechanism for ConfinementMechanism {
    fn mechanism(self) -> ConfinementMechanism {
        self
    }
}

impl Mechanism for SandboxKind {
    fn mechanism(self) -> ConfinementMechanism {
        ConfinementMechanism::backend(self)
    }
}

fn enforcement_report<M: Mechanism>(caveats: &Caveats, mechanism: M) -> EnforcementReport {
    agent_bridle_core::enforcement_report(caveats, mechanism.mechanism())
}

fn unenforceable_axis<M: Mechanism>(
    caveats: &Caveats,
    mechanism: M,
    floor: EnforcementFloor,
) -> Option<UnenforceableAxis> {
    agent_bridle_core::unenforceable_axis(caveats, mechanism.mechanism(), floor)
}


fn fully_restricted() -> Caveats {
    Caveats {
        fs_read: only(&["/r"]),
        fs_write: only(&["/w"]),
        exec: only(&["echo"]),
        net: only(&["example.com"]),
        max_calls: CountBound::Unlimited,
        valid_for_generation: Scope::All,
    }
}

#[test]
fn landlock_marks_fs_kernel_exec_interceptor_net_advisory() {
    let r = enforcement_report(&fully_restricted(), SandboxKind::Landlock);
    assert_eq!(r.fs_read, Some(AxisEnforcement::Kernel));
    assert_eq!(r.fs_write, Some(AxisEnforcement::Kernel));
    assert_eq!(r.exec, Some(AxisEnforcement::Interceptor));
    assert_eq!(r.net, Some(AxisEnforcement::Advisory));
}

#[test]
fn landlock_net_none_is_kernel_only_under_deny_direct() {
    let net_denied = Caveats {
        net: Scope::none(),
        ..Caveats::top()
    };
    for mech in [
        ConfinementMechanism::new(SandboxKind::Landlock, ChildNetworkPolicy::LandlockOnly),
        ConfinementMechanism::backend(SandboxKind::Landlock),
    ] {
        assert_eq!(
            enforcement_report(&net_denied, mech).net,
            Some(AxisEnforcement::Advisory),
            "TCP-only Landlock net rule must not be reported as a complete Kernel witness",
        );
    }
    assert_eq!(
        enforcement_report(&net_denied, SandboxKind::Landlock).net,
        Some(AxisEnforcement::Advisory),
        "a bare SandboxKind must use the conservative (LandlockOnly) mechanism",
    );
    assert_eq!(
        enforcement_report(
            &net_denied,
            ConfinementMechanism::new(SandboxKind::Landlock, ChildNetworkPolicy::DenyDirect)
        )
        .net,
        Some(AxisEnforcement::Kernel),
        "DenyDirect closes the UDP/DNS/raw leg, so net:none is a Kernel egress deny",
    );
    let r = enforcement_report(&net_denied, SandboxKind::Landlock);
    assert_eq!(r.fs_read, None);
    assert_eq!(r.fs_write, None);
    assert_eq!(r.exec, None);
}

#[test]
fn net_witness_is_mechanism_aware_across_backends() {
    let none = || Caveats {
        net: Scope::none(),
        ..Caveats::top()
    };
    let loopback_full = || Caveats {
        net: only(&["localhost"]),
        ..Caveats::top()
    };
    let loopback_v4_only = || Caveats {
        net: only(&["127.0.0.1"]),
        ..Caveats::top()
    };
    let remote = || Caveats {
        net: only(&["example.com"]),
        ..Caveats::top()
    };
    let ll = |p| ConfinementMechanism::new(SandboxKind::Landlock, p);
    let sb = ConfinementMechanism::backend(SandboxKind::Seatbelt);
    let noop = ConfinementMechanism::backend(SandboxKind::Unconfined);

    let cases: &[(&str, Caveats, ConfinementMechanism, AxisEnforcement)] = &[
        (
            "landlock-only + net:none",
            none(),
            ll(LandlockOnly),
            Advisory,
        ),
        ("deny-direct + net:none", none(), ll(DenyDirect), Kernel),
        ("seatbelt + net:none", none(), sb, Kernel),
        (
            "seatbelt + loopback full interface",
            loopback_full(),
            sb,
            Kernel,
        ),
        (
            "seatbelt + loopback single addr (widens)",
            loopback_v4_only(),
            sb,
            Advisory,
        ),
        ("seatbelt + remote allowlist", remote(), sb, Advisory),
        ("noop + net:none", none(), noop, Advisory),
        ("noop + remote allowlist", remote(), noop, Advisory),
    ];
    for (label, caveats, mech, expected) in cases {
        assert_eq!(
            enforcement_report(caveats, *mech).net,
            Some(*expected),
            "{label}: net witness must match the mechanism's real capability",
        );
    }
}

#[test]
fn seatbelt_marks_fs_and_exec_kernel_net_advisory() {
    let r = enforcement_report(&fully_restricted(), SandboxKind::Seatbelt);
    assert_eq!(r.fs_read, Some(AxisEnforcement::Kernel));
    assert_eq!(r.fs_write, Some(AxisEnforcement::Kernel));
    assert_eq!(r.exec, Some(AxisEnforcement::Kernel));
    assert_eq!(r.net, Some(AxisEnforcement::Advisory));
}

#[test]
fn exec_is_kernel_under_seatbelt_interceptor_elsewhere() {
    let cav = Caveats {
        exec: only(&["git"]),
        ..Caveats::top()
    };
    assert_eq!(
        enforcement_report(&cav, SandboxKind::Seatbelt).exec,
        Some(AxisEnforcement::Kernel)
    );
    assert_eq!(
        enforcement_report(&cav, SandboxKind::Landlock).exec,
        Some(AxisEnforcement::Interceptor)
    );
    assert_eq!(
        enforcement_report(&cav, SandboxKind::Unconfined).exec,
        Some(AxisEnforcement::Interceptor)
    );
}

#[test]
fn minimal_rootfs_marks_fs_and_exec_kernel_net_advisory() {
    let r = enforcement_report(&fully_restricted(), SandboxKind::MinimalRootfs);
    assert_eq!(r.fs_read, Some(AxisEnforcement::Kernel));
    assert_eq!(r.fs_write, Some(AxisEnforcement::Kernel));
    assert_eq!(r.exec, Some(AxisEnforcement::Kernel));
    assert_eq!(r.net, Some(AxisEnforcement::Advisory));
}

#[test]
fn exec_is_kernel_under_minimal_rootfs_interceptor_under_landlock() {
    let cav = Caveats {
        exec: only(&["cat"]),
        ..Caveats::top()
    };
    assert_eq!(
        enforcement_report(&cav, SandboxKind::MinimalRootfs).exec,
        Some(AxisEnforcement::Kernel),
        "minimal-rootfs closes exec by identity ⇒ kernel"
    );
    assert_eq!(
        enforcement_report(&cav, SandboxKind::Landlock).exec,
        Some(AxisEnforcement::Interceptor),
        "a Landlock-only boundary run stays exec→interceptor (ADR 0011)"
    );
}

#[test]
fn micro_vm_marks_all_axes_kernel() {
    let r = enforcement_report(&fully_restricted(), SandboxKind::MicroVm);
    assert_eq!(r.fs_read, Some(AxisEnforcement::Kernel));
    assert_eq!(r.fs_write, Some(AxisEnforcement::Kernel));
    assert_eq!(r.exec, Some(AxisEnforcement::Kernel));
    assert_eq!(r.net, Some(AxisEnforcement::Kernel));
    assert_eq!(fence_strength(&r), Some(AxisEnforcement::Kernel));
}

#[test]
fn appcontainer_marks_fs_kernel_exec_interceptor_net_advisory_for_allowlist() {
    let r = enforcement_report(&fully_restricted(), SandboxKind::AppContainer);
    assert_eq!(r.fs_read, Some(AxisEnforcement::Kernel));
    assert_eq!(r.fs_write, Some(AxisEnforcement::Kernel));
    assert_eq!(r.exec, Some(AxisEnforcement::Interceptor));
    assert_eq!(r.net, Some(AxisEnforcement::Advisory));
}

#[test]
fn appcontainer_marks_net_kernel_for_deny_all() {
    let net_deny_all = Caveats {
        net: Scope::none(),
        ..Caveats::top()
    };
    let r = enforcement_report(&net_deny_all, SandboxKind::AppContainer);
    assert_eq!(r.net, Some(AxisEnforcement::Kernel));
    assert_eq!(r.fs_read, None);
    assert_eq!(r.fs_write, None);
    assert_eq!(r.exec, None);
}

#[test]
fn appcontainer_loopback_is_kernel_only_for_the_full_interface() {
    let full = |hosts: &[&str]| Caveats {
        net: only(hosts),
        ..Caveats::top()
    };
    for exact in [vec!["localhost"], vec!["127.0.0.1", "::1"]] {
        assert_eq!(
            enforcement_report(&full(&exact), SandboxKind::AppContainer).net,
            Some(AxisEnforcement::Kernel),
            "the full loopback interface {exact:?} is an exact Kernel witness"
        );
    }
    for widening in ["127.0.0.1", "::1"] {
        assert_eq!(
            enforcement_report(&full(&[widening]), SandboxKind::AppContainer).net,
            Some(AxisEnforcement::Advisory),
            "single-address loopback {widening} widens to the interface → not exact Kernel"
        );
    }
}

#[test]
fn appcontainer_marks_exec_kernel_for_deny_all() {
    let exec_deny_all = Caveats {
        exec: Scope::none(),
        ..Caveats::top()
    };
    let r = enforcement_report(&exec_deny_all, SandboxKind::AppContainer);
    assert_eq!(r.exec, Some(AxisEnforcement::Kernel));
    assert_eq!(r.fs_read, None);
    assert_eq!(r.fs_write, None);
    assert_eq!(r.net, None);
}

#[test]
fn appcontainer_exec_allowlist_stays_interceptor() {
    let exec_allowlist = Caveats {
        exec: only(&["echo"]),
        ..Caveats::top()
    };
    let r = enforcement_report(&exec_allowlist, SandboxKind::AppContainer);
    assert_eq!(r.exec, Some(AxisEnforcement::Interceptor));
}

#[test]
fn seatbelt_net_kernel_for_empty_and_loopback_advisory_for_remote_host() {
    let net_report = |net| {
        enforcement_report(
            &Caveats {
                net,
                ..Caveats::top()
            },
            SandboxKind::Seatbelt,
        )
        .net
    };

    assert_eq!(net_report(Scope::none()), Some(AxisEnforcement::Kernel));
    assert_eq!(
        net_report(only(&["localhost"])),
        Some(AxisEnforcement::Kernel),
        "the loopback interface token is an exact Kernel witness"
    );
    assert_eq!(
        net_report(only(&["127.0.0.1", "::1"])),
        Some(AxisEnforcement::Kernel),
        "naming both loopback addresses is the full interface → Kernel"
    );
    for widening in ["127.0.0.1", "::1"] {
        assert_eq!(
            net_report(only(&[widening])),
            Some(AxisEnforcement::Advisory),
            "single-address loopback {widening} widens to the interface → below Kernel"
        );
    }
    assert_eq!(
        net_report(only(&["example.com"])),
        Some(AxisEnforcement::Advisory)
    );
    assert_eq!(
        net_report(only(&["localhost", "example.com"])),
        Some(AxisEnforcement::Advisory)
    );
}

#[test]
fn single_address_loopback_cannot_be_admitted_under_confined() {
    let v4_only = Caveats {
        net: only(&["127.0.0.1"]),
        ..Caveats::top()
    };
    let unmet = unenforceable_axis(&v4_only, SandboxKind::Seatbelt, EnforcementFloor::confined())
        .expect("a single-address loopback caveat must refuse under CONFINED (kernel widens)");
    assert_eq!(unmet.axis, ConfinedAxis::Net);
    assert_eq!(unmet.required, AxisEnforcement::Kernel);
    assert_eq!(unmet.actual, Some(AxisEnforcement::Advisory));

    let full = Caveats {
        net: only(&["localhost"]),
        ..Caveats::top()
    };
    assert!(
        unenforceable_axis(&full, SandboxKind::Seatbelt, EnforcementFloor::confined()).is_none(),
        "the full loopback interface is an exact Kernel witness → admitted"
    );
}

#[test]
fn seatbelt_exec_is_interceptor_when_the_launcher_closure_widens() {
    let exec = |p: &str| Caveats {
        exec: only(&[p]),
        ..Caveats::top()
    };
    for widening in ["sh", "/bin/sh"] {
        assert_eq!(
            enforcement_report(&exec(widening), SandboxKind::Seatbelt).exec,
            Some(AxisEnforcement::Interceptor),
            "a granted {widening} pulls /bin/bash into the profile → not exact Kernel"
        );
    }
    assert_eq!(
        enforcement_report(&exec("echo"), SandboxKind::Seatbelt).exec,
        Some(AxisEnforcement::Kernel),
        "a no-variant allow-list is an exact identity witness → Kernel"
    );
    let deny_all = Caveats {
        exec: Scope::none(),
        ..Caveats::top()
    };
    assert_eq!(
        enforcement_report(&deny_all, SandboxKind::Seatbelt).exec,
        Some(AxisEnforcement::Kernel),
        "deny-all exec is exact → Kernel"
    );
    assert!(
        unenforceable_axis(
            &exec("sh"),
            SandboxKind::Seatbelt,
            EnforcementFloor::confined()
        )
        .is_none(),
        "Interceptor exec meets the CONFINED exec floor → admitted"
    );
}

#[test]
fn noop_host_never_reports_kernel() {
    let r = enforcement_report(&fully_restricted(), SandboxKind::Unconfined);
    assert_eq!(r.fs_read, Some(AxisEnforcement::Interceptor));
    assert_eq!(r.fs_write, Some(AxisEnforcement::Interceptor));
    assert_eq!(r.exec, Some(AxisEnforcement::Interceptor));
    assert_eq!(r.net, Some(AxisEnforcement::Advisory));
    for axis in [r.fs_read, r.fs_write, r.exec, r.net] {
        assert_ne!(
            axis,
            Some(AxisEnforcement::Kernel),
            "Noop must never claim kernel"
        );
    }
}

#[test]
fn unrestricted_axes_are_omitted() {
    let top = Caveats::top();
    let r = enforcement_report(&top, SandboxKind::Landlock);
    assert!(
        r.is_empty(),
        "all-`All` caveats produce an empty report: {r:?}"
    );
    assert_eq!(r.fs_write, None);
}

#[test]
fn only_restricted_axes_appear() {
    let caveats = Caveats {
        fs_write: only(&["/w"]),
        ..Caveats::top()
    };
    let r = enforcement_report(&caveats, SandboxKind::Landlock);
    assert_eq!(r.fs_write, Some(AxisEnforcement::Kernel));
    assert_eq!(r.fs_read, None);
    assert_eq!(r.exec, None);
    assert_eq!(r.net, None);
}


#[test]
fn axis_enforcement_orders_ascending_advisory_to_kernel() {
    assert!(Advisory < Interceptor);
    assert!(Interceptor < Kernel);
    assert!(
        Advisory < Kernel,
        "the fail-open footgun: Advisory must be < Kernel"
    );
    assert_eq!(
        [Interceptor, Kernel, Advisory].into_iter().max(),
        Some(Kernel)
    );
    assert_eq!(
        [Interceptor, Kernel, Advisory].into_iter().min(),
        Some(Advisory)
    );
}

#[test]
fn fence_strength_is_the_weakest_restricted_axis() {
    let r = enforcement_report(&fully_restricted(), SandboxKind::Landlock);
    assert_eq!(fence_strength(&r), Some(AxisEnforcement::Advisory));
}

#[test]
fn fence_strength_all_kernel_when_only_fs_restricted() {
    let caveats = Caveats {
        fs_read: only(&["/r"]),
        fs_write: only(&["/w"]),
        ..Caveats::top()
    };
    let r = enforcement_report(&caveats, SandboxKind::Landlock);
    assert_eq!(fence_strength(&r), Some(AxisEnforcement::Kernel));
}

#[test]
fn fence_strength_empty_report_is_none() {
    let r = enforcement_report(&Caveats::top(), SandboxKind::Landlock);
    assert!(r.is_empty());
    assert_eq!(fence_strength(&r), None);
}

#[test]
fn fence_strength_single_axis_no_backend() {
    let caveats = Caveats {
        fs_write: only(&["/w"]),
        ..Caveats::top()
    };
    let r = enforcement_report(&caveats, SandboxKind::Unconfined);
    assert_eq!(fence_strength(&r), Some(AxisEnforcement::Interceptor));
}

#[test]
fn exec_kernel_is_identity_not_interpreter_behavior() {
    let interp = Caveats {
        exec: only(&["python3"]),
        ..Caveats::top()
    };
    let r = enforcement_report(&interp, SandboxKind::Seatbelt);
    assert_eq!(
        r.exec,
        Some(AxisEnforcement::Kernel),
        "a granted non-launcher interpreter still earns exec→kernel (identity, not behavior)"
    );
    assert_eq!(r.fs_read, None);
    assert_eq!(r.fs_write, None);
    assert_eq!(r.net, None);
}


fn only_fs_write() -> Caveats {
    Caveats {
        fs_write: only(&["/w"]),
        ..Caveats::top()
    }
}
fn only_net_host() -> Caveats {
    Caveats {
        net: only(&["example.com"]),
        ..Caveats::top()
    }
}
fn only_net_deny_all() -> Caveats {
    Caveats {
        net: Scope::none(),
        ..Caveats::top()
    }
}
fn only_exec() -> Caveats {
    Caveats {
        exec: only(&["echo"]),
        ..Caveats::top()
    }
}

#[test]
fn restricted_fs_without_kernel_backend_refuses() {
    let unmet = unenforceable_axis(
        &only_fs_write(),
        SandboxKind::Unconfined,
        EnforcementFloor::confined(),
    );
    let unmet = unmet.expect("restricted fs at interceptor must be refused under CONFINED");
    assert_eq!(unmet.axis, ConfinedAxis::FsWrite);
    assert_eq!(unmet.required, AxisEnforcement::Kernel);
    assert_eq!(unmet.actual, Some(AxisEnforcement::Interceptor));
}

#[test]
fn restricted_net_without_kernel_backend_refuses() {
    let unmet = unenforceable_axis(
        &only_net_host(),
        SandboxKind::Unconfined,
        EnforcementFloor::confined(),
    )
    .expect("restricted net at advisory must be refused under CONFINED");
    assert_eq!(unmet.axis, ConfinedAxis::Net);
    assert_eq!(unmet.required, AxisEnforcement::Kernel);
    assert_eq!(unmet.actual, Some(AxisEnforcement::Advisory));
}

#[test]
fn restricted_exec_at_interceptor_is_admitted() {
    assert!(
        unenforceable_axis(&only_exec(), SandboxKind::Unconfined, EnforcementFloor::confined())
            .is_none(),
        "exec at interceptor meets the CONFINED exec floor (Interceptor)"
    );
    let scalar_kernel = EnforcementFloor::from_scalar(AxisEnforcement::Kernel);
    assert_eq!(
        unenforceable_axis(&only_exec(), SandboxKind::Unconfined, scalar_kernel)
            .expect("scalar Kernel wrongly rejects interceptor exec")
            .axis,
        ConfinedAxis::Exec,
    );
}

#[test]
fn unrestricted_axis_manufactures_no_requirement() {
    assert!(unenforceable_axis(
        &Caveats::top(),
        SandboxKind::Unconfined,
        EnforcementFloor::confined()
    )
    .is_none());
}

#[test]
fn one_axis_cannot_borrow_anothers_strength() {
    let caveats = Caveats {
        exec: only(&["sh"]),
        net: only(&["example.com"]),
        ..Caveats::top()
    };
    let unmet =
        unenforceable_axis(&caveats, SandboxKind::Unconfined, EnforcementFloor::confined()).unwrap();
    assert_eq!(
        unmet.axis,
        ConfinedAxis::Net,
        "net still fails though exec is satisfied"
    );
}

#[test]
fn backend_strong_on_fs_weak_on_net_cannot_satisfy_confined() {
    let caveats = Caveats {
        fs_write: only(&["/w"]),
        net: only(&["example.com"]),
        ..Caveats::top()
    };
    let unmet = unenforceable_axis(&caveats, SandboxKind::Landlock, EnforcementFloor::confined())
        .expect("Landlock cannot kernel-confine a remote-host net scope");
    assert_eq!(unmet.axis, ConfinedAxis::Net);
    assert_eq!(unmet.actual, Some(AxisEnforcement::Advisory));
}

#[test]
fn noop_backend_never_admits_a_restricted_kernel_axis() {
    assert!(unenforceable_axis(
        &only_fs_write(),
        SandboxKind::Unconfined,
        EnforcementFloor::confined()
    )
    .is_some());
}

#[test]
fn tightening_caveats_cannot_weaken_selection() {
    assert!(unenforceable_axis(
        &Caveats::top(),
        SandboxKind::Unconfined,
        EnforcementFloor::confined()
    )
    .is_none());
    assert!(
        unenforceable_axis(
            &only_fs_write(),
            SandboxKind::Unconfined,
            EnforcementFloor::confined()
        )
        .is_some(),
        "adding a restriction the backend can't enforce must not become admissible"
    );
}

#[test]
fn seatbelt_deny_all_net_is_a_kernel_witness() {
    assert_eq!(
        enforcement_report(&only_net_deny_all(), SandboxKind::Seatbelt).net,
        Some(AxisEnforcement::Kernel),
    );
    assert!(
        unenforceable_axis(
            &only_net_deny_all(),
            SandboxKind::Seatbelt,
            EnforcementFloor::confined()
        )
        .is_none(),
        "Seatbelt (deny network*) satisfies the CONFINED network Kernel floor"
    );
}

/// The shortfall of one axis against one requirement; the filesystem axes are
/// asked about directly, since no floor requires less than the kernel of them.
fn unmet_on<M: Mechanism>(
    caveats: &Caveats,
    mechanism: M,
    axis: ConfinedAxis,
    required: AxisEnforcement,
) -> Option<UnenforceableAxis> {
    let advisory = AxisEnforcement::Advisory;
    match axis {
        ConfinedAxis::FsRead | ConfinedAxis::FsWrite => {
            let report = enforcement_report(caveats, mechanism);
            axis_shortfall(caveats, &report, axis, required)
        }
        ConfinedAxis::Net => {
            unenforceable_axis(caveats, mechanism, EnforcementFloor::new(advisory, required))
        }
        ConfinedAxis::Exec => {
            unenforceable_axis(caveats, mechanism, EnforcementFloor::new(required, advisory))
        }
    }
}

#[test]
fn per_axis_refusal_iff_actual_below_required_matrix() {
    let strengths = [
        AxisEnforcement::Advisory,
        AxisEnforcement::Interceptor,
        AxisEnforcement::Kernel,
    ];
    let cases: &[(Caveats, SandboxKind, ConfinedAxis, AxisEnforcement)] = &[
        (
            only_fs_write(),
            SandboxKind::Unconfined,
            ConfinedAxis::FsWrite,
            AxisEnforcement::Interceptor,
        ),
        (
            only_fs_write(),
            SandboxKind::Landlock,
            ConfinedAxis::FsWrite,
            AxisEnforcement::Kernel,
        ),
        (
            only_net_host(),
            SandboxKind::Unconfined,
            ConfinedAxis::Net,
            AxisEnforcement::Advisory,
        ),
        (
            only_net_deny_all(),
            SandboxKind::Seatbelt,
            ConfinedAxis::Net,
            AxisEnforcement::Kernel,
        ),
        (
            only_exec(),
            SandboxKind::Unconfined,
            ConfinedAxis::Exec,
            AxisEnforcement::Interceptor,
        ),
        (
            only_exec(),
            SandboxKind::Seatbelt,
            ConfinedAxis::Exec,
            AxisEnforcement::Kernel,
        ),
    ];
    for (caveats, kind, axis, actual) in cases {
        let report = enforcement_report(caveats, *kind);
        let reported = report
            .fs_read
            .or(report.fs_write)
            .or(report.net)
            .or(report.exec);
        assert_eq!(
            reported,
            Some(*actual),
            "actual mismatch for {axis:?} under {kind:?}"
        );
        for &required in &strengths {
            let unmet = unmet_on(caveats, *kind, *axis, required);
            let should_refuse = *actual < required;
            assert_eq!(
                unmet.is_some(),
                should_refuse,
                "{axis:?} actual={actual:?} required={required:?}: refuse should be {should_refuse}"
            );
            if let Some(u) = unmet {
                assert_eq!(u.axis, *axis);
                assert_eq!(u.actual, Some(*actual));
                assert_eq!(u.required, required);
            }
        }
    }
}

#[test]
fn from_scalar_preserves_historic_semantics() {
    assert_eq!(
        EnforcementFloor::from_scalar(AxisEnforcement::Advisory),
        EnforcementFloor::default()
    );
    let k = EnforcementFloor::from_scalar(AxisEnforcement::Kernel);
    assert_eq!(k.fs_read(), AxisEnforcement::Kernel);
    assert_eq!(k.fs_write(), AxisEnforcement::Kernel);
    assert_eq!(k.net(), AxisEnforcement::Kernel);
    assert_eq!(k.exec(), AxisEnforcement::Kernel);
}





#[test]
fn every_public_floor_constructor_pins_filesystem_to_kernel() {
    for f in [
        EnforcementFloor::default(),
        EnforcementFloor::confined(),
        EnforcementFloor::from_scalar(AxisEnforcement::Advisory),
        EnforcementFloor::from_scalar(AxisEnforcement::Interceptor),
        EnforcementFloor::from_scalar(AxisEnforcement::Kernel),
    ] {
        assert_eq!(f.fs_read(), AxisEnforcement::Kernel);
        assert_eq!(f.fs_write(), AxisEnforcement::Kernel);
    }
}

#[test]
fn v0_8_newt_confined_contract_admits_only_with_required_mechanisms() {
    let contract = Caveats {
        fs_read: only(&["/ws"]),
        fs_write: only(&["/ws"]),
        net: Scope::none(),
        exec: only(&["echo"]),
        ..Caveats::top()
    };
    let floor = EnforcementFloor::confined();
    let admits = |m: ConfinementMechanism| unenforceable_axis(&contract, m, floor).is_none();
    let refuses_on = |m: ConfinementMechanism, axis: ConfinedAxis| {
        unenforceable_axis(&contract, m, floor).map(|u| u.axis) == Some(axis)
    };
    let ll = |p| ConfinementMechanism::new(SandboxKind::Landlock, p);

    assert!(
        admits(ll(DenyDirect)),
        "Landlock fs + DenyDirect net satisfies CONFINED"
    );
    assert!(
        refuses_on(ll(LandlockOnly), ConfinedAxis::Net),
        "LandlockOnly net:none is incomplete (UDP/DNS/raw ambient) → refuse on net"
    );

    assert!(admits(ConfinementMechanism::backend(SandboxKind::Seatbelt)));

    assert!(admits(ConfinementMechanism::backend(
        SandboxKind::AppContainer
    )));

    assert!(
        refuses_on(
            ConfinementMechanism::backend(SandboxKind::Unconfined),
            ConfinedAxis::FsRead
        ),
        "Noop cannot satisfy the CONFINED contract → fail-closed refusal"
    );

    let widened = Caveats {
        net: only(&["127.0.0.1"]),
        ..contract.clone()
    };
    assert_eq!(
        unenforceable_axis(&widened, SandboxKind::Seatbelt, floor).map(|u| u.axis),
        Some(ConfinedAxis::Net),
        "a single-address loopback widens the fence → not an exact witness → refuse"
    );
}

#[test]
fn restricted_axis_with_missing_report_witness_refuses() {
    let effective = only_fs_write();
    let report = EnforcementReport::default();
    let unmet = unenforceable_axis_in_report(&effective, &report, EnforcementFloor::confined())
        .expect("a restricted axis with no witness must refuse");
    assert_eq!(unmet.axis, ConfinedAxis::FsWrite);
    assert_eq!(unmet.required, AxisEnforcement::Kernel);
    assert_eq!(
        unmet.actual, None,
        "the refusal records the MISSING witness"
    );
    assert!(unmet.message().contains("no enforcement witness"));
}

#[test]
fn restricted_axis_witness_below_floor_refuses_with_actual() {
    let effective = only_fs_write();
    let report = EnforcementReport {
        fs_write: Some(AxisEnforcement::Interceptor),
        ..EnforcementReport::default()
    };
    let unmet = unenforceable_axis_in_report(&effective, &report, EnforcementFloor::confined())
        .expect("interceptor fs under a Kernel floor must refuse");
    assert_eq!(unmet.actual, Some(AxisEnforcement::Interceptor));
}

#[test]
fn fs_floor_cannot_be_satisfied_by_a_net_witness() {
    let effective = Caveats {
        fs_write: only(&["/w"]),
        net: Scope::none(),
        ..Caveats::top()
    };
    let report = EnforcementReport {
        fs_write: Some(AxisEnforcement::Interceptor),
        net: Some(AxisEnforcement::Kernel),
        ..EnforcementReport::default()
    };
    let unmet = unenforceable_axis_in_report(&effective, &report, EnforcementFloor::confined())
        .expect("fs below floor refuses even though net is Kernel");
    assert_eq!(
        unmet.axis,
        ConfinedAxis::FsWrite,
        "a net Kernel witness cannot satisfy fs"
    );
}

#[test]
fn raising_a_floor_never_turns_refusal_into_admission() {
    let effective = only_exec();
    assert!(unmet_on(
        &effective,
        SandboxKind::Unconfined,
        ConfinedAxis::Exec,
        AxisEnforcement::Interceptor
    )
    .is_none());
    assert!(
        unmet_on(
            &effective,
            SandboxKind::Unconfined,
            ConfinedAxis::Exec,
            AxisEnforcement::Kernel
        )
        .is_some(),
        "raising the exec floor to Kernel must refuse the interceptor witness"
    );
}

#[test]
fn unrestricting_an_axis_only_removes_obligations() {
    let restricted = only_net_host();
    assert!(
        unenforceable_axis(&restricted, SandboxKind::Unconfined, EnforcementFloor::confined())
            .is_some()
    );
    let unrestricted = Caveats::top();
    assert!(
        unenforceable_axis(&unrestricted, SandboxKind::Unconfined, EnforcementFloor::confined())
            .is_none()
    );
}

fn newt_confined_caveats() -> Caveats {
    Caveats {
        fs_read: only(&["/ws"]),
        fs_write: only(&["/ws"]),
        net: Scope::none(),
        exec: only(&["cargo", "sh"]),
        ..Caveats::top()
    }
}

#[test]
fn newt_contract_admits_only_when_the_backend_actually_satisfies_it() {
    let caveats = newt_confined_caveats();
    let floor = EnforcementFloor::confined();

    assert!(
        unenforceable_axis(&caveats, SandboxKind::Seatbelt, floor).is_none(),
        "Seatbelt supplies fs/net Kernel + exec≥Interceptor for this contract"
    );

    let report_landlock = enforcement_report(&caveats, SandboxKind::Landlock);
    let net_meets = report_landlock
        .net
        .is_some_and(|n| n >= AxisEnforcement::Kernel);
    let admitted = unenforceable_axis(&caveats, SandboxKind::Landlock, floor).is_none();
    assert_eq!(
        admitted, net_meets,
        "Landlock admits iff its net witness is Kernel"
    );

    let unmet = unenforceable_axis(&caveats, SandboxKind::Unconfined, floor)
        .expect("no kernel backend ⇒ refuse before spawn");
    assert_eq!(unmet.axis, ConfinedAxis::FsRead);
    assert!(
        unenforceable_axis(&caveats, SandboxKind::Unconfined, floor).is_some(),
        "replacing the backend with Noop cannot satisfy the Newt contract"
    );
}

#[test]
fn a_boundary_in_process_is_told_apart_from_a_jail() {
    let plain = ConfinementMechanism::new(SandboxKind::Landlock, ChildNetworkPolicy::DenyDirect);
    assert_eq!(plain.kind(), SandboxKind::Landlock);
    assert_eq!(plain.child_network(), ChildNetworkPolicy::DenyDirect);
    for boundary in [plain.exec_boundary(), ExecBoundary::NamedRoot] {
        assert_eq!(plain.with_exec_boundary(boundary).exec_boundary(), boundary);
    }
}

#[test]
fn join_takes_the_stronger_requirement_on_each_axis() {
    let a = EnforcementFloor::new(AxisEnforcement::Kernel, AxisEnforcement::Advisory);
    let b = EnforcementFloor::new(AxisEnforcement::Interceptor, AxisEnforcement::Kernel);
    let j = a.join(b);
    assert_eq!(j.exec(), AxisEnforcement::Kernel);
    assert_eq!(j.net(), AxisEnforcement::Kernel);
    assert_eq!(j, b.join(a));
    assert_eq!(j.requirement(ConfinedAxis::FsRead), AxisEnforcement::Kernel);
}

#[test]
fn a_shortfall_is_told_in_words() {
    let unmet = UnenforceableAxis {
        axis: ConfinedAxis::Net,
        required: AxisEnforcement::Kernel,
        actual: Some(AxisEnforcement::Advisory),
    };
    assert_eq!(
        unmet.message(),
        "Net axis requires Kernel but the governing backend delivers only Advisory"
    );
    assert_eq!(AxisEnforcement::Kernel.rank(), 2);
    assert!(!AxisEnforcement::Interceptor.meets(AxisEnforcement::Kernel));
}
