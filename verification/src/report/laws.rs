//! What each backend can honestly claim, and what a floor refuses: said for
//! every authority, by what the authority holds.

use vstd::prelude::*;

use crate::caveats::{Caveats, ScopeView};
use crate::report::{
    axis_shortfall, enforcement_report, fence_strength, unenforceable_axis,
    unenforceable_axis_in_report, AxisEnforcement, ConfinedAxis, ConfinementMechanism,
    EnforcementFloor, EnforcementReport, UnenforceableAxis,
};
use crate::sandbox::{ChildNetworkPolicy, ExecBoundary, SandboxKind};

verus! {

/// The net entry claims the kernel only where the mechanism fences egress:
/// never without a backend and never in a root tree, whatever the authority; by
/// Landlock only with direct sockets denied and no host granted; by Seatbelt and
/// AppContainer only where no host is granted, or exactly the loopback interface;
/// always without a network device. Anything less is advisory, and an
/// unrestricted axis has no entry.
pub proof fn law_net_is_fenced_only_by_what_fences_egress(
    effective: &Caveats,
    mechanism: ConfinementMechanism,
    r: EnforcementReport,
)
    requires
        call_ensures(enforcement_report, (effective, mechanism), r),
    ensures
        effective@.net is All <==> r.net is None,
        r.net is Some ==> r.net->0 is Kernel || r.net->0 is Advisory,
        effective@.net matches ScopeView::Only(hosts) ==> (r.net == Some(AxisEnforcement::Kernel)
            <==> {
            let none = forall|h: Seq<char>| !#[trigger] hosts.contains(h);
            let loopback = (forall|h: Seq<char>| #[trigger]
                hosts.contains(h) ==> h == "localhost"@ || h == "127.0.0.1"@ || h == "::1"@) && (
            hosts.contains("localhost"@) || (hosts.contains("127.0.0.1"@) && hosts.contains(
                "::1"@,
            )));
            match mechanism.spec_kind() {
                SandboxKind::Unconfined => false,
                SandboxKind::MinimalRootfs => false,
                SandboxKind::Landlock => none && mechanism.spec_child_network()
                    == ChildNetworkPolicy::DenyDirect,
                SandboxKind::Seatbelt => none || loopback,
                SandboxKind::AppContainer => none || loopback,
                SandboxKind::MicroVm => true,
            }
        }),
{
    if let ScopeView::Only(hosts) = effective@.net {
        let none = Set::<Seq<char>>::empty();
        if forall|h: Seq<char>| !#[trigger] hosts.contains(h) {
            assert(hosts =~= none);
        }
    }
}

/// The exec entry claims the kernel only where exactly the granted programs can
/// run: in a root tree and in a virtual machine; by Seatbelt unless the shell is
/// granted, which starts another program; by AppContainer only where no program
/// is granted. Anything less is gated in process, and an unrestricted axis has
/// no entry.
pub proof fn law_exec_is_exact_only_where_programs_are_confined(
    effective: &Caveats,
    mechanism: ConfinementMechanism,
    r: EnforcementReport,
)
    requires
        call_ensures(enforcement_report, (effective, mechanism), r),
    ensures
        effective@.exec is All <==> r.exec is None,
        r.exec is Some ==> r.exec->0 is Kernel || r.exec->0 is Interceptor,
        effective@.exec matches ScopeView::Only(programs) ==> (r.exec == Some(
            AxisEnforcement::Kernel,
        ) <==> (match mechanism.spec_kind() {
            SandboxKind::Unconfined => false,
            SandboxKind::Landlock => false,
            SandboxKind::MinimalRootfs => true,
            SandboxKind::MicroVm => true,
            SandboxKind::Seatbelt => !programs.contains("sh"@) && !programs.contains("/bin/sh"@),
            SandboxKind::AppContainer => forall|p: Seq<char>| !#[trigger] programs.contains(p),
        })),
{
    if let ScopeView::Only(programs) = effective@.exec {
        if forall|p: Seq<char>| !#[trigger] programs.contains(p) {
            assert(programs =~= Set::<Seq<char>>::empty());
        }
    }
}

/// Every backend enforces the restricted filesystem axes in the kernel; without
/// one they are gated in process. An unrestricted axis has no entry.
pub proof fn law_every_backend_fences_the_filesystem(
    effective: &Caveats,
    mechanism: ConfinementMechanism,
    r: EnforcementReport,
)
    requires
        call_ensures(enforcement_report, (effective, mechanism), r),
    ensures
        effective@.fs_read is All <==> r.fs_read is None,
        effective@.fs_write is All <==> r.fs_write is None,
        r.fs_read is Some ==> (r.fs_read->0 == AxisEnforcement::Kernel <==> mechanism.spec_kind()
            != SandboxKind::Unconfined),
        r.fs_write is Some ==> (r.fs_write->0 == AxisEnforcement::Kernel <==> mechanism.spec_kind()
            != SandboxKind::Unconfined),
        r.fs_read is Some && mechanism.spec_kind() == SandboxKind::Unconfined ==> r.fs_read->0
            == AxisEnforcement::Interceptor,
        r.fs_write is Some && mechanism.spec_kind() == SandboxKind::Unconfined ==> r.fs_write->0
            == AxisEnforcement::Interceptor,
{
}

/// A mechanism is what it was made as: the backend, its child-network policy
/// (the weaker one where none is named), and the exec boundary (the granted
/// programs where none is named).
pub proof fn law_a_mechanism_is_what_it_was_made_as(
    kind: SandboxKind,
    child_network: ChildNetworkPolicy,
    boundary: ExecBoundary,
    made: ConfinementMechanism,
    bare: ConfinementMechanism,
    bound: ConfinementMechanism,
)
    requires
        call_ensures(ConfinementMechanism::new, (kind, child_network), made),
        call_ensures(ConfinementMechanism::backend, (kind,), bare),
        call_ensures(ConfinementMechanism::with_exec_boundary, (made, boundary), bound),
    ensures
        made.spec_kind() == kind && made.spec_child_network() == child_network,
        made.spec_exec_boundary() == ExecBoundary::GrantedPrograms,
        bare.spec_kind() == kind && bare.spec_child_network() == ChildNetworkPolicy::LandlockOnly,
        bare.spec_exec_boundary() == ExecBoundary::GrantedPrograms,
        bound.spec_kind() == kind && bound.spec_child_network() == child_network
            && bound.spec_exec_boundary() == boundary,
{
}

/// Strengths are ordered: everything reaches the advisory one, only the kernel
/// reaches the kernel, and each reaches itself.
pub proof fn law_strengths_are_ordered(a: AxisEnforcement, b: AxisEnforcement, r: bool)
    requires
        call_ensures(AxisEnforcement::meets, (a, b), r),
    ensures
        r <==> b == AxisEnforcement::Advisory || a == AxisEnforcement::Kernel || a == b,
{
}

/// A floor refuses exactly the restricted axes that have no entry or one that
/// does not reach it, and names the first of them in the order reads, writes,
/// net, exec, with what was required and what was delivered.
pub proof fn law_a_floor_names_the_first_axis_that_falls_short(
    effective: &Caveats,
    report: &EnforcementReport,
    floor: EnforcementFloor,
    r: Option<UnenforceableAxis>,
)
    requires
        call_ensures(unenforceable_axis_in_report, (effective, report, floor), r),
    ensures
        ({
            let c = effective@;
            let f = floor@;
            let ok = |delivered: Option<AxisEnforcement>, required: AxisEnforcement|
                delivered is Some && (required == AxisEnforcement::Advisory || delivered->0
                    == AxisEnforcement::Kernel || delivered->0 == required);
            if c.fs_read is Only && !ok(report.fs_read, f.fs_read) {
                r == Some(
                    UnenforceableAxis {
                        axis: ConfinedAxis::FsRead,
                        required: f.fs_read,
                        actual: report.fs_read,
                    },
                )
            } else if c.fs_write is Only && !ok(report.fs_write, f.fs_write) {
                r == Some(
                    UnenforceableAxis {
                        axis: ConfinedAxis::FsWrite,
                        required: f.fs_write,
                        actual: report.fs_write,
                    },
                )
            } else if c.net is Only && !ok(report.net, f.net) {
                r == Some(
                    UnenforceableAxis {
                        axis: ConfinedAxis::Net,
                        required: f.net,
                        actual: report.net,
                    },
                )
            } else if c.exec is Only && !ok(report.exec, f.exec) {
                r == Some(
                    UnenforceableAxis {
                        axis: ConfinedAxis::Exec,
                        required: f.exec,
                        actual: report.exec,
                    },
                )
            } else {
                r is None
            }
        }),
{
}

/// A mechanism is judged by its own report.
pub proof fn law_a_mechanism_is_judged_by_its_report(
    effective: &Caveats,
    mechanism: ConfinementMechanism,
    floor: EnforcementFloor,
    report: EnforcementReport,
    r: Option<UnenforceableAxis>,
    s: Option<UnenforceableAxis>,
)
    requires
        call_ensures(enforcement_report, (effective, mechanism), report),
        call_ensures(unenforceable_axis_in_report, (effective, &report, floor), r),
        call_ensures(unenforceable_axis, (effective, mechanism, floor), s),
    ensures
        r == s,
{
}

/// What each floor requires: the kernel on the filesystem always; a confined
/// executor besides the kernel on the net and the interceptor on exec; the
/// default nothing more; a scalar itself on both; and a join the stronger of
/// the two on each axis.
pub proof fn law_floors_require_what_they_say(
    scalar: AxisEnforcement,
    confined: EnforcementFloor,
    lax: EnforcementFloor,
    even: EnforcementFloor,
    other: EnforcementFloor,
    both: EnforcementFloor,
)
    requires
        call_ensures(EnforcementFloor::confined, (), confined),
        call_ensures(EnforcementFloor::new, (AxisEnforcement::Advisory, AxisEnforcement::Advisory), lax),
        call_ensures(EnforcementFloor::from_scalar, (scalar,), even),
        call_ensures(EnforcementFloor::join, (even, other), both),
    ensures
        confined@.fs_read == AxisEnforcement::Kernel && confined@.fs_write
            == AxisEnforcement::Kernel,
        confined@.net == AxisEnforcement::Kernel && confined@.exec == AxisEnforcement::Interceptor,
        lax@.fs_read == AxisEnforcement::Kernel && lax@.fs_write == AxisEnforcement::Kernel,
        lax@.net == AxisEnforcement::Advisory && lax@.exec == AxisEnforcement::Advisory,
        even@.fs_read == AxisEnforcement::Kernel && even@.fs_write == AxisEnforcement::Kernel,
        even@.net == scalar && even@.exec == scalar,
        both@.net == scalar || both@.net == other@.net,
        both@.net == AxisEnforcement::Kernel <==> scalar == AxisEnforcement::Kernel || other@.net
            == AxisEnforcement::Kernel,
        both@.net == AxisEnforcement::Advisory <==> scalar == AxisEnforcement::Advisory
            && other@.net == AxisEnforcement::Advisory,
        both@.exec == scalar || both@.exec == other@.exec,
        both@.exec == AxisEnforcement::Kernel <==> scalar == AxisEnforcement::Kernel || other@.exec
            == AxisEnforcement::Kernel,
        both@.exec == AxisEnforcement::Advisory <==> scalar == AxisEnforcement::Advisory
            && other@.exec == AxisEnforcement::Advisory,
        both@.fs_read == AxisEnforcement::Kernel && both@.fs_write == AxisEnforcement::Kernel,
{
}

/// A fence is as strong as its weakest entry: advisory where one is advisory,
/// the kernel where all are, nothing where there is none.
pub proof fn law_a_fence_is_as_strong_as_its_weakest_entry(
    report: &EnforcementReport,
    r: Option<AxisEnforcement>,
)
    requires
        call_ensures(fence_strength, (report,), r),
    ensures
        r is None <==> report.fs_read is None && report.fs_write is None && report.exec is None
            && report.net is None,
        r == Some(AxisEnforcement::Advisory) <==> report.fs_read == Some(
            AxisEnforcement::Advisory,
        ) || report.fs_write == Some(AxisEnforcement::Advisory) || report.exec == Some(
            AxisEnforcement::Advisory,
        ) || report.net == Some(AxisEnforcement::Advisory),
        r == Some(AxisEnforcement::Kernel) <==> r is Some && (report.fs_read is None
            || report.fs_read->0 is Kernel) && (report.fs_write is None || report.fs_write->0
            is Kernel) && (report.exec is None || report.exec->0 is Kernel) && (report.net is None
            || report.net->0 is Kernel),
{
}

/// Each axis has its own restriction, its own entry and its own requirement. It
/// falls short exactly where it is restricted and its entry is missing or does
/// not reach what is required, and the shortfall names just that.
pub proof fn law_an_axis_is_judged_by_what_is_its_own(
    axis: ConfinedAxis,
    effective: &Caveats,
    report: &EnforcementReport,
    floor: EnforcementFloor,
    restricted: bool,
    witness: Option<AxisEnforcement>,
    required: AxisEnforcement,
    r: Option<UnenforceableAxis>,
    rank: u8,
    other: AxisEnforcement,
    other_rank: u8,
    reaches: bool,
)
    requires
        call_ensures(ConfinedAxis::restricted_in, (axis, effective), restricted),
        call_ensures(ConfinedAxis::witness_in, (axis, report), witness),
        call_ensures(EnforcementFloor::requirement, (&floor, axis), required),
        call_ensures(axis_shortfall, (effective, report, axis, required), r),
        call_ensures(AxisEnforcement::rank, (required,), rank),
        call_ensures(AxisEnforcement::rank, (other,), other_rank),
        call_ensures(AxisEnforcement::meets, (required, other), reaches),
    ensures
        axis is FsRead ==> restricted == (effective@.fs_read is Only) && witness == report.fs_read
            && required == floor@.fs_read,
        axis is FsWrite ==> restricted == (effective@.fs_write is Only) && witness
            == report.fs_write && required == floor@.fs_write,
        axis is Exec ==> restricted == (effective@.exec is Only) && witness == report.exec
            && required == floor@.exec,
        axis is Net ==> restricted == (effective@.net is Only) && witness == report.net
            && required == floor@.net,
        r is Some <==> restricted && (witness is None || !(required == AxisEnforcement::Advisory
            || witness->0 == AxisEnforcement::Kernel || witness->0 == required)),
        r is Some ==> r->0.axis == axis && r->0.required == required && r->0.actual == witness,
        reaches <==> rank >= other_rank,
{
}

/// The names of strengths, axes and backends tell them apart.
pub proof fn law_names_tell_apart(
    a: AxisEnforcement,
    b: AxisEnforcement,
    x: ConfinedAxis,
    y: ConfinedAxis,
    k: SandboxKind,
    l: SandboxKind,
    names: (&'static str, &'static str, &'static str, &'static str, &'static str, &'static str),
)
    requires
        call_ensures(AxisEnforcement::name, (&a,), names.0),
        call_ensures(AxisEnforcement::name, (&b,), names.1),
        call_ensures(ConfinedAxis::name, (&x,), names.2),
        call_ensures(ConfinedAxis::name, (&y,), names.3),
        call_ensures(SandboxKind::name, (&k,), names.4),
        call_ensures(SandboxKind::name, (&l,), names.5),
    ensures
        names.0@ == names.1@ <==> a == b,
        names.2@ == names.3@ <==> x == y,
        names.4@ == names.5@ <==> k == l,
{
    reveal_strlit("Advisory");
    reveal_strlit("Interceptor");
    reveal_strlit("Kernel");
    assert("Advisory"@.len() == 8 && "Interceptor"@.len() == 11 && "Kernel"@.len() == 6);
    reveal_strlit("FsRead");
    reveal_strlit("FsWrite");
    reveal_strlit("Net");
    reveal_strlit("Exec");
    assert("FsRead"@.len() == 6 && "FsWrite"@.len() == 7 && "Net"@.len() == 3 && "Exec"@.len() == 4);
    reveal_strlit("None");
    reveal_strlit("Landlock");
    reveal_strlit("Seatbelt");
    reveal_strlit("MinimalRootfs");
    reveal_strlit("MicroVm");
    reveal_strlit("AppContainer");
    assert("None"@.len() == 4 && "MinimalRootfs"@.len() == 13 && "MicroVm"@.len() == 7
        && "AppContainer"@.len() == 12);
    assert("Landlock"@[0] == 'L' && "Seatbelt"@[0] == 'S' && "Landlock"@.len() == 8
        && "Seatbelt"@.len() == 8);
}

/// The words of a shortfall begin with the axis, name what was required behind
/// it, and end with what was delivered where anything was.
pub proof fn law_a_shortfall_is_put_in_words(
    shortfall: &UnenforceableAxis,
    r: String,
    axis: &'static str,
    required: &'static str,
    delivered: &AxisEnforcement,
    actual: &'static str,
)
    requires
        call_ensures(UnenforceableAxis::message, (shortfall,), r),
        call_ensures(ConfinedAxis::name, (&shortfall.axis,), axis),
        call_ensures(AxisEnforcement::name, (&shortfall.required,), required),
        call_ensures(AxisEnforcement::name, (delivered,), actual),
        shortfall.actual is Some ==> shortfall.actual->0 == *delivered,
    ensures
        exists|middle: Seq<char>, rest: Seq<char>|
            r@ == #[trigger] (axis@ + middle + required@ + rest),
        shortfall.actual is Some ==> exists|front: Seq<char>| r@ == #[trigger] (front + actual@),
{
    let middle = " axis requires "@;
    let front = axis@ + middle + required@;
    if shortfall.actual is Some {
        let rest = " but the governing backend delivers only "@ + actual@;
        assert(r@ =~= front + rest);
        assert(r@ == axis@ + middle + required@ + rest);
        let ahead = front + " but the governing backend delivers only "@;
        assert(r@ == ahead + actual@);
    } else {
        let rest = " but the governing backend produced no enforcement witness"@;
        assert(r@ == axis@ + middle + required@ + rest);
    }
}

} // verus!
