//! How strongly each restricted axis of an authority is enforced, and how
//! strongly it has to be.
//!
//! An [`EnforcementReport`] says what a confinement mechanism delivers on each
//! restricted axis; an [`EnforcementFloor`] says what a principal requires. An
//! axis that allows everything carries no obligation.

use vstd::prelude::*;
use vstd::string::*;

use crate::caveats::{Caveats, CaveatsView, ScopeView};
use crate::sandbox::{
    exec_fully_denied, exec_grant_pulls_launcher_variant, net_fully_denied,
    net_loopback_full_interface, ChildNetworkPolicy, ExecBoundary, SandboxKind,
};
use crate::sandbox::{exec_denies_all, exec_pulls_launcher, net_denies_all, net_is_loopback_interface};

pub mod laws;

verus! {

/// The confinement mechanism around a spawn: the backend and the configuration
/// that changes what the backend can truthfully enforce.
#[derive(Debug, Clone, Copy, PartialEq, Eq, Structural)]
pub struct ConfinementMechanism {
    kind: SandboxKind,
    child_network: ChildNetworkPolicy,
    exec_boundary: ExecBoundary,
}

impl ConfinementMechanism {
    /// The selected backend.
    pub closed spec fn spec_kind(self) -> SandboxKind {
        self.kind
    }

    /// The child-network policy.
    pub closed spec fn spec_child_network(self) -> ChildNetworkPolicy {
        self.child_network
    }

    /// What the exec witness speaks of.
    pub closed spec fn spec_exec_boundary(self) -> ExecBoundary {
        self.exec_boundary
    }

    /// The mechanism of a backend with a child-network policy.
    pub fn new(kind: SandboxKind, child_network: ChildNetworkPolicy) -> (r: Self)
        ensures
            r.spec_kind() == kind,
            r.spec_child_network() == child_network,
            r.spec_exec_boundary() == ExecBoundary::GrantedPrograms,
    {
        ConfinementMechanism { kind, child_network, exec_boundary: ExecBoundary::GrantedPrograms }
    }

    /// A backend with the weakest child-network policy, which never claims too
    /// much of the network axis.
    pub fn backend(kind: SandboxKind) -> (r: Self)
        ensures
            r.spec_kind() == kind,
            r.spec_child_network() == ChildNetworkPolicy::LandlockOnly,
            r.spec_exec_boundary() == ExecBoundary::GrantedPrograms,
    {
        ConfinementMechanism::new(kind, ChildNetworkPolicy::LandlockOnly)
    }

    /// The same mechanism with an explicit exec boundary.
    pub fn with_exec_boundary(self, exec_boundary: ExecBoundary) -> (r: Self)
        ensures
            r.spec_kind() == self.spec_kind(),
            r.spec_child_network() == self.spec_child_network(),
            r.spec_exec_boundary() == exec_boundary,
    {
        ConfinementMechanism {
            kind: self.kind,
            child_network: self.child_network,
            exec_boundary,
        }
    }

    /// The selected backend.
    pub fn kind(&self) -> (r: SandboxKind)
        ensures
            r == self.spec_kind(),
    {
        self.kind
    }

    /// The child-network policy.
    pub fn child_network(&self) -> (r: ChildNetworkPolicy)
        ensures
            r == self.spec_child_network(),
    {
        self.child_network
    }

    /// What the exec witness of the mechanism speaks of.
    pub fn exec_boundary(&self) -> (r: ExecBoundary)
        ensures
            r == self.spec_exec_boundary(),
    {
        self.exec_boundary
    }
}

/// How a restricted axis is enforced, weakest first.
#[derive(Debug, Clone, Copy, PartialEq, Eq, PartialOrd, Ord, Structural)]
pub enum AxisEnforcement {
    /// Checked at admission and ambient afterwards: nothing backs it up inside
    /// the child.
    Advisory,
    /// Gated in process where a program is started or a file opened; not
    /// inside a permitted child.
    Interceptor,
    /// Enforced by the operating system against the child's interior, and no
    /// wider than what was asked for. On the exec axis it speaks of which
    /// programs run, not of what a granted program does.
    Kernel,
}

/// The place of a strength in the ascending order.
pub open spec fn strength(e: AxisEnforcement) -> int {
    match e {
        AxisEnforcement::Advisory => 0,
        AxisEnforcement::Interceptor => 1,
        AxisEnforcement::Kernel => 2,
    }
}

/// The stronger of two requirements.
pub open spec fn stronger(a: AxisEnforcement, b: AxisEnforcement) -> AxisEnforcement {
    if strength(a) >= strength(b) {
        a
    } else {
        b
    }
}

/// The weaker of two strengths.
pub open spec fn weaker(a: AxisEnforcement, b: AxisEnforcement) -> AxisEnforcement {
    if strength(a) <= strength(b) {
        a
    } else {
        b
    }
}

impl AxisEnforcement {
    /// The rank in ascending strength: advisory 0, interceptor 1, kernel 2.
    pub fn rank(self) -> (r: u8)
        ensures
            r == strength(self),
    {
        match self {
            AxisEnforcement::Advisory => 0,
            AxisEnforcement::Interceptor => 1,
            AxisEnforcement::Kernel => 2,
        }
    }

    /// Whether this strength reaches `required`.
    pub fn meets(self, required: AxisEnforcement) -> (r: bool)
        ensures
            r == (strength(self) >= strength(required)),
    {
        self.rank() >= required.rank()
    }

    fn stronger_of(self, other: AxisEnforcement) -> (r: AxisEnforcement)
        ensures
            r == stronger(self, other),
    {
        if self.meets(other) {
            self
        } else {
            other
        }
    }

    /// The text that [`AxisEnforcement::name`] gives.
    pub open spec fn name_text(self) -> Seq<char> {
        match self {
            AxisEnforcement::Advisory => "Advisory"@,
            AxisEnforcement::Interceptor => "Interceptor"@,
            AxisEnforcement::Kernel => "Kernel"@,
        }
    }

    /// The name of the strength, as it stands in a refusal.
    pub fn name(&self) -> (r: &'static str)
        ensures
            r@ == self.name_text(),
    {
        match self {
            AxisEnforcement::Advisory => "Advisory",
            AxisEnforcement::Interceptor => "Interceptor",
            AxisEnforcement::Kernel => "Kernel",
        }
    }
}

/// What a mechanism delivers on each restricted axis; an unrestricted axis has
/// no entry.
#[derive(Debug, Clone, Copy, PartialEq, Eq, Structural)]
pub struct EnforcementReport {
    /// The `fs_read` axis, when restricted.
    pub fs_read: Option<AxisEnforcement>,
    /// The `fs_write` axis, when restricted.
    pub fs_write: Option<AxisEnforcement>,
    /// The `exec` axis, when restricted.
    pub exec exec: Option<AxisEnforcement>,
    /// The `net` axis, when restricted.
    pub net: Option<AxisEnforcement>,
}

impl Default for EnforcementReport {
    fn default() -> (r: Self)
        ensures
            r == (EnforcementReport { fs_read: None, fs_write: None, exec: None, net: None }),
    {
        EnforcementReport { fs_read: None, fs_write: None, exec: None, net: None }
    }
}

impl EnforcementReport {
    /// Whether no axis is restricted.
    pub fn is_empty(&self) -> (r: bool)
        ensures
            r == (self.fs_read is None && self.fs_write is None && self.exec is None
                && self.net is None),
    {
        self.fs_read.is_none() && self.fs_write.is_none() && self.exec.is_none()
            && self.net.is_none()
    }

    /// Whether both reports say the same of every axis.
    pub fn same(&self, other: &Self) -> (r: bool)
        ensures
            r == (*self == *other),
    {
        same_witness(self.fs_read, other.fs_read) && same_witness(self.fs_write, other.fs_write)
            && same_witness(self.exec, other.exec) && same_witness(self.net, other.net)
    }
}

fn same_witness(a: Option<AxisEnforcement>, b: Option<AxisEnforcement>) -> (r: bool)
    ensures
        r == (a == b),
{
    match (a, b) {
        (None, None) => true,
        (Some(x), Some(y)) => x == y,
        _ => false,
    }
}

/// What a backend delivers on a filesystem axis.
pub open spec fn fs_strength(kind: SandboxKind) -> AxisEnforcement {
    if kind == SandboxKind::Unconfined {
        AxisEnforcement::Interceptor
    } else {
        AxisEnforcement::Kernel
    }
}

/// What a backend delivers on the exec axis of `c`: the exact identity of the
/// programs that run, or only the in-process gate.
pub open spec fn exec_strength(c: CaveatsView, kind: SandboxKind) -> AxisEnforcement {
    let exact = match kind {
        SandboxKind::Seatbelt => !exec_pulls_launcher(c),
        SandboxKind::AppContainer => exec_denies_all(c),
        SandboxKind::MinimalRootfs | SandboxKind::MicroVm => true,
        SandboxKind::Landlock | SandboxKind::Unconfined => false,
    };
    if exact {
        AxisEnforcement::Kernel
    } else {
        AxisEnforcement::Interceptor
    }
}

/// What a mechanism delivers on the net axis of `c`: a complete and exact
/// egress fence, or nothing beyond admission.
pub open spec fn net_strength(
    c: CaveatsView,
    kind: SandboxKind,
    child_network: ChildNetworkPolicy,
) -> AxisEnforcement {
    let exact = match kind {
        SandboxKind::MicroVm => true,
        SandboxKind::Seatbelt | SandboxKind::AppContainer => net_denies_all(c)
            || net_is_loopback_interface(c),
        SandboxKind::Landlock => net_denies_all(c) && child_network
            == ChildNetworkPolicy::DenyDirect,
        SandboxKind::MinimalRootfs | SandboxKind::Unconfined => false,
    };
    if exact {
        AxisEnforcement::Kernel
    } else {
        AxisEnforcement::Advisory
    }
}

/// An entry of a report: present exactly where the axis is restricted.
pub open spec fn witness<A>(scope: ScopeView<A>, strength: AxisEnforcement) -> Option<
    AxisEnforcement,
> {
    if scope is Only {
        Some(strength)
    } else {
        None
    }
}

/// What `mechanism` delivers on the restricted axes of `c`.
pub open spec fn report_of(c: CaveatsView, mechanism: ConfinementMechanism) -> EnforcementReport {
    let kind = mechanism.spec_kind();
    EnforcementReport {
        fs_read: witness(c.fs_read, fs_strength(kind)),
        fs_write: witness(c.fs_write, fs_strength(kind)),
        exec: witness(c.exec, exec_strength(c, kind)),
        net: witness(c.net, net_strength(c, kind, mechanism.spec_child_network())),
    }
}

/// Classify each restricted axis of `effective` by what `mechanism` actually
/// enforces.
pub fn enforcement_report(effective: &Caveats, mechanism: ConfinementMechanism) -> (r:
    EnforcementReport)
    ensures
        r == report_of(effective@, mechanism),
{
    let fs: AxisEnforcement = match mechanism.kind {
        SandboxKind::Landlock
        | SandboxKind::Seatbelt
        | SandboxKind::MinimalRootfs
        | SandboxKind::MicroVm
        | SandboxKind::AppContainer => AxisEnforcement::Kernel,
        SandboxKind::Unconfined => AxisEnforcement::Interceptor,
    };
    let exec_witness: AxisEnforcement = match mechanism.kind {
        SandboxKind::AppContainer => if exec_fully_denied(effective) {
            AxisEnforcement::Kernel
        } else {
            AxisEnforcement::Interceptor
        },
        SandboxKind::Seatbelt => if exec_grant_pulls_launcher_variant(effective) {
            AxisEnforcement::Interceptor
        } else {
            AxisEnforcement::Kernel
        },
        SandboxKind::MinimalRootfs | SandboxKind::MicroVm => AxisEnforcement::Kernel,
        SandboxKind::Landlock | SandboxKind::Unconfined => AxisEnforcement::Interceptor,
    };
    let net: AxisEnforcement = match mechanism.kind {
        SandboxKind::AppContainer | SandboxKind::Seatbelt => if net_fully_denied(effective)
            || net_loopback_full_interface(effective) {
            AxisEnforcement::Kernel
        } else {
            AxisEnforcement::Advisory
        },
        SandboxKind::MicroVm => AxisEnforcement::Kernel,
        SandboxKind::Landlock => if net_fully_denied(effective) && mechanism.child_network
            == ChildNetworkPolicy::DenyDirect {
            AxisEnforcement::Kernel
        } else {
            AxisEnforcement::Advisory
        },
        SandboxKind::MinimalRootfs | SandboxKind::Unconfined => AxisEnforcement::Advisory,
    };
    EnforcementReport {
        fs_read: if effective.fs_read.is_restricted() {
            Some(fs)
        } else {
            None
        },
        fs_write: if effective.fs_write.is_restricted() {
            Some(fs)
        } else {
            None
        },
        exec: if effective.exec.is_restricted() {
            Some(exec_witness)
        } else {
            None
        },
        net: if effective.net.is_restricted() {
            Some(net)
        } else {
            None
        },
    }
}

/// The weaker of two entries; an absent entry does not count.
pub open spec fn weaker_witness(
    a: Option<AxisEnforcement>,
    b: Option<AxisEnforcement>,
) -> Option<AxisEnforcement> {
    match (a, b) {
        (Some(x), Some(y)) => Some(weaker(x, y)),
        (None, y) => y,
        (x, None) => x,
    }
}

/// The strength of a fence: that of its weakest restricted axis, and none
/// where no axis is restricted.
pub fn fence_strength(report: &EnforcementReport) -> (r: Option<AxisEnforcement>)
    ensures
        r == weaker_witness(
            weaker_witness(report.fs_read, report.fs_write),
            weaker_witness(report.exec, report.net),
        ),
{
    weaker_of(
        weaker_of(report.fs_read, report.fs_write),
        weaker_of(report.exec, report.net),
    )
}

fn weaker_of(a: Option<AxisEnforcement>, b: Option<AxisEnforcement>) -> (r: Option<AxisEnforcement>)
    ensures
        r == weaker_witness(a, b),
{
    match (a, b) {
        (Some(x), Some(y)) => if y.meets(x) {
            Some(x)
        } else {
            Some(y)
        },
        (None, y) => y,
        (x, None) => x,
    }
}

/// One of the four axes that an operating system can confine.
#[derive(Debug, Clone, Copy, PartialEq, Eq, Structural)]
pub enum ConfinedAxis {
    /// Filesystem reads.
    FsRead,
    /// Filesystem writes.
    FsWrite,
    /// The network.
    Net,
    /// Which programs run.
    Exec,
}

impl ConfinedAxis {
    /// The axis is restricted in `c`.
    pub open spec fn restricted(self, c: CaveatsView) -> bool {
        match self {
            ConfinedAxis::FsRead => c.fs_read is Only,
            ConfinedAxis::FsWrite => c.fs_write is Only,
            ConfinedAxis::Net => c.net is Only,
            ConfinedAxis::Exec => c.exec is Only,
        }
    }

    /// The entry of the axis in a report.
    pub open spec fn entry(self, report: EnforcementReport) -> Option<AxisEnforcement> {
        match self {
            ConfinedAxis::FsRead => report.fs_read,
            ConfinedAxis::FsWrite => report.fs_write,
            ConfinedAxis::Net => report.net,
            ConfinedAxis::Exec => report.exec,
        }
    }

    /// Whether the axis is restricted in `caveats`.
    pub fn restricted_in(self, caveats: &Caveats) -> (r: bool)
        ensures
            r == self.restricted(caveats@),
    {
        match self {
            ConfinedAxis::FsRead => caveats.fs_read.is_restricted(),
            ConfinedAxis::FsWrite => caveats.fs_write.is_restricted(),
            ConfinedAxis::Net => caveats.net.is_restricted(),
            ConfinedAxis::Exec => caveats.exec.is_restricted(),
        }
    }

    /// The entry of the axis in `report`.
    pub fn witness_in(self, report: &EnforcementReport) -> (r: Option<AxisEnforcement>)
        ensures
            r == self.entry(*report),
    {
        match self {
            ConfinedAxis::FsRead => report.fs_read,
            ConfinedAxis::FsWrite => report.fs_write,
            ConfinedAxis::Net => report.net,
            ConfinedAxis::Exec => report.exec,
        }
    }

    /// The text that [`ConfinedAxis::name`] gives.
    pub open spec fn name_text(self) -> Seq<char> {
        match self {
            ConfinedAxis::FsRead => "FsRead"@,
            ConfinedAxis::FsWrite => "FsWrite"@,
            ConfinedAxis::Net => "Net"@,
            ConfinedAxis::Exec => "Exec"@,
        }
    }

    /// The name of the axis, as it stands in a refusal.
    pub fn name(&self) -> (r: &'static str)
        ensures
            r@ == self.name_text(),
    {
        match self {
            ConfinedAxis::FsRead => "FsRead",
            ConfinedAxis::FsWrite => "FsWrite",
            ConfinedAxis::Net => "Net",
            ConfinedAxis::Exec => "Exec",
        }
    }
}

/// The strength that a principal requires on each restricted axis. Both
/// filesystem axes always require [`AxisEnforcement::Kernel`]: no value of
/// this type asks for less.
#[derive(Debug, Clone, Copy, PartialEq, Eq)]
pub struct EnforcementFloor {
    pub(crate) fs_read: AxisEnforcement,
    pub(crate) fs_write: AxisEnforcement,
    pub(crate) exec exec: AxisEnforcement,
    pub(crate) net: AxisEnforcement,
}

/// The model of [`EnforcementFloor`].
pub ghost struct FloorView {
    pub fs_read: AxisEnforcement,
    pub fs_write: AxisEnforcement,
    pub exec exec: AxisEnforcement,
    pub net: AxisEnforcement,
}

impl FloorView {
    /// The floor with the given exec and net requirements.
    pub open spec fn pinned(exec_floor: AxisEnforcement, net_floor: AxisEnforcement) -> Self {
        FloorView {
            fs_read: AxisEnforcement::Kernel,
            fs_write: AxisEnforcement::Kernel,
            exec: exec_floor,
            net: net_floor,
        }
    }

    /// The requirement on one axis.
    pub open spec fn on(self, axis: ConfinedAxis) -> AxisEnforcement {
        match axis {
            ConfinedAxis::FsRead => self.fs_read,
            ConfinedAxis::FsWrite => self.fs_write,
            ConfinedAxis::Net => self.net,
            ConfinedAxis::Exec => self.exec,
        }
    }

    /// The stronger requirement on every axis.
    pub open spec fn join(self, other: Self) -> Self {
        FloorView {
            fs_read: stronger(self.fs_read, other.fs_read),
            fs_write: stronger(self.fs_write, other.fs_write),
            exec: stronger(self.exec, other.exec),
            net: stronger(self.net, other.net),
        }
    }

    /// Requires at least what `other` requires, on every axis.
    pub open spec fn at_least(self, other: Self) -> bool {
        &&& strength(self.fs_read) >= strength(other.fs_read)
        &&& strength(self.fs_write) >= strength(other.fs_write)
        &&& strength(self.exec) >= strength(other.exec)
        &&& strength(self.net) >= strength(other.net)
    }
}

impl View for EnforcementFloor {
    type V = FloorView;

    closed spec fn view(&self) -> FloorView {
        FloorView {
            fs_read: self.fs_read,
            fs_write: self.fs_write,
            exec: self.exec,
            net: self.net,
        }
    }
}

impl EnforcementFloor {
    #[verifier::type_invariant]
    spec fn filesystem_is_pinned(self) -> bool {
        self.fs_read == AxisEnforcement::Kernel && self.fs_write == AxisEnforcement::Kernel
    }

    /// The floor with the given exec and net requirements; the filesystem axes
    /// require the kernel.
    pub fn new(exec_floor: AxisEnforcement, net_floor: AxisEnforcement) -> (r: Self)
        ensures
            r@ == FloorView::pinned(exec_floor, net_floor),
    {
        EnforcementFloor {
            fs_read: AxisEnforcement::Kernel,
            fs_write: AxisEnforcement::Kernel,
            exec: exec_floor,
            net: net_floor,
        }
    }

    /// The floor of a confined executor: the kernel on the filesystem and
    /// network axes, the interceptor on exec.
    pub fn confined() -> (r: Self)
        ensures
            r@ == FloorView::pinned(AxisEnforcement::Interceptor, AxisEnforcement::Kernel),
    {
        EnforcementFloor::new(AxisEnforcement::Interceptor, AxisEnforcement::Kernel)
    }

    /// The floor with one requirement for both exec and net.
    pub fn from_scalar(floor: AxisEnforcement) -> (r: Self)
        ensures
            r@ == FloorView::pinned(floor, floor),
    {
        EnforcementFloor::new(floor, floor)
    }

    /// The `fs_read` requirement, which is always the kernel.
    pub fn fs_read(&self) -> (r: AxisEnforcement)
        ensures
            r == self@.fs_read,
            r == AxisEnforcement::Kernel,
    {
        proof {
            use_type_invariant(self);
        }
        self.fs_read
    }

    /// The `fs_write` requirement, which is always the kernel.
    pub fn fs_write(&self) -> (r: AxisEnforcement)
        ensures
            r == self@.fs_write,
            r == AxisEnforcement::Kernel,
    {
        proof {
            use_type_invariant(self);
        }
        self.fs_write
    }

    /// The `exec` requirement.
    pub fn exec(&self) -> (r: AxisEnforcement)
        ensures
            r == self@.exec,
    {
        self.exec
    }

    /// The `net` requirement.
    pub fn net(&self) -> (r: AxisEnforcement)
        ensures
            r == self@.net,
    {
        self.net
    }

    /// The stronger of the two requirements on every axis.
    pub fn join(self, other: Self) -> (r: Self)
        ensures
            r@ == self@.join(other@),
    {
        proof {
            use_type_invariant(&self);
            use_type_invariant(&other);
        }
        EnforcementFloor {
            fs_read: self.fs_read.stronger_of(other.fs_read),
            fs_write: self.fs_write.stronger_of(other.fs_write),
            exec: self.exec.stronger_of(other.exec),
            net: self.net.stronger_of(other.net),
        }
    }

    /// The requirement on one axis.
    pub fn requirement(&self, axis: ConfinedAxis) -> (r: AxisEnforcement)
        ensures
            r == self@.on(axis),
    {
        match axis {
            ConfinedAxis::FsRead => self.fs_read,
            ConfinedAxis::FsWrite => self.fs_write,
            ConfinedAxis::Net => self.net,
            ConfinedAxis::Exec => self.exec,
        }
    }
}

impl Default for EnforcementFloor {
    /// The permissive floor: exec and net require nothing beyond admission.
    fn default() -> (r: Self)
        ensures
            r@ == FloorView::pinned(AxisEnforcement::Advisory, AxisEnforcement::Advisory),
    {
        EnforcementFloor::new(AxisEnforcement::Advisory, AxisEnforcement::Advisory)
    }
}

/// A restricted axis that is not enforced as strongly as required: which axis,
/// what was required, and what was delivered, if anything was.
#[derive(Debug, Clone, Copy, PartialEq, Eq, Structural)]
pub struct UnenforceableAxis {
    /// The axis.
    pub axis: ConfinedAxis,
    /// The required strength.
    pub required: AxisEnforcement,
    /// The delivered strength; none where the report has no entry.
    pub actual: Option<AxisEnforcement>,
}

impl UnenforceableAxis {
    /// The text that [`UnenforceableAxis::message`] gives.
    pub open spec fn message_text(self) -> Seq<char> {
        let start = self.axis.name_text() + " axis requires "@ + self.required.name_text();
        match self.actual {
            Some(actual) => start + " but the governing backend delivers only "@
                + actual.name_text(),
            None => start + " but the governing backend produced no enforcement witness"@,
        }
    }

    /// The refusal in words.
    pub fn message(&self) -> (r: String)
        ensures
            r@ == self.message_text(),
    {
        let start: String = self.axis.name().to_owned().concat(" axis requires ").concat(
            self.required.name(),
        );
        match self.actual {
            Some(actual) => start.concat(" but the governing backend delivers only ").concat(
                actual.name(),
            ),
            None => start.concat(" but the governing backend produced no enforcement witness"),
        }
    }
}

/// The shortfall on one axis: none where the axis is unrestricted or its entry
/// reaches `required`; an entry below it and a missing entry both fall short.
pub open spec fn shortfall(
    c: CaveatsView,
    report: EnforcementReport,
    axis: ConfinedAxis,
    required: AxisEnforcement,
) -> Option<UnenforceableAxis> {
    let actual = axis.entry(report);
    if !axis.restricted(c) || (actual matches Some(a) && strength(a) >= strength(required)) {
        None
    } else {
        Some(UnenforceableAxis { axis, required, actual })
    }
}

/// The first shortfall in the order fs_read, fs_write, net, exec.
pub open spec fn first_shortfall(
    c: CaveatsView,
    report: EnforcementReport,
    floor: FloorView,
) -> Option<UnenforceableAxis> {
    let read = shortfall(c, report, ConfinedAxis::FsRead, floor.fs_read);
    let write = shortfall(c, report, ConfinedAxis::FsWrite, floor.fs_write);
    let net = shortfall(c, report, ConfinedAxis::Net, floor.net);
    if read is Some {
        read
    } else if write is Some {
        write
    } else if net is Some {
        net
    } else {
        shortfall(c, report, ConfinedAxis::Exec, floor.exec)
    }
}

/// The shortfall of one axis against one requirement.
pub fn axis_shortfall(
    effective: &Caveats,
    report: &EnforcementReport,
    axis: ConfinedAxis,
    required: AxisEnforcement,
) -> (r: Option<UnenforceableAxis>)
    ensures
        r == shortfall(effective@, *report, axis, required),
{
    if !axis.restricted_in(effective) {
        return None;
    }
    let actual: Option<AxisEnforcement> = axis.witness_in(report);
    if let Some(a) = actual {
        if a.meets(required) {
            return None;
        }
    }
    Some(UnenforceableAxis { axis, required, actual })
}

/// The first restricted axis of `effective` that `report` does not show to be
/// enforced as strongly as `floor` requires.
pub fn unenforceable_axis_in_report(
    effective: &Caveats,
    report: &EnforcementReport,
    floor: EnforcementFloor,
) -> (r: Option<UnenforceableAxis>)
    ensures
        r == first_shortfall(effective@, *report, floor@),
{
    let read: Option<UnenforceableAxis> = axis_shortfall(
        effective,
        report,
        ConfinedAxis::FsRead,
        floor.requirement(ConfinedAxis::FsRead),
    );
    if read.is_some() {
        return read;
    }
    let write: Option<UnenforceableAxis> = axis_shortfall(
        effective,
        report,
        ConfinedAxis::FsWrite,
        floor.requirement(ConfinedAxis::FsWrite),
    );
    if write.is_some() {
        return write;
    }
    let net: Option<UnenforceableAxis> = axis_shortfall(
        effective,
        report,
        ConfinedAxis::Net,
        floor.requirement(ConfinedAxis::Net),
    );
    if net.is_some() {
        return net;
    }
    axis_shortfall(
        effective,
        report,
        ConfinedAxis::Exec,
        floor.requirement(ConfinedAxis::Exec),
    )
}

/// The first restricted axis of `effective` that `mechanism` does not enforce
/// as strongly as `floor` requires.
pub fn unenforceable_axis(
    effective: &Caveats,
    mechanism: ConfinementMechanism,
    floor: EnforcementFloor,
) -> (r: Option<UnenforceableAxis>)
    ensures
        r == first_shortfall(effective@, report_of(effective@, mechanism), floor@),
{
    let report: EnforcementReport = enforcement_report(effective, mechanism);
    unenforceable_axis_in_report(effective, &report, floor)
}

/// Admission is decided axis by axis: nothing falls short exactly when every
/// restricted axis has an entry that reaches the requirement on that axis.
pub proof fn law_admitted_iff_every_restricted_axis_meets_its_floor(
    c: CaveatsView,
    report: EnforcementReport,
    floor: FloorView,
)
    ensures
        first_shortfall(c, report, floor) is None <==> forall|axis: ConfinedAxis|
            #[trigger] axis.restricted(c) ==> (axis.entry(report) matches Some(a) && strength(a)
                >= strength(floor.on(axis))),
{
    let met = |axis: ConfinedAxis|
        axis.restricted(c) ==> (axis.entry(report) matches Some(a) && strength(a) >= strength(
            floor.on(axis),
        ));
    if forall|axis: ConfinedAxis| #[trigger] axis.restricted(c) ==> met(axis) {
        assert(ConfinedAxis::FsRead.restricted(c) ==> met(ConfinedAxis::FsRead));
        assert(ConfinedAxis::FsWrite.restricted(c) ==> met(ConfinedAxis::FsWrite));
        assert(ConfinedAxis::Net.restricted(c) ==> met(ConfinedAxis::Net));
        assert(ConfinedAxis::Exec.restricted(c) ==> met(ConfinedAxis::Exec));
    }
}

/// No axis borrows the strength of another: two reports with the same entry
/// for an axis fall short alike on that axis.
pub proof fn law_an_axis_is_judged_by_its_own_witness(
    c: CaveatsView,
    a: EnforcementReport,
    b: EnforcementReport,
    axis: ConfinedAxis,
    required: AxisEnforcement,
)
    requires
        axis.entry(a) == axis.entry(b),
    ensures
        shortfall(c, a, axis, required) == shortfall(c, b, axis, required),
{
}

/// Raising a floor never turns a refusal into an admission.
pub proof fn law_raising_a_floor_only_refuses_more(
    c: CaveatsView,
    report: EnforcementReport,
    low: FloorView,
    high: FloorView,
)
    requires
        high.at_least(low),
    ensures
        first_shortfall(c, report, low) is Some ==> first_shortfall(c, report, high) is Some,
{
}

/// Unrestricting an axis only removes obligations: whatever a mechanism is
/// admitted for, it is admitted for with any of the axes unrestricted instead.
pub proof fn law_unrestricting_an_axis_only_removes_obligations(
    c: CaveatsView,
    mechanism: ConfinementMechanism,
    floor: FloorView,
    axis: ConfinedAxis,
)
    ensures
        ({
            let wider = unrestrict(c, axis);
            first_shortfall(c, report_of(c, mechanism), floor) is None ==> first_shortfall(
                wider,
                report_of(wider, mechanism),
                floor,
            ) is None
        }),
{
}

/// The authority with one axis unrestricted.
pub open spec fn unrestrict(c: CaveatsView, axis: ConfinedAxis) -> CaveatsView {
    match axis {
        ConfinedAxis::FsRead => CaveatsView { fs_read: ScopeView::All, ..c },
        ConfinedAxis::FsWrite => CaveatsView { fs_write: ScopeView::All, ..c },
        ConfinedAxis::Net => CaveatsView { net: ScopeView::All, ..c },
        ConfinedAxis::Exec => CaveatsView { exec: ScopeView::All, ..c },
    }
}

/// A report has an entry exactly for each restricted axis; without a backend
/// no entry claims the kernel.
pub proof fn law_a_report_covers_exactly_the_restricted_axes(
    c: CaveatsView,
    mechanism: ConfinementMechanism,
    axis: ConfinedAxis,
)
    ensures
        axis.entry(report_of(c, mechanism)) is Some <==> axis.restricted(c),
        mechanism.spec_kind() == SandboxKind::Unconfined ==> axis.entry(report_of(c, mechanism))
            != Some(AxisEnforcement::Kernel),
{
}

/// The join of floors is their least upper bound, and it depends on neither
/// order nor grouping: layering a floor never lowers a requirement.
pub proof fn law_join_is_the_least_upper_bound(a: FloorView, b: FloorView, c: FloorView)
    ensures
        a.join(b).at_least(a),
        a.join(b).at_least(b),
        c.at_least(a) && c.at_least(b) ==> c.at_least(a.join(b)),
        a.join(b) == b.join(a),
        a.join(b).join(c) == a.join(b.join(c)),
        a.join(a) == a,
{
}

/// A fence is only as strong as its weakest restricted axis: its strength is
/// that of one of the entries, and no entry is weaker. It has none exactly
/// where the report has no entry.
pub proof fn law_fence_strength_is_the_weakest_entry(report: EnforcementReport, axis: ConfinedAxis)
    ensures
        ({
            let fence = weaker_witness(
                weaker_witness(report.fs_read, report.fs_write),
                weaker_witness(report.exec, report.net),
            );
            &&& axis.entry(report) matches Some(a) ==> fence is Some && strength(fence->0)
                <= strength(a)
            &&& fence is Some ==> exists|some: ConfinedAxis| #[trigger]
                some.entry(report) == fence
        }),
{
    let fence = weaker_witness(
        weaker_witness(report.fs_read, report.fs_write),
        weaker_witness(report.exec, report.net),
    );
    if fence is Some {
        assert(ConfinedAxis::FsRead.entry(report) == fence || ConfinedAxis::FsWrite.entry(report)
            == fence || ConfinedAxis::Exec.entry(report) == fence || ConfinedAxis::Net.entry(report)
            == fence);
    }
}

} // verus!
