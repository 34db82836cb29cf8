//! The envelope of a tool result: what happened, under which confinement, and
//! what was refused.

use std::sync::Arc;

use vstd::prelude::*;
use vstd::string::*;

use crate::admitted::named_root::AdmittedFenceBody;
use crate::caveats::{Caveats, CaveatsView};
use crate::context::ResolvedRoot;
use crate::error::{ToolError, ToolResult};
use crate::execution::contract::{ExecutionEvent, ExecutionEventKind, FenceEvidence, FenceView};
use crate::report::{enforcement_report, report_of, ConfinementMechanism, EnforcementReport};
use crate::sandbox::SandboxKind;
use crate::sets::OrderedSet;

verus! {

/// What kind of operation was refused.
#[derive(Debug, Clone, Copy, PartialEq, Eq, Structural)]
pub enum DenialKind {
    /// Running a program.
    Exec,
    /// Opening a file.
    Open,
}

impl DenialKind {
    /// The name of the kind.
    pub open spec fn name_text(self) -> Seq<char> {
        match self {
            DenialKind::Exec => "exec"@,
            DenialKind::Open => "open"@,
        }
    }

    /// The name of the kind.
    pub fn name(&self) -> (r: &'static str)
        ensures
            r@ == self.name_text(),
    {
        match self {
            DenialKind::Exec => "exec",
            DenialKind::Open => "open",
        }
    }
}

/// One refusal by the leash.
#[derive(Debug, PartialEq, Eq)]
pub struct Denial {
    /// What kind of operation was refused.
    pub kind: DenialKind,
    /// The program or the path.
    pub target: String,
    /// Why.
    pub reason: String,
}

impl Clone for Denial {
    fn clone(&self) -> (r: Self)
        ensures
            r == *self,
    {
        Denial { kind: self.kind, target: self.target.clone(), reason: self.reason.clone() }
    }
}

/// What an operator should know of how a call was shaped. It is no part of the
/// confinement claim.
#[derive(Debug, Clone, PartialEq, Eq)]
pub struct Disclosure {
    /// Confinement was off, by explicit choice.
    pub unbridled: bool,
    /// The assists that were switched off, by name.
    pub normalizations_disabled: Vec<String>,
    /// A restricted network axis is enforced above what is claimed.
    pub net_over_delivery: bool,
    /// The backend that was forced, if one was.
    pub backend_forced: Option<String>,
}

impl Default for Disclosure {
    fn default() -> (r: Self)
        ensures
            r.quiet(),
    {
        Disclosure {
            unbridled: false,
            normalizations_disabled: Vec::new(),
            net_over_delivery: false,
            backend_forced: None,
        }
    }
}

impl Disclosure {
    /// There is nothing to disclose.
    pub open spec fn quiet(self) -> bool {
        !self.unbridled && self.normalizations_disabled@.len() == 0 && !self.net_over_delivery
            && self.backend_forced is None
    }

    /// Whether there is nothing to disclose. An unbridled call is never quiet.
    pub fn is_quiet(&self) -> (r: bool)
        ensures
            r == self.quiet(),
    {
        !self.unbridled && self.normalizations_disabled.len() == 0 && !self.net_over_delivery
            && self.backend_forced.is_none()
    }
}

/// A tool result.
#[derive(Debug, PartialEq, Eq)]
pub struct ToolEnvelope {
    /// The exit code, where there is one.
    pub exit_code: Option<i32>,
    /// Captured standard output.
    pub stdout: Option<String>,
    /// Captured standard error.
    pub stderr: Option<String>,
    /// Whether the call was cut short by its timeout.
    pub timed_out: Option<bool>,
    /// Whether standard output was clipped.
    pub stdout_truncated: bool,
    /// Whether standard error was clipped.
    pub stderr_truncated: bool,
    /// Whether the leash refused anything.
    pub denied: bool,
    /// What the leash refused, in order.
    pub denials: Vec<Denial>,
    /// The confinement in force.
    pub sandbox_kind: SandboxKind,
    /// The confinement of each restricted axis.
    pub enforcement: EnforcementReport,
    /// What an operator should know besides.
    pub disclosure: Disclosure,
    /// The event with which a managed execution started, if one did.
    pub execution_started: Option<ExecutionEvent>,
    /// The last event of a managed execution, if there was one.
    pub execution: Option<ExecutionEvent>,
}

impl ToolEnvelope {
    /// The flag and the list of refusals agree.
    pub open spec fn denials_agree(self) -> bool {
        self.denied == (self.denials@.len() > 0)
    }

    /// An envelope that says nothing but the confinement in force.
    pub fn new(sandbox_kind: SandboxKind) -> (r: Self)
        ensures
            r.exit_code is None && r.stdout is None && r.stderr is None && r.timed_out is None,
            !r.stdout_truncated && !r.stderr_truncated && !r.denied && r.denials@.len() == 0,
            r.sandbox_kind == sandbox_kind,
            r.enforcement == (EnforcementReport {
                fs_read: None,
                fs_write: None,
                exec: None,
                net: None,
            }),
            r.disclosure.quiet(),
            r.execution_started is None && r.execution is None,
            r.denials_agree(),
    {
        ToolEnvelope {
            exit_code: None,
            stdout: None,
            stderr: None,
            timed_out: None,
            stdout_truncated: false,
            stderr_truncated: false,
            denied: false,
            denials: Vec::new(),
            sandbox_kind,
            enforcement: EnforcementReport { fs_read: None, fs_write: None, exec: None, net: None },
            disclosure: Disclosure::default(),
            execution_started: None,
            execution: None,
        }
    }

    /// The envelope with an exit code.
    pub fn with_exit_code(self, code: i32) -> (r: Self)
        ensures
            r == (ToolEnvelope { exit_code: Some(code), ..self }),
    {
        ToolEnvelope { exit_code: Some(code), ..self }
    }

    /// The envelope with captured standard output.
    pub fn with_stdout(self, stdout: String) -> (r: Self)
        ensures
            r == (ToolEnvelope { stdout: Some(stdout), ..self }),
    {
        ToolEnvelope { stdout: Some(stdout), ..self }
    }

    /// The envelope with captured standard error.
    pub fn with_stderr(self, stderr: String) -> (r: Self)
        ensures
            r == (ToolEnvelope { stderr: Some(stderr), ..self }),
    {
        ToolEnvelope { stderr: Some(stderr), ..self }
    }

    /// The envelope of a call that was cut short, or was not.
    pub fn with_timed_out(self, timed_out: bool) -> (r: Self)
        ensures
            r == (ToolEnvelope { timed_out: Some(timed_out), ..self }),
    {
        ToolEnvelope { timed_out: Some(timed_out), ..self }
    }

    /// The envelope of output that was clipped, or was not.
    pub fn with_truncation(self, stdout_truncated: bool, stderr_truncated: bool) -> (r: Self)
        ensures
            r == (ToolEnvelope { stdout_truncated, stderr_truncated, ..self }),
    {
        ToolEnvelope { stdout_truncated, stderr_truncated, ..self }
    }

    /// The envelope with refusals. The flag is set exactly where there are
    /// any.
    pub fn with_denials(self, denials: Vec<Denial>) -> (r: Self)
        ensures
            r == (ToolEnvelope { denied: denials@.len() > 0, denials, ..self }),
            r.denials_agree(),
    {
        ToolEnvelope { denied: denials.len() > 0, denials, ..self }
    }

    /// The envelope with the confinement of each axis.
    pub fn with_enforcement(self, enforcement: EnforcementReport) -> (r: Self)
        ensures
            r == (ToolEnvelope { enforcement, ..self }),
    {
        ToolEnvelope { enforcement, ..self }
    }

    /// The envelope with a disclosure. No claim changes by it.
    pub fn with_disclosure(self, disclosure: Disclosure) -> (r: Self)
        ensures
            r == (ToolEnvelope { disclosure, ..self }),
            r.sandbox_kind == self.sandbox_kind && r.enforcement == self.enforcement,
    {
        ToolEnvelope { disclosure, ..self }
    }

    /// The envelope with the first and the last event of a managed execution.
    pub fn with_execution(self, started: Option<ExecutionEvent>, terminal: ExecutionEvent) -> (r:
        Self)
        ensures
            r == (ToolEnvelope { execution_started: started, execution: Some(terminal), ..self }),
    {
        ToolEnvelope { execution_started: started, execution: Some(terminal), ..self }
    }
}

/// The refusal of a pair of events that is no evidence.
pub open spec fn pair_refusal() -> Seq<char> {
    "invalid named-root Started/terminal evidence pair"@
}

/// What a pair of events comes to before the fence is looked at.
pub ghost enum PairView {
    /// It is no evidence.
    Invalid,
    /// Nothing ever started.
    NeverStarted,
    /// A root started under a fence.
    Started(Arc<FenceEvidence>),
}

impl ToolEnvelope {
    /// What the pair of events comes to before the fence is looked at: the last
    /// one is an end; without a start it is no exit, and nothing claims
    /// confinement; with a start both belong to one execution, in order, and
    /// the end is no denial.
    pub open spec fn pair(self) -> PairView {
        match self.execution {
            None => PairView::Invalid,
            Some(terminal) => if !terminal.kind.ends() {
                PairView::Invalid
            } else {
                match self.execution_started {
                    None => if terminal.kind is Exited || self.sandbox_kind
                        != SandboxKind::Unconfined || self.enforcement != (EnforcementReport {
                        fs_read: None,
                        fs_write: None,
                        exec: None,
                        net: None,
                    }) {
                        PairView::Invalid
                    } else {
                        PairView::NeverStarted
                    },
                    Some(started) => if started.execution != terminal.execution || started.sequence
                        >= terminal.sequence || terminal.kind is Denied {
                        PairView::Invalid
                    } else {
                        match started.kind {
                            ExecutionEventKind::Started { fence, .. } => PairView::Started(fence),
                            _ => PairView::Invalid,
                        }
                    },
                }
            },
        }
    }

    /// The envelope claims what the fence and its body say, and an exit names
    /// the same fence.
    pub open spec fn claims(self, fence: FenceView, mechanism: ConfinementMechanism, effective:
        CaveatsView) -> bool {
        &&& self.sandbox_kind == fence.sandbox_kind
        &&& self.enforcement == report_of(effective, mechanism)
        &&& (self.execution->0.kind matches ExecutionEventKind::Exited(exit) ==> exit.fence@
            == fence)
    }

    /// Verify the pair of events of a managed execution. A body is the proof
    /// that the root started under its fence; none means that nothing started.
    pub fn verify_named_root_execution<
        F: FnOnce(&AdmittedFenceBody) -> Result<Vec<u8>, String>,
    >(
        &self,
        expected_root: &str,
        effective: &Caveats,
        protected_roots: &OrderedSet<String>,
        known: &Vec<ResolvedRoot>,
        encode: F,
    ) -> (r: ToolResult<Option<&AdmittedFenceBody>>)
        requires
            forall|body: &AdmittedFenceBody| #[trigger] encode.requires((body,)),
        ensures
            match self.pair() {
                PairView::Invalid => r is Err && r->Err_0.is_denial(pair_refusal()),
                PairView::NeverStarted => r == Ok::<Option<&AdmittedFenceBody>, ToolError>(None),
                PairView::Started(fence) => exists|checked: ToolResult<&AdmittedFenceBody>|
                    #[trigger]
                    call_ensures(
                        FenceEvidence::verify_named_root::<F>,
                        (&*fence, expected_root, effective, protected_roots, known, encode),
                        checked,
                    ) && (match checked {
                        Err(e) => r == Err::<Option<&AdmittedFenceBody>, ToolError>(e),
                        Ok(body) => if self.claims(fence@, body.mechanism, effective@) {
                            r == Ok::<Option<&AdmittedFenceBody>, ToolError>(Some(body))
                        } else {
                            r is Err && r->Err_0.is_denial(pair_refusal())
                        },
                    }),
            },
    {
        let terminal: &ExecutionEvent = match &self.execution {
            None => {
                return Err(invalid_pair());
            },
            Some(terminal) => terminal,
        };
        if !terminal.is_terminal() {
            return Err(invalid_pair());
        }
        let exited: bool = match &terminal.kind {
            ExecutionEventKind::Exited(_) => true,
            _ => false,
        };
        let started: &ExecutionEvent = match &self.execution_started {
            None => {
                if exited || self.sandbox_kind != SandboxKind::Unconfined
                    || !self.enforcement.is_empty() {
                    return Err(invalid_pair());
                }
                return Ok(None);
            },
            Some(started) => started,
        };
        let refused: bool = match &terminal.kind {
            ExecutionEventKind::Denied { .. } => true,
            _ => false,
        };
        if started.execution != terminal.execution || started.sequence >= terminal.sequence
            || refused {
            return Err(invalid_pair());
        }
        let fence: &Arc<FenceEvidence> = match &started.kind {
            ExecutionEventKind::Started { fence, .. } => fence,
            _ => {
                return Err(invalid_pair());
            },
        };
        let checked: ToolResult<&AdmittedFenceBody> = fence.verify_named_root(
            expected_root,
            effective,
            protected_roots,
            known,
            encode,
        );
        match checked {
            Err(e) => Err(e),
            Ok(body) => {
                let report: EnforcementReport = enforcement_report(effective, body.mechanism);
                if self.sandbox_kind != fence.sandbox_kind || self.enforcement != report {
                    return Err(invalid_pair());
                }
                if let ExecutionEventKind::Exited(exit) = &terminal.kind {
                    if !exit.fence.same(fence) {
                        return Err(invalid_pair());
                    }
                }
                Ok(Some(body))
            },
        }
    }
}

fn invalid_pair() -> (r: ToolError)
    ensures
        r.is_denial(pair_refusal()),
{
    ToolError::denied("invalid named-root Started/terminal evidence pair".to_owned())
}

/// A pair of events is evidence that a root ran only where a start under a fence
/// comes before an end of the same execution that is no refusal, and the
/// envelope claims the boundary of that fence; an exit names the same fence. It
/// is evidence that nothing started only where the end is no exit, there was no
/// start, and nothing is claimed. Anything else is refused.
pub proof fn law_a_pair_of_events_is_evidence_of_one_execution<
    F: FnOnce(&AdmittedFenceBody) -> Result<Vec<u8>, String>,
>(
    envelope: &ToolEnvelope,
    expected_root: &str,
    effective: &Caveats,
    protected_roots: &OrderedSet<String>,
    known: &Vec<ResolvedRoot>,
    encode: F,
    r: ToolResult<Option<&AdmittedFenceBody>>,
)
    requires
        call_ensures(
            ToolEnvelope::verify_named_root_execution::<F>,
            (envelope, expected_root, effective, protected_roots, known, encode),
            r,
        ),
    ensures
        r is Ok ==> envelope.execution is Some && (envelope.execution->0.kind is Exited
            || envelope.execution->0.kind is Denied || envelope.execution->0.kind is Failed),
        r is Ok && r->Ok_0 is None ==> {
            &&& envelope.execution_started is None
            &&& !(envelope.execution->0.kind is Exited)
            &&& envelope.sandbox_kind == SandboxKind::Unconfined
            &&& envelope.enforcement.fs_read is None && envelope.enforcement.fs_write is None
                && envelope.enforcement.exec is None && envelope.enforcement.net is None
        },
        r is Ok && r->Ok_0 is Some ==> {
            let started = envelope.execution_started->0;
            let ended = envelope.execution->0;
            &&& envelope.execution_started is Some
            &&& started.execution == ended.execution
            &&& started.sequence < ended.sequence
            &&& !(ended.kind is Denied)
            &&& started.kind is Started
            &&& envelope.sandbox_kind == started.kind->fence.sandbox_kind
            &&& ended.kind is Exited ==> ended.kind->Exited_0.fence@ == started.kind->fence@
            &&& exists|checked: ToolResult<&AdmittedFenceBody>| #[trigger]
                call_ensures(
                    FenceEvidence::verify_named_root::<F>,
                    (
                        &*started.kind->fence,
                        expected_root,
                        effective,
                        protected_roots,
                        known,
                        encode,
                    ),
                    checked,
                ) && checked == Ok::<&AdmittedFenceBody, ToolError>(r->Ok_0->0)
        },
        envelope.execution is Some && (envelope.execution->0.kind is Denied
            || envelope.execution->0.kind is Failed) && envelope.execution_started is None
            && envelope.sandbox_kind == SandboxKind::Unconfined && envelope.enforcement.fs_read
            is None && envelope.enforcement.fs_write is None && envelope.enforcement.exec is None
            && envelope.enforcement.net is None ==> r is Ok && r->Ok_0 is None,
{
}

/// Refusals set the flag, and none unset it; whatever is put into an envelope
/// changes that part alone, and a disclosure changes no claim. A disclosure is
/// quiet only where it says nothing.
pub proof fn law_an_envelope_says_what_was_put_in(
    kind: SandboxKind,
    fresh: ToolEnvelope,
    envelope: ToolEnvelope,
    denials: Vec<Denial>,
    denied: ToolEnvelope,
    disclosure: Disclosure,
    quiet: bool,
    disclosed: ToolEnvelope,
    enforcement: EnforcementReport,
    reported: ToolEnvelope,
)
    requires
        call_ensures(ToolEnvelope::new, (kind,), fresh),
        call_ensures(ToolEnvelope::with_denials, (envelope, denials), denied),
        call_ensures(Disclosure::is_quiet, (&disclosure,), quiet),
        call_ensures(ToolEnvelope::with_disclosure, (envelope, disclosure), disclosed),
        call_ensures(ToolEnvelope::with_enforcement, (envelope, enforcement), reported),
    ensures
        fresh.sandbox_kind == kind && !fresh.denied && fresh.denials@.len() == 0 && fresh.exit_code
            is None && fresh.stdout is None && fresh.stderr is None && fresh.timed_out is None
            && fresh.execution is None && fresh.execution_started is None
            && !fresh.stdout_truncated && !fresh.stderr_truncated,
        fresh.enforcement.fs_read is None && fresh.enforcement.fs_write is None
            && fresh.enforcement.exec is None && fresh.enforcement.net is None,
        denied.denied <==> denials@.len() > 0,
        denied.denials == denials,
        denied.sandbox_kind == envelope.sandbox_kind && denied.enforcement == envelope.enforcement
            && denied.exit_code == envelope.exit_code && denied.stdout == envelope.stdout
            && denied.stderr == envelope.stderr,
        quiet <==> !disclosure.unbridled && disclosure.normalizations_disabled@.len() == 0
            && !disclosure.net_over_delivery && disclosure.backend_forced is None,
        disclosed.disclosure == disclosure && disclosed.sandbox_kind == envelope.sandbox_kind
            && disclosed.enforcement == envelope.enforcement && disclosed.denied == envelope.denied
            && disclosed.denials == envelope.denials,
        reported.enforcement == enforcement && reported.sandbox_kind == envelope.sandbox_kind
            && reported.denials == envelope.denials,
{
}

} // verus!
