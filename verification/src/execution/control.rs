//! The life of a process tree behind an execution: who may signal it and when,
//! how it is reaped, and which record is final.

use std::sync::Arc;

use vstd::prelude::*;
use vstd::string::*;

use crate::config::SandboxPolicy;
use crate::envelope::{Denial, DenialKind};
use crate::error::{ToolError, ToolResult};
use crate::execution::contract::{
    DroppedEvidence, ExecutionEventKind, ExecutionId, ExecutionRequest, ExecutionTerminal,
    ExitDisposition, ExitEvidence, FenceEvidence,
};
use crate::execution::stream::{
    execution_stream, protocol_refusal, ExecutionEventSink, ExecutionHandle, Phase, StreamState,
    StreamView,
};
use crate::net_proxy::evidence::ProxyFinalEvidence;

verus! {

/// What a process tree is told.
#[derive(Debug, Clone, Copy, PartialEq, Eq, Structural)]
pub enum TreeSignal {
    /// To end.
    Graceful,
    /// Nothing: it is ended without being asked.
    Forced,
}

/// A signal to send to a process tree.
#[derive(Debug, Clone, Copy, PartialEq, Eq, Structural)]
pub struct SignalOrder {
    /// The leader of the tree.
    pub pid: u32,
    /// What it is told.
    pub signal: TreeSignal,
}

/// The process group that a signal goes to, where the number can be one.
pub fn signal_target(pid: u32) -> (r: Option<i32>)
    ensures
        match r {
            Some(group) => 0 < pid <= i32::MAX && group == pid,
            None => pid == 0 || pid > i32::MAX,
        },
{
    if 0 < pid && pid <= i32::MAX as u32 {
        Some(pid as i32)
    } else {
        None
    }
}

/// What is known of a process tree.
#[derive(Debug, Clone, Copy, PartialEq, Eq, Structural)]
pub struct TreeState {
    /// The leader of the tree, once there is one.
    pub pid: Option<u32>,
    /// Whether the leader was not yet reaped.
    pub leader_alive: bool,
    /// How it was asked to end, if it was.
    pub requested: Option<ExitDisposition>,
    /// Whether a cancellation is already waiting to turn to force.
    pub escalating: bool,
}

/// What a cancellation has to do.
#[derive(Debug, Clone, Copy, PartialEq, Eq, Structural)]
pub struct CancelPlan {
    /// The signal to send now.
    pub signal: Option<SignalOrder>,
    /// Whether to come back after the grace period.
    pub escalate: bool,
}

impl TreeState {
    /// A signal to the tree, where there is one.
    pub open spec fn order(self, signal: TreeSignal) -> Option<SignalOrder> {
        match self.pid {
            Some(pid) => Some(SignalOrder { pid, signal }),
            None => None,
        }
    }

    fn signal(&self, signal: TreeSignal) -> (r: Option<SignalOrder>)
        ensures
            r == self.order(signal),
    {
        match self.pid {
            Some(pid) => Some(SignalOrder { pid, signal }),
            None => None,
        }
    }

    /// There is no process yet.
    pub fn new() -> (r: Self)
        ensures
            r == (TreeState {
                pid: None,
                leader_alive: false,
                requested: None,
                escalating: false,
            }),
    {
        TreeState { pid: None, leader_alive: false, requested: None, escalating: false }
    }

    /// A process tree exists.
    pub fn arm(&mut self, pid: u32)
        ensures
            *final(self) == (TreeState { pid: Some(pid), leader_alive: true, ..*old(self) }),
    {
        self.pid = Some(pid);
        self.leader_alive = true;
    }

    /// The leader was reaped: its number is no longer ours to signal.
    pub fn leader_reaped(&mut self)
        ensures
            *final(self) == (TreeState { leader_alive: false, ..*old(self) }),
    {
        self.leader_alive = false;
    }

    /// End what is left of the tree. This is for the reaper alone, where
    /// descendants that are alive keep the group's number valid.
    pub fn force_tree(&self) -> (r: Option<SignalOrder>)
        ensures
            r == self.order(TreeSignal::Forced),
    {
        self.signal(TreeSignal::Forced)
    }

    /// How the tree ended: as it was asked to, or with its descendants reaped,
    /// or on its own.
    pub fn disposition(&self, descendants_reaped: bool) -> (r: ExitDisposition)
        ensures
            r == (match self.requested {
                Some(requested) => requested,
                None => if descendants_reaped {
                    ExitDisposition::DescendantsReaped
                } else {
                    ExitDisposition::Natural
                },
            }),
    {
        match self.requested {
            Some(requested) => requested,
            None => {
                if descendants_reaped {
                    ExitDisposition::DescendantsReaped
                } else {
                    ExitDisposition::Natural
                }
            },
        }
    }

    /// Ask the tree to end. An earlier request stands; a second cancellation
    /// asks again but does not wait a second time. A tree whose leader is gone
    /// is left alone.
    pub fn cancel(&mut self) -> (r: CancelPlan)
        ensures
            if !old(self).leader_alive {
                *final(self) == *old(self) && r == (CancelPlan { signal: None, escalate: false })
            } else {
                *final(self) == (TreeState {
                    requested: match old(self).requested {
                        Some(requested) => Some(requested),
                        None => Some(ExitDisposition::Cancelled),
                    },
                    escalating: true,
                    ..*old(self)
                }) && r == (CancelPlan {
                    signal: old(self).order(TreeSignal::Graceful),
                    escalate: !old(self).escalating,
                })
            },
    {
        if !self.leader_alive {
            return CancelPlan { signal: None, escalate: false };
        }
        if self.requested.is_none() {
            self.requested = Some(ExitDisposition::Cancelled);
        }
        let escalate: bool = !self.escalating;
        self.escalating = true;
        CancelPlan { signal: self.signal(TreeSignal::Graceful), escalate }
    }

    /// The grace period of a cancellation is over: a leader that is still
    /// there is ended by force.
    pub fn escalate(&self) -> (r: Option<SignalOrder>)
        ensures
            r == (if self.leader_alive {
                self.order(TreeSignal::Forced)
            } else {
                None
            }),
    {
        if self.leader_alive {
            self.signal(TreeSignal::Forced)
        } else {
            None
        }
    }

    /// End the tree by force. A tree whose leader is gone is left alone.
    pub fn kill(&mut self) -> (r: Option<SignalOrder>)
        ensures
            if !old(self).leader_alive {
                *final(self) == *old(self) && r is None
            } else {
                *final(self) == (TreeState {
                    requested: Some(ExitDisposition::Killed),
                    ..*old(self)
                }) && r == old(self).order(TreeSignal::Forced)
            },
    {
        if !self.leader_alive {
            return None;
        }
        self.requested = Some(ExitDisposition::Killed);
        self.signal(TreeSignal::Forced)
    }
}

/// What the reaper sees while it waits for the output to end.
#[derive(Debug, Clone, Copy, PartialEq, Eq, Structural)]
pub enum ReapEvent {
    /// One output reached its end.
    DrainerDone,
    /// The grace period is over.
    TimedOut,
    /// No output is left that could end.
    Disconnected,
}

/// What the reaper does next.
#[derive(Debug, Clone, Copy, PartialEq, Eq, Structural)]
pub enum ReapStep {
    /// Wait, at most for the grace period.
    WaitBriefly,
    /// End the descendants that hold an output open, then wait.
    ForceTree,
    /// Wait for the outputs to end.
    Wait,
    /// Join everything: the outputs are at their end.
    Join,
}

/// How far the reaper is.
#[derive(Debug, Clone, Copy, PartialEq, Eq, Structural)]
pub struct Reaping {
    /// The outputs that have to end.
    pub expected: usize,
    /// Those that did.
    pub finished: usize,
    /// Whether descendants had to be ended.
    pub forced: bool,
    /// Whether nothing more is to come.
    pub closed: bool,
}

impl Reaping {
    /// Not more ended than there were, and the reaper gives up on an output only
    /// after the tree was ended.
    pub open spec fn wf(self) -> bool {
        self.finished <= self.expected && (self.closed ==> self.forced)
    }

    /// What to do next.
    pub open spec fn next_step(self) -> ReapStep {
        if self.finished >= self.expected || self.closed {
            ReapStep::Join
        } else if self.forced {
            ReapStep::Wait
        } else {
            ReapStep::WaitBriefly
        }
    }

    /// The leader was reaped, and this many outputs are being drained.
    pub fn new(expected: usize) -> (r: Self)
        ensures
            r == (Reaping { expected, finished: 0, forced: false, closed: false }),
            r.wf(),
    {
        Reaping { expected, finished: 0, forced: false, closed: false }
    }

    /// What to do next.
    pub fn step(&self) -> (r: ReapStep)
        ensures
            r == self.next_step(),
    {
        if self.finished >= self.expected || self.closed {
            ReapStep::Join
        } else if self.forced {
            ReapStep::Wait
        } else {
            ReapStep::WaitBriefly
        }
    }

    /// What to do after an event. Whatever keeps an output open past the grace
    /// period is ended, and that is remembered; only then does the reaper wait
    /// without a bound.
    pub fn on_event(&mut self, event: ReapEvent) -> (r: ReapStep)
        requires
            old(self).wf(),
        ensures
            final(self).wf(),
            final(self).expected == old(self).expected,
            if old(self).next_step() == ReapStep::Join {
                *final(self) == *old(self) && r == ReapStep::Join
            } else {
                match event {
                    ReapEvent::DrainerDone => final(self).finished == old(self).finished + 1
                        && final(self).forced == old(self).forced && final(self).closed
                        == old(self).closed && r == final(self).next_step(),
                    ReapEvent::TimedOut => final(self).finished == old(self).finished
                        && final(self).forced && final(self).closed == old(self).closed && r == (if old(
                        self,
                    ).forced {
                        ReapStep::Wait
                    } else {
                        ReapStep::ForceTree
                    }),
                    ReapEvent::Disconnected => final(self).finished == old(self).finished
                        && final(self).forced && final(self).closed == old(self).forced && r == (if old(
                        self,
                    ).forced {
                        ReapStep::Join
                    } else {
                        ReapStep::ForceTree
                    }),
                }
            },
    {
        if self.finished >= self.expected || self.closed {
            return ReapStep::Join;
        }
        match event {
            ReapEvent::DrainerDone => {
                self.finished = self.finished + 1;
                self.step()
            },
            ReapEvent::TimedOut => {
                if self.forced {
                    ReapStep::Wait
                } else {
                    self.forced = true;
                    ReapStep::ForceTree
                }
            },
            ReapEvent::Disconnected => {
                if self.forced {
                    self.closed = true;
                    ReapStep::Join
                } else {
                    self.forced = true;
                    ReapStep::ForceTree
                }
            },
        }
    }
}

/// What one read of an output came to.
#[derive(Debug, Clone, Copy, PartialEq, Eq, Structural)]
pub enum DrainEvent {
    /// The output ended.
    End,
    /// Bytes were read and handed to the stream.
    Chunk,
    /// The read was interrupted.
    Interrupted,
    /// The read failed.
    Failed,
}

/// Whether to go on reading. What the stream does with a chunk is no reason to
/// stop: the pipe has to be kept empty.
pub fn keep_draining(event: DrainEvent) -> (r: bool)
    ensures
        r == (event == DrainEvent::Chunk || event == DrainEvent::Interrupted),
{
    match event {
        DrainEvent::Chunk => true,
        DrainEvent::Interrupted => true,
        _ => false,
    }
}

/// The record of an execution that is over. A proxy whose account could not be
/// completed is a failure, never an apparently successful exit.
pub fn compose_terminal(
    status: Result<(Option<i32>, Option<i32>), String>,
    proxy_evidence: Option<ProxyFinalEvidence>,
    proxy_failure: Option<String>,
    disposition: ExitDisposition,
    fence: Arc<FenceEvidence>,
    dropped: DroppedEvidence,
) -> (r: ExecutionTerminal)
    ensures
        match proxy_failure {
            Some(failure) => r matches ExecutionTerminal::Failed { message } && message@
                == "egress proxy finalization failed: "@ + failure@,
            None => match status {
                Ok((code, signal)) => r matches ExecutionTerminal::Exited(evidence) && *evidence
                    == (ExitEvidence {
                    code,
                    signal,
                    disposition,
                    fence,
                    dropped,
                    proxy: proxy_evidence,
                }),
                Err(cause) => r matches ExecutionTerminal::Failed { message } && message@
                    == "could not reap the execution's process tree: "@ + cause@,
            },
        },
{
    if let Some(failure) = proxy_failure {
        return ExecutionTerminal::Failed {
            message: "egress proxy finalization failed: ".to_owned().concat(failure.as_str()),
        };
    }
    match status {
        Ok((code, signal)) => ExecutionTerminal::Exited(
            Arc::new(
                ExitEvidence {
                    code,
                    signal,
                    disposition,
                    fence,
                    dropped,
                    proxy: proxy_evidence,
                },
            ),
        ),
        Err(cause) => ExecutionTerminal::Failed {
            message: "could not reap the execution's process tree: ".to_owned().concat(
                cause.as_str(),
            ),
        },
    }
}

/// The controls of an execution on this host.
#[derive(Debug)]
pub struct LocalControl {
    tree: TreeState,
    terminal: Option<ExecutionTerminal>,
    abandoned: bool,
}

/// What giving an execution up has to do.
#[derive(Debug, Clone, Copy, PartialEq, Eq, Structural)]
pub struct AbandonPlan {
    /// The signal to send.
    pub signal: Option<SignalOrder>,
    /// Whether to wait for the reaper: nothing is left detached.
    pub join: bool,
}

impl LocalControl {
    /// What is known of the process tree.
    pub closed spec fn tree(self) -> TreeState {
        self.tree
    }

    /// The final record, once there is one.
    pub closed spec fn terminal(self) -> Option<ExecutionTerminal> {
        self.terminal
    }

    /// The execution was given up.
    pub closed spec fn abandoned(self) -> bool {
        self.abandoned
    }

    /// The controls of an execution without a process.
    pub fn new() -> (r: Self)
        ensures
            r.tree() == (TreeState {
                pid: None,
                leader_alive: false,
                requested: None,
                escalating: false,
            }),
            r.terminal() is None,
            !r.abandoned(),
    {
        LocalControl { tree: TreeState::new(), terminal: None, abandoned: false }
    }

    /// The process tree, to arm, to signal or to reap.
    pub fn tree_state(&self) -> (r: TreeState)
        ensures
            r == self.tree(),
    {
        self.tree
    }

    /// Replace what is known of the process tree.
    pub fn set_tree(&mut self, tree: TreeState)
        ensures
            final(self).tree() == tree,
            final(self).terminal() == old(self).terminal(),
            final(self).abandoned() == old(self).abandoned(),
    {
        self.tree = tree;
    }

    /// The final record, once there is one: the same for every caller.
    pub fn wait(&self) -> (r: Option<ExecutionTerminal>)
        ensures
            r == self.terminal(),
    {
        match &self.terminal {
            Some(terminal) => Some(terminal.clone()),
            None => None,
        }
    }

    /// Publish the final record. The first one stands; a later one changes
    /// nothing, neither here nor on the stream.
    pub fn publish(
        &mut self,
        sink: &ExecutionEventSink,
        state: &mut StreamState,
        terminal: ExecutionTerminal,
    ) -> (r: ToolResult<()>)
        requires
            old(state)@.consistent(),
        ensures
            final(state)@.consistent(),
            final(self).tree() == old(self).tree(),
            final(self).abandoned() == old(self).abandoned(),
            final(self).terminal() == first_record(old(self).terminal(), terminal),
            final(state)@ == (if old(self).terminal() is Some {
                old(state)@
            } else {
                old(state)@.after_terminal(terminal)
            }),
            if old(self).terminal() is Some {
                r is Ok && *final(self) == *old(self) && final(state)@ == old(state)@
            } else {
                final(self).terminal() == Some(terminal) && publication(
                    r,
                    old(state)@,
                    final(state)@,
                    terminal,
                )
            },
    {
        if self.terminal.is_some() {
            return Ok(());
        }
        self.terminal = Some(terminal.clone());
        sink.publish_terminal(state, terminal)
    }

    /// Publish a failure where nothing else was published: whoever waits is
    /// never left waiting.
    pub fn publish_fallback(&mut self, sink: &ExecutionEventSink, state: &mut StreamState) -> (r:
        ToolResult<()>)
        requires
            old(state)@.consistent(),
        ensures
            final(state)@.consistent(),
            final(self).terminal() is Some,
            final(self).tree() == old(self).tree(),
            final(self).abandoned() == old(self).abandoned(),
            if old(self).terminal() is Some {
                r is Ok && *final(self) == *old(self) && final(state)@ == old(state)@
            } else {
                (final(self).terminal()->0 matches ExecutionTerminal::Failed { message } && message@
                    == "the execution owner terminated without publishing a result"@)
                    && publication(r, old(state)@, final(state)@, final(self).terminal()->0)
            },
    {
        self.publish(
            sink,
            state,
            ExecutionTerminal::Failed {
                message: "the execution owner terminated without publishing a result".to_owned(),
            },
        )
    }

    /// The consumer gave the execution up: end the tree and wait for it, once.
    pub fn abandon(&mut self) -> (r: AbandonPlan)
        ensures
            final(self).terminal() == old(self).terminal(),
            final(self).abandoned(),
            if old(self).abandoned() || !old(self).tree().leader_alive {
                final(self).tree() == old(self).tree()
            } else {
                final(self).tree() == (TreeState {
                    requested: Some(ExitDisposition::Killed),
                    ..old(self).tree()
                })
            },
            r == (AbandonPlan {
                signal: if !old(self).abandoned() && old(self).tree().leader_alive {
                    old(self).tree().order(TreeSignal::Forced)
                } else {
                    None
                },
                join: !old(self).abandoned(),
            }),
    {
        if self.abandoned {
            return AbandonPlan { signal: None, join: false };
        }
        self.abandoned = true;
        let signal: Option<SignalOrder> = self.tree.kill();
        AbandonPlan { signal, join: true }
    }
}

/// The final record after one more was published: the first one stands.
pub open spec fn first_record(
    before: Option<ExecutionTerminal>,
    terminal: ExecutionTerminal,
) -> Option<ExecutionTerminal> {
    if before is Some {
        before
    } else {
        Some(terminal)
    }
}

/// What publishing a record on a stream comes to.
pub open spec fn publication(
    r: ToolResult<()>,
    before: StreamView,
    after: StreamView,
    terminal: ExecutionTerminal,
) -> bool {
    if before.phase == Phase::Terminal {
        r is Err && r->Err_0.is_denial(
            protocol_refusal("terminal must be published exactly once"@),
        ) && after == before
    } else if before.phase == Phase::Accepted && terminal is Exited {
        r is Err && r->Err_0.is_denial(
            protocol_refusal("an exited terminal requires a started event"@),
        ) && after == before
    } else {
        r is Ok && after == before.with_terminal(terminal)
    }
}

/// The backend that executes on this host.
#[derive(Debug, Clone)]
pub struct LocalExecutionBackend {
    sandbox_policy: Option<Arc<SandboxPolicy>>,
}

/// An execution that was accepted.
#[derive(Debug)]
pub struct LocalExecution {
    /// Its controls.
    pub control: LocalControl,
    /// The state of its stream.
    pub state: StreamState,
    /// The producer half of the stream.
    pub sink: ExecutionEventSink,
}

impl LocalExecutionBackend {
    /// The policy of the sandbox, where one was given.
    pub closed spec fn policy(self) -> Option<Arc<SandboxPolicy>> {
        self.sandbox_policy
    }

    /// A backend with the built-in policy.
    pub fn new() -> (r: Self)
        ensures
            r.policy() is None,
    {
        LocalExecutionBackend { sandbox_policy: None }
    }

    /// A backend with a policy of its own.
    pub fn with_sandbox_policy(policy: Arc<SandboxPolicy>) -> (r: Self)
        ensures
            r.policy() == Some(policy),
    {
        LocalExecutionBackend { sandbox_policy: Some(policy) }
    }

    /// The policy of the sandbox, where one was given.
    pub fn sandbox_policy(&self) -> (r: Option<Arc<SandboxPolicy>>)
        ensures
            r == self.policy(),
    {
        match &self.sandbox_policy {
            Some(policy) => Some(policy.clone()),
            None => None,
        }
    }

    /// Accept a request: it is refused where it is too large; otherwise its
    /// stream begins, before any process is tried.
    pub fn start(&self, ids: &mut u64, request: &ExecutionRequest) -> (r: ToolResult<
        (LocalExecution, ExecutionHandle),
    >)
        ensures
            match request.refusal() {
                Some(reason) => r is Err && r->Err_0.is_denial(reason) && *final(ids) == *old(ids),
                None => r matches Ok((run, handle)) && run.control.terminal() is None
                    && run.control.tree() == (TreeState {
                    pid: None,
                    leader_alive: false,
                    requested: None,
                    escalating: false,
                }) && !run.control.abandoned() && run.state@.consistent() && run.state@
                    == StreamView::fresh(ExecutionId(*old(ids)), request.limits@).with_event(
                    ExecutionEventKind::Accepted,
                ) && handle.spec_id() == ExecutionId(*old(ids)) && handle.spec_limits()
                    == request.limits@ && !handle.observed() && *final(ids) == (if *old(ids)
                    < u64::MAX {
                    *old(ids) + 1
                } else {
                    0
                }),
            },
    {
        if let Err(e) = request.validate() {
            return Err(e);
        }
        let id: ExecutionId = ExecutionId::next(ids);
        let (mut state, sink, handle) = execution_stream(id, request.limits);
        match sink.accepted(&mut state) {
            Err(e) => Err(e),
            Ok(_) => {
                Ok((LocalExecution { control: LocalControl::new(), state, sink }, handle))
            },
        }
    }
}

/// The record of an execution whose process could not be created: a refusal by
/// the leash is a denial, anything else a failure.
pub open spec fn is_spawn_record(terminal: ExecutionTerminal, executable: Seq<char>, error: ToolError) -> bool {
    match error {
        ToolError::Denied { reason } => terminal matches ExecutionTerminal::Denied { denial }
            && denial.kind == DenialKind::Exec && denial.target@ == executable && denial.reason
            == reason,
        other => terminal matches ExecutionTerminal::Failed { message } && message@
            == other.message_text(),
    }
}

impl LocalExecution {
    /// No process was created: publish why. No process is reported as started.
    pub fn spawn_refused(&mut self, executable: &str, error: ToolError) -> (r: ToolResult<()>)
        requires
            old(self).state@.consistent(),
            old(self).control.terminal() is None,
        ensures
            final(self).state@.consistent(),
            final(self).control.tree() == old(self).control.tree(),
            final(self).control.abandoned() == old(self).control.abandoned(),
            final(self).control.terminal() matches Some(terminal) && is_spawn_record(
                terminal,
                executable@,
                error,
            ) && publication(r, old(self).state@, final(self).state@, terminal),
    {
        let terminal: ExecutionTerminal = match error {
            ToolError::Denied { reason } => ExecutionTerminal::Denied {
                denial: Denial { kind: DenialKind::Exec, target: executable.to_owned(), reason },
            },
            other => ExecutionTerminal::Failed { message: other.message() },
        };
        self.control.publish(&self.sink, &mut self.state, terminal)
    }

    /// A process was created: it can be signalled from now on, and the stream
    /// says so. Where the stream refuses, the process has to be ended.
    pub fn attach(&mut self, pid: u32, fence: Arc<FenceEvidence>) -> (r: ToolResult<()>)
        requires
            old(self).state@.consistent(),
        ensures
            final(self).state@.consistent(),
            final(self).control.terminal() == old(self).control.terminal(),
            final(self).control.abandoned() == old(self).control.abandoned(),
            final(self).control.tree() == (TreeState {
                pid: Some(pid),
                leader_alive: true,
                ..old(self).control.tree()
            }),
            if old(self).state@.phase == Phase::Accepted {
                r is Ok && final(self).state@ == (StreamView {
                    phase: Phase::Started,
                    ..old(self).state@
                }).with_event(ExecutionEventKind::Started { pid, fence })
            } else {
                r is Err && r->Err_0.is_denial(
                    protocol_refusal("started must follow accepted exactly once"@),
                ) && final(self).state@ == old(self).state@
            },
    {
        let mut tree: TreeState = self.control.tree_state();
        tree.arm(pid);
        self.control.set_tree(tree);
        match self.sink.started(&mut self.state, pid, fence) {
            Err(e) => Err(e),
            Ok(_) => Ok(()),
        }
    }

    /// Everything is joined: compose the final record and publish it.
    pub fn finish(
        &mut self,
        status: Result<(Option<i32>, Option<i32>), String>,
        proxy: Option<Result<ProxyFinalEvidence, String>>,
        reaping: &Reaping,
        fence: Arc<FenceEvidence>,
    ) -> (r: ToolResult<()>)
        requires
            old(self).state@.consistent(),
            old(self).control.terminal() is None,
        ensures
            final(self).state@.consistent(),
            final(self).control.tree() == old(self).control.tree(),
            final(self).control.abandoned() == old(self).control.abandoned(),
            final(self).control.terminal() matches Some(terminal) && publication(
                r,
                old(self).state@,
                final(self).state@,
                terminal,
            ) && (match (proxy, status) {
                (Some(Err(failure)), _) => terminal matches ExecutionTerminal::Failed { message }
                    && message@ == "egress proxy finalization failed: "@ + failure@,
                (_, Err(cause)) => terminal matches ExecutionTerminal::Failed { message }
                    && message@ == "could not reap the execution's process tree: "@ + cause@,
                (_, Ok((code, signal))) => terminal matches ExecutionTerminal::Exited(evidence)
                    && evidence.code == code && evidence.signal == signal && evidence.fence == fence
                    && evidence.dropped == old(self).state@.dropped && (match proxy {
                    Some(Ok(account)) => evidence.proxy == Some(account),
                    _ => evidence.proxy is None,
                }) && evidence.disposition == (match old(self).control.tree().requested {
                    Some(requested) => requested,
                    None => if reaping.forced {
                        ExitDisposition::DescendantsReaped
                    } else {
                        ExitDisposition::Natural
                    },
                }),
            }),
    {
        let (evidence, failure): (Option<ProxyFinalEvidence>, Option<String>) = match proxy {
            Some(Ok(account)) => (Some(account), None),
            Some(Err(failure)) => (None, Some(failure)),
            None => (None, None),
        };
        let disposition: ExitDisposition = self.control.tree_state().disposition(reaping.forced);
        let dropped: DroppedEvidence = self.sink.dropped(&self.state);
        let terminal: ExecutionTerminal = compose_terminal(
            status,
            evidence,
            failure,
            disposition,
            fence,
            dropped,
        );
        self.control.publish(&self.sink, &mut self.state, terminal)
    }
}

/// An exit that claims no force is honest: where the reaper joins without
/// having ended the tree, every output came to its end.
pub proof fn law_a_join_without_force_saw_every_output_end(reaping: Reaping)
    requires
        reaping.wf(),
        reaping.next_step() == ReapStep::Join,
        !reaping.forced,
    ensures
        reaping.finished == reaping.expected,
{
}

/// The platform that a process tree runs on.
#[derive(Debug, Clone, Copy, PartialEq, Eq, Structural)]
pub enum Platform {
    /// One with process groups.
    Unix,
    /// One with a tree-killing utility.
    Windows,
    /// Any other.
    Other,
}

/// How completely a process tree can be ended.
#[derive(Debug, Clone, Copy, PartialEq, Eq, Structural)]
pub enum LocalTreeContainment {
    /// The whole tree is signalled as one unit.
    ProcessGroup,
    /// The tree is walked by a utility; what re-parents itself escapes.
    PlatformTreeKill,
    /// Only the child itself can be signalled.
    DirectChildOnly,
}

/// How completely a platform can end a process tree.
pub fn local_tree_containment(platform: Platform) -> (r: LocalTreeContainment)
    ensures
        r == (match platform {
            Platform::Unix => LocalTreeContainment::ProcessGroup,
            Platform::Windows => LocalTreeContainment::PlatformTreeKill,
            Platform::Other => LocalTreeContainment::DirectChildOnly,
        }),
{
    match platform {
        Platform::Unix => LocalTreeContainment::ProcessGroup,
        Platform::Windows => LocalTreeContainment::PlatformTreeKill,
        Platform::Other => LocalTreeContainment::DirectChildOnly,
    }
}

} // verus!
