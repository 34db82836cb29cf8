//! What an execution promises, call by call: over its limits, its queue and its
//! process tree as they stand before and after.

use std::sync::Arc;

use vstd::prelude::*;
use vstd::utf8::encode_utf8;

use crate::envelope::{Denial, DenialKind};
use crate::error::{ToolError, ToolResult};
use crate::execution::contract::{
    check_bytes, check_message, push_bounded_argument, push_bounded_byte, push_bounded_variable,
    ByteField, DroppedEvidence, ExecutionEvent, ExecutionEventKind, ExecutionId, ExecutionRequest,
    ExecutionStdin, ExecutionTerminal, ExitDisposition, FenceEvidence,
};
use crate::execution::control::{
    compose_terminal, keep_draining, signal_target, AbandonPlan, CancelPlan, DrainEvent,
    LocalControl, LocalExecution, LocalExecutionBackend, ReapEvent, ReapStep, Reaping, SignalOrder,
    TreeSignal, TreeState,
};
use crate::execution::limits::{ExecutionLimits, Grace, RawExecutionLimits};
use crate::execution::stream::{
    execution_stream, ExecutionEmit, ExecutionEventSink, ExecutionHandle, NextEvent, OutputStream,
    Phase, StreamState,
};
use crate::net_proxy::evidence::ProxyFinalEvidence;

verus! {

/// Output is dropped only at a configured bound. A chunk within the chunk bound,
/// emitted while a process runs, is delivered exactly where the queue has a slot
/// for it (and one more where a notice of earlier losses is due) and the queued
/// bytes with it stay within their bound. A delivered chunk stands last in the
/// queue, byte for byte, behind what was there; a dropped one is counted on its
/// own stream. An empty chunk changes nothing; any other is refused.
pub proof fn law_output_is_dropped_only_at_a_bound(
    sink: &ExecutionEventSink,
    state: &mut StreamState,
    stream: OutputStream,
    bytes: &[u8],
    r: ToolResult<ExecutionEmit>,
)
    requires
        old(state)@.consistent(),
        call_ensures(ExecutionEventSink::output, (sink, state, stream, bytes), r),
    ensures
        ({
            let s = old(state)@;
            let t = final(state)@;
            let len = bytes@.len() as int;
            let due = s.dropped != s.reported_dropped;
            let need = if due {
                2int
            } else {
                1
            };
            let takes = s.phase == Phase::Started && len <= s.limits.max_output_chunk_bytes;
            let room = s.events.len() + need <= s.limits.max_queued_events && s.queued_output_bytes
                + len <= s.limits.max_queued_output_bytes;
            &&& len == 0 ==> r == Ok::<ExecutionEmit, ToolError>(ExecutionEmit::Delivered) && t == s
            &&& len > 0 && !takes ==> r is Err && t == s
            &&& len > 0 && takes && room ==> {
                let n = t.events.len() as int;
                &&& r == Ok::<ExecutionEmit, ToolError>(ExecutionEmit::Delivered)
                &&& n == s.events.len() + need
                &&& t.events.subrange(0, s.events.len() as int) == s.events
                &&& t.events[n - 1].execution == s.id
                &&& s.next_sequence + need <= u64::MAX ==> t.events[n - 1].sequence
                    == s.next_sequence + need - 1 && t.next_sequence == s.next_sequence + need
                &&& match stream {
                    OutputStream::Stdout => t.events[n - 1].kind matches ExecutionEventKind::Stdout(
                        b,
                    ) && b@ == bytes@,
                    OutputStream::Stderr => t.events[n - 1].kind matches ExecutionEventKind::Stderr(
                        b,
                    ) && b@ == bytes@,
                }
                &&& due ==> t.events[n - 2].kind == ExecutionEventKind::OutputTruncated(s.dropped)
                    && t.events[n - 2].sequence == s.next_sequence && t.events[n - 2].execution
                    == s.id
                &&& t.dropped == s.dropped
                &&& t.reported_dropped == s.dropped
                &&& t.queued_output_bytes == s.queued_output_bytes + len
            }
            &&& len > 0 && takes && !room ==> {
                &&& r == Ok::<ExecutionEmit, ToolError>(ExecutionEmit::Dropped)
                &&& t.queued_output_bytes == s.queued_output_bytes
                &&& t.events.subrange(0, s.events.len() as int) == s.events
                &&& forall|i: int|
                    s.events.len() <= i < t.events.len() ==> (#[trigger] t.events[i]).kind
                        == ExecutionEventKind::OutputTruncated(s.dropped)
                &&& t.events.len() <= s.events.len() + 1
                &&& s.dropped.events < u64::MAX ==> t.dropped.events == s.dropped.events + 1
                &&& stream == OutputStream::Stdout ==> t.dropped.stderr_bytes
                    == s.dropped.stderr_bytes && (s.dropped.stdout_bytes + len <= u64::MAX
                    ==> t.dropped.stdout_bytes == s.dropped.stdout_bytes + len)
                &&& stream == OutputStream::Stderr ==> t.dropped.stdout_bytes
                    == s.dropped.stdout_bytes && (s.dropped.stderr_bytes + len <= u64::MAX
                    ==> t.dropped.stderr_bytes == s.dropped.stderr_bytes + len)
            }
            &&& t.id == s.id && t.limits == s.limits && t.phase == s.phase
            &&& t.terminal == s.terminal && t.final_notice == s.final_notice
            &&& t.consumer_alive == s.consumer_alive
        }),
{
    let s = old(state)@;
    let t = final(state)@;
    assert(s.events.subrange(0, s.events.len() as int) =~= s.events);
    assert(t.events.subrange(0, s.events.len() as int) =~= s.events);
}

/// A stream begins with the acceptance, once; then a start, once; and each stands
/// last in the queue, with its number.
pub proof fn law_a_stream_begins_with_acceptance_and_start(
    sink: &ExecutionEventSink,
    state: &mut StreamState,
    r: ToolResult<ExecutionEmit>,
    begun: &mut StreamState,
    pid: u32,
    fence: Arc<FenceEvidence>,
    q: ToolResult<ExecutionEmit>,
)
    requires
        old(state)@.consistent(),
        call_ensures(ExecutionEventSink::accepted, (sink, state), r),
        old(begun)@.consistent(),
        call_ensures(ExecutionEventSink::started, (sink, begun, pid, fence), q),
    ensures
        r is Ok <==> old(state)@.phase == Phase::Accepted && old(state)@.next_sequence == 0,
        r is Err ==> final(state)@ == old(state)@,
        r is Ok ==> r->Ok_0 == ExecutionEmit::Delivered && final(state)@.events
            == old(state)@.events.push(
            ExecutionEvent {
                execution: old(state)@.id,
                sequence: 0,
                kind: ExecutionEventKind::Accepted,
            },
        ) && final(state)@.next_sequence == 1 && final(state)@.phase == Phase::Accepted,
        q is Ok <==> old(begun)@.phase == Phase::Accepted,
        q is Err ==> final(begun)@ == old(begun)@,
        q is Ok ==> q->Ok_0 == ExecutionEmit::Delivered && final(begun)@.events
            == old(begun)@.events.push(
            ExecutionEvent {
                execution: old(begun)@.id,
                sequence: old(begun)@.next_sequence,
                kind: ExecutionEventKind::Started { pid, fence },
            },
        ) && final(begun)@.phase == Phase::Started && final(begun)@.dropped == old(begun)@.dropped,
{
}

/// A refusal during the execution is queued where there is a slot, and counted
/// as a lost event where there is none; after the end it is refused.
pub proof fn law_a_refusal_is_queued_or_counted(
    sink: &ExecutionEventSink,
    state: &mut StreamState,
    denial: Denial,
    r: ToolResult<ExecutionEmit>,
)
    requires
        old(state)@.consistent(),
        call_ensures(ExecutionEventSink::denial, (sink, state, denial), r),
    ensures
        ({
            let s = old(state)@;
            let t = final(state)@;
            &&& r is Err <==> s.phase == Phase::Terminal
            &&& r is Err ==> t == s
            &&& r == Ok::<ExecutionEmit, ToolError>(ExecutionEmit::Delivered) <==> s.phase
                != Phase::Terminal && s.events.len() < s.limits.max_queued_events
            &&& r == Ok::<ExecutionEmit, ToolError>(ExecutionEmit::Delivered) ==> t.dropped
                == s.dropped && t.events == s.events.push(
                ExecutionEvent {
                    execution: s.id,
                    sequence: s.next_sequence,
                    kind: ExecutionEventKind::Denial(denial),
                },
            )
            &&& r == Ok::<ExecutionEmit, ToolError>(ExecutionEmit::Dropped) ==> t.events == s.events
                && t.dropped.stdout_bytes == s.dropped.stdout_bytes && t.dropped.stderr_bytes
                == s.dropped.stderr_bytes && (s.dropped.events < u64::MAX ==> t.dropped.events
                == s.dropped.events + 1)
            &&& t.phase == s.phase && t.terminal == s.terminal
        }),
{
}

/// The end is published once, and an exit only of a process that started. It
/// carries the record as it is; losses that no notice told yet are told in a
/// slot of their own just before it, and the queue stays as it was.
pub proof fn law_the_end_is_published_once_and_whole(
    sink: &ExecutionEventSink,
    state: &mut StreamState,
    terminal: ExecutionTerminal,
    r: ToolResult<()>,
)
    requires
        old(state)@.consistent(),
        call_ensures(ExecutionEventSink::publish_terminal, (sink, state, terminal), r),
    ensures
        ({
            let s = old(state)@;
            let t = final(state)@;
            &&& r is Ok <==> s.phase != Phase::Terminal && (s.phase == Phase::Started
                || !(terminal is Exited))
            &&& r is Err ==> t == s
            &&& r is Ok ==> {
                &&& t.phase == Phase::Terminal
                &&& t.events == s.events
                &&& t.dropped == s.dropped
                &&& t.terminal is Some
                &&& t.terminal->0.execution == s.id
                &&& match terminal {
                    ExecutionTerminal::Exited(evidence) => t.terminal->0.kind
                        == ExecutionEventKind::Exited(evidence),
                    ExecutionTerminal::Denied { denial } => t.terminal->0.kind
                        == (ExecutionEventKind::Denied { denial }),
                    ExecutionTerminal::Failed { message } => t.terminal->0.kind
                        == (ExecutionEventKind::Failed { message }),
                }
                &&& s.dropped != s.reported_dropped ==> (t.final_notice matches Some(e) && e.kind
                    == ExecutionEventKind::OutputTruncated(s.dropped) && e.sequence
                    == s.next_sequence && e.execution == s.id) && (s.next_sequence < u64::MAX
                    ==> t.terminal->0.sequence == s.next_sequence + 1)
                &&& s.dropped == s.reported_dropped ==> t.final_notice is None
                    && t.terminal->0.sequence == s.next_sequence
            }
        }),
{
}

/// A consumer is given the queue in order, then the notice, then the end, each
/// once, and after the end nothing; while nothing is there it is told to wait.
pub proof fn law_a_consumer_is_given_every_event_in_order(
    handle: &mut ExecutionHandle,
    state: &mut StreamState,
    r: NextEvent,
)
    requires
        old(state)@.consistent(),
        call_ensures(ExecutionHandle::next_event, (handle, state), r),
    ensures
        ({
            let s = old(state)@;
            let t = final(state)@;
            &&& old(handle).observed() ==> r is Ended && t == s && final(handle).observed()
            &&& !old(handle).observed() ==> (if s.events.len() > 0 {
                r == NextEvent::Event(s.events[0]) && t.events == s.events.subrange(
                    1,
                    s.events.len() as int,
                ) && t.final_notice == s.final_notice && t.terminal == s.terminal
                    && !final(handle).observed()
            } else if s.final_notice is Some {
                r == NextEvent::Event(s.final_notice->0) && t.events == s.events && t.final_notice
                    is None && t.terminal == s.terminal && !final(handle).observed()
            } else if s.terminal is Some {
                r == NextEvent::Event(s.terminal->0) && t.events == s.events && t.terminal is None
                    && final(handle).observed()
            } else {
                r is Pending && t == s && !final(handle).observed()
            })
            &&& t.dropped == s.dropped && t.phase == s.phase && t.id == s.id
            &&& s.events.len() > 0 && !old(handle).observed() ==> t.queued_output_bytes
                == s.queued_output_bytes - (match s.events[0].kind {
                ExecutionEventKind::Stdout(b) => b@.len() as int,
                ExecutionEventKind::Stderr(b) => b@.len() as int,
                _ => 0,
            })
        }),
{
    let s = old(state)@;
    let t = final(state)@;
    crate::execution::stream::lemma_take(s);
    if s.events.len() > 0 {
        assert(s.pending()[0] == s.events[0]);
    } else if s.final_notice is Some {
        assert(s.pending()[0] == s.final_notice->0);
        assert(s.events =~= Seq::empty());
    } else if s.terminal is Some {
        assert(s.pending()[0] == s.terminal->0);
    } else {
        assert(s.pending().len() == 0);
    }
}

/// A new stream is empty, of its execution and within its limits; giving a
/// handle up before the end asks for the tree to be ended, afterwards not.
pub proof fn law_a_new_stream_is_empty(
    id: ExecutionId,
    limits: ExecutionLimits,
    r: (StreamState, ExecutionEventSink, ExecutionHandle),
    handle: ExecutionHandle,
    state: &mut StreamState,
    end: bool,
)
    requires
        call_ensures(execution_stream, (id, limits), r),
        old(state)@.consistent(),
        call_ensures(ExecutionHandle::release, (handle, state), end),
    ensures
        r.0@.id == id && r.0@.limits == limits@ && r.0@.events.len() == 0
            && r.0@.queued_output_bytes == 0 && r.0@.next_sequence == 0,
        r.0@.dropped == (DroppedEvidence { stdout_bytes: 0, stderr_bytes: 0, events: 0 }),
        r.0@.reported_dropped == r.0@.dropped,
        r.0@.terminal is None && r.0@.final_notice is None && r.0@.phase == Phase::Accepted
            && r.0@.consumer_alive,
        r.2.spec_id() == id && !r.2.observed(),
        end <==> !handle.observed() && old(state)@.terminal is None,
        !final(state)@.consumer_alive && final(state)@.events == old(state)@.events
            && final(state)@.terminal == old(state)@.terminal,
{
}

/// A request is accepted exactly where it names a program and is within every
/// ceiling: 131072 bytes for the program, an argument, a variable and a value;
/// 4096 arguments and variables; 16777216 bytes of input.
pub proof fn law_a_request_is_accepted_within_its_ceilings(
    request: &ExecutionRequest,
    r: ToolResult<()>,
)
    requires
        call_ensures(ExecutionRequest::validate, (request,), r),
    ensures
        r is Ok <==> {
            &&& 0 < request.executable@.len()
            &&& encode_utf8(request.executable@).len() <= 131072
            &&& request.argv@.len() <= 4096
            &&& forall|i: int|
                0 <= i < request.argv@.len() ==> encode_utf8(
                    (#[trigger] request.argv@[i])@,
                ).len() <= 131072
            &&& request.env@.len() <= 4096
            &&& forall|i: int|
                0 <= i < request.env@.len() ==> encode_utf8((#[trigger] request.env@[i]).0@).len()
                    <= 131072 && encode_utf8(request.env@[i].1@).len() <= 131072
            &&& request.stdin matches ExecutionStdin::Bytes(b) ==> b@.len() <= 16777216
        },
        r is Err ==> r->Err_0 is Denied,
{
    let long = |t: Seq<char>| crate::execution::contract::too_long(t);
    if r is Ok {
        assert forall|i: int| 0 <= i < request.argv@.len() implies encode_utf8(
            (#[trigger] request.argv@[i])@,
        ).len() <= 131072 by {
            assert(!long(request.argv@[i]@));
        }
        assert forall|i: int| 0 <= i < request.env@.len() implies encode_utf8(
            (#[trigger] request.env@[i]).0@,
        ).len() <= 131072 && encode_utf8(request.env@[i].1@).len() <= 131072 by {
            assert(!long(request.env@[i].0@) && !long(request.env@[i].1@));
        }
    }
}

/// A list that is read in takes an entry exactly where it is not full and the
/// entry is not too long, and then grows by it; otherwise it stays.
pub proof fn law_a_list_takes_what_fits(
    argv: &mut Vec<String>,
    item: String,
    r: Result<(), String>,
    env: &mut Vec<(String, String)>,
    key: String,
    value: String,
    q: Result<(), String>,
    bytes: &mut Vec<u8>,
    byte: u8,
    b: Result<(), String>,
    len: usize,
    chunk: Result<(), String>,
    stdin: Result<(), String>,
    message: &str,
    m: Result<(), String>,
)
    requires
        call_ensures(push_bounded_argument, (argv, item), r),
        call_ensures(push_bounded_variable, (env, key, value), q),
        call_ensures(push_bounded_byte, (bytes, byte), b),
        call_ensures(check_bytes, (ByteField::OutputChunk, len), chunk),
        call_ensures(check_bytes, (ByteField::Stdin, len), stdin),
        call_ensures(check_message, (message,), m),
    ensures
        r is Ok <==> old(argv)@.len() < 4096 && encode_utf8(item@).len() <= 131072,
        final(argv)@ == (if r is Ok {
            old(argv)@.push(item)
        } else {
            old(argv)@
        }),
        q is Ok <==> old(env)@.len() < 4096 && encode_utf8(key@).len() <= 131072 && encode_utf8(
            value@,
        ).len() <= 131072,
        final(env)@ == (if q is Ok {
            old(env)@.push((key, value))
        } else {
            old(env)@
        }),
        b is Ok <==> old(bytes)@.len() < 16777216,
        final(bytes)@ == (if b is Ok {
            old(bytes)@.push(byte)
        } else {
            old(bytes)@
        }),
        chunk is Ok <==> len <= 1048576,
        stdin is Ok <==> len <= 16777216,
        m is Ok <==> encode_utf8(message@).len() <= 131072,
{
}

/// Limits are admitted exactly where each bound is positive and within its
/// ceiling, each grace is positive and at most ten minutes, and the largest
/// queue can be counted; and they are what was asked for.
pub proof fn law_limits_are_admitted_within_their_ceilings(
    events: usize,
    bytes: usize,
    chunk: usize,
    cancel: Grace,
    reap: Grace,
    r: ToolResult<ExecutionLimits>,
)
    requires
        call_ensures(ExecutionLimits::new, (events, bytes, chunk, cancel, reap), r),
    ensures
        r is Ok <==> {
            let c = cancel.secs * 1_000_000_000 + cancel.nanos;
            let p = reap.secs * 1_000_000_000 + reap.nanos;
            &&& 0 < events <= 65536
            &&& 0 < bytes <= 67108864
            &&& 0 < chunk <= 1048576
            &&& 0 < c <= 600_000_000_000
            &&& 0 < p <= 600_000_000_000
            &&& events * chunk <= usize::MAX
        },
        r matches Ok(l) ==> l@.max_queued_events == events && l@.max_queued_output_bytes == bytes
            && l@.max_output_chunk_bytes == chunk && l@.cancel_grace == cancel && l@.reap_grace
            == reap,
        r is Err ==> r->Err_0 is Denied,
{
}

/// A tree whose leader was reaped is never signalled again by the controls, and
/// while it is alive the signals go to it: a kill by force, a cancellation
/// gracefully, with one escalation for all cancellations.
pub proof fn law_only_a_living_tree_is_signalled(
    asked: &mut TreeState,
    plan: CancelPlan,
    again: &mut TreeState,
    second: CancelPlan,
    killed: &mut TreeState,
    k: Option<SignalOrder>,
    late: &TreeState,
    e: Option<SignalOrder>,
    left: &TreeState,
    f: Option<SignalOrder>,
)
    requires
        call_ensures(TreeState::cancel, (asked,), plan),
        *old(again) == *final(asked),
        call_ensures(TreeState::cancel, (again,), second),
        call_ensures(TreeState::kill, (killed,), k),
        call_ensures(TreeState::escalate, (late,), e),
        call_ensures(TreeState::force_tree, (left,), f),
    ensures
        !old(asked).leader_alive ==> plan.signal is None && !plan.escalate && *final(asked)
            == *old(asked),
        old(asked).leader_alive ==> {
            &&& plan.signal is Some <==> old(asked).pid is Some
            &&& plan.signal matches Some(s) ==> s.pid == old(asked).pid->0 && s.signal
                == TreeSignal::Graceful
            &&& plan.escalate <==> !old(asked).escalating
            &&& final(asked).escalating && final(asked).leader_alive && final(asked).pid
                == old(asked).pid
            &&& final(asked).requested == (if old(asked).requested is Some {
                old(asked).requested
            } else {
                Some(ExitDisposition::Cancelled)
            })
        },
        !second.escalate,
        *final(again) == *final(asked),
        !old(killed).leader_alive ==> k is None && *final(killed) == *old(killed),
        old(killed).leader_alive ==> {
            &&& k is Some <==> old(killed).pid is Some
            &&& k matches Some(s) ==> s.pid == old(killed).pid->0 && s.signal == TreeSignal::Forced
            &&& final(killed).requested == Some(ExitDisposition::Killed)
            &&& final(killed).leader_alive && final(killed).pid == old(killed).pid
                && final(killed).escalating == old(killed).escalating
        },
        e is Some <==> late.leader_alive && late.pid is Some,
        e matches Some(s) ==> s.pid == late.pid->0 && s.signal == TreeSignal::Forced,
        f is Some <==> left.pid is Some,
        f matches Some(s) ==> s.pid == left.pid->0 && s.signal == TreeSignal::Forced,
{
}

/// A record says how the tree ended: as it was last asked to by force, or first
/// asked to gracefully; else with its descendants reaped, or on its own.
pub proof fn law_a_disposition_is_what_was_asked(
    tree: &TreeState,
    reaped: bool,
    r: ExitDisposition,
    pid: u32,
    armed: &mut TreeState,
    gone: &mut TreeState,
    target: Option<i32>,
)
    requires
        call_ensures(TreeState::disposition, (tree, reaped), r),
        call_ensures(TreeState::arm, (armed, pid), ()),
        call_ensures(TreeState::leader_reaped, (gone,), ()),
        call_ensures(signal_target, (pid,), target),
    ensures
        tree.requested is Some ==> r == tree.requested->0,
        tree.requested is None && reaped ==> r == ExitDisposition::DescendantsReaped,
        tree.requested is None && !reaped ==> r == ExitDisposition::Natural,
        final(armed).pid == Some(pid) && final(armed).leader_alive && final(armed).requested
            == old(armed).requested && final(armed).escalating == old(armed).escalating,
        !final(gone).leader_alive && final(gone).pid == old(gone).pid && final(gone).requested
            == old(gone).requested && final(gone).escalating == old(gone).escalating,
        target is Some <==> 0 < pid <= 0x7fff_ffff,
        target matches Some(group) ==> group == pid,
{
}

/// The reaper ends the tree by force at the first sign that an output is held
/// open, and never before; it joins exactly where every output ended, or where
/// nothing more can come after the tree was ended.
pub proof fn law_the_reaper_forces_once_and_joins_at_the_end(
    reaping: &mut Reaping,
    event: ReapEvent,
    r: ReapStep,
    now: &Reaping,
    step: ReapStep,
    expected: usize,
    fresh: Reaping,
)
    requires
        old(reaping).finished <= old(reaping).expected,
        old(reaping).closed ==> old(reaping).forced,
        call_ensures(Reaping::on_event, (reaping, event), r),
        call_ensures(Reaping::step, (now,), step),
        call_ensures(Reaping::new, (expected,), fresh),
    ensures
        fresh.expected == expected && fresh.finished == 0 && !fresh.forced && !fresh.closed,
        step == ReapStep::Join <==> now.finished >= now.expected || now.closed,
        step == ReapStep::Wait <==> step != ReapStep::Join && now.forced,
        step == ReapStep::WaitBriefly <==> step != ReapStep::Join && !now.forced,
        ({
            let over = old(reaping).finished == old(reaping).expected || old(reaping).closed;
            &&& over ==> r == ReapStep::Join && *final(reaping) == *old(reaping)
            &&& !over && event == ReapEvent::DrainerDone ==> final(reaping).finished
                == old(reaping).finished + 1 && final(reaping).forced == old(reaping).forced
                && !final(reaping).closed
            &&& !over && event != ReapEvent::DrainerDone ==> final(reaping).forced
                && final(reaping).finished == old(reaping).finished
            &&& r == ReapStep::ForceTree <==> !over && !old(reaping).forced && event
                != ReapEvent::DrainerDone
            &&& r == ReapStep::Join <==> final(reaping).finished == final(reaping).expected
                || final(reaping).closed
            &&& final(reaping).closed <==> old(reaping).closed || (!over && old(reaping).forced
                && event == ReapEvent::Disconnected)
            &&& final(reaping).expected == old(reaping).expected
        }),
{
}

/// A pipe is drained until it ends or fails, whatever becomes of the bytes.
pub proof fn law_a_pipe_is_drained_to_its_end(event: DrainEvent, r: bool)
    requires
        call_ensures(keep_draining, (event,), r),
    ensures
        !r <==> event is End || event is Failed,
{
}

/// The final record is honest: a proxy that has no complete account or a tree
/// that could not be reaped is a failure; anything else an exit with exactly
/// what was seen.
pub proof fn law_a_final_record_is_honest(
    status: Result<(Option<i32>, Option<i32>), String>,
    proxy_evidence: Option<ProxyFinalEvidence>,
    proxy_failure: Option<String>,
    disposition: ExitDisposition,
    fence: Arc<FenceEvidence>,
    dropped: DroppedEvidence,
    r: ExecutionTerminal,
)
    requires
        call_ensures(
            compose_terminal,
            (status, proxy_evidence, proxy_failure, disposition, fence, dropped),
            r,
        ),
    ensures
        r is Exited <==> proxy_failure is None && status is Ok,
        r is Failed <==> proxy_failure is Some || status is Err,
        r matches ExecutionTerminal::Exited(e) ==> e.code == status->Ok_0.0 && e.signal
            == status->Ok_0.1 && e.disposition == disposition && e.fence == fence && e.dropped
            == dropped && e.proxy == proxy_evidence,
{
}

/// The first final record stands: publishing again changes neither the record
/// nor the stream; and giving up twice ends the tree once.
pub proof fn law_the_first_record_stands(
    control: &mut LocalControl,
    sink: &ExecutionEventSink,
    state: &mut StreamState,
    terminal: ExecutionTerminal,
    r: ToolResult<()>,
    given_up: &mut LocalControl,
    plan: AbandonPlan,
    waited: &LocalControl,
    w: Option<ExecutionTerminal>,
)
    requires
        old(state)@.consistent(),
        call_ensures(LocalControl::publish, (control, sink, state, terminal), r),
        call_ensures(LocalControl::abandon, (given_up,), plan),
        call_ensures(LocalControl::wait, (waited,), w),
    ensures
        old(control).terminal() is Some ==> final(control).terminal() == old(control).terminal()
            && final(state)@ == old(state)@ && r is Ok,
        old(control).terminal() is None ==> final(control).terminal() == Some(terminal),
        w == waited.terminal(),
        final(given_up).abandoned() && final(given_up).terminal() == old(given_up).terminal(),
        plan.join <==> !old(given_up).abandoned(),
        plan.signal is Some <==> !old(given_up).abandoned() && old(given_up).tree().leader_alive
            && old(given_up).tree().pid is Some,
        plan.signal matches Some(s) ==> s.pid == old(given_up).tree().pid->0 && s.signal
            == TreeSignal::Forced,
        plan.signal is Some ==> final(given_up).tree().requested == Some(ExitDisposition::Killed),
{
}

/// An execution starts with a fresh number, a stream that holds the acceptance
/// alone, and no process; a refused request takes no number.
pub proof fn law_an_execution_starts_without_a_process(
    backend: &LocalExecutionBackend,
    ids: &mut u64,
    request: &ExecutionRequest,
    r: ToolResult<(LocalExecution, ExecutionHandle)>,
    v: ToolResult<()>,
)
    requires
        call_ensures(LocalExecutionBackend::start, (backend, ids, request), r),
        call_ensures(ExecutionRequest::validate, (request,), v),
    ensures
        r is Ok <==> v is Ok,
        r is Err ==> *final(ids) == *old(ids),
        r is Ok && *old(ids) < u64::MAX ==> *final(ids) == *old(ids) + 1,
        r matches Ok((run, handle)) ==> {
            &&& run.state@.id.0 == *old(ids) && handle.spec_id().0 == *old(ids)
            &&& run.state@.events.len() == 1 && run.state@.events[0].kind
                == ExecutionEventKind::Accepted && run.state@.events[0].sequence == 0
                && run.state@.events[0].execution.0 == *old(ids)
            &&& run.state@.limits == request.limits@
            &&& run.control.terminal() is None && run.control.tree().pid is None
                && !run.control.tree().leader_alive && !run.control.abandoned()
            &&& !handle.observed()
        },
{
}

/// A process that was created is announced with its number and fence, and can be
/// signalled; one that was refused never is: the record says why, a refusal of
/// the leash as a denial of that program.
pub proof fn law_a_process_is_announced_or_its_refusal_recorded(
    run: &mut LocalExecution,
    pid: u32,
    fence: Arc<FenceEvidence>,
    r: ToolResult<()>,
    refused: &mut LocalExecution,
    executable: &str,
    error: ToolError,
    q: ToolResult<()>,
)
    requires
        old(run).state@.consistent(),
        call_ensures(LocalExecution::attach, (run, pid, fence), r),
        old(refused).state@.consistent(),
        old(refused).control.terminal() is None,
        call_ensures(LocalExecution::spawn_refused, (refused, executable, error), q),
    ensures
        final(run).control.tree().pid == Some(pid) && final(run).control.tree().leader_alive,
        final(run).control.terminal() == old(run).control.terminal(),
        r is Ok <==> old(run).state@.phase == Phase::Accepted,
        r is Ok ==> final(run).state@.phase == Phase::Started && final(run).state@.events
            == old(run).state@.events.push(
            ExecutionEvent {
                execution: old(run).state@.id,
                sequence: old(run).state@.next_sequence,
                kind: ExecutionEventKind::Started { pid, fence },
            },
        ),
        r is Err ==> final(run).state@ == old(run).state@,
        final(refused).state@.events == old(refused).state@.events,
        final(refused).control.tree() == old(refused).control.tree(),
        error matches ToolError::Denied { reason } ==> (final(refused).control.terminal()
            matches Some(ExecutionTerminal::Denied { denial }) && denial.kind == DenialKind::Exec
            && denial.target@ == executable@ && denial.reason == reason),
        !(error is Denied) ==> (final(refused).control.terminal() matches Some(
            ExecutionTerminal::Failed { .. },
        )),
        old(refused).state@.phase != Phase::Terminal ==> q is Ok && final(refused).state@.phase
            == Phase::Terminal,
{
}

/// Once everything is joined, the final record is an exit with the status, the
/// account of the proxy, what was dropped and how the tree ended, unless the
/// proxy or the reaping failed; then it is that failure. Whoever waits gets it.
pub proof fn law_a_joined_execution_is_reported_whole(
    execution: &mut LocalExecution,
    status: Result<(Option<i32>, Option<i32>), String>,
    proxy: Option<Result<ProxyFinalEvidence, String>>,
    reaping: &Reaping,
    fence: Arc<FenceEvidence>,
    r: ToolResult<()>,
)
    requires
        old(execution).state@.consistent(),
        old(execution).control.terminal() is None,
        call_ensures(LocalExecution::finish, (execution, status, proxy, reaping, fence), r),
    ensures
        final(execution).control.terminal() is Some,
        ({
            let terminal = final(execution).control.terminal()->0;
            let failed = status is Err || (proxy is Some && proxy->0 is Err);
            &&& terminal is Exited <==> !failed
            &&& terminal is Failed <==> failed
            &&& terminal matches ExecutionTerminal::Exited(e) ==> {
                &&& e.code == (status->Ok_0).0 && e.signal == (status->Ok_0).1
                &&& e.fence == fence
                &&& e.dropped == old(execution).state@.dropped
                &&& e.proxy is Some <==> proxy is Some
                &&& proxy is Some ==> e.proxy == Some(proxy->0->Ok_0)
                &&& old(execution).control.tree().requested is Some ==> e.disposition
                    == old(execution).control.tree().requested->0
                &&& old(execution).control.tree().requested is None ==> (e.disposition
                    == ExitDisposition::DescendantsReaped <==> reaping.forced) && (e.disposition
                    == ExitDisposition::Natural <==> !reaping.forced)
            }
        }),
{
}

/// An owner that leaves without a result leaves a failure behind; a result that
/// stands is not touched.
pub proof fn law_whoever_waits_is_answered(
    control: &mut LocalControl,
    sink: &ExecutionEventSink,
    state: &mut StreamState,
    r: ToolResult<()>,
)
    requires
        old(state)@.consistent(),
        call_ensures(LocalControl::publish_fallback, (control, sink, state), r),
    ensures
        final(control).terminal() is Some,
        old(control).terminal() is Some ==> final(control).terminal() == old(control).terminal()
            && final(state)@ == old(state)@,
        old(control).terminal() is None ==> final(control).terminal()->0 is Failed,
{
}

/// Exchanged limits are read exactly where the parts of a millisecond are less
/// than one and the limits that they say would be admitted; the limits read are
/// those said. What is written of limits is read as the same limits.
pub proof fn law_exchanged_limits_are_read_as_written(
    raw: RawExecutionLimits,
    r: Result<ExecutionLimits, String>,
    limits: &ExecutionLimits,
    written: RawExecutionLimits,
    back: Result<ExecutionLimits, String>,
)
    requires
        call_ensures(ExecutionLimits::from_raw, (raw,), r),
        call_ensures(ExecutionLimits::to_raw, (limits,), written),
        call_ensures(ExecutionLimits::from_raw, (written,), back),
    ensures
        r is Ok <==> {
            let c = raw.cancel_grace_ms * 1_000_000 + raw.cancel_grace_rest_nanos;
            let p = raw.reap_grace_ms * 1_000_000 + raw.reap_grace_rest_nanos;
            &&& raw.cancel_grace_rest_nanos < 1_000_000 && raw.reap_grace_rest_nanos < 1_000_000
            &&& 0 < raw.max_queued_events <= 65536
            &&& 0 < raw.max_queued_output_bytes <= 67108864
            &&& 0 < raw.max_output_chunk_bytes <= 1048576
            &&& 0 < c <= 600_000_000_000
            &&& 0 < p <= 600_000_000_000
            &&& raw.max_queued_events * raw.max_output_chunk_bytes <= usize::MAX
        },
        r matches Ok(l) ==> {
            &&& l@.max_queued_events == raw.max_queued_events
            &&& l@.max_queued_output_bytes == raw.max_queued_output_bytes
            &&& l@.max_output_chunk_bytes == raw.max_output_chunk_bytes
            &&& l@.cancel_grace.secs * 1_000_000_000 + l@.cancel_grace.nanos
                == raw.cancel_grace_ms * 1_000_000 + raw.cancel_grace_rest_nanos
            &&& l@.reap_grace.secs * 1_000_000_000 + l@.reap_grace.nanos == raw.reap_grace_ms
                * 1_000_000 + raw.reap_grace_rest_nanos
        },
        back is Ok,
        back matches Ok(l) ==> {
            &&& l@.max_queued_events == limits@.max_queued_events
            &&& l@.max_queued_output_bytes == limits@.max_queued_output_bytes
            &&& l@.max_output_chunk_bytes == limits@.max_output_chunk_bytes
            &&& l@.cancel_grace.secs * 1_000_000_000 + l@.cancel_grace.nanos
                == limits@.cancel_grace.secs * 1_000_000_000 + limits@.cancel_grace.nanos
            &&& l@.reap_grace.secs * 1_000_000_000 + l@.reap_grace.nanos
                == limits@.reap_grace.secs * 1_000_000_000 + limits@.reap_grace.nanos
        },
{
}

} // verus!
